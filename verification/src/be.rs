//! Big-endian integer fields, as they appear on the wire in BinHex
//! headers, resource maps, and sound resources.

use vstd::prelude::*;

verus! {

/// The value of a big-endian 16-bit field with the given bytes.
pub open spec fn spec_u16_be(hi: u8, lo: u8) -> u16 {
    (hi * 256 + lo) as u16
}

/// The value of a big-endian 32-bit field with the given bytes.
pub open spec fn spec_u32_be(b0: u8, b1: u8, b2: u8, b3: u8) -> u32 {
    (b0 * 0x1000000 + b1 * 0x10000 + b2 * 0x100 + b3) as u32
}

/// The big-endian 16-bit field at position `i` of a byte sequence.
pub open spec fn spec_u16_of(s: Seq<u8>, i: int) -> u16 {
    spec_u16_be(s[i], s[i + 1])
}

/// The big-endian 32-bit field at position `i` of a byte sequence.
pub open spec fn spec_u32_of(s: Seq<u8>, i: int) -> u32 {
    spec_u32_be(s[i], s[i + 1], s[i + 2], s[i + 3])
}

/// Reads a big-endian 16-bit field.
pub fn u16_be(hi: u8, lo: u8) -> (r: u16)
    ensures
        r == spec_u16_be(hi, lo),
{
    (hi as u16) * 256 + (lo as u16)
}

/// Reads a big-endian 32-bit field.
pub fn u32_be(b0: u8, b1: u8, b2: u8, b3: u8) -> (r: u32)
    ensures
        r == spec_u32_be(b0, b1, b2, b3),
{
    (b0 as u32) * 0x1000000 + (b1 as u32) * 0x10000 + (b2 as u32) * 0x100 + (b3 as u32)
}

} // verus!
