//! The CRC16/XMODEM checksum that guards each section of a BinHex archive.

use vstd::prelude::*;

verus! {

/// The CRC16/XMODEM value of a byte sequence (polynomial `0x1021`, initial
/// value `0x0000`, no reflection, no final XOR), as computed by the `crc16`
/// crate. The checksum is a pure function of the bytes alone; this crate
/// states nothing further about its values.
pub uninterp spec fn crc16_of(bytes: Seq<u8>) -> u16;

/// Relies on `crc16::State::<XMODEM>::calculate`: the CRC16/XMODEM checksum
/// of the given bytes, a function of the bytes alone.
#[verifier::external_body]
pub(crate) fn crc16_xmodem(bytes: &[u8]) -> (r: u16)
    ensures
        r == crc16_of(bytes@),
{
    crc16::State::<crc16::XMODEM>::calculate(bytes)
}

} // verus!
