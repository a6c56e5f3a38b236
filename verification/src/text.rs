//! Macintosh-Roman text transcoding, treated as a pure byte/string codec.

use vstd::prelude::*;

verus! {

/// The text that `encoding_rs::MACINTOSH.decode` produces for a byte
/// sequence. Decoding never fails (unmappable sequences are replaced), so the
/// result is a pure function of the bytes alone.
pub uninterp spec fn mac_roman_decoding(bytes: Seq<u8>) -> Seq<char>;

/// The bytes that `encoding_rs::MACINTOSH.encode` produces for a string when
/// every character is representable; `None` when the encoder reports that
/// some character was not. Either way the outcome is a pure function of the
/// characters alone.
pub uninterp spec fn mac_roman_encoding(text: Seq<char>) -> Option<Seq<u8>>;

/// Relies on `encoding_rs::MACINTOSH.decode`: decodes Macintosh-Roman bytes
/// to text, replacing malformed sequences; the result depends on the bytes
/// alone. The input is bounded because the decoder aborts when the size of
/// its output buffer overflows `usize`; every caller decodes short fields.
#[verifier::external_body]
pub(crate) fn decode_mac_roman(bytes: &[u8]) -> (r: String)
    requires
        bytes@.len() < 0x10000000,
    ensures
        r@ == mac_roman_decoding(bytes@),
{
    let (cow, _, _) = encoding_rs::MACINTOSH.decode(bytes);
    cow.to_string()
}

/// Relies on `encoding_rs::MACINTOSH.encode`: encodes text as
/// Macintosh-Roman bytes, reporting `None` exactly when the encoder signals
/// that a character could not be represented; the outcome depends on the
/// characters alone. The encoder aborts when the size of its output buffer
/// overflows `usize`, which no string short enough to exist can cause.
#[verifier::external_body]
pub(crate) fn encode_mac_roman(text: &str) -> (r: Option<Vec<u8>>)
    ensures
        r is Some <==> mac_roman_encoding(text@) is Some,
        r is Some ==> r.unwrap()@ == mac_roman_encoding(text@).unwrap(),
{
    let (cow, _, had_errors) = encoding_rs::MACINTOSH.encode(text);
    if had_errors {
        None
    } else {
        Some(cow.into_owned())
    }
}

} // verus!
