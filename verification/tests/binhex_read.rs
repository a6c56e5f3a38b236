//! Tests for the encoded-payload reader: banner scanning, delimiter
//! handling, and whitespace stripping.

use clarus::binhex::read::read_payload;
use clarus::binhex::read::EncodedBinHexReader;
use clarus::binhex::BinHexError;

const BINHEX_DATA: &[u8] = b"\
(This file must be converted with BinHex 4.0)\n\
:$f*TEQKPH#edCA0d,R4iG!#3$L8!N!-TR@dpN!8J5'9XE'mJCR*[E5\"dD'8JC'&\n\
dB5\"QEh*V)5!pN!9Bm5f3\"5\")C@aXEb\"QFQpY)(4SC5\"bCA0[GA*MC5\"QEh*V)5!\n\
YN!8SI!:";

const EXPECTED_PAYLOAD: &[u8] = b"$f*TEQKPH#edCA0d,R4iG!#3$L8!N!-TR@dpN!8J5'9XE'mJCR*[E5\"dD'8JC'&dB5\"QEh*V)5!pN!9Bm5f3\"5\")C@aXEb\"QFQpY)(4SC5\"bCA0[GA*MC5\"QEh*V)5!YN!8SI!";

#[test]
fn read_read() {
    let payload = read_payload(BINHEX_DATA).unwrap();

    assert_eq!(payload.len(), 134);
    assert_eq!(payload.as_slice(), EXPECTED_PAYLOAD);
}

#[test]
fn read_large_buffer() {
    let mut reader = EncodedBinHexReader::new();
    let mut payload = Vec::new();

    reader.push(BINHEX_DATA, &mut payload);
    reader.finish().unwrap();

    assert_eq!(payload.len(), 134);
    assert_eq!(payload.as_slice(), EXPECTED_PAYLOAD);
}

#[test]
fn read_tiny_buffer() {
    let mut reader = EncodedBinHexReader::new();
    let mut payload = Vec::new();

    for i in 0..BINHEX_DATA.len() {
        reader.push(&BINHEX_DATA[i..i + 1], &mut payload);
    }
    reader.finish().unwrap();

    assert_eq!(payload.len(), 134);
    assert_eq!(payload.as_slice(), EXPECTED_PAYLOAD);
}

#[test]
fn read_read_no_banner() {
    let source = b"\
:$f*TEQKPH#edCA0d,R4iG!#3$L8!N!-TR@dpN!8J5'9XE'mJCR*[E5\"dD'8JC'&\n\
dB5\"QEh*V)5!pN!9Bm5f3\"5\")C@aXEb\"QFQpY)(4SC5\"bCA0[GA*MC5\"QEh*V)5!\n\
YN!8SI!:";

    assert_eq!(read_payload(source), Err(BinHexError::UnexpectedEof));
}

#[test]
fn read_read_no_data_end() {
    let source = b"\
(This file must be converted with BinHex 4.0)\n\
:$f*TEQKPH#edCA0d,R4iG!#3$L8!N!-TR@dpN!8J5'9XE'mJCR*[E5\"dD'8JC'&\n\
dB5\"QEh*V)5!pN!9Bm5f3\"5\")C@aXEb\"QFQpY)(4SC5\"bCA0[GA*MC5\"QEh*V)5!\n\
YN!8SI!";

    assert_eq!(read_payload(source), Err(BinHexError::UnexpectedEof));
}

#[test]
fn read_junk_before_banner() {
    let source = b"\
(((((((((This file must be converted with BinHex 4.0)\n\
:$f*TEQKPH#edCA0d,R4iG!#3$L8!N!-TR@dpN!8J5'9XE'mJCR*[E5\"dD'8JC'&\n\
dB5\"QEh*V)5!pN!9Bm5f3\"5\")C@aXEb\"QFQpY)(4SC5\"bCA0[GA*MC5\"QEh*V)5!\n\
YN!8SI!:";

    let payload = read_payload(source).unwrap();

    assert_eq!(payload.len(), 134);
    assert_eq!(payload.as_slice(), EXPECTED_PAYLOAD);
}

#[test]
fn chunked_and_whole_reads_agree() {
    // The reader must produce byte-identical payloads whether the
    // container arrives one byte at a time or as a whole buffer.
    let whole = read_payload(BINHEX_DATA).unwrap();

    for chunk_size in [1, 2, 3, 7, 64] {
        let mut reader = EncodedBinHexReader::new();
        let mut payload = Vec::new();
        for chunk in BINHEX_DATA.chunks(chunk_size) {
            reader.push(chunk, &mut payload);
        }
        reader.finish().unwrap();
        assert_eq!(whole, payload);
    }
}

#[test]
fn read_no_opening_delimiter() {
    let source = b"(This file must be converted with BinHex 4.0) and nothing else";

    assert_eq!(read_payload(source), Err(BinHexError::UnexpectedEof));
}

#[test]
fn next_whitespace() {
    assert_eq!(None, clarus::binhex::read::next_whitespace(b""));
    assert_eq!(None, clarus::binhex::read::next_whitespace(b"No_whitespace_here"));
    assert_eq!(Some(1), clarus::binhex::read::next_whitespace(b"A string with spaces"));
    assert_eq!(Some(4), clarus::binhex::read::next_whitespace(b"Some\ttabs"));
    assert_eq!(Some(4), clarus::binhex::read::next_whitespace(b"Some\rcarriage\rreturns"));
    assert_eq!(Some(8), clarus::binhex::read::next_whitespace(b"Newlines\neverywhere!"));
    assert_eq!(
        Some(5),
        clarus::binhex::read::next_whitespace(b"Check out\tthis\rmix\nof whitespace")
    );
}

#[test]
fn next_data_byte() {
    assert_eq!(None, clarus::binhex::read::next_data_byte(b""));
    assert_eq!(None, clarus::binhex::read::next_data_byte(b" \r\n\t"));
    assert_eq!(
        Some(4),
        clarus::binhex::read::next_data_byte(b"    This isn't all whitespace\r\n\t")
    );
}

#[test]
fn compact() {
    let mut bytes = b"compaction!".to_vec();
    assert_eq!(11, clarus::binhex::read::compact(&mut bytes));
    assert_eq!(b"compaction!"[..], bytes[..11]);

    bytes = b"    compaction!".to_vec();
    assert_eq!(11, clarus::binhex::read::compact(&mut bytes));
    assert_eq!(b"compaction!"[..], bytes[..11]);

    bytes = b"compaction!    ".to_vec();
    assert_eq!(11, clarus::binhex::read::compact(&mut bytes));
    assert_eq!(b"compaction!"[..], bytes[..11]);

    bytes = b"    compaction!    ".to_vec();
    assert_eq!(11, clarus::binhex::read::compact(&mut bytes));
    assert_eq!(b"compaction!"[..], bytes[..11]);

    bytes = b"c  omp a       ction !".to_vec();
    assert_eq!(11, clarus::binhex::read::compact(&mut bytes));
    assert_eq!(b"compaction!"[..], bytes[..11]);

    bytes = b"  c  omp a       ction !".to_vec();
    assert_eq!(11, clarus::binhex::read::compact(&mut bytes));
    assert_eq!(b"compaction!"[..], bytes[..11]);

    bytes = b"c  omp a       ction !          ".to_vec();
    assert_eq!(11, clarus::binhex::read::compact(&mut bytes));
    assert_eq!(b"compaction!"[..], bytes[..11]);
}
