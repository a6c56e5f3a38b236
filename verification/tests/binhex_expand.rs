//! Tests for run-length expansion of the decoded BinHex stream.

use clarus::binhex::expand::expand_all;
use clarus::binhex::expand::BinHexExpander;
use clarus::binhex::BinHexError;

#[test]
fn expand_no_escapes() {
    let expanded = expand_all(&[0x00, 0x01, 0x02, 0x03, 0x04, 0x05, 0x06, 0x07, 0x08, 0x09])
        .unwrap();

    assert_eq!(expanded, [0, 1, 2, 3, 4, 5, 6, 7, 8, 9]);
}

#[test]
fn expand_cancelled_escape_at_end() {
    let expanded = expand_all(&[0x2b, 0x90, 0x00]).unwrap();

    assert_eq!(expanded, [0x2b, 0x90]);
}

#[test]
fn expand_cancelled_escape_in_stream() {
    let expanded = expand_all(&[0x2b, 0x90, 0x00, 0x14]).unwrap();

    assert_eq!(expanded, [0x2b, 0x90, 0x14]);
}

#[test]
fn expand_rle_at_end() {
    let expanded = expand_all(&[0xff, 0x90, 0x04]).unwrap();

    assert_eq!(expanded, [0xff, 0xff, 0xff, 0xff]);
}

#[test]
fn expand_rle_multiple_reads() {
    // Feed the stream one byte at a time, so that the escape byte and its
    // run length straddle chunk boundaries.
    let source = [0xff, 0x90, 0x04];
    let mut expander = BinHexExpander::new();
    let mut expanded = Vec::new();

    for i in 0..source.len() {
        expander.push(&source[i..i + 1], &mut expanded).unwrap();
    }
    expander.finish().unwrap();

    assert_eq!(expanded, [0xff, 0xff, 0xff, 0xff]);
}

#[test]
fn expand_rle_in_stream() {
    let expanded = expand_all(&[0xff, 0x90, 0x04, 0x2b]).unwrap();

    assert_eq!(expanded, [0xff, 0xff, 0xff, 0xff, 0x2b]);
}

#[test]
fn expand_cancelled_escape_rle() {
    let expanded = expand_all(&[0x2b, 0x90, 0x00, 0x90, 0x05]).unwrap();

    assert_eq!(expanded, [0x2b, 0x90, 0x90, 0x90, 0x90, 0x90]);
}

#[test]
fn expand_repeat_run() {
    // `B 0x90 N` stands for N copies of B in all.
    let expanded = expand_all(&[0x41, 0x90, 0x05]).unwrap();

    assert_eq!(expanded, b"AAAAA");
}

#[test]
fn expand_literal_escape() {
    // `0x90 0x00` is a literal 0x90, not a repetition.
    let expanded = expand_all(&[0x41, 0x90, 0x00, 0x42]).unwrap();

    assert_eq!(expanded, b"A\x90B");
}

#[test]
fn expand_trailing_escape_is_malformed() {
    assert_eq!(expand_all(&[0x41, 0x90]), Err(BinHexError::InvalidData));
}

#[test]
fn expand_leading_run_length_is_malformed() {
    // A run length with no byte before it has nothing to repeat.
    assert_eq!(expand_all(&[0x90, 0x05]), Err(BinHexError::InvalidData));
}

#[test]
fn expand_run_of_one_adds_nothing() {
    // A run length of one means the byte stands exactly once in all.
    let expanded = expand_all(&[0x41, 0x90, 0x01, 0x42]).unwrap();

    assert_eq!(expanded, b"AB");
}
