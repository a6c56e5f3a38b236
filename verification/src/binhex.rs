//! Tools for extracting data from BinHex 4.0 archives.
//!
//! BinHex is an encoding system for "classic" Mac files that combines the
//! binary data from a file's data and resource forks into a single
//! ASCII-encoded file. A BinHex container starts with free-form text, then a
//! fixed banner string, a `:` delimiter, the encoded payload (a custom
//! base64 alphabet, possibly interleaved with whitespace), and a closing
//! `:`. The payload decodes to a run-length-compressed stream that in turn
//! expands to a header record, the data fork, and the resource fork, each
//! followed by a CRC16/XMODEM checksum.

pub mod archive;
pub mod expand;
pub mod read;

pub use archive::{BinHexArchive, BinHexError, BinHexHeader, ChecksumSection};
