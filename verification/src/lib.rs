//! Tools for extracting data from BinHex 4.0 archives and the structures
//! commonly carried inside them.
//!
//! BinHex is an encoding system for "classic" Mac files that combines the
//! binary data from a file's data and resource forks into a single
//! ASCII-encoded file. BinHex was generally used to transfer files via email
//! or online services that didn't have robust support for binary files.

pub mod be;
pub mod binhex;
pub mod crc;
pub mod rsrc;
pub mod snd;
pub mod text;
