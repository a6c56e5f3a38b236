//! The BinHex archive orchestrator: banner stripping, payload decoding,
//! run-length expansion, header parsing, and checksummed fork extraction.

use vstd::prelude::*;

use crate::be::{spec_u16_be, spec_u32_be, u16_be, u32_be};
use crate::binhex::expand;
use crate::binhex::read;
use crate::crc::{crc16_of, crc16_xmodem};
use crate::text::{decode_mac_roman, mac_roman_decoding};

verus! {

/// A section of a BinHex archive.
///
/// BinHex archives are divided into a header, a data fork, and a resource
/// fork, each of which has its own checksum.
#[derive(Copy, Clone, Debug, PartialEq, Eq, Structural)]
pub enum ChecksumSection {
    Header,
    DataFork,
    ResourceFork,
}

/// The error type for operations on BinHex-encoded data.
///
/// The archive is handed to this crate as a complete byte buffer, so I/O
/// failures are the caller's concern; the errors here all describe the
/// content of the buffer.
#[derive(Copy, Clone, Debug, PartialEq, Eq, Structural)]
pub enum BinHexError {
    /// The container ended before the banner, the opening `:`, the closing
    /// `:`, or a full section could be found. The three "ran out of input
    /// while scanning" conditions (no banner, no opening delimiter, no
    /// closing delimiter) are deliberately collapsed into this one variant.
    UnexpectedEof,

    /// The BinHex archive's header was malformed and could not be read.
    InvalidHeader,

    /// Data in some part of the BinHex archive was malformed and could not
    /// be read: a payload byte outside the encoding alphabet, a truncated
    /// encoded group, or a run-length escape that cannot be resolved.
    InvalidData,

    /// The checksum included in a section of a BinHex archive did not match
    /// the checksum calculated from its content.
    ///
    /// The section in which the checksum did not match, the checksum
    /// provided in the BinHex file, and the checksum calculated from the
    /// section's content are included.
    InvalidChecksum(ChecksumSection, u16, u16),
}

/// The 64-symbol alphabet of the modified base64 encoding that BinHex
/// containers use. It omits several letters and digits of standard base64
/// and has no padding character.
pub open spec fn spec_alphabet() -> Seq<char> {
    "!\"#$%&'()*+,-012345689@ABCDEFGHIJKLMNPQRSTUVXYZ[`abcdefhijklmpqr"@
}

/// The alphabet as a string slice, for handing to the decoder.
pub fn alphabet_str() -> (r: &'static str)
    ensures
        r@ == spec_alphabet(),
{
    "!\"#$%&'()*+,-012345689@ABCDEFGHIJKLMNPQRSTUVXYZ[`abcdefhijklmpqr"
}

/// The bytes that the radix64 decoder yields for the given input under the
/// given 64-symbol alphabet with no padding, or `None` when the alphabet is
/// unusable or the input is not a valid encoding (a byte outside the
/// alphabet, a group of one trailing symbol, or nonzero discarded bits).
/// The outcome is a pure function of the alphabet and the input alone.
pub uninterp spec fn decode64_of(alphabet: Seq<char>, input: Seq<u8>) -> Option<Seq<u8>>;

/// Relies on radix64's `CustomConfig::with_alphabet(..).no_padding().build()`
/// and `CustomConfig::decode`: the decoded bytes depend on the alphabet and
/// the input alone, and decoding fails exactly on inputs that are not valid
/// encodings under that alphabet.
#[verifier::external_body]
fn decode_payload(alphabet: &str, input: &[u8]) -> (r: Option<Vec<u8>>)
    ensures
        r is Some <==> decode64_of(alphabet@, input@) is Some,
        r is Some ==> r.unwrap()@ == decode64_of(alphabet@, input@).unwrap(),
{
    let config = match radix64::CustomConfig::with_alphabet(alphabet).no_padding().build() {
        Ok(config) => config,
        Err(_) => return None,
    };
    config.decode(input).ok()
}

/// Shape of a header record: `name_len + 22` bytes whose first byte is
/// `name_len`.
pub open spec fn spec_header_len_ok(record: Seq<u8>) -> bool {
    record.len() >= 1 && record.len() == record[0] + 22
}

/// The checksum stored in the record's trailing two bytes.
pub open spec fn spec_header_stored_crc(record: Seq<u8>) -> u16 {
    spec_u16_be(record[record.len() - 2], record[record.len() - 1])
}

/// The checksum computed over every record byte except the trailing two.
pub open spec fn spec_header_computed_crc(record: Seq<u8>) -> u16 {
    crc16_of(record.take(record.len() - 2))
}

/// The file name carried by a header record, decoded from Macintosh-Roman.
pub open spec fn spec_header_name(record: Seq<u8>) -> Seq<char> {
    mac_roman_decoding(record.subrange(1, 1 + record[0]))
}

/// The four file-type bytes of a header record.
pub open spec fn spec_header_file_type(record: Seq<u8>) -> Seq<u8> {
    record.subrange(2 + record[0], 6 + record[0])
}

/// The four creator bytes of a header record.
pub open spec fn spec_header_creator(record: Seq<u8>) -> Seq<u8> {
    record.subrange(6 + record[0], 10 + record[0])
}

/// The Finder flags of a header record.
pub open spec fn spec_header_flag(record: Seq<u8>) -> u16 {
    spec_u16_be(record[10 + record[0]], record[11 + record[0]])
}

/// The data-fork length of a header record.
pub open spec fn spec_header_data_len(record: Seq<u8>) -> u32 {
    spec_u32_be(
        record[12 + record[0]],
        record[13 + record[0]],
        record[14 + record[0]],
        record[15 + record[0]],
    )
}

/// The resource-fork length of a header record.
pub open spec fn spec_header_rsrc_len(record: Seq<u8>) -> u32 {
    spec_u32_be(
        record[16 + record[0]],
        record[17 + record[0]],
        record[18 + record[0]],
        record[19 + record[0]],
    )
}

/// The metadata record that leads every BinHex archive: the original file's
/// name, type, creator, Finder flags, and the byte lengths of its two
/// forks.
///
/// Layout on the wire, after expansion (all integers big-endian):
/// `name_len`(1) then `name`(`name_len`) then `version`(1, ignored) then
/// `file_type`(4), `creator`(4), `flags`(2), `data_fork_len`(4),
/// `rsrc_fork_len`(4), `checksum`(2).
#[derive(Debug)]
pub struct BinHexHeader {
    /// The original file name, decoded from Macintosh-Roman.
    pub name: String,
    /// The file type identifier.
    pub file_type: [u8; 4],
    /// The creator identifier.
    pub creator: [u8; 4],
    /// The Finder flags.
    pub flag: u16,
    /// The length of the data fork in bytes.
    pub data_fork_length: usize,
    /// The length of the resource fork in bytes.
    pub resource_fork_length: usize,
}

/// What a parsed header says about its record bytes: every field is
/// exactly what the record encodes.
pub open spec fn spec_header_matches(h: BinHexHeader, record: Seq<u8>) -> bool {
    &&& h.name@ == spec_header_name(record)
    &&& h.file_type@ == spec_header_file_type(record)
    &&& h.creator@ == spec_header_creator(record)
    &&& h.flag == spec_header_flag(record)
    &&& h.data_fork_length == spec_header_data_len(record) as int
    &&& h.resource_fork_length == spec_header_rsrc_len(record) as int
}

impl BinHexHeader {
    /// Parses a complete header record.
    ///
    /// Fails with [`BinHexError::InvalidHeader`] when the record's length
    /// does not match its own name-length byte, and with a header
    /// [`BinHexError::InvalidChecksum`] when the trailing checksum does not
    /// match the one computed over the rest of the record; the construction
    /// is atomic, so no header exists in either case.
    pub fn parse(record: &Vec<u8>) -> (r: Result<BinHexHeader, BinHexError>)
        ensures
            !spec_header_len_ok(record@) ==> r == Err::<BinHexHeader, BinHexError>(
                BinHexError::InvalidHeader,
            ),
            spec_header_len_ok(record@) && spec_header_stored_crc(record@)
                != spec_header_computed_crc(record@) ==> r == Err::<BinHexHeader, BinHexError>(
                BinHexError::InvalidChecksum(
                    ChecksumSection::Header,
                    spec_header_stored_crc(record@),
                    spec_header_computed_crc(record@),
                ),
            ),
            spec_header_len_ok(record@) && spec_header_stored_crc(record@)
                == spec_header_computed_crc(record@) ==> (r matches Ok(h) && spec_header_matches(
                h,
                record@,
            )),
    {
        if record.len() < 1 {
            return Err(BinHexError::InvalidHeader);
        }
        let name_len = record[0] as usize;
        if record.len() != name_len + 22 {
            return Err(BinHexError::InvalidHeader);
        }
        let crc_pos = name_len + 20;
        let computed = crc16_xmodem(&record.as_slice()[0..crc_pos]);
        let stored = u16_be(record[crc_pos], record[crc_pos + 1]);
        proof {
            assert(record@.subrange(0, crc_pos as int) =~= record@.take(record@.len() - 2));
        }
        if stored != computed {
            return Err(BinHexError::InvalidChecksum(ChecksumSection::Header, stored, computed));
        }
        let name = decode_mac_roman(&record.as_slice()[1..1 + name_len]);
        let file_type = [
            record[2 + name_len],
            record[3 + name_len],
            record[4 + name_len],
            record[5 + name_len],
        ];
        let creator = [
            record[6 + name_len],
            record[7 + name_len],
            record[8 + name_len],
            record[9 + name_len],
        ];
        let flag = u16_be(record[10 + name_len], record[11 + name_len]);
        let data_len = u32_be(
            record[12 + name_len],
            record[13 + name_len],
            record[14 + name_len],
            record[15 + name_len],
        );
        let rsrc_len = u32_be(
            record[16 + name_len],
            record[17 + name_len],
            record[18 + name_len],
            record[19 + name_len],
        );
        proof {
            assert(file_type@ =~= spec_header_file_type(record@));
            assert(creator@ =~= spec_header_creator(record@));
        }
        Ok(
            BinHexHeader {
                name,
                file_type,
                creator,
                flag,
                data_fork_length: data_len as usize,
                resource_fork_length: rsrc_len as usize,
            },
        )
    }
}

/// The encoded payload that banner stripping yields for a raw container.
pub open spec fn spec_payload(source: Seq<u8>) -> Seq<u8> {
    read::spec_run(read::State::FindBannerStart, source).1
}

/// Whether the container carries a complete payload: banner found, opening
/// `:` found, closing `:` found.
pub open spec fn spec_payload_complete(source: Seq<u8>) -> bool {
    read::spec_run(read::State::FindBannerStart, source).0 is Done
}

/// The payload with a final stray symbol dropped. A trailing group of one
/// encoded symbol can never contribute a byte, and the streaming decoders
/// this format grew up with never read that far; real containers carry
/// such a symbol, so it is dropped rather than rejected.
pub open spec fn spec_trimmed_payload(payload: Seq<u8>) -> Seq<u8> {
    if payload.len() % 4 == 1 {
        payload.take(payload.len() - 1)
    } else {
        payload
    }
}

/// The compressed stream that the payload decodes to, when it decodes.
pub open spec fn spec_decoded(source: Seq<u8>) -> Option<Seq<u8>> {
    decode64_of(spec_alphabet(), spec_trimmed_payload(spec_payload(source)))
}

/// The run of the expander over the decoded stream.
pub open spec fn spec_expansion(source: Seq<u8>) -> (expand::State, Seq<u8>, bool) {
    expand::spec_run(expand::State::Scan(None), spec_decoded(source).unwrap())
}

/// The outcome of copying one checksummed section of the given length from
/// the remaining expanded stream: the bytes that reach the sink, and the
/// verdict. When the stream is long enough, exactly `len` bytes are copied
/// and checked against the trailing stored checksum; when it is not, the
/// available prefix (at most `len` bytes) is copied and the copy fails.
pub open spec fn spec_copy_fork(rest: Seq<u8>, len: nat, section: ChecksumSection) -> (
    Seq<u8>,
    Result<(), BinHexError>,
) {
    if rest.len() < len + 2 {
        (
            rest.take(if len <= rest.len() { len as int } else { rest.len() as int }),
            Err(BinHexError::UnexpectedEof),
        )
    } else {
        let payload = rest.take(len as int);
        let stored = spec_u16_be(rest[len as int], rest[len as int + 1]);
        let computed = crc16_of(payload);
        if stored == computed {
            (payload, Ok(()))
        } else {
            (payload, Err(BinHexError::InvalidChecksum(section, stored, computed)))
        }
    }
}

/// A fork copy that ends in a checksum verdict (match or mismatch) has
/// delivered exactly `len` bytes to its sink: a mismatch is reported only
/// after the full (possibly corrupt) section content has been written.
pub proof fn lemma_copy_fork_exact(rest: Seq<u8>, len: nat, section: ChecksumSection)
    requires
        !(spec_copy_fork(rest, len, section).1 == Err::<(), BinHexError>(
            BinHexError::UnexpectedEof,
        )),
    ensures
        spec_copy_fork(rest, len, section).0.len() == len,
{
}

/// A BinHex-encoded archive.
///
/// BinHex archives encode the data fork, resource fork, and metadata
/// associated with a "classic" Macintosh file. [`BinHexArchive::new`]
/// consumes the raw container bytes, runs the whole decode pipeline
/// (banner stripping, payload decoding, run-length expansion), and parses
/// and verifies the header record; the metadata accessors then answer from
/// the cached header without touching the stream again.
/// [`BinHexArchive::extract`] consumes the archive and copies the two
/// checksummed forks out.
pub struct BinHexArchive {
    /// The parsed, checksum-verified header record.
    pub header: BinHexHeader,
    /// The fully expanded archive stream.
    pub expanded: Vec<u8>,
    /// The offset of the first byte after the header record.
    pub pos: usize,
}

impl BinHexArchive {
    /// The archive's bookkeeping invariant: the cursor sits within the
    /// expanded stream.
    pub open spec fn wf(&self) -> bool {
        self.pos <= self.expanded@.len()
    }

    /// Opens a BinHex archive delivered as a complete byte buffer.
    ///
    /// The whole container is decoded and expanded up front, and the
    /// header record is parsed and its checksum verified.
    ///
    /// # Errors
    ///
    /// [`BinHexError::UnexpectedEof`] when the banner, a `:` delimiter, or
    /// the header record itself is missing; [`BinHexError::InvalidData`]
    /// when the payload is not a valid encoding or the compressed stream
    /// ends inside an escape; a header [`BinHexError::InvalidChecksum`]
    /// when the header record does not match its stored checksum.
    pub fn new(source: Vec<u8>) -> (r: Result<BinHexArchive, BinHexError>)
        ensures
            r matches Ok(archive) ==> archive.wf(),
            ({
                let src = source@;
                &&& !spec_payload_complete(src) ==> r == Err::<BinHexArchive, BinHexError>(
                    BinHexError::UnexpectedEof,
                )
                &&& spec_payload_complete(src) && spec_decoded(src) is None ==> r == Err::<
                    BinHexArchive,
                    BinHexError,
                >(BinHexError::InvalidData)
                &&& spec_payload_complete(src) && spec_decoded(src) is Some ==> ({
                    let run = spec_expansion(src);
                    let expanded = run.1;
                    &&& !(run.2 && run.0 is Scan) ==> r == Err::<BinHexArchive, BinHexError>(
                        BinHexError::InvalidData,
                    )
                    &&& (run.2 && run.0 is Scan && (expanded.len() < 22 || expanded.len() < 22
                        + expanded[0])) ==> r == Err::<BinHexArchive, BinHexError>(
                        BinHexError::UnexpectedEof,
                    )
                    &&& (run.2 && run.0 is Scan && expanded.len() >= 22 && expanded.len() >= 22
                        + expanded[0]) ==> ({
                        let record = expanded.take(22 + expanded[0]);
                        let stored = spec_header_stored_crc(record);
                        let computed = spec_header_computed_crc(record);
                        &&& stored != computed ==> r == Err::<BinHexArchive, BinHexError>(
                            BinHexError::InvalidChecksum(ChecksumSection::Header, stored, computed),
                        )
                        &&& stored == computed ==> (r matches Ok(archive) && ({
                            &&& spec_header_matches(archive.header, record)
                            &&& archive.expanded@ == expanded
                            &&& archive.pos == 22 + expanded[0]
                            &&& archive.wf()
                        }))
                    })
                })
            }),
    {
        let mut payload = match read::read_payload(source.as_slice()) {
            Ok(payload) => payload,
            Err(e) => {
                return Err(e);
            },
        };
        if payload.len() % 4 == 1 {
            payload.truncate(payload.len() - 1);
            proof {
                assert(payload@ =~= spec_trimmed_payload(spec_payload(source@)));
            }
        }
        let decoded = match decode_payload(alphabet_str(), payload.as_slice()) {
            Some(decoded) => decoded,
            None => {
                return Err(BinHexError::InvalidData);
            },
        };
        let expanded = match expand::expand_all(decoded.as_slice()) {
            Ok(expanded) => expanded,
            Err(e) => {
                return Err(e);
            },
        };
        if expanded.len() < 22 {
            return Err(BinHexError::UnexpectedEof);
        }
        let name_len = expanded[0] as usize;
        if expanded.len() < name_len + 22 {
            return Err(BinHexError::UnexpectedEof);
        }
        let mut record: Vec<u8> = Vec::new();
        record.extend_from_slice(&expanded.as_slice()[0..name_len + 22]);
        proof {
            assert(record@ =~= spec_expansion(source@).1.take(22 + spec_expansion(source@).1[0]));
        }
        let header = match BinHexHeader::parse(&record) {
            Ok(header) => header,
            Err(e) => {
                return Err(e);
            },
        };
        Ok(BinHexArchive { header, expanded, pos: name_len + 22 })
    }

    /// Returns the original filename of the file contained in this archive.
    pub fn filename(&self) -> (r: &String)
        ensures
            r@ == self.header.name@,
    {
        &self.header.name
    }

    /// Returns the file type identifier for the file contained in this
    /// archive.
    pub fn file_type(&self) -> (r: [u8; 4])
        ensures
            r == self.header.file_type,
    {
        self.header.file_type
    }

    /// Returns the creator identifier for the file contained in this
    /// archive.
    pub fn creator(&self) -> (r: [u8; 4])
        ensures
            r == self.header.creator,
    {
        self.header.creator
    }

    /// Returns the Finder flags for the file contained in this archive.
    pub fn flags(&self) -> (r: u16)
        ensures
            r == self.header.flag,
    {
        self.header.flag
    }

    /// Returns the length, in bytes after decoding, of the data fork
    /// contained in this archive.
    pub fn data_fork_len(&self) -> (r: usize)
        ensures
            r == self.header.data_fork_length,
    {
        self.header.data_fork_length
    }

    /// Returns the length, in bytes after decoding, of the resource fork
    /// contained in this archive.
    pub fn resource_fork_len(&self) -> (r: usize)
        ensures
            r == self.header.resource_fork_length,
    {
        self.header.resource_fork_length
    }

    /// Copies one of the archive's two forks to a destination sink and
    /// verifies the checksum at the end of the fork's content. On success
    /// the cursor moves past the fork and its checksum; on any failure the
    /// cursor stays put.
    fn copy_fork(&mut self, section: ChecksumSection, dest: &mut Vec<u8>, len: usize) -> (r: Result<
        (),
        BinHexError,
    >)
        requires
            old(self).wf(),
        ensures
            ({
                let rest = old(self).expanded@.skip(old(self).pos as int);
                let outcome = spec_copy_fork(rest, len as nat, section);
                &&& final(dest)@ == old(dest)@ + outcome.0
                &&& r == outcome.1
                &&& final(self).expanded@ == old(self).expanded@
                &&& final(self).header == old(self).header
                &&& final(self).wf()
                &&& (r is Ok ==> final(self).pos == old(self).pos + len + 2)
                &&& (r is Err ==> final(self).pos == old(self).pos)
            }),
    {
        let ghost rest = self.expanded@.skip(self.pos as int);
        let avail = self.expanded.len() - self.pos;
        if avail < len {
            dest.extend_from_slice(&self.expanded.as_slice()[self.pos..self.expanded.len()]);
            proof {
                assert(self.expanded@.subrange(
                    self.pos as int,
                    self.expanded@.len() as int,
                ) =~= rest.take(rest.len() as int));
            }
            return Err(BinHexError::UnexpectedEof);
        }
        dest.extend_from_slice(&self.expanded.as_slice()[self.pos..self.pos + len]);
        proof {
            assert(self.expanded@.subrange(self.pos as int, self.pos + len) =~= rest.take(
                len as int,
            ));
        }
        if avail - len < 2 {
            return Err(BinHexError::UnexpectedEof);
        }
        let computed = crc16_xmodem(&self.expanded.as_slice()[self.pos..self.pos + len]);
        let stored = u16_be(self.expanded[self.pos + len], self.expanded[self.pos + len + 1]);
        if stored == computed {
            self.pos = self.pos + len + 2;
            Ok(())
        } else {
            Err(BinHexError::InvalidChecksum(section, stored, computed))
        }
    }

    /// Extracts this archive's content to the given sinks, verifying
    /// checksums in the process: exactly `data_fork_length` bytes to the
    /// data sink, then exactly `resource_fork_length` bytes to the
    /// resource sink.
    ///
    /// This method may return an error after some or all of the archive's
    /// content has been written to the given sinks. In particular, a
    /// checksum mismatch for a section is reported only after that
    /// section's full (possibly corrupt) content has been written; this is
    /// an intentional, observable partial effect. A mismatch in the data
    /// fork leaves the resource sink untouched.
    pub fn extract(self, data_writer: &mut Vec<u8>, resource_writer: &mut Vec<u8>) -> (r: Result<
        (),
        BinHexError,
    >)
        requires
            self.wf(),
        ensures
            ({
                let rest = self.expanded@.skip(self.pos as int);
                let d = self.header.data_fork_length;
                let rr = self.header.resource_fork_length;
                let first = spec_copy_fork(rest, d as nat, ChecksumSection::DataFork);
                &&& final(data_writer)@ == old(data_writer)@ + first.0
                &&& (first.1 is Err ==> r == first.1 && final(resource_writer)@ == old(
                    resource_writer,
                )@)
                &&& (first.1 is Ok ==> ({
                    let second = spec_copy_fork(
                        rest.skip(d + 2),
                        rr as nat,
                        ChecksumSection::ResourceFork,
                    );
                    &&& final(resource_writer)@ == old(resource_writer)@ + second.0
                    &&& r == second.1
                }))
            }),
    {
        let mut archive = self;
        let data_len = archive.header.data_fork_length;
        let rsrc_len = archive.header.resource_fork_length;
        let ghost rest = archive.expanded@.skip(archive.pos as int);
        match archive.copy_fork(ChecksumSection::DataFork, data_writer, data_len) {
            Ok(_) => {},
            Err(e) => {
                return Err(e);
            },
        }
        proof {
            assert(archive.expanded@.skip(archive.pos as int) =~= rest.skip(data_len + 2));
        }
        archive.copy_fork(ChecksumSection::ResourceFork, resource_writer, rsrc_len)
    }
}

} // verus!
