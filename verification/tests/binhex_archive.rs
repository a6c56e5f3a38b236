//! Tests for whole-archive decoding: header metadata, fork extraction,
//! and per-section checksum verification.

use clarus::binhex::BinHexArchive;
use clarus::binhex::BinHexError;
use clarus::binhex::BinHexHeader;
use clarus::binhex::ChecksumSection;

const BINHEX_DATA: &[u8] = b"\
(This file must be converted with BinHex 4.0)\n\
:$f*TEQKPH#edCA0d,R4iG!#3$L8!N!-TR@dpN!8J5'9XE'mJCR*[E5\"dD'8JC'&\n\
dB5\"QEh*V)5!pN!9Bm5f3\"5\")C@aXEb\"QFQpY)(4SC5\"bCA0[GA*MC5\"QEh*V)5!\n\
YN!8SI!:";

const DATA_FORK: &[u8] = b"===== Hello from the data fork! =====";
const RESOURCE_FORK: &[u8] = b"----- Hello from the resource fork! -----";

const SIMPLE_TEXT_DOCUMENT: &[u8] = b"\
(This file must be converted with BinHex 4.0)\n\
\n\
:&&0TEA\"XC94PH(5U)%4[Bh9YC@jd!&4&@&4dG(Kd!*!&&J!!!8c328KPE'a[)'C\n\
bEfdJ8fPYF'aP9'9iG#'`*3!!!3#3!`%D!*!$'J#3!c*J6qm!%'!',`a1Z[@161i\n\
B`2r`6PiJAdr[!\"41d#)[!\"46D@e`E'98CAKdUL\"%Ef0eE@9ZG'CcFfPd)(*dFf&\n\
X!'T849K8G(4iG!#3%)!!N!IFK-H8!*!'!4iF0J\"#3%K!C`5!`63!5%)`!i$\"0!!\n\
L!N*!5%\"J)L3!3N\")3%K#N!-Q!A)!H!r8JY'!dS'`Jf8%N!#$8J&4c2r`60m!(%j\n\
e)PmJAk!P,S\"U!N+A6Y%!N!1U!!)!!!%!!!J!!!%)!!J!!!%8!!%!!!&F!!)!!!*\n\
i!!%!!!,i!!3!!!-@!*!%&J!\"!*!&%!!-!!-!N!--!*!)!3#3!`%D!*!$'J#3!c)\n\
2`&')%J#3\"\"`!-J!!Fh4jE!#3!`S!J2rr!*!%$m#lc&2h!:";

#[test]
fn filename() {
    let archive = BinHexArchive::new(SIMPLE_TEXT_DOCUMENT.to_vec()).unwrap();

    assert_eq!(&String::from("SimpleText\u{2122} Document"), archive.filename());
}

#[test]
fn file_type() {
    let archive = BinHexArchive::new(SIMPLE_TEXT_DOCUMENT.to_vec()).unwrap();

    assert_eq!(b"TEXT", &archive.file_type());
}

#[test]
fn creator() {
    let archive = BinHexArchive::new(SIMPLE_TEXT_DOCUMENT.to_vec()).unwrap();

    assert_eq!(b"ttxt", &archive.creator());
}

#[test]
fn flags() {
    let archive = BinHexArchive::new(SIMPLE_TEXT_DOCUMENT.to_vec()).unwrap();

    assert_eq!(0x0000, archive.flags());
}

#[test]
fn data_fork_len() {
    let archive = BinHexArchive::new(BINHEX_DATA.to_vec()).unwrap();

    assert_eq!(DATA_FORK.len(), archive.data_fork_len());
}

#[test]
fn resource_fork_len() {
    let archive = BinHexArchive::new(BINHEX_DATA.to_vec()).unwrap();

    assert_eq!(RESOURCE_FORK.len(), archive.resource_fork_len());
}

#[test]
fn extract() {
    let archive = BinHexArchive::new(BINHEX_DATA.to_vec()).unwrap();

    let mut data_fork = vec![];
    let mut resource_fork = vec![];

    archive.extract(&mut data_fork, &mut resource_fork).unwrap();

    assert_eq!(DATA_FORK, data_fork.as_slice());
    assert_eq!(RESOURCE_FORK, resource_fork.as_slice());
}

#[test]
fn extract_whole_simple_text_document() {
    let archive = BinHexArchive::new(SIMPLE_TEXT_DOCUMENT.to_vec()).unwrap();
    let data_len = archive.data_fork_len();
    let rsrc_len = archive.resource_fork_len();

    let mut data_fork = vec![];
    let mut resource_fork = vec![];

    archive.extract(&mut data_fork, &mut resource_fork).unwrap();

    assert_eq!(data_len, data_fork.len());
    assert_eq!(rsrc_len, resource_fork.len());
}

#[test]
fn missing_banner_is_rejected() {
    let result = BinHexArchive::new(b"This is not a BinHex container at all".to_vec());

    assert!(matches!(result, Err(BinHexError::UnexpectedEof)));
}

#[test]
fn payload_byte_outside_alphabet_is_rejected() {
    // 'z' is not in the BinHex alphabet, so decoding must fail.
    let mut source = BINHEX_DATA.to_vec();
    let colon = source.iter().position(|&b| b == b':').unwrap();
    source[colon + 1] = b'z';

    let result = BinHexArchive::new(source);

    assert!(matches!(result, Err(BinHexError::InvalidData)));
}

#[test]
fn flipping_a_data_fork_byte_fails_only_that_section() {
    let probe = BinHexArchive::new(BINHEX_DATA.to_vec()).unwrap();
    let data_len = probe.data_fork_len();

    for i in 0..data_len {
        let mut archive = BinHexArchive::new(BINHEX_DATA.to_vec()).unwrap();
        archive.expanded[archive.pos + i] ^= 0x01;

        let mut data_fork = vec![];
        let mut resource_fork = vec![];
        let result = archive.extract(&mut data_fork, &mut resource_fork);

        assert!(matches!(
            result,
            Err(BinHexError::InvalidChecksum(ChecksumSection::DataFork, _, _))
        ));
        // The corrupt data-fork content has been written in full; the
        // resource sink is untouched.
        assert_eq!(data_len, data_fork.len());
        assert!(resource_fork.is_empty());
    }
}

#[test]
fn flipping_a_resource_fork_byte_leaves_the_data_fork_correct() {
    let probe = BinHexArchive::new(BINHEX_DATA.to_vec()).unwrap();
    let data_len = probe.data_fork_len();
    let rsrc_len = probe.resource_fork_len();

    for i in 0..rsrc_len {
        let mut archive = BinHexArchive::new(BINHEX_DATA.to_vec()).unwrap();
        archive.expanded[archive.pos + data_len + 2 + i] ^= 0x01;

        let mut data_fork = vec![];
        let mut resource_fork = vec![];
        let result = archive.extract(&mut data_fork, &mut resource_fork);

        assert!(matches!(
            result,
            Err(BinHexError::InvalidChecksum(ChecksumSection::ResourceFork, _, _))
        ));
        // The data fork was checked first and came through intact.
        assert_eq!(DATA_FORK, data_fork.as_slice());
        assert_eq!(rsrc_len, resource_fork.len());
    }
}

#[test]
fn header_checksum_mismatch_is_attributed_to_the_header() {
    // A minimal record: zero-length name, all fields zero. The checksum
    // of twenty zero bytes under CRC16/XMODEM is zero, so a nonzero
    // stored checksum must be rejected with both values reported.
    let mut record = vec![0u8; 22];
    record[20] = 0xff;
    record[21] = 0xff;

    let result = BinHexHeader::parse(&record);

    assert!(matches!(
        result,
        Err(BinHexError::InvalidChecksum(ChecksumSection::Header, 0xffff, 0))
    ));
}

#[test]
fn header_record_with_matching_checksum_parses() {
    let record = vec![0u8; 22];

    let header = BinHexHeader::parse(&record).unwrap();

    assert_eq!("", header.name);
    assert_eq!([0u8; 4], header.file_type);
    assert_eq!([0u8; 4], header.creator);
    assert_eq!(0, header.flag);
    assert_eq!(0, header.data_fork_length);
    assert_eq!(0, header.resource_fork_length);
}

#[test]
fn header_record_of_wrong_length_is_invalid() {
    assert!(matches!(
        BinHexHeader::parse(&vec![0u8; 23]),
        Err(BinHexError::InvalidHeader)
    ));
    assert!(matches!(BinHexHeader::parse(&vec![]), Err(BinHexError::InvalidHeader)));
}
