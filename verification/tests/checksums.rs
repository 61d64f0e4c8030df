use oxyromon::checksum::{compare_hash_and_size, digest_hex, get_hash_algorithm, hash_bytes, header_size, CheckError};
use oxyromon::config::HashAlgorithm;
use oxyromon::hex::{hex_u32, to_hex};
use oxyromon::model::{Header, Rom, Rule};

fn rom(crc: Option<&str>, md5: Option<&str>, sha1: Option<&str>, size: i64) -> Rom {
    Rom {
        id: 1,
        name: String::from("rom name.rom"),
        bios: false,
        disk: false,
        size,
        crc: crc.map(String::from),
        md5: md5.map(String::from),
        sha1: sha1.map(String::from),
        game_id: 1,
        romfile_id: Some(1),
        parent_id: None,
        original: true,
    }
}

#[test]
fn crc_of_known_text_is_lowercase_hex() {
    assert_eq!(hash_bytes(b"123456789", HashAlgorithm::Crc), "cbf43926");
    assert_eq!(hash_bytes(b"", HashAlgorithm::Crc), "00000000");
}

#[test]
fn md5_of_known_texts() {
    assert_eq!(hash_bytes(b"", HashAlgorithm::Md5), "d41d8cd98f00b204e9800998ecf8427e");
    assert_eq!(hash_bytes(b"abc", HashAlgorithm::Md5), "900150983cd24fb0d6963f7d28e17f72");
}

#[test]
fn sha1_of_known_texts() {
    assert_eq!(hash_bytes(b"", HashAlgorithm::Sha1), "da39a3ee5e6b4b0d3255bfef95601890afd80709");
    assert_eq!(hash_bytes(b"abc", HashAlgorithm::Sha1), "a9993e364706816aba3e25717850c26c9cd0d89d");
}

#[test]
fn hex_of_bytes_and_words() {
    assert_eq!(digest_hex(&[0x00, 0x0f, 0xa0, 0xff]), "000fa0ff");
    assert_eq!(to_hex(&[0xde, 0xad]).into_iter().collect::<String>(), "dead");
    assert_eq!(hex_u32(0x1a).into_iter().collect::<String>(), "0000001a");
}

#[test]
fn the_first_checksum_given_picks_the_algorithm() {
    assert!(matches!(get_hash_algorithm(&rom(Some("0"), Some("1"), Some("2"), 1)), Ok(HashAlgorithm::Crc)));
    assert!(matches!(get_hash_algorithm(&rom(None, Some("1"), Some("2"), 1)), Ok(HashAlgorithm::Md5)));
    assert!(matches!(get_hash_algorithm(&rom(None, None, Some("2"), 1)), Ok(HashAlgorithm::Sha1)));
    assert!(matches!(get_hash_algorithm(&rom(None, None, None, 1)), Err(CheckError::NoChecksum)));
}

#[test]
fn a_matching_hash_and_size_pass() {
    let r = rom(Some("cbf43926"), None, None, 9);
    assert!(compare_hash_and_size(&r, "cbf43926", 9, HashAlgorithm::Crc).is_ok());
}

#[test]
fn a_size_mismatch_is_refused() {
    let r = rom(Some("cbf43926"), None, None, 9);
    assert!(matches!(compare_hash_and_size(&r, "cbf43926", 10, HashAlgorithm::Crc), Err(CheckError::SizeMismatch)));
}

#[test]
fn a_checksum_mismatch_is_refused() {
    let r = rom(Some("cbf43926"), None, None, 9);
    assert!(matches!(compare_hash_and_size(&r, "00000000", 9, HashAlgorithm::Crc), Err(CheckError::ChecksumMismatch)));
}

#[test]
fn a_size_of_zero_is_not_compared() {
    let r = rom(None, Some("abc"), None, 0);
    assert!(compare_hash_and_size(&r, "abc", 12345, HashAlgorithm::Md5).is_ok());
}

#[test]
fn a_header_is_skipped_only_when_every_rule_holds() {
    let header = Header { id: 1, name: String::from("h"), version: String::from("1"), size: 4, system_id: 1 };
    let rules = vec![
        Rule { start_byte: 0, hex_value: String::from("4E45"), header_id: 1 },
        Rule { start_byte: 2, hex_value: String::from("53"), header_id: 1 },
    ];
    assert_eq!(header_size(&[0x4e, 0x45, 0x53, 0x1a], &header, &rules), 4);
    assert_eq!(header_size(&[0x4e, 0x45, 0x00, 0x1a], &header, &rules), 0);
}

use oxyromon::checksum::{HashStream, Md5Digest, Sha1Digest};

#[test]
fn checksums_have_a_fixed_number_of_digits() {
    assert_eq!(hash_bytes(b"abc", HashAlgorithm::Crc), "352441c2");
    assert_eq!(hash_bytes(b"abc", HashAlgorithm::Md5), "900150983cd24fb0d6963f7d28e17f72");
    assert_eq!(hash_bytes(b"abc", HashAlgorithm::Sha1), "a9993e364706816aba3e25717850c26c9cd0d89d");
    assert_eq!(hash_bytes(b"", HashAlgorithm::Crc).len(), 8);
    assert_eq!(hash_bytes(b"", HashAlgorithm::Md5).len(), 32);
    assert_eq!(hash_bytes(b"", HashAlgorithm::Sha1).len(), 40);
}

#[test]
fn streamed_digests_match_whole_ones() {
    let mut md5 = Md5Digest::new();
    md5.update(b"a");
    md5.update(b"bc");
    assert_eq!(digest_hex(&md5.finalize()), "900150983cd24fb0d6963f7d28e17f72");
    let mut sha1 = Sha1Digest::new();
    sha1.update(b"ab");
    sha1.update(b"c");
    assert_eq!(digest_hex(&sha1.finalize()), "a9993e364706816aba3e25717850c26c9cd0d89d");
    for algorithm in [HashAlgorithm::Crc, HashAlgorithm::Md5, HashAlgorithm::Sha1] {
        let mut stream = HashStream::new(algorithm);
        assert!(stream.can_take(5));
        stream.update(b"hello ");
        stream.update(b"");
        stream.update(b"world");
        let (hash, size) = stream.finish();
        assert_eq!(hash, hash_bytes(b"hello world", algorithm));
        assert_eq!(size, 11);
    }
}
