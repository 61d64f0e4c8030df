use oxyromon::crc32::Crc32;

#[test]
fn test_empty_input_test() {
    // CRC32 of empty input is 0x00000000
    let result = Crc32::new().finalize();
    assert_eq!(result.as_slice(), &[0x00, 0x00, 0x00, 0x00]);
}

#[test]
fn test_known_value_test() {
    // CRC32 of "123456789" is 0xCBF43926
    let mut hasher = Crc32::new();
    hasher.update(b"123456789");
    let result = hasher.finalize();
    assert_eq!(result.as_slice(), &[0xCB, 0xF4, 0x39, 0x26]);
}

#[test]
fn test_reset_test() {
    let mut hasher = Crc32::new();
    hasher.update(b"some data");
    hasher.reset();
    hasher.update(b"123456789");
    let result = hasher.finalize();
    assert_eq!(result.as_slice(), &[0xCB, 0xF4, 0x39, 0x26]);
}

#[test]
fn test_write_trait_test() {
    let mut hasher = Crc32::new();
    let written = hasher.write(b"123456789");
    hasher.flush();
    assert_eq!(written, 9);
    let result = hasher.finalize();
    assert_eq!(result.as_slice(), &[0xCB, 0xF4, 0x39, 0x26]);
}

#[test]
fn feeding_in_pieces_matches_feeding_at_once() {
    let mut pieces = Crc32::new();
    pieces.update(b"1234");
    pieces.update(b"");
    pieces.update(b"56789");
    assert_eq!(pieces.checksum(), 0xCBF4_3926);
}

#[test]
fn checksum_of_a_single_byte() {
    // CRC-32 of "a" is 0xE8B7BE43
    let mut hasher = Crc32::new();
    hasher.update(b"a");
    assert_eq!(hasher.finalize(), [0xE8, 0xB7, 0xBE, 0x43]);
}
