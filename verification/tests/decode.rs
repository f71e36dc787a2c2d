use fde_core::errors::FdeError;
use fde_core::helper::bitstream::{decode_program_data, ProgramDataReader};

#[test]
fn test_decode_valid_lines() {
    let data = b"0600\n0000\n0000\n0000\n";
    let words = decode_program_data(data).unwrap();
    assert_eq!(words, vec![0x0600, 0x0000, 0x0000, 0x0000]);
}

#[test]
fn test_decode_empty_file() {
    let words = decode_program_data(b"").unwrap();
    assert_eq!(words, Vec::<u16>::new());
}

#[test]
fn test_decode_invalid_character() {
    let result = decode_program_data(b"12G4");
    assert_eq!(
        result,
        Err(FdeError::InvalidCharacter { ch: b'G', line: 1, column: 3 })
    );
}

#[test]
fn test_decode_underscore_flushes_words() {
    // the underscore flushes the accumulator, and the end of the line
    // flushes it once more
    let words = decode_program_data(b"0600_0012").unwrap();
    assert_eq!(words, vec![0x0600, 0x0012]);
    let words = decode_program_data(b"0600_").unwrap();
    assert_eq!(words, vec![0x0600, 0x0000]);
}

#[test]
fn test_decode_space_ends_line() {
    // a space ends the line early; what follows it is ignored
    let words = decode_program_data(b"0abc 9999").unwrap();
    assert_eq!(words, vec![0x0abc]);
}

#[test]
fn test_decode_skips_blank_lines_but_counts_them() {
    let words = decode_program_data(b"\n\n12ef\n\n").unwrap();
    assert_eq!(words, vec![0x12ef]);
    // line numbers in errors count blank lines too
    let result = decode_program_data(b"\n\nx");
    assert_eq!(
        result,
        Err(FdeError::InvalidCharacter { ch: b'x', line: 3, column: 1 })
    );
}

#[test]
fn test_decode_lowercase_and_uppercase_digits() {
    let words = decode_program_data(b"aBcD\nef01").unwrap();
    assert_eq!(words, vec![0xabcd, 0xef01]);
}

#[test]
fn test_read_valid_bitstream() {
    let mut reader = ProgramDataReader::new("name_display_dc_bit.bit");
    let result = reader.read(b"0600\n0000\n1400\n0000\n");
    assert!(result.is_ok(), "Expected reading to succeed, got error: {:?}", result.err());
    let program_data = reader.get_program_data();
    assert_eq!(program_data, &vec![0x0600, 0x0000, 0x1400, 0x0000]);
}

#[test]
fn test_read_error_leaves_reader_unchanged() {
    let mut reader = ProgramDataReader::new("bad.bit");
    reader.read(b"0600").unwrap();
    let result = reader.read(b"06zz");
    assert_eq!(result, Err(FdeError::InvalidCharacter { ch: b'z', line: 1, column: 3 }));
    assert_eq!(reader.get_program_data(), &vec![0x0600]);
}

#[test]
fn test_char_remap() {
    let reader = ProgramDataReader::new("x.bit");
    assert_eq!(reader.char_remap(&b'0'), Some(0));
    assert_eq!(reader.char_remap(&b'9'), Some(9));
    assert_eq!(reader.char_remap(&b'A'), Some(10));
    assert_eq!(reader.char_remap(&b'F'), Some(15));
    assert_eq!(reader.char_remap(&b'a'), Some(10));
    assert_eq!(reader.char_remap(&b'f'), Some(15));
    assert_eq!(reader.char_remap(&b'g'), None);
    assert_eq!(reader.char_remap(&b'_'), None);
}
