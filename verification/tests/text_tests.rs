use pngme::chunk::ChunkError;
use pngme::chunk_type::ChunkTypeError;
use pngme::text::{ascii_string, decimal_string, text_of, TextError};

#[test]
fn numbers_in_decimal_digits() {
    assert_eq!(decimal_string(0), "0");
    assert_eq!(decimal_string(7), "7");
    assert_eq!(decimal_string(9), "9");
    assert_eq!(decimal_string(10), "10");
    assert_eq!(decimal_string(42), "42");
    assert_eq!(decimal_string(100), "100");
    assert_eq!(decimal_string(2882656334), "2882656334");
    assert_eq!(decimal_string(4294967295), "4294967295");
    assert_eq!(decimal_string(u64::MAX), "18446744073709551615");
    for x in [1u64, 19, 99, 101, 1000, 65_535, 1_000_000_007] {
        assert_eq!(decimal_string(x), x.to_string());
    }
}

#[test]
fn ascii_bytes_as_text() {
    assert_eq!(ascii_string(b"RuSt".to_vec()), "RuSt");
    assert_eq!(ascii_string(Vec::new()), "");
    assert_eq!(ascii_string(vec![0, 127, 32]), "\0\u{7f} ");
}

#[test]
fn chunk_errors_in_words() {
    assert_eq!(
        ChunkError::InvalidCrc(2882656334, 2882656333).to_string(),
        "Invalid CRC when constructing chunk. Expected 2882656334 but found 2882656333"
    );
    assert_eq!(
        ChunkError::InvalidChunkDatLength(41, 42).to_string(),
        "Invalid chunk data length when constructing chunk. Expected 41 but found 42"
    );
    assert_eq!(
        ChunkError::InvalidChunkDatLength(0, 4294967295).to_string(),
        "Invalid chunk data length when constructing chunk. Expected 0 but found 4294967295"
    );
    assert_eq!(ChunkError::InvalidChunkType.to_string(), "Invalid chunk type");
}

#[test]
fn chunk_type_errors_in_words() {
    assert_eq!(
        ChunkTypeError::ByteLengthError(2).to_string(),
        "Expected 4 bytes but received 2 when creating chunk type"
    );
    assert_eq!(
        ChunkTypeError::ByteLengthError(10).to_string(),
        "Expected 4 bytes but received 10 when creating chunk type"
    );
    assert_eq!(
        ChunkTypeError::InvalidCharacter.to_string(),
        "Input contains one or more invalid characters"
    );
}

#[test]
fn bytes_as_text() {
    assert_eq!(text_of(b"secret".to_vec()), Ok(String::from("secret")));
    assert_eq!(text_of(Vec::new()), Ok(String::new()));
    assert_eq!(text_of(vec![0xe2, 0x82, 0xac]), Ok(String::from("\u{20ac}")));
    assert_eq!(text_of(vec![0xf0, 0x9f, 0xa6, 0x80]), Ok(String::from("\u{1f980}")));
    assert_eq!(text_of(vec![0xe2, 0x82]), Err(TextError::InvalidUtf8));
    assert_eq!(text_of(vec![0x80]), Err(TextError::InvalidUtf8));
    assert_eq!(text_of(vec![0xf5, 0x80, 0x80, 0x80]), Err(TextError::InvalidUtf8));
}
