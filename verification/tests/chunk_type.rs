use pngme::chunk_type::ChunkType;
use pngme::PngError;

#[test]
pub fn test_chunk_type_from_bytes() {
    let expected = [82, 117, 83, 116];
    let actual = ChunkType::parse_bytes([82, 117, 83, 116]);

    assert_eq!(expected, actual.bytes());
}

#[test]
#[should_panic]
pub fn test_chunk_type_from_bad_string() {
    ChunkType::parse_text("too_long").unwrap();
}

#[test]
pub fn test_chunk_type_from_str() {
    let expected = ChunkType::parse_bytes([82, 117, 83, 116]);
    let actual = ChunkType::parse_text("RuSt").unwrap();
    assert_eq!(expected, actual);
}

#[test]
pub fn test_chunk_type_is_critical() {
    let chunk = ChunkType::parse_text("RuSt").unwrap();
    assert!(chunk.is_critical());
}

#[test]
pub fn test_chunk_type_is_not_critical() {
    let chunk = ChunkType::parse_text("ruSt").unwrap();
    assert!(!chunk.is_critical());
}

#[test]
pub fn test_chunk_type_is_public() {
    let chunk = ChunkType::parse_text("RUSt").unwrap();
    assert!(chunk.is_public());
}

#[test]
pub fn test_chunk_type_is_not_public() {
    let chunk = ChunkType::parse_text("RuSt").unwrap();
    assert!(!chunk.is_public());
}

#[test]
pub fn test_chunk_type_is_reserved_bit_valid() {
    let chunk = ChunkType::parse_text("RuSt").unwrap();
    assert!(chunk.is_reserved_bit_valid());
}

#[test]
pub fn test_chunk_type_is_reserved_bit_invalid() {
    let chunk = ChunkType::parse_text("Rust").unwrap();
    assert!(!chunk.is_reserved_bit_valid());
}

#[test]
pub fn test_chunk_type_is_safe_to_copy() {
    let chunk = ChunkType::parse_text("RuSt").unwrap();
    assert!(chunk.is_safe_to_copy());
}

#[test]
pub fn test_chunk_type_is_unsafe_to_copy() {
    let chunk = ChunkType::parse_text("RuST").unwrap();
    assert!(!chunk.is_safe_to_copy());
}

#[test]
pub fn test_valid_chunk_is_valid() {
    let chunk = ChunkType::parse_text("RuSt").unwrap();
    assert!(chunk.is_valid());
}

#[test]
pub fn test_invalid_chunk_is_valid() {
    let chunk = ChunkType::parse_text("Rust").unwrap();
    assert!(!chunk.is_valid());

    let chunk = ChunkType::parse_text("Ru1t");
    println!("{chunk:?}");
    assert!(chunk.is_err());
}

#[test]
pub fn test_chunk_type_string() {
    let chunk = ChunkType::parse_text("RuSt").unwrap();
    assert_eq!(chunk.to_text(), "RuSt");
}

#[test]
pub fn test_chunk_type_trait_impls() {
    let chunk_type_1: ChunkType = ChunkType::parse_bytes([82, 117, 83, 116]);
    let chunk_type_2: ChunkType = ChunkType::parse_text("RuSt").unwrap();
    let _chunk_string = chunk_type_1.to_text();
    let _are_chunks_equal = chunk_type_1 == chunk_type_2;
}

#[test]
pub fn test_type_validity_table() {
    let t = ChunkType::parse_text("RuSt").unwrap();
    assert!(t.is_critical());
    assert!(!t.is_public());
    assert!(t.is_reserved_bit_valid());
    assert!(t.is_safe_to_copy());

    let t = ChunkType::parse_text("Rust").unwrap();
    assert!(!t.is_valid());

    assert_eq!(ChunkType::parse_text("Ru1t").unwrap_err(), PngError::InvalidCharacters);
    assert_eq!(ChunkType::parse_text("abcde").unwrap_err(), PngError::InvalidLength);
}

#[test]
pub fn test_raw_type_to_text_fallback() {
    let t = ChunkType::parse_bytes([0xFF, 0xFE, 65, 66]);
    assert_eq!(t.to_text(), "Cannot convert utf8 to string");
    assert!(!t.is_valid());
}
