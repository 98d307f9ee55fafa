use pngme::chunk::Chunk;
use pngme::chunk_type::ChunkType;
use pngme::PngError;

fn raw_testing_chunk() -> Vec<u8> {
    let data_length: u32 = 42;
    let chunk_type = "RuSt".as_bytes();
    let message_bytes = "This is where your secret message will be!".as_bytes();
    let crc: u32 = 2882656334;

    let mut chunk_data: Vec<u8> = Vec::new();
    chunk_data.extend_from_slice(&data_length.to_be_bytes());
    chunk_data.extend_from_slice(chunk_type);
    chunk_data.extend_from_slice(message_bytes);
    chunk_data.extend_from_slice(&crc.to_be_bytes());

    chunk_data
}

fn testing_chunk() -> Chunk {
    let chunk_data = raw_testing_chunk();
    Chunk::parse(chunk_data.as_slice()).unwrap()
}

#[test]
fn test_new_chunk() {
    let chunk_type = ChunkType::parse_text("RuSt").unwrap();
    let data = "This is where your secret message will be!"
        .as_bytes()
        .to_vec();
    let chunk = Chunk::new(chunk_type, data);
    assert_eq!(chunk.length(), 42);
    assert_eq!(chunk.crc(), 2882656334);
}

#[test]
fn test_chunk_as_bytes() {
    let chunk = testing_chunk();
    let bytes = chunk.as_bytes();
    let expected_chunk_bytes = raw_testing_chunk();

    assert_eq!(bytes, expected_chunk_bytes);
}

#[test]
fn test_chunk_length() {
    let chunk = testing_chunk();
    assert_eq!(chunk.length(), 42);
}

#[test]
fn test_chunk_type() {
    let chunk = testing_chunk();
    assert_eq!(chunk.chunk_type().to_text(), String::from("RuSt"));
}

#[test]
fn test_chunk_string() {
    let chunk = testing_chunk();
    let chunk_string = chunk.data_as_string().unwrap();
    let expected_chunk_string = String::from("This is where your secret message will be!");
    assert_eq!(chunk_string, expected_chunk_string);
}

#[test]
fn test_chunk_crc() {
    let chunk = testing_chunk();
    assert_eq!(chunk.crc(), 2882656334);
}

#[test]
fn test_valid_chunk_from_bytes() {
    let data_length: u32 = 42;
    let chunk_type = "RuSt".as_bytes();
    let message_bytes = "This is where your secret message will be!".as_bytes();
    let crc: u32 = 2882656334;

    let mut chunk_data: Vec<u8> = Vec::new();
    chunk_data.extend_from_slice(&data_length.to_be_bytes());
    chunk_data.extend_from_slice(chunk_type);
    chunk_data.extend_from_slice(message_bytes);
    chunk_data.extend_from_slice(&crc.to_be_bytes());

    let chunk = Chunk::parse(chunk_data.as_slice()).unwrap();

    let chunk_string = chunk.data_as_string().unwrap();
    let expected_chunk_string = String::from("This is where your secret message will be!");

    assert_eq!(chunk.length(), 42);
    assert_eq!(chunk.chunk_type().to_text(), String::from("RuSt"));
    assert_eq!(chunk_string, expected_chunk_string);
    assert_eq!(chunk.crc(), 2882656334);
}

#[test]
fn test_invalid_chunk_from_bytes() {
    let data_length: u32 = 42;
    let chunk_type = "RuSt".as_bytes();
    let message_bytes = "This is where your secret message will be!".as_bytes();
    let crc: u32 = 2882656333;

    let mut chunk_data: Vec<u8> = Vec::new();
    chunk_data.extend_from_slice(&data_length.to_be_bytes());
    chunk_data.extend_from_slice(chunk_type);
    chunk_data.extend_from_slice(message_bytes);
    chunk_data.extend_from_slice(&crc.to_be_bytes());

    let chunk = Chunk::parse(chunk_data.as_slice());

    assert!(chunk.is_err());
}

#[test]
pub fn test_chunk_trait_impls() {
    let data_length: u32 = 42;
    let chunk_type = "RuSt".as_bytes();
    let message_bytes = "This is where your secret message will be!".as_bytes();
    let crc: u32 = 2882656334;

    let mut chunk_data: Vec<u8> = Vec::new();
    chunk_data.extend_from_slice(&data_length.to_be_bytes());
    chunk_data.extend_from_slice(chunk_type);
    chunk_data.extend_from_slice(message_bytes);
    chunk_data.extend_from_slice(&crc.to_be_bytes());

    let chunk: Chunk = Chunk::parse(chunk_data.as_slice()).unwrap();

    let _chunk_string = format!("{:?}", chunk);
}

#[test]
fn test_chunk_round_trip() {
    let chunk_type = ChunkType::parse_text("TeSt").unwrap();
    let data: Vec<u8> = vec![0, 1, 2, 254, 255];
    let chunk = Chunk::new(chunk_type, data.clone());
    let bytes = chunk.as_bytes();

    let parsed = Chunk::parse(bytes.as_slice()).unwrap();
    assert_eq!(parsed.chunk_type().bytes(), chunk.chunk_type().bytes());
    assert_eq!(parsed.data(), data.as_slice());
    assert_eq!(parsed.crc(), chunk.crc());
}

#[test]
fn test_chunk_empty_data_round_trip() {
    let chunk_type = ChunkType::parse_text("ruSt").unwrap();
    let chunk = Chunk::new(chunk_type, Vec::new());
    assert_eq!(chunk.length(), 0);
    let bytes = chunk.as_bytes();
    assert_eq!(bytes.len(), 12);

    let parsed = Chunk::parse(bytes.as_slice()).unwrap();
    assert_eq!(parsed.data(), &[] as &[u8]);
    assert_eq!(parsed.crc(), chunk.crc());
}

#[test]
fn test_checksum_bit_sensitivity() {
    let chunk = testing_chunk();
    let bytes = chunk.as_bytes();
    // Flip every single bit of the type and data regions in turn: each
    // flip must make parsing fail with a checksum mismatch.
    for byte_pos in 4..(bytes.len() - 4) {
        for bit in 0..8 {
            let mut corrupted = bytes.clone();
            corrupted[byte_pos] ^= 1u8 << bit;
            let r = Chunk::parse(corrupted.as_slice());
            assert!(matches!(r, Err(PngError::ChecksumMismatch { .. })));
        }
    }
}

#[test]
fn test_chunk_truncated() {
    let bytes = raw_testing_chunk();
    assert_eq!(Chunk::parse(&bytes[..11]).unwrap_err(), PngError::Truncated);
    assert_eq!(Chunk::parse(&bytes[..20]).unwrap_err(), PngError::Truncated);
    assert_eq!(Chunk::parse(&[]).unwrap_err(), PngError::Truncated);
}

#[test]
fn test_chunk_checksum_mismatch_reports_values() {
    let mut bytes = raw_testing_chunk();
    let n = bytes.len();
    // Corrupt the stored checksum itself: the parser reports the stored
    // value and the recomputed one.
    bytes[n - 1] = bytes[n - 1].wrapping_add(1);
    match Chunk::parse(bytes.as_slice()) {
        Err(PngError::ChecksumMismatch { expected, found }) => {
            assert_eq!(expected, 2882656334);
            assert_eq!(found, 2882656335);
        }
        other => panic!("{other:?}"),
    }
}

#[test]
fn test_data_as_string_invalid_utf8() {
    let chunk_type = ChunkType::parse_text("ruSt").unwrap();
    let chunk = Chunk::new(chunk_type, vec![0xFF, 0xFE, 0x00]);
    assert_eq!(chunk.data_as_string().unwrap_err(), PngError::InvalidUtf8Payload);
}
