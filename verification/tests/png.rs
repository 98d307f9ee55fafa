use pngme::chunk::Chunk;
use pngme::chunk_type::ChunkType;
use pngme::ops;
use pngme::png::Png;
use pngme::PngError;

fn signature() -> Vec<u8> {
    vec![137, 80, 78, 71, 13, 10, 26, 10]
}

fn chunk_of(ty: &str, data: &[u8]) -> Chunk {
    Chunk::new(ChunkType::parse_text(ty).unwrap(), data.to_vec())
}

fn buffer_with_chunks(chunks: &[(&str, &[u8])]) -> Vec<u8> {
    let mut out = signature();
    for (ty, data) in chunks {
        out.extend_from_slice(chunk_of(ty, data).as_bytes().as_slice());
    }
    out
}

#[test]
fn test_png_parse_empty() {
    let buf = signature();
    let png = Png::parse(buf.as_slice()).unwrap();
    assert_eq!(png.as_bytes(), buf);
    assert!(png.chunk_by_type(&ChunkType::parse_text("RuSt").unwrap()).is_none());
}

#[test]
fn test_png_round_trip() {
    let buf = buffer_with_chunks(&[
        ("FrSt", b"I am the first chunk"),
        ("miDl", b"I am another chunk"),
        ("LASt", b"I am the last chunk"),
    ]);
    let png = Png::parse(buf.as_slice()).unwrap();
    assert_eq!(png.as_bytes(), buf);
}

#[test]
fn test_png_bad_signature() {
    let mut buf = buffer_with_chunks(&[("FrSt", b"hello")]);
    buf[0] = 13;
    assert_eq!(Png::parse(buf.as_slice()).unwrap_err(), PngError::BadSignature);
    assert_eq!(Png::parse(&buf[..5]).unwrap_err(), PngError::BadSignature);
}

#[test]
fn test_png_truncated_chunk() {
    let buf = buffer_with_chunks(&[("FrSt", b"hello")]);
    let cut = &buf[..buf.len() - 3];
    assert_eq!(Png::parse(cut).unwrap_err(), PngError::Truncated);
}

#[test]
fn test_png_corrupt_chunk() {
    let mut buf = buffer_with_chunks(&[("FrSt", b"hello"), ("miDl", b"world")]);
    let n = buf.len();
    buf[n - 6] ^= 0x20;
    assert!(matches!(
        Png::parse(buf.as_slice()),
        Err(PngError::ChecksumMismatch { .. })
    ));
}

#[test]
fn test_png_chunk_by_type() {
    let buf = buffer_with_chunks(&[("FrSt", b"one"), ("duPl", b"two"), ("duPl", b"three")]);
    let png = Png::parse(buf.as_slice()).unwrap();

    let t = ChunkType::parse_text("duPl").unwrap();
    let c = png.chunk_by_type(&t).unwrap();
    assert_eq!(c.data(), b"two".as_slice());

    let miss = ChunkType::parse_text("noNe").unwrap();
    assert!(png.chunk_by_type(&miss).is_none());
}

#[test]
fn test_png_remove_chunk_miss() {
    let buf = buffer_with_chunks(&[("FrSt", b"one")]);
    let mut png = Png::parse(buf.as_slice()).unwrap();
    let miss = ChunkType::parse_text("noNe").unwrap();
    assert!(png.chunk_by_type(&miss).is_none());
    assert_eq!(png.remove_chunk(&miss).unwrap_err(), PngError::ChunkNotFound);
    assert_eq!(png.as_bytes(), buf);
}

#[test]
fn test_png_append_remove_inverse() {
    let buf = buffer_with_chunks(&[("FrSt", b"one"), ("miDl", b"two")]);
    let mut png = Png::parse(buf.as_slice()).unwrap();
    let before = png.as_bytes();

    let appended = chunk_of("teSt", b"a secret");
    let appended_crc = appended.crc();
    png.append_chunk(appended);

    let t = ChunkType::parse_text("teSt").unwrap();
    let removed = png.remove_chunk(&t).unwrap();
    assert_eq!(removed.chunk_type().bytes(), t.bytes());
    assert_eq!(removed.data(), b"a secret".as_slice());
    assert_eq!(removed.crc(), appended_crc);
    assert_eq!(png.as_bytes(), before);
}

#[test]
fn test_png_remove_first_of_duplicates() {
    let buf = buffer_with_chunks(&[("duPl", b"first"), ("duPl", b"second")]);
    let mut png = Png::parse(buf.as_slice()).unwrap();
    let t = ChunkType::parse_text("duPl").unwrap();
    let removed = png.remove_chunk(&t).unwrap();
    assert_eq!(removed.data(), b"first".as_slice());
    let rest = png.chunk_by_type(&t).unwrap();
    assert_eq!(rest.data(), b"second".as_slice());
}

#[test]
fn test_encode_decode_end_to_end() {
    let buf = signature();
    let encoded = ops::encode(buf.as_slice(), "ruSt", b"hello").unwrap();
    let message = ops::decode(encoded.as_slice(), "ruSt").unwrap();
    assert_eq!(message, "hello");
}

#[test]
fn test_encode_appends_bytes() {
    let buf = buffer_with_chunks(&[("FrSt", b"one")]);
    let encoded = ops::encode(buf.as_slice(), "ruSt", b"hello").unwrap();
    assert_eq!(&encoded[..buf.len()], buf.as_slice());
    let expected_chunk = chunk_of("ruSt", b"hello").as_bytes();
    assert_eq!(&encoded[buf.len()..], expected_chunk.as_slice());
}

#[test]
fn test_encode_errors() {
    let buf = buffer_with_chunks(&[("FrSt", b"one")]);
    assert_eq!(
        ops::encode(&buf[1..], "ruSt", b"hello").unwrap_err(),
        PngError::BadSignature
    );
    assert_eq!(
        ops::encode(buf.as_slice(), "toolong", b"hello").unwrap_err(),
        PngError::InvalidLength
    );
    assert_eq!(
        ops::encode(buf.as_slice(), "ru1t", b"hello").unwrap_err(),
        PngError::InvalidCharacters
    );
}

#[test]
fn test_decode_errors() {
    let buf = buffer_with_chunks(&[("FrSt", b"one")]);
    assert_eq!(
        ops::decode(buf.as_slice(), "noNe").unwrap_err(),
        PngError::ChunkNotFound
    );
    let with_binary = ops::encode(buf.as_slice(), "biNy", &[0xFF, 0xFE]).unwrap();
    assert_eq!(
        ops::decode(with_binary.as_slice(), "biNy").unwrap_err(),
        PngError::InvalidUtf8Payload
    );
}

#[test]
fn test_remove_returns_chunk_and_bytes() {
    let buf = buffer_with_chunks(&[("FrSt", b"one")]);
    let encoded = ops::encode(buf.as_slice(), "ruSt", b"hidden").unwrap();
    let (removed, rest) = ops::remove(encoded.as_slice(), "ruSt").unwrap();
    assert_eq!(removed.data(), b"hidden".as_slice());
    assert_eq!(removed.chunk_type().to_text(), "ruSt");
    assert_eq!(rest, buf);

    assert_eq!(
        ops::remove(rest.as_slice(), "ruSt").unwrap_err(),
        PngError::ChunkNotFound
    );
}
