//! A verified model of a PNG-style chunked container format.
//!
//! The container is a fixed 8-byte signature followed by a sequence of
//! chunks; each chunk is a big-endian length, a 4-byte type whose letter
//! casing encodes flags, an opaque payload, and a CRC-32 checksum over the
//! type and payload. The library parses, mutates and re-serializes such
//! containers, and proves that parsing and serialization are inverses.

use vstd::prelude::*;

pub mod checksum;
pub mod chunk;
pub mod chunk_type;
pub mod ops;
pub mod png;
pub mod text;
pub mod wire;

verus! {

/// Everything that can go wrong while parsing a container, a chunk, or a
/// chunk type, or while looking a chunk up.
#[derive(Debug, Clone, Copy, PartialEq, Eq, Structural)]
pub enum PngError {
    /// The first 8 bytes of the buffer are not the container signature.
    BadSignature,
    /// The buffer ends before the bytes that its length fields promise.
    Truncated,
    /// The checksum stored in a chunk disagrees with the checksum computed
    /// over its type and payload.
    ChecksumMismatch { expected: u32, found: u32 },
    /// A chunk type was given as text that is not exactly 4 bytes long.
    InvalidLength,
    /// A chunk type was given as text holding a byte that is not an ASCII
    /// letter.
    InvalidCharacters,
    /// No chunk of the requested type is present.
    ChunkNotFound,
    /// A chunk payload was asked for as text but is not valid UTF-8.
    InvalidUtf8Payload,
}

} // verus!
