//! The 4-byte chunk type identifier, whose letter casing encodes four
//! independent boolean flags.

use vstd::prelude::*;
use vstd::string::StringSliceAdditionalSpecFns;
use vstd::utf8::decode_utf8;
use vstd::utf8::valid_utf8;

use crate::text::utf8_to_string;
use crate::PngError;

verus! {

/// An ASCII uppercase letter.
pub open spec fn is_upper(b: u8) -> bool {
    65 <= b <= 90
}

/// An ASCII lowercase letter.
pub open spec fn is_lower(b: u8) -> bool {
    97 <= b <= 122
}

/// An ASCII letter of either case.
pub open spec fn is_letter(b: u8) -> bool {
    is_upper(b) || is_lower(b)
}

/// Every byte of the sequence is an ASCII letter.
pub open spec fn all_letters(s: Seq<u8>) -> bool {
    forall|i: int| 0 <= i < s.len() ==> is_letter(#[trigger] s[i])
}

/// Whether every byte of the slice is an ASCII letter.
pub fn only_letters(bytes: &[u8]) -> (r: bool)
    ensures
        r == all_letters(bytes@),
{
    let mut i: usize = 0;
    while i < bytes.len()
        invariant
            i <= bytes@.len(),
            forall|j: int| 0 <= j < i ==> is_letter(#[trigger] bytes@[j]),
        decreases bytes@.len() - i,
    {
        let b = bytes[i];
        if !(65 <= b && b <= 90) && !(97 <= b && b <= 122) {
            return false;
        }
        i += 1;
    }
    true
}

/// A chunk type: exactly 4 bytes. Parsed from text it holds ASCII letters
/// only; taken raw from already-serialized data it may hold any bytes.
#[derive(Debug, Clone, Copy)]
pub struct ChunkType {
    bytes: [u8; 4],
}

impl View for ChunkType {
    type V = Seq<u8>;

    closed spec fn view(&self) -> Seq<u8> {
        self.bytes@
    }
}

/// A chunk type is always exactly 4 bytes.
pub broadcast proof fn lemma_chunk_type_len(t: ChunkType)
    ensures
        (#[trigger] t@).len() == 4,
{
}

impl PartialEq for ChunkType {
    /// Chunk types compare by byte-exact equality.
    fn eq(&self, other: &ChunkType) -> (r: bool) {
        let r = self.bytes[0] == other.bytes[0] && self.bytes[1] == other.bytes[1]
            && self.bytes[2] == other.bytes[2] && self.bytes[3] == other.bytes[3];
        proof {
            if r {
                assert(self@ =~= other@);
            }
        }
        r
    }
}

impl Eq for ChunkType {

}

impl vstd::std_specs::cmp::PartialEqSpecImpl for ChunkType {
    open spec fn obeys_eq_spec() -> bool {
        true
    }

    open spec fn eq_spec(&self, other: &ChunkType) -> bool {
        self@ == other@
    }
}

impl ChunkType {
    /// Wraps 4 raw bytes without validation; used when re-reading
    /// already-serialized data, where the checksum is the authority.
    pub fn parse_bytes(bytes: [u8; 4]) -> (r: ChunkType)
        ensures
            r@ == bytes@,
    {
        ChunkType { bytes }
    }

    /// Builds a chunk type from text: the text must be exactly 4 bytes,
    /// all ASCII letters.
    pub fn parse_text(s: &str) -> (r: Result<ChunkType, PngError>)
        ensures
            s.spec_bytes().len() != 4 ==> r == Err::<ChunkType, PngError>(PngError::InvalidLength),
            s.spec_bytes().len() == 4 && !all_letters(s.spec_bytes()) ==> r == Err::<
                ChunkType,
                PngError,
            >(PngError::InvalidCharacters),
            s.spec_bytes().len() == 4 && all_letters(s.spec_bytes()) ==> (r matches Ok(t) && t@
                == s.spec_bytes()),
    {
        let bytes = s.as_bytes();
        if bytes.len() != 4 {
            Err(PngError::InvalidLength)
        } else if !only_letters(bytes) {
            Err(PngError::InvalidCharacters)
        } else {
            let t = ChunkType { bytes: [bytes[0], bytes[1], bytes[2], bytes[3]] };
            proof {
                assert(t@ =~= s.spec_bytes());
            }
            Ok(t)
        }
    }

    /// The raw 4 bytes.
    pub fn bytes(&self) -> (r: [u8; 4])
        ensures
            r@ == self@,
    {
        self.bytes
    }

    /// Uppercase first byte: the chunk is critical, and unaware readers
    /// must not skip it.
    pub fn is_critical(&self) -> (r: bool)
        ensures
            r == is_upper(self@[0]),
    {
        65 <= self.bytes[0] && self.bytes[0] <= 90
    }

    /// Uppercase second byte: the chunk type is publicly registered.
    pub fn is_public(&self) -> (r: bool)
        ensures
            r == is_upper(self@[1]),
    {
        65 <= self.bytes[1] && self.bytes[1] <= 90
    }

    /// Uppercase third byte: the type conforms to the current revision of
    /// the format.
    pub fn is_reserved_bit_valid(&self) -> (r: bool)
        ensures
            r == is_upper(self@[2]),
    {
        65 <= self.bytes[2] && self.bytes[2] <= 90
    }

    /// Lowercase fourth byte: editors may copy the chunk unmodified.
    pub fn is_safe_to_copy(&self) -> (r: bool)
        ensures
            r == is_lower(self@[3]),
    {
        97 <= self.bytes[3] && self.bytes[3] <= 122
    }

    /// All 4 bytes are letters and the reserved bit is valid.
    pub fn is_valid(&self) -> (r: bool)
        ensures
            r == (all_letters(self@) && is_upper(self@[2])),
    {
        let arr = self.bytes;
        only_letters(arr.as_slice()) && self.is_reserved_bit_valid()
    }

    /// The 4 bytes as text, or a fixed placeholder when they are not valid
    /// UTF-8 (raw chunk types may hold arbitrary bytes).
    pub fn to_text(&self) -> (r: String)
        ensures
            valid_utf8(self@) ==> r@ == decode_utf8(self@),
            !valid_utf8(self@) ==> r@ == "Cannot convert utf8 to string"@,
    {
        let arr = self.bytes;
        match utf8_to_string(arr.as_slice()) {
            Some(s) => s,
            None => String::from_str("Cannot convert utf8 to string"),
        }
    }
}

} // verus!
