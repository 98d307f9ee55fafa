//! One chunk: a length-prefixed, type-tagged, checksum-protected record.

use vstd::prelude::*;
use vstd::slice::slice_subrange;
use vstd::slice::slice_to_vec;
use vstd::utf8::decode_utf8;
use vstd::utf8::valid_utf8;

use crate::checksum::crc32;
use crate::checksum::crc32_of;
use crate::chunk_type::ChunkType;
use crate::text::utf8_to_string;
use crate::wire::be_bytes;
use crate::wire::be_val;
use crate::wire::lemma_be_bytes_of_be_val;
use crate::wire::lemma_be_val_of_be_bytes;
use crate::wire::push_be_u32;
use crate::wire::read_be_u32;
use crate::PngError;

verus! {

broadcast use crate::chunk_type::lemma_chunk_type_len;

/// The payload length that the first 4 bytes of a chunk stream declare.
pub open spec fn head_len(b: Seq<u8>) -> int
    recommends
        b.len() >= 12,
{
    be_val(b.subrange(0, 4))
}

/// The full size of the first chunk of a stream: length, type and
/// checksum fields plus the declared payload.
pub open spec fn head_total(b: Seq<u8>) -> int
    recommends
        b.len() >= 12,
{
    12 + head_len(b)
}

/// Whether the stream holds all the bytes its first chunk declares.
pub open spec fn head_fits(b: Seq<u8>) -> bool {
    b.len() >= 12 && head_total(b) <= b.len()
}

/// The type field of the first chunk of a stream.
pub open spec fn head_ty(b: Seq<u8>) -> Seq<u8>
    recommends
        b.len() >= 12,
{
    b.subrange(4, 8)
}

/// The payload of the first chunk of a stream.
pub open spec fn head_data(b: Seq<u8>) -> Seq<u8>
    recommends
        head_fits(b),
{
    b.subrange(8, 8 + head_len(b))
}

/// The checksum stored in the first chunk of a stream.
pub open spec fn head_stored_crc(b: Seq<u8>) -> int
    recommends
        head_fits(b),
{
    be_val(b.subrange(8 + head_len(b), head_total(b)))
}

/// The checksum that the first chunk of a stream ought to carry.
pub open spec fn head_computed_crc(b: Seq<u8>) -> u32
    recommends
        head_fits(b),
{
    crc32_of(head_ty(b) + head_data(b))
}

/// Whether the stored and the recomputed checksum agree.
pub open spec fn head_crc_ok(b: Seq<u8>) -> bool
    recommends
        head_fits(b),
{
    head_stored_crc(b) == head_computed_crc(b)
}

/// The serialized form of a chunk with the given type and payload: the
/// only byte sequence that parses to it.
pub open spec fn chunk_bytes(ty: Seq<u8>, data: Seq<u8>) -> Seq<u8>
    recommends
        data.len() <= u32::MAX,
{
    be_bytes(data.len() as u32) + ty + data + be_bytes(crc32_of(ty + data))
}

/// One chunk record: a 4-byte type, an opaque payload, and the checksum
/// over both. The length field always counts the payload, and the
/// checksum always matches: no constructor lets a value violate that.
#[derive(Debug)]
pub struct Chunk {
    length: u32,
    chunk_type: ChunkType,
    data: Vec<u8>,
    crc: u32,
}

impl Chunk {
    /// The 4 type bytes.
    pub closed spec fn ty(self) -> Seq<u8> {
        self.chunk_type@
    }

    /// The payload bytes.
    pub closed spec fn payload(self) -> Seq<u8> {
        self.data@
    }

    /// The value of the length field.
    pub closed spec fn spec_length(self) -> u32 {
        self.length
    }

    /// The stored checksum.
    pub closed spec fn spec_crc(self) -> u32 {
        self.crc
    }

    /// Well-formed: the length field counts the payload and the stored
    /// checksum is the checksum of type and payload.
    pub open spec fn wf(self) -> bool {
        &&& self.ty().len() == 4
        &&& self.spec_length() as int == self.payload().len()
        &&& self.spec_crc() == crc32_of(self.ty() + self.payload())
    }

    /// The serialized form: big-endian length, type, payload, big-endian
    /// checksum.
    pub open spec fn spec_serialize(self) -> Seq<u8> {
        be_bytes(self.spec_length()) + self.ty() + self.payload() + be_bytes(self.spec_crc())
    }

    /// The checksum over a chunk type's bytes followed by the payload.
    pub fn calc_crc(chunk_type: &ChunkType, data: &Vec<u8>) -> (r: u32)
        ensures
            r == crc32_of(chunk_type@ + data@),
    {
        let tb = chunk_type.bytes();
        let mut buf: Vec<u8> = Vec::new();
        buf.push(tb[0]);
        buf.push(tb[1]);
        buf.push(tb[2]);
        buf.push(tb[3]);
        proof {
            assert(buf@ =~= chunk_type@ + data@.subrange(0, 0));
        }
        let mut i: usize = 0;
        while i < data.len()
            invariant
                i <= data@.len(),
                buf@ == chunk_type@ + data@.subrange(0, i as int),
            decreases data@.len() - i,
        {
            buf.push(data[i]);
            proof {
                assert(buf@ =~= chunk_type@ + data@.subrange(0, i + 1));
            }
            i += 1;
        }
        proof {
            assert(data@.subrange(0, data@.len() as int) =~= data@);
        }
        crc32(buf.as_slice())
    }

    /// Builds a chunk from a type and a payload, computing the length and
    /// the checksum.
    pub fn new(chunk_type: ChunkType, data: Vec<u8>) -> (r: Chunk)
        requires
            data@.len() <= u32::MAX,
        ensures
            r.wf(),
            r.ty() == chunk_type@,
            r.payload() == data@,
    {
        let length = data.len() as u32;
        let crc = Chunk::calc_crc(&chunk_type, &data);
        Chunk { length, chunk_type, data, crc }
    }

    /// Parses the first chunk of `bytes`, ignoring whatever follows it.
    ///
    /// Fails with `Truncated` when the buffer holds fewer bytes than the
    /// chunk's length field declares (or fewer than the 12 that the fixed
    /// fields need), and with `ChecksumMismatch` when the stored checksum
    /// is not the checksum of the type and payload bytes.
    pub fn parse(bytes: &[u8]) -> (r: Result<Chunk, PngError>)
        ensures
            !head_fits(bytes@) ==> r == Err::<Chunk, PngError>(PngError::Truncated),
            head_fits(bytes@) && !head_crc_ok(bytes@) ==> r == Err::<Chunk, PngError>(
                PngError::ChecksumMismatch {
                    expected: head_computed_crc(bytes@),
                    found: head_stored_crc(bytes@) as u32,
                },
            ),
            head_fits(bytes@) && head_crc_ok(bytes@) ==> (r matches Ok(c) && c.wf() && c.ty()
                == head_ty(bytes@) && c.payload() == head_data(bytes@)),
    {
        if bytes.len() < 12 {
            return Err(PngError::Truncated);
        }
        let l = read_be_u32(bytes, 0);
        if (l as usize) > bytes.len() - 12 {
            return Err(PngError::Truncated);
        }
        let chunk_type = ChunkType::parse_bytes([bytes[4], bytes[5], bytes[6], bytes[7]]);
        proof {
            assert(chunk_type@ =~= head_ty(bytes@));
        }
        let data = slice_to_vec(slice_subrange(bytes, 8, 8 + l as usize));
        let stored = read_be_u32(bytes, 8 + l as usize);
        let computed = Chunk::calc_crc(&chunk_type, &data);
        if stored != computed {
            return Err(
                PngError::ChecksumMismatch { expected: computed, found: stored },
            );
        }
        Ok(Chunk { length: l, chunk_type, data, crc: stored })
    }

    /// Serializes the chunk: the exact inverse of `parse` for any chunk.
    pub fn as_bytes(&self) -> (r: Vec<u8>)
        ensures
            r@ == self.spec_serialize(),
    {
        let mut out: Vec<u8> = Vec::new();
        push_be_u32(&mut out, self.length);
        let tb = self.chunk_type.bytes();
        out.push(tb[0]);
        out.push(tb[1]);
        out.push(tb[2]);
        out.push(tb[3]);
        proof {
            assert(out@ =~= be_bytes(self.spec_length()) + self.ty() + self.payload().subrange(
                0,
                0,
            ));
        }
        let mut i: usize = 0;
        while i < self.data.len()
            invariant
                i <= self.payload().len(),
                out@ == be_bytes(self.spec_length()) + self.ty() + self.payload().subrange(
                    0,
                    i as int,
                ),
            decreases self.payload().len() - i,
        {
            out.push(self.data[i]);
            proof {
                assert(out@ =~= be_bytes(self.spec_length()) + self.ty()
                    + self.payload().subrange(0, i + 1));
            }
            i += 1;
        }
        push_be_u32(&mut out, self.crc);
        proof {
            assert(self.payload().subrange(0, self.payload().len() as int) =~= self.payload());
            assert(out@ =~= self.spec_serialize());
        }
        out
    }

    /// The value of the length field.
    pub fn length(&self) -> (r: u32)
        ensures
            r == self.spec_length(),
    {
        self.length
    }

    /// The chunk's type.
    pub fn chunk_type(&self) -> (r: &ChunkType)
        ensures
            r@ == self.ty(),
    {
        &self.chunk_type
    }

    /// The payload bytes.
    pub fn data(&self) -> (r: &[u8])
        ensures
            r@ == self.payload(),
    {
        self.data.as_slice()
    }

    /// The stored checksum.
    pub fn crc(&self) -> (r: u32)
        ensures
            r == self.spec_crc(),
    {
        self.crc
    }

    /// The payload read as UTF-8 text; fails when it is not valid UTF-8,
    /// as a payload may legitimately be arbitrary binary.
    pub fn data_as_string(&self) -> (r: Result<String, PngError>)
        ensures
            valid_utf8(self.payload()) ==> (r matches Ok(s) && s@ == decode_utf8(self.payload())),
            !valid_utf8(self.payload()) ==> r == Err::<String, PngError>(
                PngError::InvalidUtf8Payload,
            ),
    {
        match utf8_to_string(self.data.as_slice()) {
            Some(s) => Ok(s),
            None => Err(PngError::InvalidUtf8Payload),
        }
    }
}

/// The bytes of a chunk with the given type and payload, put in front of
/// any tail, parse back to the same type and payload, and consume exactly
/// themselves.
pub proof fn lemma_chunk_bytes_parses_back(ty: Seq<u8>, data: Seq<u8>, rest: Seq<u8>)
    requires
        ty.len() == 4,
        data.len() <= u32::MAX,
    ensures
        ({
            let b = chunk_bytes(ty, data) + rest;
            &&& head_fits(b)
            &&& head_len(b) == data.len()
            &&& head_total(b) == chunk_bytes(ty, data).len()
            &&& head_ty(b) == ty
            &&& head_data(b) == data
            &&& head_crc_ok(b)
            &&& head_computed_crc(b) == crc32_of(ty + data)
            &&& b.skip(head_total(b)) == rest
        }),
{
    let b = chunk_bytes(ty, data) + rest;
    let n = data.len() as int;
    let lv = data.len() as u32;
    assert(b.subrange(0, 4) =~= be_bytes(lv));
    lemma_be_val_of_be_bytes(lv);
    assert(head_len(b) == lv);
    assert(head_ty(b) =~= ty);
    assert(head_data(b) =~= data);
    assert(b.subrange(8 + n, 12 + n) =~= be_bytes(crc32_of(ty + data)));
    lemma_be_val_of_be_bytes(crc32_of(ty + data));
    assert(head_stored_crc(b) == crc32_of(ty + data));
    assert(head_computed_crc(b) == crc32_of(ty + data));
    assert(b.skip(head_total(b)) =~= rest);
}

/// A well-formed chunk's serialization carries its fields verbatim: put in
/// front of any tail, it parses back with the same type, payload and
/// checksum, and consumes exactly its own bytes. With `Chunk::new` and
/// `Chunk::parse` this is the round trip: `parse(new(t, d).as_bytes())`
/// returns a chunk with the type, payload and checksum of the original.
pub proof fn lemma_serialize_parses_back(c: Chunk, rest: Seq<u8>)
    requires
        c.wf(),
    ensures
        ({
            let b = c.spec_serialize() + rest;
            &&& head_fits(b)
            &&& head_len(b) == c.payload().len()
            &&& head_total(b) == c.spec_serialize().len()
            &&& head_ty(b) == c.ty()
            &&& head_data(b) == c.payload()
            &&& head_crc_ok(b)
            &&& head_computed_crc(b) == c.spec_crc()
            &&& b.skip(head_total(b)) == rest
        }),
{
    lemma_serialize_is_chunk_bytes(c);
    lemma_chunk_bytes_parses_back(c.ty(), c.payload(), rest);
}

/// The converse: the first chunk of any stream that parses is serialized
/// back byte-for-byte. Its bytes are exactly `chunk_bytes` of the type
/// and payload that parsing recovered.
pub proof fn lemma_head_serializes_back(b: Seq<u8>)
    requires
        head_fits(b),
        head_crc_ok(b),
    ensures
        head_data(b).len() == head_len(b) <= u32::MAX,
        chunk_bytes(head_ty(b), head_data(b)) == b.subrange(0, head_total(b)),
{
    let ty = head_ty(b);
    let data = head_data(b);
    lemma_be_bytes_of_be_val(b.subrange(0, 4));
    assert(be_val(b.subrange(0, 4)) == head_len(b));
    assert(data.len() == head_len(b));
    assert(be_bytes(data.len() as u32) == b.subrange(0, 4));
    lemma_be_bytes_of_be_val(b.subrange(8 + head_len(b), head_total(b)));
    assert(be_bytes(head_stored_crc(b) as u32) == b.subrange(8 + head_len(b), head_total(b)));
    assert(crc32_of(ty + data) == head_stored_crc(b) as u32);
    assert(chunk_bytes(ty, data) =~= b.subrange(0, head_total(b)));
}

/// A well-formed chunk serializes to `chunk_bytes` of its type and
/// payload: the serialized form is determined by those two alone.
pub proof fn lemma_serialize_is_chunk_bytes(c: Chunk)
    requires
        c.wf(),
    ensures
        c.spec_serialize() == chunk_bytes(c.ty(), c.payload()),
{
}

} // verus!
