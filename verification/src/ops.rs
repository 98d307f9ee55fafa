//! The operations the boundary layer drives: hide a message in a
//! container, read it back, remove it. Each works on a whole container
//! buffer and hands back plain values.

use vstd::prelude::*;
use vstd::slice::slice_to_vec;
use vstd::string::StringSliceAdditionalSpecFns;
use vstd::utf8::decode_utf8;
use vstd::utf8::valid_utf8;

use crate::chunk::chunk_bytes;
use crate::chunk::Chunk;
use crate::chunk_type::all_letters;
use crate::chunk_type::ChunkType;
use crate::png::first_model_index;
use crate::png::has_model;
use crate::png::lemma_container_round_trip;
use crate::png::lemma_model_match;
use crate::png::lemma_ser_models_snoc;
use crate::png::models_of;
use crate::png::parse_chunks;
use crate::png::ser_models;
use crate::png::sig_ok;
use crate::png::Png;
use crate::wire::sig;
use crate::PngError;

verus! {

/// The text names a chunk type: exactly 4 bytes, all ASCII letters.
pub open spec fn ty_text_ok(tb: Seq<u8>) -> bool {
    tb.len() == 4 && all_letters(tb)
}

/// The error that invalid chunk-type text draws.
pub open spec fn ty_text_err(tb: Seq<u8>) -> PngError {
    if tb.len() != 4 {
        PngError::InvalidLength
    } else {
        PngError::InvalidCharacters
    }
}

/// Appends a chunk holding `message` under the type named by
/// `chunk_type_text` to the container in `file_bytes`: the result is the
/// original buffer followed byte-for-byte by the new chunk.
pub fn encode(file_bytes: &[u8], chunk_type_text: &str, message: &[u8]) -> (r: Result<
    Vec<u8>,
    PngError,
>)
    requires
        message@.len() <= u32::MAX,
    ensures
        !sig_ok(file_bytes@) ==> r == Err::<Vec<u8>, PngError>(PngError::BadSignature),
        sig_ok(file_bytes@) ==> match parse_chunks(file_bytes@.skip(8)) {
            Err(e) => r == Err::<Vec<u8>, PngError>(e),
            Ok(ms) => if !ty_text_ok(chunk_type_text.spec_bytes()) {
                r == Err::<Vec<u8>, PngError>(ty_text_err(chunk_type_text.spec_bytes()))
            } else {
                r matches Ok(out) && out@ == file_bytes@ + chunk_bytes(
                    chunk_type_text.spec_bytes(),
                    message@,
                )
            },
        },
{
    let mut png = match Png::parse(file_bytes) {
        Ok(p) => p,
        Err(e) => { return Err(e) },
    };
    let t = match ChunkType::parse_text(chunk_type_text) {
        Ok(t) => t,
        Err(e) => { return Err(e) },
    };
    let data = slice_to_vec(message);
    let chunk = Chunk::new(t, data);
    let ghost ms = parse_chunks(file_bytes@.skip(8))->Ok_0;
    let ghost cs0 = png.chunks_seq();
    png.append_chunk(chunk);
    let out = png.as_bytes();
    proof {
        let tb = chunk_type_text.spec_bytes();
        assert(models_of(cs0.push(chunk)) =~= ms.push((tb, message@)));
        lemma_ser_models_snoc(ms, (tb, message@));
        lemma_container_round_trip(file_bytes@);
        assert(out@ =~= file_bytes@ + chunk_bytes(tb, message@));
    }
    Ok(out)
}

/// Reads the message hidden under the type named by `chunk_type_text`:
/// the payload of the first chunk of that type, as UTF-8 text.
pub fn decode(file_bytes: &[u8], chunk_type_text: &str) -> (r: Result<String, PngError>)
    ensures
        !sig_ok(file_bytes@) ==> r == Err::<String, PngError>(PngError::BadSignature),
        sig_ok(file_bytes@) ==> match parse_chunks(file_bytes@.skip(8)) {
            Err(e) => r == Err::<String, PngError>(e),
            Ok(ms) => {
                let tb = chunk_type_text.spec_bytes();
                if !ty_text_ok(tb) {
                    r == Err::<String, PngError>(ty_text_err(tb))
                } else if !has_model(ms, tb) {
                    r == Err::<String, PngError>(PngError::ChunkNotFound)
                } else {
                    let data = ms[first_model_index(ms, tb)].1;
                    if valid_utf8(data) {
                        r matches Ok(s) && s@ == decode_utf8(data)
                    } else {
                        r == Err::<String, PngError>(PngError::InvalidUtf8Payload)
                    }
                }
            },
        },
{
    let png = match Png::parse(file_bytes) {
        Ok(p) => p,
        Err(e) => { return Err(e) },
    };
    let t = match ChunkType::parse_text(chunk_type_text) {
        Ok(t) => t,
        Err(e) => { return Err(e) },
    };
    let ghost ms = parse_chunks(file_bytes@.skip(8))->Ok_0;
    proof {
        lemma_model_match(png.chunks_seq(), t@);
        crate::png::lemma_first_match(png.chunks_seq(), crate::png::chunk_ty_pred(t@));
    }
    match png.chunk_by_type(&t) {
        Some(c) => {
            proof {
                let cs = png.chunks_seq();
                let fi = crate::png::first_chunk_index(cs, t@);
                assert(ms == models_of(cs));
                assert(ms[fi] == (cs[fi].ty(), cs[fi].payload()));
                assert(c.payload() == ms[first_model_index(ms, t@)].1);
            }
            c.data_as_string()
        },
        None => Err(PngError::ChunkNotFound),
    }
}

/// Hiding a message and reading it back: appending a chunk with payload
/// `m` under a type `tb` that the container did not yet hold makes the
/// first chunk of that type in the new container carry exactly `m`. With
/// `encode` and `decode`'s own contracts: decoding type `tb` from
/// `encode(b, tb, m)` yields the text whose UTF-8 bytes are `m`.
pub proof fn lemma_encode_decode(b: Seq<u8>, tb: Seq<u8>, m: Seq<u8>)
    requires
        sig_ok(b),
        parse_chunks(b.skip(8)) is Ok,
        tb.len() == 4,
        m.len() <= u32::MAX,
        !has_model(parse_chunks(b.skip(8))->Ok_0, tb),
    ensures
        ({
            let out = b + chunk_bytes(tb, m);
            let ms2 = parse_chunks(out.skip(8))->Ok_0;
            &&& sig_ok(out)
            &&& parse_chunks(out.skip(8)) is Ok
            &&& has_model(ms2, tb)
            &&& ms2[first_model_index(ms2, tb)] == (tb, m)
        }),
{
    let out = b + chunk_bytes(tb, m);
    let ms = parse_chunks(b.skip(8))->Ok_0;
    assert(out.subrange(0, 8) =~= b.subrange(0, 8));
    assert(out.skip(8) =~= b.skip(8) + chunk_bytes(tb, m));
    crate::png::lemma_parse_chunks_snoc(b.skip(8), tb, m);
    crate::png::lemma_model_push_first(ms, (tb, m));
}

/// Removes the first chunk of the type named by `chunk_type_text` from
/// the container in `file_bytes`, returning the removed chunk together
/// with the new container bytes.
pub fn remove(file_bytes: &[u8], chunk_type_text: &str) -> (r: Result<(Chunk, Vec<u8>), PngError>)
    ensures
        !sig_ok(file_bytes@) ==> r == Err::<(Chunk, Vec<u8>), PngError>(PngError::BadSignature),
        sig_ok(file_bytes@) ==> match parse_chunks(file_bytes@.skip(8)) {
            Err(e) => r == Err::<(Chunk, Vec<u8>), PngError>(e),
            Ok(ms) => {
                let tb = chunk_type_text.spec_bytes();
                if !ty_text_ok(tb) {
                    r == Err::<(Chunk, Vec<u8>), PngError>(ty_text_err(tb))
                } else if !has_model(ms, tb) {
                    r == Err::<(Chunk, Vec<u8>), PngError>(PngError::ChunkNotFound)
                } else {
                    r matches Ok((c, out)) && c.wf() && c.ty() == tb && c.payload() == ms[
                        first_model_index(ms, tb)].1 && out@ == sig() + ser_models(
                        ms.remove(first_model_index(ms, tb)),
                    )
                }
            },
        },
{
    let mut png = match Png::parse(file_bytes) {
        Ok(p) => p,
        Err(e) => { return Err(e) },
    };
    let t = match ChunkType::parse_text(chunk_type_text) {
        Ok(t) => t,
        Err(e) => { return Err(e) },
    };
    let ghost ms = parse_chunks(file_bytes@.skip(8))->Ok_0;
    let ghost cs0 = png.chunks_seq();
    proof {
        lemma_model_match(cs0, t@);
        crate::png::lemma_first_match(cs0, crate::png::chunk_ty_pred(t@));
    }
    match png.remove_chunk(&t) {
        Ok(c) => {
            let out = png.as_bytes();
            proof {
                let fi = first_model_index(ms, t@);
                assert(ms == models_of(cs0));
                assert(ms[fi] == (cs0[fi].ty(), cs0[fi].payload()));
                cs0.remove_ensures(fi);
                ms.remove_ensures(fi);
                assert forall|k: int| 0 <= k < ms.remove(fi).len() implies models_of(
                    cs0.remove(fi),
                )[k] == ms.remove(fi)[k] by {
                    if k < fi {
                        assert(cs0.remove(fi)[k] == cs0[k]);
                        assert(ms.remove(fi)[k] == ms[k]);
                        assert(ms[k] == (cs0[k].ty(), cs0[k].payload()));
                    } else {
                        assert(cs0.remove(fi)[k] == cs0[k + 1]);
                        assert(ms.remove(fi)[k] == ms[k + 1]);
                        assert(ms[k + 1] == (cs0[k + 1].ty(), cs0[k + 1].payload()));
                    }
                }
                assert(models_of(cs0.remove(fi)) =~= ms.remove(fi));
            }
            Ok((c, out))
        },
        Err(_) => { Err(PngError::ChunkNotFound) },
    }
}

} // verus!
