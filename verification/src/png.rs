//! The container: a fixed signature followed by an ordered sequence of
//! chunks, with append, remove and lookup by chunk type, and full
//! re-serialization.

use vstd::prelude::*;

use crate::chunk::chunk_bytes;
use crate::chunk::head_computed_crc;
use crate::chunk::head_crc_ok;
use crate::chunk::head_data;
use crate::chunk::head_fits;
use crate::chunk::head_len;
use crate::chunk::head_stored_crc;
use crate::chunk::head_total;
use crate::chunk::head_ty;
use crate::chunk::lemma_head_serializes_back;
use crate::chunk::lemma_serialize_is_chunk_bytes;
use crate::chunk::Chunk;
use crate::chunk_type::ChunkType;
use crate::wire::push_signature;
use crate::wire::sig;
use crate::PngError;

verus! {

/// A chunk reduced to what determines its bytes: its type and payload.
/// (The length and the checksum of a well-formed chunk follow from them.)
pub type ChunkModel = (Seq<u8>, Seq<u8>);

/// Parses a chunk stream: chunk after chunk until the buffer is
/// exhausted. An empty buffer is an empty stream; any chunk-level
/// failure is the stream's failure.
pub open spec fn parse_chunks(b: Seq<u8>) -> Result<Seq<ChunkModel>, PngError>
    decreases b.len(),
{
    if b.len() == 0 {
        Ok(Seq::empty())
    } else if !head_fits(b) {
        Err(PngError::Truncated)
    } else if !head_crc_ok(b) {
        Err(
            PngError::ChecksumMismatch {
                expected: head_computed_crc(b),
                found: head_stored_crc(b) as u32,
            },
        )
    } else {
        match parse_chunks(b.skip(head_total(b))) {
            Ok(rest) => Ok(seq![(head_ty(b), head_data(b))] + rest),
            Err(e) => Err(e),
        }
    }
}

/// The bytes of a sequence of chunk models, in order.
pub open spec fn ser_models(ms: Seq<ChunkModel>) -> Seq<u8>
    decreases ms.len(),
{
    if ms.len() == 0 {
        Seq::empty()
    } else {
        chunk_bytes(ms[0].0, ms[0].1) + ser_models(ms.drop_first())
    }
}

/// Serialization distributes over appending one model at the end.
pub proof fn lemma_ser_models_snoc(ms: Seq<ChunkModel>, m: ChunkModel)
    ensures
        ser_models(ms.push(m)) == ser_models(ms) + chunk_bytes(m.0, m.1),
    decreases ms.len(),
{
    if ms.len() == 0 {
        let s = ms.push(m);
        assert(s[0] == m);
        assert(s.drop_first() =~= Seq::<ChunkModel>::empty());
        assert(ser_models(s) == chunk_bytes(m.0, m.1) + ser_models(s.drop_first()));
        assert(ser_models(s) =~= ser_models(ms) + chunk_bytes(m.0, m.1));
    } else {
        assert(ms.push(m).drop_first() =~= ms.drop_first().push(m));
        lemma_ser_models_snoc(ms.drop_first(), m);
        assert(ser_models(ms.push(m)) =~= ser_models(ms) + chunk_bytes(m.0, m.1));
    }
}

/// A stream that parses serializes back byte-for-byte.
pub proof fn lemma_parse_chunks_serialize(b: Seq<u8>)
    requires
        parse_chunks(b) is Ok,
    ensures
        ser_models(parse_chunks(b)->Ok_0) == b,
    decreases b.len(),
{
    if b.len() == 0 {
        assert(ser_models(parse_chunks(b)->Ok_0) =~= b);
    } else {
        let tail = b.skip(head_total(b));
        lemma_parse_chunks_serialize(tail);
        lemma_head_serializes_back(b);
        let ms = parse_chunks(b)->Ok_0;
        assert(ms.drop_first() =~= parse_chunks(tail)->Ok_0);
        assert(ms[0] == (head_ty(b), head_data(b)));
        assert(b.subrange(0, head_total(b)) + tail =~= b);
    }
}

/// Appending one chunk's bytes to a stream that parses gives a stream
/// that parses to the same models plus that chunk's.
#[verifier::rlimit(100)]
pub proof fn lemma_parse_chunks_snoc(b: Seq<u8>, ty: Seq<u8>, data: Seq<u8>)
    requires
        parse_chunks(b) is Ok,
        ty.len() == 4,
        data.len() <= u32::MAX,
    ensures
        parse_chunks(b + chunk_bytes(ty, data)) == Ok::<Seq<ChunkModel>, PngError>(
            (parse_chunks(b)->Ok_0).push((ty, data)),
        ),
    decreases b.len(),
{
    let cb = chunk_bytes(ty, data);
    let w = b + cb;
    if b.len() == 0 {
        assert(w =~= cb + Seq::<u8>::empty());
        crate::chunk::lemma_chunk_bytes_parses_back(ty, data, Seq::<u8>::empty());
        assert(head_fits(w) && head_crc_ok(w));
        assert(head_ty(w) == ty && head_data(w) == data);
        assert(w.skip(head_total(w)) =~= Seq::<u8>::empty());
        assert(w.skip(head_total(w)).len() == 0);
        assert(parse_chunks(w.skip(head_total(w))) == Ok::<Seq<ChunkModel>, PngError>(
            Seq::empty(),
        ));
        assert(seq![(ty, data)] + Seq::<ChunkModel>::empty() =~= seq![(ty, data)]);
        assert(parse_chunks(w) == Ok::<Seq<ChunkModel>, PngError>(seq![(ty, data)]));
        assert(seq![(ty, data)] =~= (parse_chunks(b)->Ok_0).push((ty, data)));
    } else {
        let t = head_total(b);
        assert(w.len() >= 12 && b.len() >= 12);
        assert(w.subrange(0, 4) =~= b.subrange(0, 4));
        assert(head_len(w) == head_len(b) && head_total(w) == t);
        assert(head_fits(b) && head_fits(w));
        assert(w.subrange(4, 8) =~= b.subrange(4, 8));
        assert(w.subrange(8, 8 + head_len(w)) =~= b.subrange(8, 8 + head_len(b)));
        assert(w.subrange(8 + head_len(w), head_total(w)) =~= b.subrange(
            8 + head_len(b),
            head_total(b),
        ));
        assert(head_ty(w) == head_ty(b) && head_data(w) == head_data(b) && head_stored_crc(w)
            == head_stored_crc(b));
        assert(head_crc_ok(b) && head_crc_ok(w));
        assert(w.skip(t) =~= b.skip(t) + cb);
        lemma_parse_chunks_snoc(b.skip(t), ty, data);
        let ms_tail = parse_chunks(b.skip(t))->Ok_0;
        assert(parse_chunks(w) == Ok::<Seq<ChunkModel>, PngError>(
            seq![(head_ty(b), head_data(b))] + ms_tail.push((ty, data)),
        ));
        assert(seq![(head_ty(b), head_data(b))] + ms_tail.push((ty, data)) =~= (seq![
            (head_ty(b), head_data(b)),
        ] + ms_tail).push((ty, data)));
    }
}

/// The first 8 bytes are the container signature.
pub open spec fn sig_ok(b: Seq<u8>) -> bool {
    b.len() >= 8 && b.subrange(0, 8) == sig()
}

/// The models of a sequence of chunks.
pub open spec fn models_of(cs: Seq<Chunk>) -> Seq<ChunkModel> {
    cs.map_values(|c: Chunk| (c.ty(), c.payload()))
}

/// Whether some element of `s` satisfies `p`.
pub open spec fn has_match<T>(s: Seq<T>, p: spec_fn(T) -> bool) -> bool {
    exists|i: int| 0 <= i < s.len() && p(#[trigger] s[i])
}

/// The index of the first element of `s` satisfying `p`, or `s.len()`
/// when none does.
pub open spec fn first_match<T>(s: Seq<T>, p: spec_fn(T) -> bool) -> int
    decreases s.len(),
{
    if s.len() == 0 {
        0
    } else if p(s[0]) {
        0
    } else {
        1 + first_match(s.drop_first(), p)
    }
}

/// What `first_match` returns: the first index whose element satisfies
/// `p`, every earlier element failing it, and `s.len()` exactly when no
/// element satisfies it.
pub proof fn lemma_first_match<T>(s: Seq<T>, p: spec_fn(T) -> bool)
    ensures
        0 <= first_match(s, p) <= s.len(),
        has_match(s, p) ==> first_match(s, p) < s.len() && p(s[first_match(s, p)]),
        forall|j: int| 0 <= j < first_match(s, p) ==> !p(#[trigger] s[j]),
        !has_match(s, p) ==> first_match(s, p) == s.len(),
    decreases s.len(),
{
    if s.len() == 0 {
    } else if p(s[0]) {
    } else {
        let tail = s.drop_first();
        lemma_first_match(tail, p);
        assert(forall|i: int| 0 < i < s.len() ==> #[trigger] s[i] == tail[i - 1]);
        if has_match(s, p) {
            let w = choose|i: int| 0 <= i < s.len() && p(#[trigger] s[i]);
            assert(p(tail[w - 1]));
            assert(has_match(tail, p));
        }
        if has_match(tail, p) {
            let w = choose|i: int| 0 <= i < tail.len() && p(#[trigger] tail[i]);
            assert(p(s[w + 1]));
            assert(has_match(s, p));
        }
    }
}

/// The predicate "this chunk has type `t`".
pub open spec fn chunk_ty_pred(t: Seq<u8>) -> spec_fn(Chunk) -> bool {
    |c: Chunk| c.ty() == t
}

/// The predicate "this model has type `t`".
pub open spec fn model_ty_pred(t: Seq<u8>) -> spec_fn(ChunkModel) -> bool {
    |m: ChunkModel| m.0 == t
}

/// Whether some chunk of `cs` has type `t`.
pub open spec fn has_chunk(cs: Seq<Chunk>, t: Seq<u8>) -> bool {
    has_match(cs, chunk_ty_pred(t))
}

/// The index of the first chunk of `cs` with type `t`, or `cs.len()`.
pub open spec fn first_chunk_index(cs: Seq<Chunk>, t: Seq<u8>) -> int {
    first_match(cs, chunk_ty_pred(t))
}

/// Whether some model of `ms` has type `t`.
pub open spec fn has_model(ms: Seq<ChunkModel>, t: Seq<u8>) -> bool {
    has_match(ms, model_ty_pred(t))
}

/// The index of the first model of `ms` with type `t`, or `ms.len()`.
pub open spec fn first_model_index(ms: Seq<ChunkModel>, t: Seq<u8>) -> int {
    first_match(ms, model_ty_pred(t))
}

/// The container: the in-memory model of one file. Its serialized form
/// is the signature followed by each chunk's bytes in sequence order.
#[derive(Debug)]
pub struct Png {
    chunks: Vec<Chunk>,
}

impl Png {
    /// The chunk sequence, in order.
    pub closed spec fn chunks_seq(self) -> Seq<Chunk> {
        self.chunks@
    }

    /// The chunk sequence reduced to types and payloads.
    pub open spec fn models(self) -> Seq<ChunkModel> {
        models_of(self.chunks_seq())
    }

    /// Every chunk held is well-formed.
    pub open spec fn wf(self) -> bool {
        forall|i: int|
            0 <= i < self.chunks_seq().len() ==> (#[trigger] self.chunks_seq()[i]).wf()
    }

    /// The serialized form of the whole container.
    pub open spec fn spec_serialize(self) -> Seq<u8> {
        sig() + ser_models(self.models())
    }

    /// An empty container: the signature and no chunks.
    pub fn new() -> (r: Png)
        ensures
            r.wf(),
            r.chunks_seq() == Seq::<Chunk>::empty(),
    {
        Png { chunks: Vec::new() }
    }

    /// Parses a container: the signature, then chunk after chunk until
    /// the buffer is exhausted. Fails with `BadSignature` when the first
    /// 8 bytes are not the signature, and propagates any chunk-level
    /// failure.
    pub fn parse(bytes: &[u8]) -> (r: Result<Png, PngError>)
        ensures
            !sig_ok(bytes@) ==> r == Err::<Png, PngError>(PngError::BadSignature),
            sig_ok(bytes@) ==> match parse_chunks(bytes@.skip(8)) {
                Ok(ms) => (r matches Ok(p) && p.wf() && p.models() == ms),
                Err(e) => r == Err::<Png, PngError>(e),
            },
    {
        if bytes.len() < 8 {
            return Err(PngError::BadSignature);
        }
        if !(bytes[0] == 137 && bytes[1] == 80 && bytes[2] == 78 && bytes[3] == 71 && bytes[4]
            == 13 && bytes[5] == 10 && bytes[6] == 26 && bytes[7] == 10) {
            proof {
                assert(!sig_ok(bytes@));
            }
            return Err(PngError::BadSignature);
        }
        proof {
            assert(bytes@.subrange(0, 8) =~= sig());
        }
        let ghost b8 = bytes@.skip(8);
        let mut chunks: Vec<Chunk> = Vec::new();
        let mut off: usize = 8;
        while off < bytes.len()
            invariant
                8 <= off <= bytes@.len(),
                sig_ok(bytes@),
                forall|i: int| 0 <= i < chunks@.len() ==> (#[trigger] chunks@[i]).wf(),
                b8 == bytes@.skip(8),
                match parse_chunks(bytes@.skip(off as int)) {
                    Ok(rest) => parse_chunks(b8) == Ok::<Seq<ChunkModel>, PngError>(
                        models_of(chunks@) + rest,
                    ),
                    Err(e) => parse_chunks(b8) == Err::<Seq<ChunkModel>, PngError>(e),
                },
            decreases bytes@.len() - off,
        {
            let ghost rem = bytes@.skip(off as int);
            let tail = vstd::slice::slice_subrange(bytes, off, bytes.len());
            proof {
                assert(tail@ =~= rem);
            }
            match Chunk::parse(tail) {
                Err(e) => {
                    proof {
                        assert(parse_chunks(rem) == Err::<Seq<ChunkModel>, PngError>(e));
                    }
                    return Err(e);
                },
                Ok(c) => {
                    let l = c.length();
                    proof {
                        assert(head_total(rem) == 12 + l);
                        assert(rem.skip(head_total(rem)) =~= bytes@.skip(off + 12 + l));
                    }
                    let ghost old_chunks = chunks@;
                    chunks.push(c);
                    off = off + 12 + (l as usize);
                    proof {
                        assert(models_of(chunks@) =~= models_of(old_chunks).push(
                            (c.ty(), c.payload()),
                        ));
                        if parse_chunks(bytes@.skip(off as int)) is Ok {
                            let rest = parse_chunks(bytes@.skip(off as int))->Ok_0;
                            assert(parse_chunks(rem) == Ok::<Seq<ChunkModel>, PngError>(
                                seq![(c.ty(), c.payload())] + rest,
                            ));
                            assert(models_of(old_chunks) + (seq![(c.ty(), c.payload())] + rest)
                                =~= models_of(chunks@) + rest);
                        }
                    }
                },
            }
        }
        proof {
            assert(bytes@.skip(off as int) =~= Seq::<u8>::empty());
            assert(models_of(chunks@) + Seq::<ChunkModel>::empty() =~= models_of(chunks@));
        }
        Ok(Png { chunks })
    }

    /// Appends a chunk at the end of the sequence; it becomes visible to
    /// later lookups and serialization.
    pub fn append_chunk(&mut self, chunk: Chunk)
        ensures
            final (self).chunks_seq() == old(self).chunks_seq().push(chunk),
            old(self).wf() && chunk.wf() ==> final (self).wf(),
    {
        self.chunks.push(chunk);
        proof {
            let cs = old(self).chunks_seq();
            if old(self).wf() && chunk.wf() {
                assert forall|i: int| 0 <= i < self.chunks_seq().len() implies (
                #[trigger] self.chunks_seq()[i]).wf() by {
                    if i < cs.len() {
                        assert(self.chunks_seq()[i] == cs[i]);
                    } else {
                        assert(self.chunks_seq()[i] == chunk);
                    }
                }
            }
        }
    }

    /// The position of the first chunk of type `t`, or `None` when no
    /// chunk of that type is present.
    fn find_chunk_index(&self, t: &ChunkType) -> (r: Option<usize>)
        ensures
            match r {
                Some(i) => has_chunk(self.chunks_seq(), t@) && i == first_chunk_index(
                    self.chunks_seq(),
                    t@,
                ) && i < self.chunks_seq().len(),
                None => !has_chunk(self.chunks_seq(), t@),
            },
    {
        let ghost cs = self.chunks_seq();
        let ghost p = chunk_ty_pred(t@);
        let mut i: usize = 0;
        while i < self.chunks.len()
            invariant
                i <= cs.len(),
                cs == self.chunks_seq(),
                p == chunk_ty_pred(t@),
                forall|j: int| 0 <= j < i ==> !p(#[trigger] cs[j]),
            decreases cs.len() - i,
        {
            let c = &self.chunks[i];
            if c.chunk_type() == t {
                proof {
                    assert(p(cs[i as int]));
                    assert(has_match(cs, p));
                    lemma_first_match(cs, p);
                    assert(first_match(cs, p) == i);
                }
                return Some(i);
            }
            i += 1;
        }
        proof {
            lemma_first_match(cs, p);
            if has_match(cs, p) {
                assert(p(cs[first_match(cs, p)]));
            }
        }
        None
    }

    /// The first chunk of type `t`, without removing it, or `None` when
    /// no chunk of that type is present.
    pub fn chunk_by_type(&self, t: &ChunkType) -> (r: Option<&Chunk>)
        ensures
            match r {
                Some(c) => has_chunk(self.chunks_seq(), t@) && *c == self.chunks_seq()[
                    first_chunk_index(self.chunks_seq(), t@)],
                None => !has_chunk(self.chunks_seq(), t@),
            },
    {
        match self.find_chunk_index(t) {
            Some(i) => Some(&self.chunks[i]),
            None => None,
        }
    }

    /// Removes and returns the first chunk of type `t`, shifting the
    /// chunks after it one position forward; fails with `ChunkNotFound`,
    /// changing nothing, when no chunk of that type is present.
    pub fn remove_chunk(&mut self, t: &ChunkType) -> (r: Result<Chunk, PngError>)
        ensures
            has_chunk(old(self).chunks_seq(), t@) ==> (r matches Ok(c) && c == old(
                self,
            ).chunks_seq()[first_chunk_index(old(self).chunks_seq(), t@)] && final (
            self).chunks_seq() == old(self).chunks_seq().remove(
                first_chunk_index(old(self).chunks_seq(), t@),
            )),
            !has_chunk(old(self).chunks_seq(), t@) ==> r == Err::<Chunk, PngError>(
                PngError::ChunkNotFound,
            ) && final (self).chunks_seq() == old(self).chunks_seq(),
            old(self).wf() ==> final (self).wf(),
    {
        let ghost cs = old(self).chunks_seq();
        match self.find_chunk_index(t) {
            Some(i) => {
                let c = self.chunks.remove(i);
                proof {
                    cs.remove_ensures(i as int);
                    if old(self).wf() {
                        assert forall|k: int| 0 <= k < self.chunks_seq().len() implies (
                        #[trigger] self.chunks_seq()[k]).wf() by {
                            if k < i as int {
                                assert(self.chunks_seq()[k] == cs[k]);
                            } else {
                                assert(self.chunks_seq()[k] == cs[k + 1]);
                            }
                        }
                    }
                }
                Ok(c)
            },
            None => Err(PngError::ChunkNotFound),
        }
    }

    /// How many chunks the container holds.
    pub fn chunk_count(&self) -> (r: usize)
        ensures
            r == self.chunks_seq().len(),
    {
        self.chunks.len()
    }

    /// The chunk at position `i` of the sequence.
    pub fn chunk_at(&self, i: usize) -> (r: &Chunk)
        requires
            i < self.chunks_seq().len(),
        ensures
            *r == self.chunks_seq()[i as int],
    {
        &self.chunks[i]
    }

    /// Serializes the container: the signature, then each chunk's bytes
    /// in sequence order.
    pub fn as_bytes(&self) -> (r: Vec<u8>)
        requires
            self.wf(),
        ensures
            r@ == self.spec_serialize(),
    {
        let ghost ms = self.models();
        let mut out: Vec<u8> = Vec::new();
        push_signature(&mut out);
        let mut i: usize = 0;
        while i < self.chunks.len()
            invariant
                i <= ms.len(),
                self.wf(),
                ms == self.models(),
                out@ == sig() + ser_models(ms.subrange(0, i as int)),
            decreases ms.len() - i,
        {
            let mut cb = self.chunks[i].as_bytes();
            out.append(&mut cb);
            proof {
                let c = self.chunks_seq()[i as int];
                lemma_serialize_is_chunk_bytes(c);
                lemma_ser_models_snoc(ms.subrange(0, i as int), ms[i as int]);
                assert(ms.subrange(0, i + 1) =~= ms.subrange(0, i as int).push(ms[i as int]));
                assert(out@ =~= sig() + ser_models(ms.subrange(0, i + 1)));
            }
            i += 1;
        }
        proof {
            assert(ms.subrange(0, ms.len() as int) =~= ms);
        }
        out
    }
}

/// Container round trip: a buffer whose signature is right and whose
/// chunk stream parses is reproduced exactly by serializing what was
/// parsed.
#[verifier::rlimit(50)]
pub proof fn lemma_container_round_trip(b: Seq<u8>)
    requires
        sig_ok(b),
        parse_chunks(b.skip(8)) is Ok,
    ensures
        sig() + ser_models(parse_chunks(b.skip(8))->Ok_0) == b,
{
    lemma_parse_chunks_serialize(b.skip(8));
    assert(sig() + b.skip(8) =~= b);
}

/// Looking a type up among chunks and among their models agrees: the
/// same presence verdict and the same first position.
pub proof fn lemma_model_match(cs: Seq<Chunk>, t: Seq<u8>)
    ensures
        has_model(models_of(cs), t) == has_chunk(cs, t),
        first_model_index(models_of(cs), t) == first_chunk_index(cs, t),
{
    let ms = models_of(cs);
    let pc = chunk_ty_pred(t);
    let pm = model_ty_pred(t);
    lemma_first_match(cs, pc);
    lemma_first_match(ms, pm);
    assert(ms.len() == cs.len());
    assert forall|i: int| 0 <= i < cs.len() implies pm(#[trigger] ms[i]) == pc(cs[i]) by {
        assert(ms[i] == (cs[i].ty(), cs[i].payload()));
    }
    if has_chunk(cs, t) {
        let w = choose|i: int| 0 <= i < cs.len() && pc(#[trigger] cs[i]);
        assert(pm(ms[w]));
        assert(has_match(ms, pm));
    }
    if has_model(ms, t) {
        let w = choose|i: int| 0 <= i < ms.len() && pm(#[trigger] ms[i]);
        assert(pc(cs[w]));
        assert(has_match(cs, pc));
    }
    let fc = first_match(cs, pc);
    let fm = first_match(ms, pm);
    assert(has_match(ms, pm) == has_match(cs, pc));
    if has_chunk(cs, t) {
        if fc < fm {
            assert(pm(ms[fc]));
            assert(false);
        }
        if fm < fc {
            assert(pc(cs[fm]));
            assert(false);
        }
        assert(fc == fm);
    } else {
        assert(!has_match(cs, pc));
        assert(fc == cs.len() && fm == ms.len());
    }
    assert(first_chunk_index(cs, t) == fc);
    assert(first_model_index(ms, t) == fm);
    assert(fc == fm);
}

/// A model appended to a sequence that holds none of its type becomes
/// the first (and only) model of that type.
pub proof fn lemma_model_push_first(ms: Seq<ChunkModel>, m: ChunkModel)
    requires
        !has_model(ms, m.0),
    ensures
        has_model(ms.push(m), m.0),
        first_model_index(ms.push(m), m.0) == ms.len(),
        ms.push(m)[first_model_index(ms.push(m), m.0)] == m,
{
    let p = model_ty_pred(m.0);
    let s = ms.push(m);
    assert(p(s[ms.len() as int]));
    assert(has_match(s, p));
    lemma_first_match(s, p);
    let fi = first_match(s, p);
    if fi < ms.len() {
        assert(p(ms[fi]));
        assert(has_match(ms, p));
    }
    assert(fi == ms.len());
}

/// Append/remove inverse: removing a chunk's type right after appending
/// it — to a container that held no chunk of that type — returns exactly
/// the appended chunk and restores the chunk sequence, hence the
/// serialized form, to what it was before the append.
pub proof fn lemma_append_remove_inverse(cs: Seq<Chunk>, c: Chunk)
    requires
        !has_chunk(cs, c.ty()),
    ensures
        has_chunk(cs.push(c), c.ty()),
        first_chunk_index(cs.push(c), c.ty()) == cs.len(),
        cs.push(c)[first_chunk_index(cs.push(c), c.ty())] == c,
        cs.push(c).remove(first_chunk_index(cs.push(c), c.ty())) == cs,
{
    let p = chunk_ty_pred(c.ty());
    let s = cs.push(c);
    assert(p(s[cs.len() as int]));
    assert(has_match(s, p));
    lemma_first_match(s, p);
    let fi = first_match(s, p);
    if fi < cs.len() {
        assert(p(cs[fi]));
        assert(has_match(cs, p));
    }
    assert(fi == cs.len());
    assert(s.remove(fi) =~= cs);
}

} // verus!
