//! Big-endian 32-bit integers and the container signature: the two pieces
//! of raw wire format that the chunk stream is built from.

use vstd::prelude::*;

verus! {

/// The value of a 4-byte big-endian sequence.
pub open spec fn be_val(b: Seq<u8>) -> int
    recommends
        b.len() == 4,
{
    0x1000000 * (b[0] as int) + 0x10000 * (b[1] as int) + 0x100 * (b[2] as int) + (b[3] as int)
}

/// The 4-byte big-endian encoding of a 32-bit value.
pub open spec fn be_bytes(x: u32) -> Seq<u8> {
    seq![
        (x / 0x1000000) as u8,
        ((x / 0x10000) % 0x100) as u8,
        ((x / 0x100) % 0x100) as u8,
        (x % 0x100) as u8,
    ]
}

/// Decoding inverts encoding.
pub proof fn lemma_be_val_of_be_bytes(x: u32)
    ensures
        be_val(be_bytes(x)) == x,
{
    assert(be_val(be_bytes(x)) == x) by (nonlinear_arith);
}

/// Encoding inverts decoding: any 4-byte sequence is the encoding of its
/// own value, which always fits in 32 bits.
pub proof fn lemma_be_bytes_of_be_val(b: Seq<u8>)
    requires
        b.len() == 4,
    ensures
        0 <= be_val(b) < 0x100000000,
        be_bytes(be_val(b) as u32) == b,
{
    let x = be_val(b) as u32;
    assert(0 <= be_val(b) < 0x100000000);
    assert(x / 0x1000000 == b[0] && (x / 0x10000) % 0x100 == b[1] && (x / 0x100) % 0x100
        == b[2] && x % 0x100 == b[3]) by (nonlinear_arith)
        requires
            x == be_val(b),
            b[0] < 0x100 && b[1] < 0x100 && b[2] < 0x100 && b[3] < 0x100,
    ;
    assert(be_bytes(x) =~= b);
}

/// Reads the big-endian 32-bit value stored at `off`.
pub fn read_be_u32(bytes: &[u8], off: usize) -> (x: u32)
    requires
        off + 4 <= bytes@.len(),
    ensures
        x == be_val(bytes@.subrange(off as int, off + 4)),
{
    let x: u32 = (bytes[off] as u32) * 0x1000000 + (bytes[off + 1] as u32) * 0x10000 + (bytes[off
        + 2] as u32) * 0x100 + (bytes[off + 3] as u32);
    proof {
        let b = bytes@.subrange(off as int, off + 4);
        assert(b[0] == bytes@[off as int] && b[1] == bytes@[off + 1] && b[2] == bytes@[off + 2]
            && b[3] == bytes@[off + 3]);
    }
    x
}

/// Appends the big-endian encoding of `x` to `out`.
pub fn push_be_u32(out: &mut Vec<u8>, x: u32)
    ensures
        final(out)@ == old(out)@ + be_bytes(x),
{
    out.push((x / 0x1000000) as u8);
    out.push(((x / 0x10000) % 0x100) as u8);
    out.push(((x / 0x100) % 0x100) as u8);
    out.push((x % 0x100) as u8);
    proof {
        assert(out@ =~= old(out)@ + be_bytes(x));
    }
}

/// The fixed 8-byte signature that every container starts with.
pub open spec fn sig() -> Seq<u8> {
    seq![137u8, 80u8, 78u8, 71u8, 13u8, 10u8, 26u8, 10u8]
}

/// Appends the container signature to `out`.
pub fn push_signature(out: &mut Vec<u8>)
    ensures
        final(out)@ == old(out)@ + sig(),
{
    out.push(137);
    out.push(80);
    out.push(78);
    out.push(71);
    out.push(13);
    out.push(10);
    out.push(26);
    out.push(10);
    proof {
        assert(out@ =~= old(out)@ + sig());
    }
}

} // verus!
