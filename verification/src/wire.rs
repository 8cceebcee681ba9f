//! Little-endian byte encoding of the fixed-width integers that every
//! packet of the system is made of, with the mathematical meaning of each
//! encoding and the laws that tie reading to writing.
use vstd::prelude::*;

verus! {

/// The number that the two bytes at `off` of `b` denote, least significant first.
pub open spec fn le_u16(b: Seq<u8>, off: int) -> int {
    b[off] + b[off + 1] * 256
}

/// The number that the four bytes at `off` of `b` denote, least significant first.
pub open spec fn le_u32(b: Seq<u8>, off: int) -> int {
    b[off] + b[off + 1] * 256 + b[off + 2] * 65536 + b[off + 3] * 16777216
}

/// The two bytes that encode `x`, least significant first.
pub open spec fn u16_le(x: u16) -> Seq<u8> {
    seq![(x & 0xff) as u8, ((x >> 8) & 0xff) as u8]
}

/// The four bytes that encode `x`, least significant first.
pub open spec fn u32_le(x: u32) -> Seq<u8> {
    seq![(x & 0xff) as u8, ((x >> 8) & 0xff) as u8, ((x >> 16) & 0xff) as u8, ((x >> 24) & 0xff) as u8]
}

/// Reading back the encoding of a `u32` gives the number.
pub proof fn lemma_u32_le_roundtrip(x: u32)
    ensures
        u32_le(x).len() == 4,
        le_u32(u32_le(x), 0) == x,
{
    assert(x == (x & 0xff) + ((x >> 8) & 0xff) * 256 + ((x >> 16) & 0xff) * 65536 + ((x >> 24)
        & 0xff) * 16777216) by (bit_vector);
    assert((x & 0xff) < 256 && ((x >> 8) & 0xff) < 256 && ((x >> 16) & 0xff) < 256 && ((x >> 24)
        & 0xff) < 256) by (bit_vector);
}

/// Reading back the encoding of a `u16` gives the number.
pub proof fn lemma_u16_le_roundtrip(x: u16)
    ensures
        u16_le(x).len() == 2,
        le_u16(u16_le(x), 0) == x,
{
    assert(x == (x & 0xff) + ((x >> 8) & 0xff) * 256) by (bit_vector);
    assert((x & 0xff) < 256 && ((x >> 8) & 0xff) < 256) by (bit_vector);
}

/// The value of four bytes only depends on those bytes.
pub proof fn lemma_le_u32_shift(a: Seq<u8>, b: Seq<u8>, off_a: int, off_b: int)
    requires
        0 <= off_a,
        off_a + 4 <= a.len(),
        0 <= off_b,
        off_b + 4 <= b.len(),
        a[off_a] == b[off_b],
        a[off_a + 1] == b[off_b + 1],
        a[off_a + 2] == b[off_b + 2],
        a[off_a + 3] == b[off_b + 3],
    ensures
        le_u32(a, off_a) == le_u32(b, off_b),
{
}

/// Reads the little-endian `u32` at `off`.
pub fn read_u32_le(data: &[u8], off: usize) -> (r: u32)
    requires
        off + 4 <= data@.len(),
    ensures
        r == le_u32(data@, off as int),
{
    let b0 = data[off] as u32;
    let b1 = data[off + 1] as u32;
    let b2 = data[off + 2] as u32;
    let b3 = data[off + 3] as u32;
    assert(b0 < 256 && b1 < 256 && b2 < 256 && b3 < 256 ==> (b0 | (b1 << 8) | (b2 << 16) | (b3
        << 24)) == b0 + b1 * 256 + b2 * 65536 + b3 * 16777216) by (bit_vector);
    b0 | (b1 << 8) | (b2 << 16) | (b3 << 24)
}

/// Reads the little-endian `u16` at `off`.
pub fn read_u16_le(data: &[u8], off: usize) -> (r: u16)
    requires
        off + 2 <= data@.len(),
    ensures
        r == le_u16(data@, off as int),
{
    let b0 = data[off] as u16;
    let b1 = data[off + 1] as u16;
    assert(b0 < 256 && b1 < 256 ==> (b0 | (b1 << 8)) == b0 + b1 * 256) by (bit_vector);
    b0 | (b1 << 8)
}

/// Appends the little-endian encoding of `x`.
pub fn push_u32_le(out: &mut Vec<u8>, x: u32)
    ensures
        final(out)@ == old(out)@ + u32_le(x),
{
    out.push((x & 0xff) as u8);
    out.push(((x >> 8) & 0xff) as u8);
    out.push(((x >> 16) & 0xff) as u8);
    out.push(((x >> 24) & 0xff) as u8);
    assert(out@ =~= old(out)@ + u32_le(x));
}

/// Appends the little-endian encoding of `x`.
pub fn push_u16_le(out: &mut Vec<u8>, x: u16)
    ensures
        final(out)@ == old(out)@ + u16_le(x),
{
    out.push((x & 0xff) as u8);
    out.push(((x >> 8) & 0xff) as u8);
    assert(out@ =~= old(out)@ + u16_le(x));
}

/// Appends all of `src` to `out`.
pub fn push_bytes(out: &mut Vec<u8>, src: &[u8])
    ensures
        final(out)@ == old(out)@ + src@,
{
    let mut i: usize = 0;
    while i < src.len()
        invariant
            i <= src@.len(),
            out@ == old(out)@ + src@.subrange(0, i as int),
        decreases src@.len() - i,
    {
        out.push(src[i]);
        i = i + 1;
        assert(out@ =~= old(out)@ + src@.subrange(0, i as int));
    }
    assert(src@.subrange(0, src@.len() as int) =~= src@);
}

/// The bytes `data[from..to]` as a vector.
pub fn slice_to_vec(data: &[u8], from: usize, to: usize) -> (r: Vec<u8>)
    requires
        from <= to <= data@.len(),
    ensures
        r@ == data@.subrange(from as int, to as int),
{
    let mut r: Vec<u8> = Vec::new();
    let mut i: usize = from;
    while i < to
        invariant
            from <= i <= to,
            to <= data@.len(),
            r@ == data@.subrange(from as int, i as int),
        decreases to - i,
    {
        r.push(data[i]);
        i = i + 1;
        assert(r@ =~= data@.subrange(from as int, i as int));
    }
    r
}

} // verus!
