//! Network byte order: big-endian fields written to and read from byte buffers.
use vstd::prelude::*;

verus! {

/// The two bytes of `x`, most significant first.
pub open spec fn be16(x: u16) -> Seq<u8> {
    seq![(x / 256) as u8, (x % 256) as u8]
}

/// The four bytes of `x`, most significant first.
pub open spec fn be32(x: u32) -> Seq<u8> {
    seq![(x / 0x100_0000) as u8, (x / 0x1_0000 % 256) as u8, (x / 256 % 256) as u8, (x % 256) as u8]
}

/// The bytes of an optional byte field; nothing when absent.
pub open spec fn opt_bytes(o: Option<Seq<u8>>) -> Seq<u8> {
    match o {
        Some(b) => b,
        None => Seq::empty(),
    }
}

/// The contents of an optional byte vector.
pub open spec fn opt_view(o: Option<Vec<u8>>) -> Option<Seq<u8>> {
    match o {
        Some(v) => Some(v@),
        None => None,
    }
}

/// The big-endian 16-bit value stored at `s[i]`, `s[i + 1]`.
pub open spec fn u16_at(s: Seq<u8>, i: int) -> u16 {
    (s[i] * 256 + s[i + 1]) as u16
}

/// The big-endian 32-bit value stored at `s[i] .. s[i + 3]`.
pub open spec fn u32_at(s: Seq<u8>, i: int) -> u32 {
    (s[i] * 0x100_0000 + s[i + 1] * 0x1_0000 + s[i + 2] * 256 + s[i + 3]) as u32
}

pub proof fn lemma_be16_u16_at(x: u16, s: Seq<u8>, i: int)
    requires
        0 <= i,
        i + 2 <= s.len(),
        s.subrange(i, i + 2) == be16(x),
    ensures
        u16_at(s, i) == x,
{
    assert(s[i] == be16(x)[0]);
    assert(s[i + 1] == be16(x)[1]);
}

pub proof fn lemma_be32_u32_at(x: u32, s: Seq<u8>, i: int)
    requires
        0 <= i,
        i + 4 <= s.len(),
        s.subrange(i, i + 4) == be32(x),
    ensures
        u32_at(s, i) == x,
{
    assert(s[i] == be32(x)[0]);
    assert(s[i + 1] == be32(x)[1]);
    assert(s[i + 2] == be32(x)[2]);
    assert(s[i + 3] == be32(x)[3]);
}

/// Reading two bytes as a word and writing the word back gives the same bytes.
pub proof fn lemma_u16_at_be16(s: Seq<u8>, i: int)
    requires
        0 <= i,
        i + 2 <= s.len(),
    ensures
        be16(u16_at(s, i)) == s.subrange(i, i + 2),
{
    assert(be16(u16_at(s, i)) =~= s.subrange(i, i + 2));
}

/// Reading four bytes as a 32-bit value and writing it back gives the same bytes.
pub proof fn lemma_u32_at_be32(s: Seq<u8>, i: int)
    requires
        0 <= i,
        i + 4 <= s.len(),
    ensures
        be32(u32_at(s, i)) == s.subrange(i, i + 4),
{
    let a = s[i] as int;
    let b = s[i + 1] as int;
    let c = s[i + 2] as int;
    let d = s[i + 3] as int;
    let x = a * 0x100_0000 + b * 0x1_0000 + c * 256 + d;
    assert(x / 0x100_0000 == a && x / 0x1_0000 % 256 == b && x / 256 % 256 == c && x % 256 == d)
        by (nonlinear_arith)
        requires
            0 <= a < 256,
            0 <= b < 256,
            0 <= c < 256,
            0 <= d < 256,
            x == a * 0x100_0000 + b * 0x1_0000 + c * 256 + d,
    ;
    assert(u32_at(s, i) == x);
    assert(be32(u32_at(s, i)) =~= s.subrange(i, i + 4));
}

/// Appends `x` in network byte order.
pub fn push_u16(buf: &mut Vec<u8>, x: u16)
    ensures
        final(buf)@ == old(buf)@ + be16(x),
{
    assert(x >> 8 == x / 256 && x & 0xff == x % 256) by (bit_vector);
    buf.push((x >> 8) as u8);
    buf.push((x & 0xff) as u8);
    assert(final(buf)@ =~= old(buf)@ + be16(x));
}

/// Appends `x` in network byte order.
pub fn push_u32(buf: &mut Vec<u8>, x: u32)
    ensures
        final(buf)@ == old(buf)@ + be32(x),
{
    assert(x >> 24 == x / 0x100_0000 && (x >> 16) & 0xff == x / 0x1_0000 % 256 && (x >> 8) & 0xff
        == x / 256 % 256 && x & 0xff == x % 256) by (bit_vector);
    buf.push((x >> 24) as u8);
    buf.push(((x >> 16) & 0xff) as u8);
    buf.push(((x >> 8) & 0xff) as u8);
    buf.push((x & 0xff) as u8);
    assert(final(buf)@ =~= old(buf)@ + be32(x));
}

/// Appends all bytes of `src`.
pub fn push_bytes(buf: &mut Vec<u8>, src: &[u8])
    ensures
        final(buf)@ == old(buf)@ + src@,
{
    let ghost start = buf@;
    let mut i: usize = 0;
    while i < src.len()
        invariant
            i <= src@.len(),
            buf@ == start + src@.take(i as int),
        decreases src@.len() - i,
    {
        buf.push(src[i]);
        i = i + 1;
        assert(buf@ =~= start + src@.take(i as int));
    }
    assert(src@.take(i as int) =~= src@);
}

/// The bytes `buf[start..end]` as a new vector.
pub fn copy_range(buf: &[u8], start: usize, end: usize) -> (r: Vec<u8>)
    requires
        start <= end <= buf@.len(),
    ensures
        r@ == buf@.subrange(start as int, end as int),
{
    let mut r: Vec<u8> = Vec::new();
    let mut i: usize = start;
    while i < end
        invariant
            start <= i <= end <= buf@.len(),
            r@ == buf@.subrange(start as int, i as int),
        decreases end - i,
    {
        r.push(buf[i]);
        i = i + 1;
        assert(r@ =~= buf@.subrange(start as int, i as int));
    }
    r
}

/// The big-endian 16-bit value at `buf[i]`, `buf[i + 1]`.
pub fn read_u16(buf: &[u8], i: usize) -> (r: u16)
    requires
        i + 2 <= buf@.len(),
    ensures
        r == u16_at(buf@, i as int),
{
    (buf[i] as u16) * 256 + buf[i + 1] as u16
}

/// The big-endian 32-bit value at `buf[i] .. buf[i + 3]`.
pub fn read_u32(buf: &[u8], i: usize) -> (r: u32)
    requires
        i + 4 <= buf@.len(),
    ensures
        r == u32_at(buf@, i as int),
{
    (buf[i] as u32) * 0x100_0000 + (buf[i + 1] as u32) * 0x1_0000 + (buf[i + 2] as u32) * 256
        + buf[i + 3] as u32
}

/// A copy of an optional byte vector.
pub fn copy_options(o: &Option<Vec<u8>>) -> (r: Option<Vec<u8>>)
    ensures
        opt_view(r) == opt_view(*o),
{
    match o {
        Some(v) => Some(copy_range(v.as_slice(), 0, v.len())),
        None => None,
    }
}

} // verus!
