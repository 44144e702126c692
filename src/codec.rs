//! Little-endian framing primitives shared by every part of the container.
use vstd::prelude::*;

verus! {

/// The value of the four bytes at `i`, read as a little-endian unsigned integer.
pub open spec fn u32_at(s: Seq<u8>, i: int) -> int {
    s[i] as int + s[i + 1] as int * 256 + s[i + 2] as int * 65536 + s[i + 3] as int * 16777216
}

/// The four little-endian bytes of `v`.
pub open spec fn u32_bytes(v: u32) -> Seq<u8> {
    seq![
        (v % 256) as u8,
        (v / 256 % 256) as u8,
        (v / 65536 % 256) as u8,
        (v / 16777216) as u8,
    ]
}

/// Reading back the bytes of a value gives the value.
pub proof fn lemma_u32_round_trip(v: u32)
    ensures
        u32_at(u32_bytes(v), 0) == v as int,
        u32_bytes(v).len() == 4,
{
    let b = u32_bytes(v);
    assert(b[0] as int == v as int % 256);
    assert(b[1] as int == v as int / 256 % 256);
    assert(b[2] as int == v as int / 65536 % 256);
    assert(b[3] as int == v as int / 16777216);
    assert(v as int % 256 + (v as int / 256 % 256) * 256 + (v as int / 65536 % 256) * 65536
        + (v as int / 16777216) * 16777216 == v as int) by (nonlinear_arith)
        requires
            0 <= v as int,
    {
        assert(v as int == v as int / 256 * 256 + v as int % 256);
        assert(v as int / 256 == v as int / 256 / 256 * 256 + v as int / 256 % 256);
        assert(v as int / 256 / 256 == v as int / 65536);
        assert(v as int / 65536 == v as int / 65536 / 256 * 256 + v as int / 65536 % 256);
        assert(v as int / 65536 / 256 == v as int / 16777216);
    }
}

/// Reads the little-endian `u32` at `pos`, or `None` where fewer than four bytes remain.
pub fn read_u32(buf: &[u8], pos: usize) -> (r: Option<u32>)
    ensures
        r is Some <==> pos as int + 4 <= buf@.len(),
        r matches Some(v) ==> v as int == u32_at(buf@, pos as int),
{
    if pos > buf.len() || buf.len() - pos < 4 {
        return None;
    }
    let b0 = buf[pos] as u32;
    let b1 = buf[pos + 1] as u32;
    let b2 = buf[pos + 2] as u32;
    let b3 = buf[pos + 3] as u32;
    assert(b1 * 256 <= 255 * 256) by (nonlinear_arith)
        requires
            b1 <= 255,
    ;
    assert(b2 * 65536 <= 255 * 65536) by (nonlinear_arith)
        requires
            b2 <= 255,
    ;
    assert(b3 * 16777216 <= 255 * 16777216) by (nonlinear_arith)
        requires
            b3 <= 255,
    ;
    Some(b0 + b1 * 256 + b2 * 65536 + b3 * 16777216)
}

/// Appends the four little-endian bytes of `v`.
pub fn push_u32(out: &mut Vec<u8>, v: u32)
    ensures
        final(out)@ == old(out)@ + u32_bytes(v),
{
    out.push((v % 256) as u8);
    out.push((v / 256 % 256) as u8);
    out.push((v / 65536 % 256) as u8);
    out.push((v / 16777216) as u8);
    assert(final(out)@ =~= old(out)@ + u32_bytes(v));
}

/// Appends every byte of `src`.
pub fn push_bytes(out: &mut Vec<u8>, src: &[u8])
    ensures
        final(out)@ == old(out)@ + src@,
{
    let ghost start = out@;
    let mut i: usize = 0;
    while i < src.len()
        invariant
            i <= src@.len(),
            out@ == start + src@.subrange(0, i as int),
        decreases src@.len() - i,
    {
        out.push(src[i]);
        i += 1;
        assert(out@ =~= start + src@.subrange(0, i as int));
    }
    assert(src@.subrange(0, src@.len() as int) =~= src@);
}

/// A copy of `buf[start .. start + len]`, or `None` where the bytes end first.
pub fn read_bytes(buf: &[u8], start: usize, len: usize) -> (r: Option<Vec<u8>>)
    ensures
        r is Some <==> start as int + len as int <= buf@.len(),
        r matches Some(v) ==> v@ == buf@.subrange(start as int, start as int + len as int),
{
    if start > buf.len() || len > buf.len() - start {
        return None;
    }
    Some(copy_range(buf, start, len))
}

/// A copy of `buf[start .. start + len]`.
pub(crate) fn copy_range(buf: &[u8], start: usize, len: usize) -> (r: Vec<u8>)
    requires
        start as int + len as int <= buf@.len(),
    ensures
        r@ == buf@.subrange(start as int, start as int + len as int),
{
    let mut out: Vec<u8> = Vec::new();
    let n = buf.len();
    let mut i: usize = 0;
    while i < len
        invariant
            i <= len,
            n == buf@.len(),
            start as int + len as int <= buf@.len(),
            out@ == buf@.subrange(start as int, start as int + i as int),
        decreases len - i,
    {
        out.push(buf[start + i]);
        i += 1;
        assert(out@ =~= buf@.subrange(start as int, start as int + i as int));
    }
    out
}

} // verus!

verus! {

/// Whether the two byte strings are equal.
pub fn bytes_eq(a: &[u8], b: &[u8]) -> (r: bool)
    ensures
        r == (a@ == b@),
{
    if a.len() != b.len() {
        return false;
    }
    let mut i: usize = 0;
    while i < a.len()
        invariant
            i <= a@.len(),
            a@.len() == b@.len(),
            forall|k: int| 0 <= k < i ==> a@[k] == b@[k],
        decreases a@.len() - i,
    {
        if a[i] != b[i] {
            return false;
        }
        i += 1;
    }
    assert(a@ =~= b@);
    true
}

} // verus!
