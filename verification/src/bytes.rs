//! Little-endian integer encoding and byte-range helpers.

use vstd::prelude::*;

verus! {

/// The little-endian 16-bit value at `p`.
pub open spec fn le16(d: Seq<u8>, p: int) -> int {
    d[p] + 256 * d[p + 1]
}

/// The little-endian 32-bit value at `p`.
pub open spec fn le32(d: Seq<u8>, p: int) -> int {
    d[p] + 256 * d[p + 1] + 65536 * d[p + 2] + 16777216 * d[p + 3]
}

/// The little-endian encoding of a 16-bit value.
pub open spec fn u16_bytes(v: u16) -> Seq<u8> {
    seq![(v % 256) as u8, (v / 256) as u8]
}

/// The little-endian encoding of a 32-bit value.
pub open spec fn u32_bytes(v: u32) -> Seq<u8> {
    seq![
        (v % 256) as u8,
        ((v / 256) % 256) as u8,
        ((v / 65536) % 256) as u8,
        (v / 16777216) as u8,
    ]
}

/// Read the little-endian u16 at `p`.
pub fn read_u16(d: &[u8], p: usize) -> (r: u16)
    requires
        p + 2 <= d@.len(),
    ensures
        r == le16(d@, p as int),
{
    (d[p] as u16) + (d[p + 1] as u16) * 256
}

/// Read the little-endian u32 at `p`.
pub fn read_u32(d: &[u8], p: usize) -> (r: u32)
    requires
        p + 4 <= d@.len(),
    ensures
        r == le32(d@, p as int),
{
    (d[p] as u32) + (d[p + 1] as u32) * 256 + (d[p + 2] as u32) * 65536 + (d[p + 3] as u32)
        * 16777216
}

/// Append the little-endian encoding of `v`.
pub fn push_u16(buf: &mut Vec<u8>, v: u16)
    ensures
        final(buf)@ == old(buf)@ + u16_bytes(v),
{
    buf.push((v % 256) as u8);
    buf.push((v / 256) as u8);
    assert(buf@ =~= old(buf)@ + u16_bytes(v));
}

/// Append the little-endian encoding of `v`.
pub fn push_u32(buf: &mut Vec<u8>, v: u32)
    ensures
        final(buf)@ == old(buf)@ + u32_bytes(v),
{
    buf.push((v % 256) as u8);
    buf.push(((v / 256) % 256) as u8);
    buf.push(((v / 65536) % 256) as u8);
    buf.push((v / 16777216) as u8);
    assert(buf@ =~= old(buf)@ + u32_bytes(v));
}

/// Reading back a little-endian encoding gives the encoded value.
pub proof fn lemma_le32_u32_bytes(v: u32)
    ensures
        le32(u32_bytes(v), 0) == v,
{
}

/// Reading back a little-endian encoding gives the encoded value.
pub proof fn lemma_le16_u16_bytes(v: u16)
    ensures
        le16(u16_bytes(v), 0) == v,
{
}

/// Copy the bytes `d[a..b]` into a new vector.
pub fn copy_range(d: &[u8], a: usize, b: usize) -> (v: Vec<u8>)
    requires
        a <= b <= d@.len(),
    ensures
        v@ == d@.subrange(a as int, b as int),
{
    let mut v: Vec<u8> = Vec::new();
    let mut i = a;
    while i < b
        invariant
            a <= i <= b <= d@.len(),
            v@ == d@.subrange(a as int, i as int),
        decreases b - i,
    {
        v.push(d[i]);
        assert(v@ =~= d@.subrange(a as int, i + 1));
        i = i + 1;
    }
    v
}

/// Append all of `src` to `buf`.
pub fn append_bytes(buf: &mut Vec<u8>, src: &[u8])
    ensures
        final(buf)@ == old(buf)@ + src@,
{
    let mut i: usize = 0;
    while i < src.len()
        invariant
            i <= src@.len(),
            buf@ == old(buf)@ + src@.take(i as int),
        decreases src.len() - i,
    {
        buf.push(src[i]);
        assert(src@.take(i + 1) =~= src@.take(i as int).push(src@[i as int]));
        i = i + 1;
    }
    assert(src@.take(i as int) =~= src@);
}

/// Whether two byte slices are equal.
pub fn bytes_equal(a: &[u8], b: &[u8]) -> (r: bool)
    ensures
        r == (a@ == b@),
{
    if a.len() != b.len() {
        return false;
    }
    let mut i: usize = 0;
    while i < a.len()
        invariant
            i <= a@.len(),
            a@.len() == b@.len(),
            forall|j: int| 0 <= j < i ==> a@[j] == b@[j],
        decreases a.len() - i,
    {
        if a[i] != b[i] {
            return false;
        }
        i = i + 1;
    }
    assert(a@ =~= b@);
    true
}

} // verus!
