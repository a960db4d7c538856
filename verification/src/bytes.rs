//! Byte-string helpers shared by the codecs and the resolver logic.

use vstd::prelude::*;

verus! {

/// Big-endian value of the two bytes `b[pos..pos + 2]`.
pub open spec fn be16_at(b: Seq<u8>, pos: int) -> u16 {
    (b[pos] * 256 + b[pos + 1]) as u16
}

/// Big-endian value of the four bytes `b[pos..pos + 4]`.
pub open spec fn be32_at(b: Seq<u8>, pos: int) -> u32 {
    (((b[pos] * 256 + b[pos + 1]) * 256 + b[pos + 2]) * 256 + b[pos + 3]) as u32
}

/// The two big-endian bytes of `v`.
pub open spec fn be16_bytes(v: u16) -> Seq<u8> {
    seq![(v / 256) as u8, (v % 256) as u8]
}

/// The four big-endian bytes of `v`.
pub open spec fn be32_bytes(v: u32) -> Seq<u8> {
    seq![
        (v / 0x100_0000) as u8,
        (v / 0x1_0000 % 256) as u8,
        (v / 0x100 % 256) as u8,
        (v % 256) as u8,
    ]
}

/// Whether two byte strings are equal.
pub fn bytes_eq(a: &[u8], b: &[u8]) -> (r: bool)
    ensures
        r == (a@ == b@),
{
    if a.len() != b.len() {
        return false;
    }
    let mut i: usize = 0;
    while i < a.len()
        invariant
            a@.len() == b@.len(),
            i <= a@.len(),
            forall|j: int| 0 <= j < i ==> a@[j] == b@[j],
        decreases a@.len() - i,
    {
        if a[i] != b[i] {
            assert(a@[i as int] != b@[i as int]);
            return false;
        }
        i += 1;
    }
    assert(a@ =~= b@);
    true
}

/// A copy of a byte string.
pub fn copy_bytes(a: &[u8]) -> (r: Vec<u8>)
    ensures
        r@ == a@,
{
    copy_range(a, 0, a.len())
}

/// A copy of `a[from..to]`.
pub fn copy_range(a: &[u8], from: usize, to: usize) -> (r: Vec<u8>)
    requires
        from <= to <= a@.len(),
    ensures
        r@ == a@.subrange(from as int, to as int),
{
    let mut out: Vec<u8> = Vec::new();
    let mut i: usize = from;
    while i < to
        invariant
            from <= i <= to <= a@.len(),
            out@ == a@.subrange(from as int, i as int),
        decreases to - i,
    {
        out.push(a[i]);
        i += 1;
        assert(out@ =~= a@.subrange(from as int, i as int));
    }
    assert(a@.subrange(from as int, from as int) =~= Seq::<u8>::empty());
    out
}

/// Append `src` to `dst`.
pub fn push_all(dst: &mut Vec<u8>, src: &[u8])
    ensures
        final(dst)@ == old(dst)@ + src@,
{
    let mut i: usize = 0;
    while i < src.len()
        invariant
            i <= src@.len(),
            dst@ == old(dst)@ + src@.subrange(0, i as int),
        decreases src@.len() - i,
    {
        dst.push(src[i]);
        i += 1;
        assert(dst@ =~= old(dst)@ + src@.subrange(0, i as int));
    }
    assert(src@.subrange(0, src@.len() as int) =~= src@);
    assert(old(dst)@ + src@.subrange(0, 0) =~= old(dst)@);
}

/// Read the big-endian 16-bit value at `pos`.
pub fn read_be16(b: &[u8], pos: usize) -> (r: u16)
    requires
        pos + 2 <= b@.len(),
    ensures
        r == be16_at(b@, pos as int),
{
    b[pos] as u16 * 256 + b[pos + 1] as u16
}

/// Read the big-endian 32-bit value at `pos`.
pub fn read_be32(b: &[u8], pos: usize) -> (r: u32)
    requires
        pos + 4 <= b@.len(),
    ensures
        r == be32_at(b@, pos as int),
{
    ((b[pos] as u32 * 256 + b[pos + 1] as u32) * 256 + b[pos + 2] as u32) * 256 + b[pos + 3] as u32
}

/// Append the two big-endian bytes of `v`.
pub fn push_be16(dst: &mut Vec<u8>, v: u16)
    ensures
        final(dst)@ == old(dst)@ + be16_bytes(v),
{
    dst.push((v / 256) as u8);
    dst.push((v % 256) as u8);
    assert(dst@ =~= old(dst)@ + be16_bytes(v));
}

/// Append the four big-endian bytes of `v`.
pub fn push_be32(dst: &mut Vec<u8>, v: u32)
    ensures
        final(dst)@ == old(dst)@ + be32_bytes(v),
{
    dst.push((v / 0x100_0000) as u8);
    dst.push((v / 0x1_0000 % 256) as u8);
    dst.push((v / 0x100 % 256) as u8);
    dst.push((v % 256) as u8);
    assert(dst@ =~= old(dst)@ + be32_bytes(v));
}

/// Writing a 16-bit value and reading it back is the identity.
pub proof fn lemma_be16_roundtrip(v: u16)
    ensures
        be16_bytes(v).len() == 2,
        be16_at(be16_bytes(v), 0) == v,
{
}

/// Writing a 32-bit value and reading it back is the identity.
pub proof fn lemma_be32_roundtrip(v: u32)
    ensures
        be32_bytes(v).len() == 4,
        be32_at(be32_bytes(v), 0) == v,
{
}

} // verus!
