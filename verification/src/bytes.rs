//! Little-endian integer encodings and byte-buffer helpers shared by the
//! wire formats of this crate.

use vstd::prelude::*;

verus! {

/// The little-endian encoding of a `u32`.
pub open spec fn le_u32(x: u32) -> Seq<u8> {
    seq![
        (x % 256) as u8,
        ((x / 256) % 256) as u8,
        ((x / 65536) % 256) as u8,
        ((x / 16777216) % 256) as u8,
    ]
}

/// The little-endian encoding of a `u64`: its low half, then its high half.
pub open spec fn le_u64(x: u64) -> Seq<u8> {
    le_u32((x % 0x1_0000_0000) as u32) + le_u32((x / 0x1_0000_0000) as u32)
}

/// Append `bytes` to `out`.
pub fn append_bytes(out: &mut Vec<u8>, bytes: &[u8])
    ensures
        final(out)@ == old(out)@ + bytes@,
{
    let mut i: usize = 0;
    while i < bytes.len()
        invariant
            i <= bytes@.len(),
            out@ == old(out)@ + bytes@.subrange(0, i as int),
        decreases bytes@.len() - i,
    {
        out.push(bytes[i]);
        i = i + 1;
        assert(bytes@.subrange(0, i as int) == bytes@.subrange(0, i - 1) + seq![bytes@[i - 1]]);
    }
    assert(bytes@.subrange(0, bytes@.len() as int) == bytes@);
}

/// Append the little-endian encoding of `x` to `out`.
pub fn append_le_u32(out: &mut Vec<u8>, x: u32)
    ensures
        final(out)@ == old(out)@ + le_u32(x),
{
    out.push((x % 256) as u8);
    out.push(((x / 256) % 256) as u8);
    out.push(((x / 65536) % 256) as u8);
    out.push(((x / 16777216) % 256) as u8);
    assert(out@ =~= old(out)@ + le_u32(x));
}

/// Append the little-endian encoding of `x` to `out`.
pub fn append_le_u64(out: &mut Vec<u8>, x: u64)
    ensures
        final(out)@ == old(out)@ + le_u64(x),
{
    append_le_u32(out, (x % 0x1_0000_0000) as u32);
    append_le_u32(out, (x / 0x1_0000_0000) as u32);
    assert(out@ =~= old(out)@ + le_u64(x));
}

} // verus!

verus! {

/// The little-endian encoding of a `u32` determines it.
pub proof fn lemma_le_u32_injective(a: u32, b: u32)
    requires
        le_u32(a) == le_u32(b),
    ensures
        a == b,
{
    assert(le_u32(a)[0] == le_u32(b)[0]);
    assert(le_u32(a)[1] == le_u32(b)[1]);
    assert(le_u32(a)[2] == le_u32(b)[2]);
    assert(le_u32(a)[3] == le_u32(b)[3]);
    assert(a == (a % 256) + 256 * ((a / 256) % 256) + 65536 * ((a / 65536) % 256) + 16777216 * ((a / 16777216) % 256)) by (nonlinear_arith);
    assert(b == (b % 256) + 256 * ((b / 256) % 256) + 65536 * ((b / 65536) % 256) + 16777216 * ((b / 16777216) % 256)) by (nonlinear_arith);
}

/// The little-endian encoding of a `u64` determines it.
pub proof fn lemma_le_u64_injective(a: u64, b: u64)
    requires
        le_u64(a) == le_u64(b),
    ensures
        a == b,
{
    lemma_split_concat(
        le_u32((a % 0x1_0000_0000) as u32),
        le_u32((a / 0x1_0000_0000) as u32),
        le_u32((b % 0x1_0000_0000) as u32),
        le_u32((b / 0x1_0000_0000) as u32),
    );
    lemma_le_u32_injective((a % 0x1_0000_0000) as u32, (b % 0x1_0000_0000) as u32);
    lemma_le_u32_injective((a / 0x1_0000_0000) as u32, (b / 0x1_0000_0000) as u32);
}

/// Splitting a concatenation at the length of its first part recovers both parts.
pub proof fn lemma_split_concat(a: Seq<u8>, b: Seq<u8>, c: Seq<u8>, d: Seq<u8>)
    requires
        a + b == c + d,
        a.len() == c.len(),
    ensures
        a == c,
        b == d,
{
    assert(a =~= (a + b).subrange(0, a.len() as int));
    assert(c =~= (c + d).subrange(0, c.len() as int));
    assert(b =~= (a + b).subrange(a.len() as int, (a + b).len() as int));
    assert(d =~= (c + d).subrange(c.len() as int, (c + d).len() as int));
}

/// Concatenation is associative.
pub proof fn lemma_concat_assoc(a: Seq<u8>, b: Seq<u8>, c: Seq<u8>)
    ensures
        a + b + c == a + (b + c),
{
    assert(a + b + c =~= a + (b + c));
}

} // verus!
