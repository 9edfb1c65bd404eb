//! Big-endian integer encodings and byte-vector helpers.

use vstd::prelude::*;

verus! {

/// The two bytes of `x`, most significant first.
pub open spec fn be16(x: u16) -> Seq<u8> {
    seq![(x >> 8u16) as u8, x as u8]
}

/// The four bytes of `x`, most significant first.
pub open spec fn be32(x: u32) -> Seq<u8> {
    seq![(x >> 24u32) as u8, (x >> 16u32) as u8, (x >> 8u32) as u8, x as u8]
}

/// The eight bytes of the two's-complement form of `x`, most significant first.
pub open spec fn be64(x: i64) -> Seq<u8> {
    seq![
        (x >> 56i64) as u8,
        (x >> 48i64) as u8,
        (x >> 40i64) as u8,
        (x >> 32i64) as u8,
        (x >> 24i64) as u8,
        (x >> 16i64) as u8,
        (x >> 8i64) as u8,
        x as u8,
    ]
}

/// Appends every byte of `bytes` to `out`.
pub fn append_bytes(out: &mut Vec<u8>, bytes: &[u8])
    ensures
        final(out)@ == old(out)@ + bytes@,
{
    let n = bytes.len();
    let mut i: usize = 0;
    while i < n
        invariant
            n == bytes@.len(),
            i <= n,
            out@ == old(out)@ + bytes@.take(i as int),
        decreases n - i,
    {
        out.push(bytes[i]);
        i = i + 1;
        assert(bytes@.take(i as int) == bytes@.take((i - 1) as int).push(bytes@[i - 1]));
    }
    assert(bytes@.take(n as int) == bytes@);
}

/// Appends the big-endian bytes of `x` to `out`.
pub fn push_be16(out: &mut Vec<u8>, x: u16)
    ensures
        final(out)@ == old(out)@ + be16(x),
{
    out.push((x >> 8u16) as u8);
    out.push(x as u8);
}

/// Appends the big-endian bytes of `x` to `out`.
pub fn push_be32(out: &mut Vec<u8>, x: u32)
    ensures
        final(out)@ == old(out)@ + be32(x),
{
    out.push((x >> 24u32) as u8);
    out.push((x >> 16u32) as u8);
    out.push((x >> 8u32) as u8);
    out.push(x as u8);
}

/// Appends the big-endian two's-complement bytes of `x` to `out`.
pub fn push_be64(out: &mut Vec<u8>, x: i64)
    ensures
        final(out)@ == old(out)@ + be64(x),
{
    out.push((x >> 56i64) as u8);
    out.push((x >> 48i64) as u8);
    out.push((x >> 40i64) as u8);
    out.push((x >> 32i64) as u8);
    out.push((x >> 24i64) as u8);
    out.push((x >> 16i64) as u8);
    out.push((x >> 8i64) as u8);
    out.push(x as u8);
}

} // verus!
