//! Little-endian integers as byte sequences.

use vstd::prelude::*;

verus! {

/// The value of the four bytes of `b` starting at `at`, read little-endian.
pub open spec fn le_u32_at(b: Seq<u8>, at: int) -> int {
    b[at] as int + 0x100 * (b[at + 1] as int) + 0x1_0000 * (b[at + 2] as int) + 0x100_0000 * (b[at
        + 3] as int)
}

/// The value of the eight bytes of `b` starting at `at`, read little-endian.
pub open spec fn le_u64_at(b: Seq<u8>, at: int) -> int {
    le_u32_at(b, at) + 0x1_0000_0000 * le_u32_at(b, at + 4)
}

/// The four bytes of `x`, least significant first.
pub open spec fn u32_le(x: u32) -> Seq<u8> {
    seq![
        (x % 0x100) as u8,
        (x / 0x100 % 0x100) as u8,
        (x / 0x1_0000 % 0x100) as u8,
        (x / 0x100_0000) as u8,
    ]
}

/// The eight bytes of `x`, least significant first.
pub open spec fn u64_le(x: u64) -> Seq<u8> {
    u32_le((x % 0x1_0000_0000) as u32) + u32_le((x / 0x1_0000_0000) as u32)
}

/// Reading back what `u32_le` wrote gives the same number, wherever the bytes stand.
pub proof fn lemma_u32_le_round_trip(x: u32, b: Seq<u8>, at: int)
    requires
        0 <= at,
        at + 4 <= b.len(),
        b.subrange(at, at + 4) == u32_le(x),
    ensures
        le_u32_at(b, at) == x,
{
    let w = b.subrange(at, at + 4);
    assert(b[at] == w[0] && b[at + 1] == w[1] && b[at + 2] == w[2] && b[at + 3] == w[3]);
}

/// Reading back what `u64_le` wrote gives the same number, wherever the bytes stand.
pub proof fn lemma_u64_le_round_trip(x: u64, b: Seq<u8>, at: int)
    requires
        0 <= at,
        at + 8 <= b.len(),
        b.subrange(at, at + 8) == u64_le(x),
    ensures
        le_u64_at(b, at) == x,
{
    let w = b.subrange(at, at + 8);
    let lo = (x % 0x1_0000_0000) as u32;
    let hi = (x / 0x1_0000_0000) as u32;
    assert(b.subrange(at, at + 4) =~= w.subrange(0, 4));
    assert(b.subrange(at + 4, at + 8) =~= w.subrange(4, 8));
    assert(w.subrange(0, 4) =~= u32_le(lo));
    assert(w.subrange(4, 8) =~= u32_le(hi));
    lemma_u32_le_round_trip(lo, b, at);
    lemma_u32_le_round_trip(hi, b, at + 4);
}

/// Writing out the number that four bytes spell gives those four bytes.
pub proof fn lemma_le_u32_bytes(b: Seq<u8>, at: int)
    requires
        0 <= at,
        at + 4 <= b.len(),
    ensures
        0 <= le_u32_at(b, at) <= u32::MAX,
        u32_le(le_u32_at(b, at) as u32) == b.subrange(at, at + 4),
{
    assert(u32_le(le_u32_at(b, at) as u32) =~= b.subrange(at, at + 4));
}

/// A number below 2^64 splits in one way into a low and a high 32-bit half.
proof fn lemma_split_u64(x: int, lo: int, hi: int)
    by (nonlinear_arith)
    requires
        x == lo + 0x1_0000_0000 * hi,
        0 <= lo < 0x1_0000_0000,
        0 <= hi,
    ensures
        x % 0x1_0000_0000 == lo,
        x / 0x1_0000_0000 == hi,
{
}

/// Writing out the number that eight bytes spell gives those eight bytes.
pub proof fn lemma_le_u64_bytes(b: Seq<u8>, at: int)
    requires
        0 <= at,
        at + 8 <= b.len(),
    ensures
        0 <= le_u64_at(b, at) <= u64::MAX,
        u64_le(le_u64_at(b, at) as u64) == b.subrange(at, at + 8),
{
    lemma_le_u32_bytes(b, at);
    lemma_le_u32_bytes(b, at + 4);
    let lo = le_u32_at(b, at);
    let hi = le_u32_at(b, at + 4);
    let x = le_u64_at(b, at) as u64;
    assert(x % 0x1_0000_0000 == lo && x / 0x1_0000_0000 == hi) by {
        lemma_split_u64(x as int, lo, hi);
    }
    assert(u64_le(x) =~= b.subrange(at, at + 4) + b.subrange(at + 4, at + 8));
    assert(b.subrange(at, at + 4) + b.subrange(at + 4, at + 8) =~= b.subrange(at, at + 8));
}

/// Reads a little-endian `u32` from `b` at `at`.
pub fn read_u32_le(b: &[u8], at: usize) -> (x: u32)
    requires
        at + 4 <= b.len(),
    ensures
        x == le_u32_at(b@, at as int),
{
    let b0: u32 = b[at] as u32;
    let b1: u32 = b[at + 1] as u32;
    let b2: u32 = b[at + 2] as u32;
    let b3: u32 = b[at + 3] as u32;
    b0 + 0x100 * b1 + 0x1_0000 * b2 + 0x100_0000 * b3
}

/// Reads a little-endian `u64` from `b` at `at`.
pub fn read_u64_le(b: &[u8], at: usize) -> (x: u64)
    requires
        at + 8 <= b.len(),
    ensures
        x == le_u64_at(b@, at as int),
{
    let lo: u64 = read_u32_le(b, at) as u64;
    let hi: u64 = read_u32_le(b, at + 4) as u64;
    lo + 0x1_0000_0000 * hi
}

/// Appends the four little-endian bytes of `x` to `out`.
pub fn push_u32_le(out: &mut Vec<u8>, x: u32)
    ensures
        final(out)@ == old(out)@ + u32_le(x),
{
    out.push((x % 0x100) as u8);
    out.push((x / 0x100 % 0x100) as u8);
    out.push((x / 0x1_0000 % 0x100) as u8);
    out.push((x / 0x100_0000) as u8);
    assert(out@ =~= old(out)@ + u32_le(x));
}

/// Appends the eight little-endian bytes of `x` to `out`.
pub fn push_u64_le(out: &mut Vec<u8>, x: u64)
    ensures
        final(out)@ == old(out)@ + u64_le(x),
{
    push_u32_le(out, (x % 0x1_0000_0000) as u32);
    push_u32_le(out, (x / 0x1_0000_0000) as u32);
    assert(out@ =~= old(out)@ + u64_le(x));
}

/// Writes `bytes` over what `out` holds from `at` on.
pub fn overwrite(out: &mut Vec<u8>, at: usize, bytes: &[u8])
    requires
        at + bytes.len() <= old(out).len(),
    ensures
        final(out)@ == old(out)@.subrange(0, at as int) + bytes@ + old(out)@.subrange(
            at + bytes.len(),
            old(out)@.len() as int,
        ),
{
    let mut j: usize = 0;
    while j < bytes.len()
        invariant
            j <= bytes.len(),
            at + bytes.len() <= out.len(),
            out.len() == old(out).len(),
            forall|k: int|
                0 <= k < out@.len() ==> out@[k] == if at <= k < at + j {
                    bytes@[k - at]
                } else {
                    old(out)@[k]
                },
        decreases bytes.len() - j,
    {
        out.set(at + j, bytes[j]);
        j += 1;
    }
    assert(out@ =~= old(out)@.subrange(0, at as int) + bytes@ + old(out)@.subrange(
        at + bytes.len(),
        old(out)@.len() as int,
    ));
}

} // verus!
