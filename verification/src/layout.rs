//! Where things lie in a CISO file: how many blocks an image has, how long each is,
//! and what a word of the index table says.

use vstd::prelude::*;
use crate::bytes::{le_u32_at, read_u32_le};
use crate::ciso_header::{HEADER_SIZE, MAX_ALIGN};

verus! {

/// Bit 31 of an index word: the block is stored raw.
pub const PLAIN_FLAG: u32 = 0x8000_0000;

/// Bits 30..0 of an index word: the block's file offset, shifted right by `align`.
pub const OFFSET_MASK: u32 = 0x7fff_ffff;

/// What dividing a length by a block size gives: quotient and remainder put the length
/// together again, the remainder is less than the divisor, and the quotient is at most
/// the length, or half of it where the divisor is not 1.
pub proof fn lemma_division(t: int, b: int)
    requires
        0 <= t,
        0 < b,
    ensures
        t == (t / b) * b + t % b,
        0 <= t % b < b,
        0 <= t / b <= t,
        b >= 2 ==> 2 * (t / b) <= t,
{
    vstd::arithmetic::div_mod::lemma_fundamental_div_mod(t, b);
    vstd::arithmetic::div_mod::lemma_mod_pos_bound(t, b);
    vstd::arithmetic::div_mod::lemma_div_pos_is_pos(t, b);
    let q = t / b;
    let r = t % b;
    assert(q * b == b * q) by (nonlinear_arith);
    assert(q <= q * b) by (nonlinear_arith)
        requires
            0 <= q,
            1 <= b,
    ;
    if b >= 2 {
        assert(2 * q <= q * b) by (nonlinear_arith)
            requires
                0 <= q,
                2 <= b,
        ;
    }
}

/// Number of blocks of an image: `total_bytes / block_size`, rounded up.
pub open spec fn spec_block_count(total_bytes: u64, block_size: u32) -> u64 {
    if total_bytes % (block_size as u64) == 0 {
        total_bytes / (block_size as u64)
    } else {
        (total_bytes / (block_size as u64) + 1) as u64
    }
}

/// Number of blocks of an image: `total_bytes / block_size`, rounded up.
#[verifier::when_used_as_spec(spec_block_count)]
pub fn block_count(total_bytes: u64, block_size: u32) -> (n: u64)
    requires
        block_size > 0,
    ensures
        n == spec_block_count(total_bytes, block_size),
{
    proof {
        lemma_division(total_bytes as int, block_size as int);
    }
    let whole: u64 = total_bytes / (block_size as u64);
    if total_bytes % (block_size as u64) == 0 {
        whole
    } else {
        whole + 1
    }
}

/// Length of block `i` of an image: `block_size`, but for a shorter last block.
pub open spec fn spec_expected_size(total_bytes: u64, block_size: u32, i: u64) -> u32 {
    if i + 1 == spec_block_count(total_bytes, block_size) && total_bytes % (block_size as u64)
        != 0 {
        (total_bytes % (block_size as u64)) as u32
    } else {
        block_size
    }
}

/// Length of block `i` of an image: `block_size`, but for a shorter last block.
#[verifier::when_used_as_spec(spec_expected_size)]
pub fn expected_size(total_bytes: u64, block_size: u32, i: u64) -> (len: u32)
    requires
        block_size > 0,
        i < block_count(total_bytes, block_size),
    ensures
        len == spec_expected_size(total_bytes, block_size, i),
        0 < len <= block_size,
{
    proof {
        lemma_division(total_bytes as int, block_size as int);
    }
    let rest: u64 = total_bytes % (block_size as u64);
    if rest != 0 && i == total_bytes / (block_size as u64) {
        rest as u32
    } else {
        block_size
    }
}

/// The last block ends where the image ends: the lengths of all blocks add up to
/// `total_bytes`.
pub proof fn lemma_last_block_ends_image(total_bytes: u64, block_size: u32)
    requires
        block_size > 0,
        total_bytes > 0,
    ensures
        block_count(total_bytes, block_size) > 0,
        (block_count(total_bytes, block_size) - 1) * block_size + expected_size(
            total_bytes,
            block_size,
            (block_count(total_bytes, block_size) - 1) as u64,
        ) == total_bytes,
{
    let t = total_bytes as int;
    let b = block_size as int;
    let q = t / b;
    lemma_division(t, b);
    if t % b == 0 {
        assert(q != 0) by (nonlinear_arith)
            requires
                q * b > 0,
        ;
        assert((q - 1) * b + b == q * b) by (nonlinear_arith);
    }
}

/// File offset at which the payloads start: after the header and an index of
/// `total_blocks + 1` words.
pub open spec fn data_start(total_blocks: u64) -> int {
    HEADER_SIZE + 4 * (total_blocks + 1)
}

/// Whether an index word marks its block as stored raw.
pub open spec fn spec_entry_is_plain(word: u32) -> bool {
    word & PLAIN_FLAG != 0
}

/// Whether an index word marks its block as stored raw.
#[verifier::when_used_as_spec(spec_entry_is_plain)]
pub fn entry_is_plain(word: u32) -> (plain: bool)
    ensures
        plain == spec_entry_is_plain(word),
{
    word & PLAIN_FLAG != 0
}

/// The file offset that an index word holds: its low 31 bits, shifted left by `align`.
pub open spec fn spec_entry_offset(word: u32, align: u8) -> u128 {
    ((word & OFFSET_MASK) as u128) << (align as u128)
}

/// The file offset that an index word holds: its low 31 bits, shifted left by `align`.
#[verifier::when_used_as_spec(spec_entry_offset)]
pub fn entry_offset(word: u32, align: u8) -> (off: u128)
    requires
        align <= MAX_ALIGN,
    ensures
        off == spec_entry_offset(word, align),
        off < 0x4000_0000_0000_0000_0000_0000,
{
    let low: u128 = (word & OFFSET_MASK) as u128;
    let shift: u128 = align as u128;
    assert(low << shift < 0x4000_0000_0000_0000_0000_0000u128) by (bit_vector)
        requires
            low == (word & 0x7fff_ffffu32) as u128,
            shift <= 63,
    ;
    low << shift
}

/// Word `i` of the index table of the file `cso`.
pub open spec fn index_word(cso: Seq<u8>, i: int) -> u32 {
    le_u32_at(cso, HEADER_SIZE + 4 * i) as u32
}

/// Reads word `i` of the index table of the file `cso`.
pub fn read_index_word(cso: &[u8], i: u64) -> (word: u32)
    requires
        HEADER_SIZE + 4 * (i + 1) <= cso.len(),
    ensures
        word == index_word(cso@, i as int),
{
    let at: usize = HEADER_SIZE + 4 * (i as usize);
    read_u32_le(cso, at)
}

} // verus!
