//! The integrity checker: does a byte string have the structure of a CISO file, and,
//! on request, does every compressed block inflate to its block's length?

use vstd::prelude::*;
use crate::ciso_header::{CisoHeader, HEADER_SIZE};
use crate::codec::{inflate_raw, inflated, CodecStatus};
use crate::layout::{
    block_count, data_start, entry_is_plain, entry_offset, expected_size, index_word,
    read_index_word,
};

verus! {

/// The first thing the checker found wrong.  `block` is the index entry at which it
/// was found.
#[derive(Debug, Clone, Copy, PartialEq, Eq)]
pub enum IntegrityError {
    /// The file is shorter than a header.
    MalformedHeader,
    /// The header gives a block size of zero or an `align` above 63.
    UnusableHeader,
    /// The file ends before the end of the index table.
    TruncatedIndex,
    /// A block's offset lies inside the header or the index table.
    BlockBeforeData { block: u64 },
    /// A block's offset is smaller than that of the block before it.  `inspect_block`
    /// reports it; `check_ciso` meets such a block one entry earlier, where the block
    /// before it ends before it starts or has the wrong extent.
    NonMonotonic { block: u64 },
    /// A compressed block ends before it starts.
    NegativeSize { block: u64 },
    /// A raw block's extent is not the block's length.
    PlainSizeMismatch { block: u64 },
    /// A block, or the end of the last one, lies beyond the end of the file.
    TruncatedBlock { block: u64 },
    /// A compressed block is longer than two blocks.
    OversizedCompressed { block: u64 },
    /// A compressed block is not a complete deflate stream.
    InvalidDeflate { block: u64 },
    /// A compressed block inflates to another length than its block's.
    DecompressedSizeMismatch { block: u64 },
}

/// What the deep pass makes of the codec's answer for one block: the stream must have
/// ended, and must have given `expected` bytes.
pub open spec fn spec_inflate_verdict(
    status: CodecStatus,
    produced: usize,
    expected: u32,
    block: u64,
) -> Option<IntegrityError> {
    if status != CodecStatus::StreamEnd {
        Some(IntegrityError::InvalidDeflate { block })
    } else if produced != expected {
        Some(IntegrityError::DecompressedSizeMismatch { block })
    } else {
        None
    }
}

/// What the deep pass makes of the codec's answer for one block: the stream must have
/// ended, and must have given `expected` bytes.
#[verifier::when_used_as_spec(spec_inflate_verdict)]
pub fn inflate_verdict(status: CodecStatus, produced: usize, expected: u32, block: u64) -> (r:
    Option<IntegrityError>)
    ensures
        r == spec_inflate_verdict(status, produced, expected, block),
{
    match status {
        CodecStatus::StreamEnd => {
            if produced != expected as usize {
                Some(IntegrityError::DecompressedSizeMismatch { block })
            } else {
                None
            }
        },
        _ => Some(IntegrityError::InvalidDeflate { block }),
    }
}

/// What is wrong with block `i` of the file `cso` with header `h`, if anything: the
/// first of the checker's tests that the block fails.
pub open spec fn block_fault(cso: Seq<u8>, h: CisoHeader, i: int, full: bool) -> Option<
    IntegrityError,
> {
    let block = i as u64;
    let word = index_word(cso, i);
    let off = entry_offset(word, h.align) as int;
    let next = entry_offset(index_word(cso, i + 1), h.align) as int;
    let plain = entry_is_plain(word);
    let expected = expected_size(h.total_bytes, h.block_size, block);
    let size = if plain {
        expected as int
    } else {
        next - off
    };
    if off < data_start(block_count(h.total_bytes, h.block_size)) {
        Some(IntegrityError::BlockBeforeData { block })
    } else if i > 0 && off < entry_offset(index_word(cso, i - 1), h.align) {
        Some(IntegrityError::NonMonotonic { block })
    } else if !plain && next < off {
        Some(IntegrityError::NegativeSize { block })
    } else if plain && next - off != expected {
        Some(IntegrityError::PlainSizeMismatch { block })
    } else if off + size > cso.len() {
        Some(IntegrityError::TruncatedBlock { block })
    } else if full && !plain {
        if size > 2 * h.block_size {
            Some(IntegrityError::OversizedCompressed { block })
        } else {
            let answer = inflated(cso.subrange(off, off + size), expected as int);
            inflate_verdict(answer.0, answer.1.len() as usize, expected, block)
        }
    } else {
        None
    }
}

/// The fault of the first faulty block among blocks `from..upto`.
pub open spec fn first_fault(cso: Seq<u8>, h: CisoHeader, full: bool, from: int, upto: int)
    -> Option<IntegrityError>
    decreases upto - from,
{
    if from >= upto {
        None
    } else {
        match block_fault(cso, h, from, full) {
            Some(e) => Some(e),
            None => first_fault(cso, h, full, from + 1, upto),
        }
    }
}

/// What the checker says of the file `cso`: the first failure in the order header,
/// index table, end of data, then block by block.
pub open spec fn check_outcome(cso: Seq<u8>, full: bool) -> Result<(), IntegrityError> {
    let h = CisoHeader::from_bytes(cso);
    let blocks = block_count(h.total_bytes, h.block_size);
    if cso.len() < HEADER_SIZE {
        Err(IntegrityError::MalformedHeader)
    } else if !h.usable() {
        Err(IntegrityError::UnusableHeader)
    } else if data_start(blocks) > cso.len() {
        Err(IntegrityError::TruncatedIndex)
    } else if entry_offset(index_word(cso, blocks as int), h.align) > cso.len() {
        Err(IntegrityError::TruncatedBlock { block: blocks })
    } else {
        match first_fault(cso, h, full, 0, blocks as int) {
            Some(e) => Err(e),
            None => Ok(()),
        }
    }
}

/// A block behind a block without fault does not start before it: a step back in the
/// index table shows as a fault of the block before the step, so the checker, which
/// stops at the first fault, never reports `NonMonotonic`.
pub proof fn lemma_order_fault_shows_one_block_earlier(
    cso: Seq<u8>,
    h: CisoHeader,
    i: int,
    full: bool,
)
    requires
        0 < i <= u64::MAX,
        block_fault(cso, h, i - 1, full) is None,
    ensures
        entry_offset(index_word(cso, i - 1), h.align) <= entry_offset(index_word(cso, i), h.align),
        block_fault(cso, h, i, full) != Some(IntegrityError::NonMonotonic { block: i as u64 }),
{
}

/// No first fault of a run of blocks is `NonMonotonic`, where the block before the run
/// has no fault.
proof fn lemma_first_fault_is_no_order_fault(
    cso: Seq<u8>,
    h: CisoHeader,
    full: bool,
    from: int,
    upto: int,
)
    requires
        0 <= from <= upto <= u64::MAX,
        from > 0 ==> block_fault(cso, h, from - 1, full) is None,
    ensures
        !(first_fault(cso, h, full, from, upto) matches Some(
            IntegrityError::NonMonotonic { block },
        )),
    decreases upto - from,
{
    if from < upto {
        if from > 0 {
            lemma_order_fault_shows_one_block_earlier(cso, h, from, full);
        }
        if block_fault(cso, h, from, full) is None {
            lemma_first_fault_is_no_order_fault(cso, h, full, from + 1, upto);
        }
    }
}

/// The checker never reports `NonMonotonic`.
pub proof fn lemma_check_reports_no_order_fault(cso: Seq<u8>, full: bool)
    ensures
        !(check_outcome(cso, full) matches Err(IntegrityError::NonMonotonic { block })),
{
    let h = CisoHeader::from_bytes(cso);
    let blocks = block_count(h.total_bytes, h.block_size);
    lemma_first_fault_is_no_order_fault(cso, h, full, 0, blocks as int);
}

/// Finds what is wrong with block `i`, if anything.
pub fn inspect_block(cso: &[u8], h: &CisoHeader, i: u64, full: bool) -> (r: Option<
    IntegrityError,
>)
    requires
        h.usable(),
        i < block_count(h.total_bytes, h.block_size),
        data_start(block_count(h.total_bytes, h.block_size)) <= cso.len(),
    ensures
        r == block_fault(cso@, *h, i as int, full),
{
    let blocks: u64 = block_count(h.total_bytes, h.block_size);
    let file_len: u128 = cso.len() as u128;
    let first_payload: u128 = HEADER_SIZE as u128 + 4 * (blocks as u128 + 1);
    let word: u32 = read_index_word(cso, i);
    let plain = entry_is_plain(word);
    let off: u128 = entry_offset(word, h.align);
    let next: u128 = entry_offset(read_index_word(cso, i + 1), h.align);
    if off < first_payload {
        return Some(IntegrityError::BlockBeforeData { block: i });
    }
    if i > 0 && off < entry_offset(read_index_word(cso, i - 1), h.align) {
        return Some(IntegrityError::NonMonotonic { block: i });
    }
    let expected: u32 = expected_size(h.total_bytes, h.block_size, i);
    if !plain && next < off {
        return Some(IntegrityError::NegativeSize { block: i });
    }
    if plain && (next < off || next - off != expected as u128) {
        return Some(IntegrityError::PlainSizeMismatch { block: i });
    }
    let size: u128 = if plain {
        expected as u128
    } else {
        next - off
    };
    if off + size > file_len {
        return Some(IntegrityError::TruncatedBlock { block: i });
    }
    if full && !plain {
        if size > 2 * (h.block_size as u128) {
            return Some(IntegrityError::OversizedCompressed { block: i });
        }
        let payload = &cso[off as usize..(off + size) as usize];
        let answer = inflate_raw(payload, expected as usize);
        return inflate_verdict(answer.0, answer.1.len(), expected, i);
    }
    None
}

/// Checks the file `cso`; with `full`, also inflates every compressed block.
pub fn check_ciso(cso: &[u8], full: bool) -> (r: Result<(), IntegrityError>)
    ensures
        r == check_outcome(cso@, full),
{
    let h = match CisoHeader::read_from(cso) {
        Ok(h) => h,
        Err(_) => {
            return Err(IntegrityError::MalformedHeader);
        },
    };
    if !h.usable() {
        return Err(IntegrityError::UnusableHeader);
    }
    let blocks: u64 = block_count(h.total_bytes, h.block_size);
    let file_len: u128 = cso.len() as u128;
    if HEADER_SIZE as u128 + 4 * (blocks as u128 + 1) > file_len {
        return Err(IntegrityError::TruncatedIndex);
    }
    if entry_offset(read_index_word(cso, blocks), h.align) > file_len {
        return Err(IntegrityError::TruncatedBlock { block: blocks });
    }
    let mut i: u64 = 0;
    while i < blocks
        invariant
            i <= blocks,
            h == CisoHeader::from_bytes(cso@),
            h.usable(),
            blocks == block_count(h.total_bytes, h.block_size),
            data_start(blocks) <= cso.len(),
            entry_offset(index_word(cso@, blocks as int), h.align) <= cso.len(),
            first_fault(cso@, h, full, 0, blocks as int) == first_fault(
                cso@,
                h,
                full,
                i as int,
                blocks as int,
            ),
        decreases blocks - i,
    {
        match inspect_block(cso, &h, i, full) {
            Some(e) => {
                return Err(e);
            },
            None => {},
        }
        i += 1;
    }
    Ok(())
}

} // verus!
