//! The decompressor: from a CISO file back to the image, one tile of `block_size`
//! bytes per block.

use vstd::prelude::*;
use crate::ciso_header::{CisoHeader, HEADER_SIZE};
use crate::codec::{inflate_raw, inflated, CodecStatus};
use crate::layout::{data_start, entry_is_plain, entry_offset, index_word, read_index_word};

verus! {

/// Why a file could not be decompressed.  `block` is the block at which it failed.
#[derive(Debug, Clone, Copy, PartialEq, Eq)]
pub enum DecompressError {
    /// The file is shorter than a header.
    MalformedHeader,
    /// The header gives a block size of zero or an `align` above 63.
    UnusableHeader,
    /// The file ends before the end of the index table.
    TruncatedIndex,
    /// The file ends before the end of a block's payload.
    TruncatedBlock { block: u64 },
    /// A compressed block ends before it starts.
    NegativeSize { block: u64 },
    /// A compressed block is longer than two blocks.
    OversizedBlock { block: u64 },
    /// The codec reported an error, or the block's stream did not end.
    Inflate { block: u64 },
    /// A compressed block inflated to another length than `block_size`.
    WrongLength { block: u64 },
}

/// Number of tiles that the decompressor emits: `total_bytes / block_size`, rounded
/// down.
pub open spec fn spec_whole_blocks(total_bytes: u64, block_size: u32) -> u64 {
    total_bytes / (block_size as u64)
}

/// Number of tiles that the decompressor emits: `total_bytes / block_size`, rounded
/// down.
#[verifier::when_used_as_spec(spec_whole_blocks)]
pub fn whole_blocks(total_bytes: u64, block_size: u32) -> (n: u64)
    requires
        block_size > 0,
    ensures
        n == spec_whole_blocks(total_bytes, block_size),
{
    total_bytes / (block_size as u64)
}

/// What becomes of the codec's answer for one block: the tile, if the stream ended
/// and gave `block_size` bytes.
pub open spec fn spec_accept_tile(
    status: CodecStatus,
    bytes: Seq<u8>,
    block_size: u32,
    block: u64,
) -> Result<Seq<u8>, DecompressError> {
    if status != CodecStatus::StreamEnd {
        Err(DecompressError::Inflate { block })
    } else if bytes.len() != block_size {
        Err(DecompressError::WrongLength { block })
    } else {
        Ok(bytes)
    }
}

/// What becomes of the codec's answer for one block: the tile, if the stream ended
/// and gave `block_size` bytes.
pub fn accept_tile(status: CodecStatus, bytes: Vec<u8>, block_size: u32, block: u64) -> (r: Result<
    Vec<u8>,
    DecompressError,
>)
    ensures
        match spec_accept_tile(status, bytes@, block_size, block) {
            Ok(tile) => r is Ok && r->Ok_0@ == tile,
            Err(e) => r == Err::<Vec<u8>, DecompressError>(e),
        },
{
    match status {
        CodecStatus::StreamEnd => {
            if bytes.len() != block_size as usize {
                Err(DecompressError::WrongLength { block })
            } else {
                Ok(bytes)
            }
        },
        _ => Err(DecompressError::Inflate { block }),
    }
}

/// The tile of block `i` of the file `cso` with header `h`, or why there is none.
pub open spec fn tile(cso: Seq<u8>, h: CisoHeader, i: int) -> Result<Seq<u8>, DecompressError> {
    let block = i as u64;
    let word = index_word(cso, i);
    let off = entry_offset(word, h.align) as int;
    let next = entry_offset(index_word(cso, i + 1), h.align) as int;
    if entry_is_plain(word) {
        if off + h.block_size > cso.len() {
            Err(DecompressError::TruncatedBlock { block })
        } else {
            Ok(cso.subrange(off, off + h.block_size))
        }
    } else if next < off {
        Err(DecompressError::NegativeSize { block })
    } else if next - off > 2 * h.block_size {
        Err(DecompressError::OversizedBlock { block })
    } else if next > cso.len() {
        Err(DecompressError::TruncatedBlock { block })
    } else {
        let answer = inflated(cso.subrange(off, next), h.block_size as int);
        spec_accept_tile(answer.0, answer.1, h.block_size, block)
    }
}

/// The tiles of blocks `0..upto` one after another, or the first failure among them.
pub open spec fn tiles(cso: Seq<u8>, h: CisoHeader, upto: int) -> Result<Seq<u8>, DecompressError>
    decreases upto,
{
    if upto <= 0 {
        Ok(Seq::empty())
    } else {
        match tiles(cso, h, upto - 1) {
            Err(e) => Err(e),
            Ok(before) => match tile(cso, h, upto - 1) {
                Err(e) => Err(e),
                Ok(t) => Ok(before + t),
            },
        }
    }
}

/// Why the decompressor cannot start on the file `cso`, if it cannot.
pub open spec fn open_fault(cso: Seq<u8>) -> Option<DecompressError> {
    let h = CisoHeader::from_bytes(cso);
    if cso.len() < HEADER_SIZE {
        Some(DecompressError::MalformedHeader)
    } else if !h.usable() {
        Some(DecompressError::UnusableHeader)
    } else if data_start(whole_blocks(h.total_bytes, h.block_size)) > cso.len() {
        Some(DecompressError::TruncatedIndex)
    } else {
        None
    }
}

/// What the decompressor makes of the file `cso`: the image, or the first failure.
pub open spec fn decompress_outcome(cso: Seq<u8>) -> Result<Seq<u8>, DecompressError> {
    let h = CisoHeader::from_bytes(cso);
    match open_fault(cso) {
        Some(e) => Err(e),
        None => tiles(cso, h, whole_blocks(h.total_bytes, h.block_size) as int),
    }
}

/// A failure among the first tiles is the failure of every longer run of tiles.
pub proof fn lemma_failure_stays(cso: Seq<u8>, h: CisoHeader, k: int, upto: int)
    requires
        k <= upto,
        tiles(cso, h, k) is Err,
    ensures
        tiles(cso, h, upto) == tiles(cso, h, k),
    decreases upto - k,
{
    if k < upto {
        lemma_failure_stays(cso, h, k, upto - 1);
    }
}

/// Reads the header of the file `cso` and sees that its index table is all there.
pub fn open_ciso(cso: &[u8]) -> (r: Result<CisoHeader, DecompressError>)
    ensures
        match open_fault(cso@) {
            Some(e) => r == Err::<CisoHeader, DecompressError>(e),
            None => r == Ok::<CisoHeader, DecompressError>(CisoHeader::from_bytes(cso@)),
        },
{
    let h = match CisoHeader::read_from(cso) {
        Ok(h) => h,
        Err(_) => {
            return Err(DecompressError::MalformedHeader);
        },
    };
    if !h.usable() {
        return Err(DecompressError::UnusableHeader);
    }
    let blocks: u64 = whole_blocks(h.total_bytes, h.block_size);
    if HEADER_SIZE as u128 + 4 * (blocks as u128 + 1) > cso.len() as u128 {
        return Err(DecompressError::TruncatedIndex);
    }
    Ok(h)
}

/// Decompresses block `i` of the file `cso` with header `h`.
pub fn decompress_block(cso: &[u8], h: &CisoHeader, i: u64) -> (r: Result<Vec<u8>, DecompressError>)
    requires
        h.usable(),
        i < whole_blocks(h.total_bytes, h.block_size),
        data_start(whole_blocks(h.total_bytes, h.block_size)) <= cso.len(),
    ensures
        match tile(cso@, *h, i as int) {
            Ok(t) => r is Ok && r->Ok_0@ == t,
            Err(e) => r == Err::<Vec<u8>, DecompressError>(e),
        },
{
    let file_len: u128 = cso.len() as u128;
    let word: u32 = read_index_word(cso, i);
    let off: u128 = entry_offset(word, h.align);
    if entry_is_plain(word) {
        if off + h.block_size as u128 > file_len {
            return Err(DecompressError::TruncatedBlock { block: i });
        }
        let raw = &cso[off as usize..(off + h.block_size as u128) as usize];
        let mut out: Vec<u8> = Vec::new();
        out.extend_from_slice(raw);
        return Ok(out);
    }
    let next: u128 = entry_offset(read_index_word(cso, i + 1), h.align);
    if next < off {
        return Err(DecompressError::NegativeSize { block: i });
    }
    if next - off > 2 * (h.block_size as u128) {
        return Err(DecompressError::OversizedBlock { block: i });
    }
    if next > file_len {
        return Err(DecompressError::TruncatedBlock { block: i });
    }
    let payload = &cso[off as usize..next as usize];
    let answer = inflate_raw(payload, h.block_size as usize);
    accept_tile(answer.0, answer.1, h.block_size, i)
}

/// Decompresses the file `cso`.
pub fn decompress_ciso(cso: &[u8]) -> (r: Result<Vec<u8>, DecompressError>)
    ensures
        match decompress_outcome(cso@) {
            Ok(image) => r is Ok && r->Ok_0@ == image,
            Err(e) => r == Err::<Vec<u8>, DecompressError>(e),
        },
{
    let h = match open_ciso(cso) {
        Ok(h) => h,
        Err(e) => {
            return Err(e);
        },
    };
    let blocks: u64 = whole_blocks(h.total_bytes, h.block_size);
    let mut image: Vec<u8> = Vec::new();
    let mut i: u64 = 0;
    while i < blocks
        invariant
            i <= blocks,
            h == CisoHeader::from_bytes(cso@),
            open_fault(cso@) is None,
            blocks == whole_blocks(h.total_bytes, h.block_size),
            tiles(cso@, h, i as int) == Ok::<Seq<u8>, DecompressError>(image@),
        decreases blocks - i,
    {
        let ghost before = image@;
        match decompress_block(cso, &h, i) {
            Ok(t) => {
                image.extend_from_slice(t.as_slice());
                assert(tile(cso@, h, i as int) == Ok::<Seq<u8>, DecompressError>(t@));
                assert(image@ == before + t@);
                assert(tiles(cso@, h, i + 1) == Ok::<Seq<u8>, DecompressError>(image@));
            },
            Err(e) => {
                proof {
                    lemma_failure_stays(cso@, h, i + 1, blocks as int);
                }
                return Err(e);
            },
        }
        i += 1;
    }
    Ok(image)
}

} // verus!
