//! What holds of every file that the compressor produces.
//!
//! The codec is used as a black box, so two of the statements below rest on a
//! condition on it, `kept_streams_inflate`: that it inflates each stream it produced
//! back to the block it was given.  Offsets of 2^31 and more share bit 31 of an index
//! word with the plain flag, so what is said of the index table is said of files
//! shorter than that.

use vstd::prelude::*;
use crate::check::{block_fault, check_outcome, first_fault, IntegrityError};
use crate::ciso_header::{CisoHeader, BLOCK_SIZE, HEADER_SIZE};
use crate::codec::{deflated, inflated, CodecStatus};
use crate::compress::{
    block_payload, block_results, compress_outcome, image_block, CompressError, SCRATCH_SIZE,
};
use crate::decompress::{decompress_outcome, tile, tiles, whole_blocks, DecompressError};
use crate::layout::{block_count, entry_is_plain, entry_offset, index_word, lemma_division};
use crate::produced::{
    block_start, lemma_image_block_len, lemma_lay_out_prefix, lemma_produced_block,
    lemma_produced_frame,
};

verus! {

/// Whether the codec inflates every deflate stream that the compressor keeps for
/// `image` at `level` back to its block, given room for just that block, and reports
/// the end of the stream.
pub open spec fn kept_streams_inflate(image: Seq<u8>, level: u32) -> bool {
    forall|i: int|
        0 <= i < block_count(image.len() as u64, BLOCK_SIZE) ==> match #[trigger] block_payload(
            image,
            i,
            level,
        ) {
            Some(kept) => kept.len() > 0 ==> inflated(kept, image_block(image, i).len() as int) == (
                CodecStatus::StreamEnd,
                image_block(image, i),
            ),
            None => true,
        }
}

/// Every produced file opens with `43 49 53 4F`, `18 00 00 00`, the image's length in
/// eight little-endian bytes, `00 08 00 00`, `01`, `00`, `00 00`.
pub proof fn lemma_output_header_is_canonical(image: Seq<u8>, level: u32, cso: Seq<u8>)
    requires
        image.len() <= u64::MAX,
        compress_outcome(image, level) == Ok::<Seq<u8>, CompressError>(cso),
    ensures
        cso.len() >= HEADER_SIZE,
        cso.subrange(0, HEADER_SIZE as int) == CisoHeader::canonical_bytes(image.len() as u64),
        CisoHeader::from_bytes(cso) == CisoHeader::canonical(image.len() as u64),
{
    lemma_produced_frame(image, block_results(image, level), cso);
}

/// In every produced file shorter than 2^31 bytes the offsets that the index table
/// holds never decrease from one word to the next, the first is the end of the index
/// table, and the last is the length of the file.
pub proof fn lemma_output_offsets_are_monotonic(
    image: Seq<u8>,
    level: u32,
    cso: Seq<u8>,
    i: int,
    j: int,
)
    requires
        image.len() <= u64::MAX,
        compress_outcome(image, level) == Ok::<Seq<u8>, CompressError>(cso),
        cso.len() < 0x8000_0000,
        0 <= i <= j <= block_count(image.len() as u64, BLOCK_SIZE),
    ensures
        HEADER_SIZE + 4 * (block_count(image.len() as u64, BLOCK_SIZE) + 1) <= entry_offset(
            index_word(cso, i),
            0,
        ),
        entry_offset(index_word(cso, i), 0) <= entry_offset(index_word(cso, j), 0),
        entry_offset(
            index_word(cso, block_count(image.len() as u64, BLOCK_SIZE) as int),
            0,
        ) == cso.len(),
{
    let results = block_results(image, level);
    let n = results.len() as int;
    lemma_produced_frame(image, results, cso);
    lemma_offset_is_block_start(image, level, cso, i);
    lemma_offset_is_block_start(image, level, cso, j);
    lemma_lay_out_prefix(image, results, j, n);
    lemma_lay_out_prefix(image, results, i, j);
    lemma_lay_out_prefix(image, results, 0, i);
}

/// In a produced file shorter than 2^31 bytes, word `i` of the index table holds the
/// offset at which block `i` starts, the last word the length of the file.
proof fn lemma_offset_is_block_start(image: Seq<u8>, level: u32, cso: Seq<u8>, i: int)
    requires
        image.len() <= u64::MAX,
        compress_outcome(image, level) == Ok::<Seq<u8>, CompressError>(cso),
        cso.len() < 0x8000_0000,
        0 <= i <= block_count(image.len() as u64, BLOCK_SIZE),
    ensures
        entry_offset(index_word(cso, i), 0) == block_start(image, block_results(image, level), i),
{
    let results = block_results(image, level);
    lemma_produced_frame(image, results, cso);
    if i < results.len() {
        lemma_produced_block(image, results, cso, i);
    }
}

/// In every produced file shorter than 2^31 bytes a block's index word has the plain
/// flag exactly where the codec's stream for the block is empty or not strictly
/// shorter than the block.
pub proof fn lemma_plain_flag_means_no_gain(image: Seq<u8>, level: u32, cso: Seq<u8>, i: int)
    requires
        image.len() <= u64::MAX,
        compress_outcome(image, level) == Ok::<Seq<u8>, CompressError>(cso),
        cso.len() < 0x8000_0000,
        0 <= i < block_count(image.len() as u64, BLOCK_SIZE),
    ensures
        entry_is_plain(index_word(cso, i)) <==> !(0 < deflated(
            image_block(image, i),
            level,
            SCRATCH_SIZE as int,
        ).1.len() < image_block(image, i).len()),
{
    lemma_produced_block(image, block_results(image, level), cso, i);
    lemma_image_block_len(image, i);
}

/// Block `i` of a produced file passes the checker's tests.
proof fn lemma_output_block_passes(image: Seq<u8>, level: u32, cso: Seq<u8>, i: int, full: bool)
    requires
        image.len() <= u64::MAX,
        compress_outcome(image, level) == Ok::<Seq<u8>, CompressError>(cso),
        cso.len() < 0x8000_0000,
        full ==> kept_streams_inflate(image, level),
        0 <= i < block_count(image.len() as u64, BLOCK_SIZE),
    ensures
        block_fault(cso, CisoHeader::canonical(image.len() as u64), i, full) is None,
{
    let results = block_results(image, level);
    lemma_produced_frame(image, results, cso);
    lemma_produced_block(image, results, cso, i);
    lemma_image_block_len(image, i);
    if i > 0 {
        lemma_produced_block(image, results, cso, i - 1);
    }
    assert(results[i] == block_payload(image, i, level));
}

/// Where no block of a run has a fault, the run has no first fault.
proof fn lemma_no_fault(cso: Seq<u8>, h: CisoHeader, full: bool, from: int, upto: int)
    requires
        forall|i: int| from <= i < upto ==> #[trigger] block_fault(cso, h, i, full) is None,
    ensures
        first_fault(cso, h, full, from, upto) is None,
    decreases upto - from,
{
    if from < upto {
        lemma_no_fault(cso, h, full, from + 1, upto);
    }
}

/// The checker accepts every produced file shorter than 2^31 bytes: its structure
/// always, and its compressed blocks where the codec inflates what it deflated.
pub proof fn lemma_check_accepts_output(image: Seq<u8>, level: u32, cso: Seq<u8>, full: bool)
    requires
        image.len() <= u64::MAX,
        compress_outcome(image, level) == Ok::<Seq<u8>, CompressError>(cso),
        cso.len() < 0x8000_0000,
        full ==> kept_streams_inflate(image, level),
    ensures
        check_outcome(cso, full) == Ok::<(), IntegrityError>(()),
{
    let results = block_results(image, level);
    let n = results.len() as int;
    let h = CisoHeader::canonical(image.len() as u64);
    lemma_produced_frame(image, results, cso);
    lemma_lay_out_prefix(image, results, 0, n);
    assert forall|i: int| 0 <= i < n implies #[trigger] block_fault(cso, h, i, full) is None by {
        lemma_output_block_passes(image, level, cso, i, full);
    }
    lemma_no_fault(cso, h, full, 0, n);
}

/// The tile that the decompressor makes of a whole block `i` of a produced file is
/// block `i` of the image.
proof fn lemma_output_tile(image: Seq<u8>, level: u32, cso: Seq<u8>, i: int)
    requires
        image.len() <= u64::MAX,
        compress_outcome(image, level) == Ok::<Seq<u8>, CompressError>(cso),
        cso.len() < 0x8000_0000,
        kept_streams_inflate(image, level),
        0 <= i < whole_blocks(image.len() as u64, BLOCK_SIZE),
    ensures
        tile(cso, CisoHeader::canonical(image.len() as u64), i) == Ok::<Seq<u8>, DecompressError>(
            image.subrange(i * BLOCK_SIZE, (i + 1) * BLOCK_SIZE),
        ),
{
    let results = block_results(image, level);
    lemma_produced_frame(image, results, cso);
    lemma_produced_block(image, results, cso, i);
    lemma_image_block_len(image, i);
    assert(results[i] == block_payload(image, i, level));
}

/// The tiles of the first `k` whole blocks of a produced file are the first `k` blocks
/// of the image.
proof fn lemma_output_tiles(image: Seq<u8>, level: u32, cso: Seq<u8>, k: int)
    requires
        image.len() <= u64::MAX,
        compress_outcome(image, level) == Ok::<Seq<u8>, CompressError>(cso),
        cso.len() < 0x8000_0000,
        kept_streams_inflate(image, level),
        0 <= k <= whole_blocks(image.len() as u64, BLOCK_SIZE),
    ensures
        tiles(cso, CisoHeader::canonical(image.len() as u64), k) == Ok::<Seq<u8>, DecompressError>(
            image.subrange(0, k * BLOCK_SIZE),
        ),
    decreases k,
{
    if k == 0 {
        assert(image.subrange(0, 0) =~= Seq::<u8>::empty());
    } else {
        lemma_output_tiles(image, level, cso, k - 1);
        lemma_output_tile(image, level, cso, k - 1);
        assert(image.subrange(0, (k - 1) * BLOCK_SIZE) + image.subrange(
            (k - 1) * BLOCK_SIZE,
            k * BLOCK_SIZE,
        ) =~= image.subrange(0, k * BLOCK_SIZE));
    }
}

/// Decompressing what the compressor made of an image gives back the image's whole
/// blocks, without what follows the last whole block, where the file is shorter than
/// 2^31 bytes and the codec inflates what it deflated.
pub proof fn lemma_round_trip_of_whole_blocks(image: Seq<u8>, level: u32, cso: Seq<u8>)
    requires
        image.len() <= u64::MAX,
        compress_outcome(image, level) == Ok::<Seq<u8>, CompressError>(cso),
        cso.len() < 0x8000_0000,
        kept_streams_inflate(image, level),
    ensures
        decompress_outcome(cso) == Ok::<Seq<u8>, DecompressError>(
            image.subrange(0, whole_blocks(image.len() as u64, BLOCK_SIZE) * BLOCK_SIZE),
        ),
{
    let results = block_results(image, level);
    let n = results.len() as int;
    lemma_produced_frame(image, results, cso);
    lemma_lay_out_prefix(image, results, 0, n);
    lemma_output_tiles(image, level, cso, whole_blocks(image.len() as u64, BLOCK_SIZE) as int);
}

/// Decompressing what the compressor made of an image gives the image back, where the
/// image is a whole number of blocks, the file is shorter than 2^31 bytes and the
/// codec inflates what it deflated.
pub proof fn lemma_round_trip(image: Seq<u8>, level: u32, cso: Seq<u8>)
    requires
        image.len() <= u64::MAX,
        image.len() % (BLOCK_SIZE as nat) == 0,
        compress_outcome(image, level) == Ok::<Seq<u8>, CompressError>(cso),
        cso.len() < 0x8000_0000,
        kept_streams_inflate(image, level),
    ensures
        decompress_outcome(cso) == Ok::<Seq<u8>, DecompressError>(image),
{
    lemma_round_trip_of_whole_blocks(image, level, cso);
    lemma_division(image.len() as int, BLOCK_SIZE as int);
    assert(image.subrange(0, whole_blocks(image.len() as u64, BLOCK_SIZE) * BLOCK_SIZE)
        =~= image);
}

} // verus!
