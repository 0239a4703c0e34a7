//! The compressor: each block of the image is deflated and kept only where that makes
//! it strictly shorter; a serializer puts the blocks that arrive, in whatever order,
//! into the file in ascending order and builds the index table.

use vstd::prelude::*;
use crate::bytes::{overwrite, u32_le};
use crate::ciso_header::{CisoHeader, BLOCK_SIZE, HEADER_SIZE};
use crate::codec::{deflate_raw, deflated, CodecStatus};
use crate::layout::{block_count, data_start, PLAIN_FLAG};
use crate::serializer::{drain, zeros, Serializer};

verus! {

/// Room that the encoder gets for one block: two blocks' worth.
pub const SCRATCH_SIZE: usize = 0x1000;

/// What the producer hands to a worker.
#[derive(Debug, Clone, Copy, PartialEq, Eq)]
pub enum Job {
    /// Compress the block with this index.
    Block { index: u64 },
    /// No more work: the worker exits.
    End,
}

/// What a worker hands to the serializer.
#[derive(Debug, PartialEq, Eq)]
pub struct Block {
    /// The block's index in the image.
    pub index: u64,
    /// The block's deflate stream; empty where the block is to be stored raw.
    pub compressed: Vec<u8>,
}

/// Why an image could not be compressed.
#[derive(Debug, Clone, Copy, PartialEq, Eq)]
pub enum CompressError {
    /// A block would start at an offset that does not fit an index word.
    OffsetOverflow,
    /// The codec reported an error on this block.
    Codec { block: u64 },
}

/// Block `i` of `image`: `BLOCK_SIZE` bytes, or what is left of the image.
pub open spec fn image_block(image: Seq<u8>, i: int) -> Seq<u8> {
    image.subrange(
        i * BLOCK_SIZE,
        if (i + 1) * BLOCK_SIZE <= image.len() {
            (i + 1) * BLOCK_SIZE
        } else {
            image.len() as int
        },
    )
}

/// The worker's choice: the deflate stream where it is strictly shorter than the
/// block, else nothing, which stands for the raw block; no answer where the codec
/// failed.
pub open spec fn spec_keep_if_smaller(status: CodecStatus, stream: Seq<u8>, block_len: usize)
    -> Option<Seq<u8>> {
    if status == CodecStatus::Failed {
        None
    } else if stream.len() < block_len {
        Some(stream)
    } else {
        Some(Seq::empty())
    }
}

/// The worker's choice: the deflate stream where it is strictly shorter than the
/// block, else nothing, which stands for the raw block; no answer where the codec
/// failed.
pub fn keep_if_smaller(status: CodecStatus, stream: Vec<u8>, block_len: usize) -> (r: Option<
    Vec<u8>,
>)
    ensures
        match spec_keep_if_smaller(status, stream@, block_len) {
            Some(kept) => r is Some && r->Some_0@ == kept,
            None => r is None,
        },
{
    match status {
        CodecStatus::Failed => None,
        _ => {
            if stream.len() < block_len {
                Some(stream)
            } else {
                Some(Vec::new())
            }
        },
    }
}

/// What a worker answers for block `i` of `image` at `level`.
pub open spec fn block_payload(image: Seq<u8>, i: int, level: u32) -> Option<Seq<u8>> {
    let block = image_block(image, i);
    let answer = deflated(block, level, SCRATCH_SIZE as int);
    spec_keep_if_smaller(answer.0, answer.1, block.len() as usize)
}

/// The bytes that a block takes in the file: the block itself where the payload is
/// empty, else the payload.
pub open spec fn stored_bytes(image: Seq<u8>, i: int, payload: Seq<u8>) -> Seq<u8> {
    if payload.len() == 0 {
        image_block(image, i)
    } else {
        payload
    }
}

/// The index word of a block that is placed at `write_pos`.
pub open spec fn placed_word(write_pos: int, plain: bool) -> u32 {
    if plain {
        (write_pos as u32) | PLAIN_FLAG
    } else {
        write_pos as u32
    }
}

/// The bytes of an index table: its words, little-endian, one after another.
pub open spec fn index_bytes(words: Seq<u32>) -> Seq<u8>
    decreases words.len(),
{
    if words.len() == 0 {
        Seq::empty()
    } else {
        index_bytes(words.drop_last()) + u32_le(words.last())
    }
}

/// Deflates block `index` of `image` and keeps the stream if it is strictly shorter
/// than the block.
pub fn compress_block(image: &[u8], index: u64, level: u32) -> (r: Result<Block, CompressError>)
    requires
        1 <= level <= 9,
        index < block_count(image.len() as u64, BLOCK_SIZE),
    ensures
        match block_payload(image@, index as int, level) {
            Some(kept) => r is Ok && r->Ok_0.index == index && r->Ok_0.compressed@ == kept,
            None => r == Err::<Block, CompressError>(CompressError::Codec { block: index }),
        },
{
    let start: usize = (index as usize) * (BLOCK_SIZE as usize);
    let end: usize = if image.len() - start < BLOCK_SIZE as usize {
        image.len()
    } else {
        start + BLOCK_SIZE as usize
    };
    let input = &image[start..end];
    let answer = deflate_raw(input, level, SCRATCH_SIZE);
    match keep_if_smaller(answer.0, answer.1, input.len()) {
        Some(compressed) => Ok(Block { index, compressed }),
        None => Err(CompressError::Codec { block: index }),
    }
}

/// The `k`-th job that the producer of an image of `blocks` blocks hands out to
/// `workers` workers: the blocks in ascending order, then one `End` for each worker,
/// then nothing.
pub fn nth_job(k: u64, blocks: u64, workers: u64) -> (job: Option<Job>)
    ensures
        k < blocks ==> job == Some(Job::Block { index: k }),
        blocks <= k < blocks + workers ==> job == Some(Job::End),
        blocks + workers <= k ==> job is None,
{
    if k < blocks {
        Some(Job::Block { index: k })
    } else if k - blocks < workers {
        Some(Job::End)
    } else {
        None
    }
}

/// The index words and the payload bytes of the first blocks of a file.
pub struct Laid {
    /// One word for each block.
    pub index: Seq<u32>,
    /// The blocks' bytes as they stand in the file, one block after another.
    pub data: Seq<u8>,
}

/// Blocks `0..upto` laid out one after another from the end of the index table on,
/// given what the workers answered for each block (`None`: the codec failed), or the
/// first failure: a block without an answer, or one that would start beyond what an
/// index word can hold.
pub open spec fn lay_out(image: Seq<u8>, results: Seq<Option<Seq<u8>>>, upto: int) -> Result<
    Laid,
    CompressError,
>
    decreases upto,
{
    if upto <= 0 {
        Ok(Laid { index: Seq::empty(), data: Seq::empty() })
    } else {
        match lay_out(image, results, upto - 1) {
            Err(e) => Err(e),
            Ok(before) => match results[upto - 1] {
                None => Err(CompressError::Codec { block: (upto - 1) as u64 }),
                Some(payload) => {
                    let pos = data_start(results.len() as u64) + before.data.len();
                    if pos > u32::MAX {
                        Err(CompressError::OffsetOverflow)
                    } else {
                        Ok(
                            Laid {
                                index: before.index.push(placed_word(pos, payload.len() == 0)),
                                data: before.data + stored_bytes(image, upto - 1, payload),
                            },
                        )
                    }
                },
            },
        }
    }
}

/// The whole file for `image`, given what the workers answered for each block: the
/// header, the index table with the end of the data as its last word, and the data.
pub open spec fn assemble(image: Seq<u8>, results: Seq<Option<Seq<u8>>>) -> Result<
    Seq<u8>,
    CompressError,
> {
    match lay_out(image, results, results.len() as int) {
        Err(e) => Err(e),
        Ok(all) => {
            let end = data_start(results.len() as u64) + all.data.len();
            if end > u32::MAX {
                Err(CompressError::OffsetOverflow)
            } else {
                Ok(
                    CisoHeader::canonical_bytes(image.len() as u64) + index_bytes(
                        all.index.push(end as u32),
                    ) + all.data,
                )
            }
        },
    }
}

/// What the workers answer for each block of `image` at `level`.
pub open spec fn block_results(image: Seq<u8>, level: u32) -> Seq<Option<Seq<u8>>> {
    Seq::new(
        block_count(image.len() as u64, BLOCK_SIZE) as nat,
        |i: int| block_payload(image, i, level),
    )
}

/// The file that compressing `image` at `level` gives, or why it gives none.
pub open spec fn compress_outcome(image: Seq<u8>, level: u32) -> Result<Seq<u8>, CompressError> {
    assemble(image, block_results(image, level))
}

/// A failure among the first blocks is the failure of every longer run of blocks.
pub proof fn lemma_lay_out_failure_stays(
    image: Seq<u8>,
    results: Seq<Option<Seq<u8>>>,
    k: int,
    upto: int,
)
    requires
        k <= upto,
        lay_out(image, results, k) is Err,
    ensures
        lay_out(image, results, upto) == lay_out(image, results, k),
    decreases upto - k,
{
    if k < upto {
        lemma_lay_out_failure_stays(image, results, k, upto - 1);
    }
}

/// An index table of `n` words takes `4 * n` bytes.
pub proof fn lemma_index_bytes_len(words: Seq<u32>)
    ensures
        index_bytes(words).len() == 4 * words.len(),
    decreases words.len(),
{
    if words.len() > 0 {
        lemma_index_bytes_len(words.drop_last());
    }
}

/// A kept payload is shorter than its block, so it fits the encoder's scratch room.
pub proof fn lemma_payload_fits(image: Seq<u8>, i: int, level: u32)
    requires
        0 <= i < block_count(image.len() as u64, BLOCK_SIZE),
        image.len() <= u64::MAX,
    ensures
        0 < image_block(image, i).len() <= BLOCK_SIZE,
        block_payload(image, i, level) matches Some(kept) ==> kept.len() < image_block(
            image,
            i,
        ).len(),
{
}

/// Compresses `image` into a CISO file, block by block in ascending order.
pub fn compress_ciso(image: &[u8], level: u32) -> (r: Result<Vec<u8>, CompressError>)
    requires
        1 <= level <= 9,
    ensures
        match compress_outcome(image@, level) {
            Ok(cso) => r is Ok && r->Ok_0@ == cso,
            Err(e) => r == Err::<Vec<u8>, CompressError>(e),
        },
{
    let blocks: u64 = block_count(image.len() as u64, BLOCK_SIZE);
    let mut serializer = Serializer::new(image.len());
    let mut out: Vec<u8> = Vec::new();
    serializer.write_preamble(&mut out);
    let ghost results = block_results(image@, level);
    let ghost opening = out@;
    assert(opening =~= CisoHeader::canonical_bytes(image.len() as u64) + zeros(4 * (blocks + 1)));
    let mut i: u64 = 0;
    assert(serializer@.index.take(0) =~= Seq::<u32>::empty());
    assert(out@ =~= opening + Seq::<u8>::empty());
    while i < blocks
        invariant
            1 <= level <= 9,
            i <= blocks,
            blocks == block_count(image.len() as u64, BLOCK_SIZE),
            results == block_results(image@, level),
            serializer.wf(),
            serializer.image_len() == image.len(),
            lay_out(image@, results, i as int) is Ok,
            serializer@.next == i,
            serializer@.pending == Map::<u64, Seq<u8>>::empty(),
            serializer@.index.len() == blocks + 1,
            serializer@.index.take(i as int) == lay_out(image@, results, i as int)->Ok_0.index,
            serializer@.write_pos == data_start(blocks) + lay_out(
                image@,
                results,
                i as int,
            )->Ok_0.data.len(),
            out@ == opening + lay_out(image@, results, i as int)->Ok_0.data,
        decreases blocks - i,
    {
        let ghost before = serializer@;
        let ghost laid = lay_out(image@, results, i as int)->Ok_0;
        proof {
            lemma_payload_fits(image@, i as int, level);
        }
        let block = match compress_block(image, i, level) {
            Ok(block) => block,
            Err(e) => {
                proof {
                    lemma_lay_out_failure_stays(image@, results, i + 1, blocks as int);
                }
                return Err(e);
            },
        };
        let ghost payload = block.compressed@;
        proof {
            reveal_with_fuel(drain, 2);
            assert(before.with_arrival(i, payload).pending.remove(i) =~= Map::<
                u64,
                Seq<u8>,
            >::empty());
        }
        match serializer.accept(image, block, &mut out) {
            Ok(()) => {},
            Err(e) => {
                proof {
                    lemma_lay_out_failure_stays(image@, results, i + 1, blocks as int);
                }
                return Err(e);
            },
        }
        proof {
            let now = lay_out(image@, results, i + 1)->Ok_0;
            assert(serializer@.index.take(i + 1) =~= laid.index.push(
                placed_word(before.write_pos, payload.len() == 0),
            ));
            assert(out@ =~= opening + now.data);
        }
        i += 1;
    }
    let ghost all = lay_out(image@, results, blocks as int)->Ok_0;
    let table = match serializer.finish() {
        Ok(table) => table,
        Err(e) => {
            return Err(e);
        },
    };
    proof {
        assert(serializer@.index =~= all.index.push(serializer@.write_pos as u32));
        lemma_index_bytes_len(serializer@.index);
    }
    overwrite(&mut out, HEADER_SIZE, table.as_slice());
    assert(out@ =~= CisoHeader::canonical_bytes(image.len() as u64) + table@ + all.data);
    Ok(out)
}

} // verus!
