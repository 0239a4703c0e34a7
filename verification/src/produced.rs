//! The anatomy of a file that the compressor produced: where each block's bytes lie,
//! and what each word of the index table says.

use vstd::prelude::*;
use crate::bytes::{lemma_u32_le_round_trip, u32_le};
use crate::ciso_header::{lemma_canonical_header_is_read, CisoHeader, BLOCK_SIZE, HEADER_SIZE};
use crate::compress::{
    assemble, image_block, index_bytes, lay_out, lemma_index_bytes_len, placed_word, stored_bytes,
    CompressError,
};
use crate::layout::{
    block_count, data_start, entry_is_plain, entry_offset, expected_size, index_word,
};

verus! {

/// The file offset at which block `i` starts, or for `i == results.len()` the offset
/// at which the last block ends.
pub open spec fn block_start(image: Seq<u8>, results: Seq<Option<Seq<u8>>>, i: int) -> int {
    data_start(results.len() as u64) + lay_out(image, results, i)->Ok_0.data.len()
}

/// Where a run of blocks can be laid out, every shorter run can, and its index words
/// and bytes open those of the longer run.
pub proof fn lemma_lay_out_prefix(image: Seq<u8>, results: Seq<Option<Seq<u8>>>, i: int, k: int)
    requires
        0 <= i <= k,
        lay_out(image, results, k) is Ok,
    ensures
        lay_out(image, results, i) is Ok,
        lay_out(image, results, k)->Ok_0.index.len() == k,
        lay_out(image, results, i)->Ok_0.index.len() == i,
        lay_out(image, results, i)->Ok_0.data.len() <= lay_out(image, results, k)->Ok_0.data.len(),
        lay_out(image, results, k)->Ok_0.index.take(i) == lay_out(image, results, i)->Ok_0.index,
        lay_out(image, results, k)->Ok_0.data.take(
            lay_out(image, results, i)->Ok_0.data.len() as int,
        ) == lay_out(image, results, i)->Ok_0.data,
    decreases k,
{
    let whole = lay_out(image, results, k)->Ok_0;
    if k == 0 {
        assert(whole.index.take(0) =~= whole.index);
        assert(whole.data.take(0) =~= whole.data);
    } else if i == k {
        lemma_lay_out_prefix(image, results, k - 1, k - 1);
        assert(whole.index.take(k) =~= whole.index);
        assert(whole.data.take(whole.data.len() as int) =~= whole.data);
    } else {
        lemma_lay_out_prefix(image, results, i, k - 1);
        let shorter = lay_out(image, results, k - 1)->Ok_0;
        let part = lay_out(image, results, i)->Ok_0;
        assert(whole.index.take(i) =~= shorter.index.take(i));
        assert(whole.data.take(part.data.len() as int) =~= shorter.data.take(
            part.data.len() as int,
        ));
    }
}

/// What laying out one more block adds: the block's index word, which holds the offset
/// at which the block starts, and the block's bytes.
pub proof fn lemma_lay_out_step(image: Seq<u8>, results: Seq<Option<Seq<u8>>>, i: int, k: int)
    requires
        0 <= i < k,
        lay_out(image, results, k) is Ok,
    ensures
        results[i] is Some,
        lay_out(image, results, i) is Ok,
        lay_out(image, results, i + 1) is Ok,
        block_start(image, results, i) <= u32::MAX,
        block_start(image, results, i + 1) == block_start(image, results, i) + stored_bytes(
            image,
            i,
            results[i]->Some_0,
        ).len(),
        block_start(image, results, i + 1) <= block_start(image, results, k),
        lay_out(image, results, k)->Ok_0.index[i] == placed_word(
            block_start(image, results, i),
            results[i]->Some_0.len() == 0,
        ),
        lay_out(image, results, k)->Ok_0.data.subrange(
            lay_out(image, results, i)->Ok_0.data.len() as int,
            lay_out(image, results, i + 1)->Ok_0.data.len() as int,
        ) == stored_bytes(image, i, results[i]->Some_0),
{
    lemma_lay_out_prefix(image, results, i + 1, k);
    lemma_lay_out_prefix(image, results, i, i + 1);
    let whole = lay_out(image, results, k)->Ok_0;
    let longer = lay_out(image, results, i + 1)->Ok_0;
    let shorter = lay_out(image, results, i)->Ok_0;
    assert(whole.index[i] == whole.index.take(i + 1)[i]);
    assert(whole.data.subrange(shorter.data.len() as int, longer.data.len() as int)
        =~= whole.data.take(longer.data.len() as int).subrange(
        shorter.data.len() as int,
        longer.data.len() as int,
    ));
    assert(longer.data.subrange(shorter.data.len() as int, longer.data.len() as int)
        =~= stored_bytes(image, i, results[i]->Some_0));
}

/// Word `i` of an index table stands in bytes `4 * i .. 4 * i + 4` of the table.
pub proof fn lemma_index_bytes_word(words: Seq<u32>, i: int)
    requires
        0 <= i < words.len(),
    ensures
        index_bytes(words).len() == 4 * words.len(),
        index_bytes(words).subrange(4 * i, 4 * i + 4) == u32_le(words[i]),
    decreases words.len(),
{
    lemma_index_bytes_len(words);
    lemma_index_bytes_len(words.drop_last());
    let front = index_bytes(words.drop_last());
    if i == words.len() - 1 {
        assert((front + u32_le(words.last())).subrange(4 * i, 4 * i + 4) =~= u32_le(words.last()));
    } else {
        lemma_index_bytes_word(words.drop_last(), i);
        assert((front + u32_le(words.last())).subrange(4 * i, 4 * i + 4) =~= front.subrange(
            4 * i,
            4 * i + 4,
        ));
    }
}

/// In a file made of a header, an index table and data, word `i` of the table is read
/// back as it was written.
pub proof fn lemma_index_word_in_file(header: Seq<u8>, words: Seq<u32>, data: Seq<u8>, i: int)
    requires
        header.len() == HEADER_SIZE,
        0 <= i < words.len(),
    ensures
        index_word(header + index_bytes(words) + data, i) == words[i],
{
    lemma_index_bytes_word(words, i);
    let file = header + index_bytes(words) + data;
    assert(file.subrange(HEADER_SIZE + 4 * i, HEADER_SIZE + 4 * i + 4) =~= index_bytes(
        words,
    ).subrange(4 * i, 4 * i + 4));
    lemma_u32_le_round_trip(words[i], file, HEADER_SIZE + 4 * i);
}

/// An index word written for an offset below 2^31 gives back that offset and the
/// plain flag it was written with.
pub proof fn lemma_placed_word_reads_back(write_pos: int, plain: bool)
    requires
        0 <= write_pos < 0x8000_0000,
    ensures
        entry_offset(placed_word(write_pos, plain), 0) == write_pos,
        entry_is_plain(placed_word(write_pos, plain)) == plain,
{
    let w = write_pos as u32;
    assert(w < 0x8000_0000u32 ==> (((w | 0x8000_0000u32) & 0x7fff_ffffu32) as u128) << 0u128
        == w as u128) by (bit_vector);
    assert(w < 0x8000_0000u32 ==> ((w & 0x7fff_ffffu32) as u128) << 0u128 == w as u128)
        by (bit_vector);
    assert((w | 0x8000_0000u32) & 0x8000_0000u32 != 0) by (bit_vector);
    assert(w < 0x8000_0000u32 ==> w & 0x8000_0000u32 == 0) by (bit_vector);
}

/// Block `i` of an image is as long as the layout says.
pub proof fn lemma_image_block_len(image: Seq<u8>, i: int)
    requires
        image.len() <= u64::MAX,
        0 <= i < block_count(image.len() as u64, BLOCK_SIZE),
    ensures
        image_block(image, i).len() == expected_size(image.len() as u64, BLOCK_SIZE, i as u64),
        0 < image_block(image, i).len() <= BLOCK_SIZE,
{
}

/// The header and the length of a produced file: the header is the one that
/// `CisoHeader::new` makes for the image, and the file ends where the last block ends.
pub proof fn lemma_produced_frame(image: Seq<u8>, results: Seq<Option<Seq<u8>>>, cso: Seq<u8>)
    requires
        image.len() <= u64::MAX,
        results.len() == block_count(image.len() as u64, BLOCK_SIZE),
        assemble(image, results) == Ok::<Seq<u8>, CompressError>(cso),
    ensures
        cso.subrange(0, HEADER_SIZE as int) == CisoHeader::canonical_bytes(image.len() as u64),
        CisoHeader::from_bytes(cso) == CisoHeader::canonical(image.len() as u64),
        lay_out(image, results, results.len() as int) is Ok,
        block_start(image, results, 0) == data_start(results.len() as u64),
        cso.len() == block_start(image, results, results.len() as int),
        cso.len() <= u32::MAX,
        cso.len() < 0x8000_0000 ==> entry_offset(index_word(cso, results.len() as int), 0)
            == cso.len() && !entry_is_plain(index_word(cso, results.len() as int)),
{
    let n = results.len() as int;
    let all = lay_out(image, results, n)->Ok_0;
    let end = data_start(n as u64) + all.data.len();
    let words = all.index.push(end as u32);
    let head = CisoHeader::canonical_bytes(image.len() as u64);
    lemma_lay_out_prefix(image, results, n, n);
    lemma_lay_out_prefix(image, results, 0, n);
    lemma_index_bytes_len(words);
    lemma_canonical_header_is_read(image.len() as u64, index_bytes(words) + all.data);
    assert(cso =~= head + (index_bytes(words) + all.data));
    assert(cso.subrange(0, HEADER_SIZE as int) =~= head);
    lemma_index_word_in_file(head, words, all.data, n);
    if cso.len() < 0x8000_0000 {
        lemma_placed_word_reads_back(end, false);
    }
}

/// Block `i` in a produced file shorter than 2^31 bytes: its index word holds the
/// offset at which it starts and has the plain flag exactly where the worker kept no
/// deflate stream; its bytes are the raw block or the kept stream; and the next block,
/// or the end of the file, follows at once.
pub proof fn lemma_produced_block(
    image: Seq<u8>,
    results: Seq<Option<Seq<u8>>>,
    cso: Seq<u8>,
    i: int,
)
    requires
        image.len() <= u64::MAX,
        results.len() == block_count(image.len() as u64, BLOCK_SIZE),
        assemble(image, results) == Ok::<Seq<u8>, CompressError>(cso),
        cso.len() < 0x8000_0000,
        0 <= i < results.len(),
    ensures
        results[i] is Some,
        data_start(results.len() as u64) <= block_start(image, results, i),
        block_start(image, results, i + 1) == block_start(image, results, i) + stored_bytes(
            image,
            i,
            results[i]->Some_0,
        ).len(),
        block_start(image, results, i + 1) <= cso.len(),
        entry_offset(index_word(cso, i), 0) == block_start(image, results, i),
        entry_offset(index_word(cso, i + 1), 0) == block_start(image, results, i + 1),
        entry_is_plain(index_word(cso, i)) == (results[i]->Some_0.len() == 0),
        cso.subrange(block_start(image, results, i), block_start(image, results, i + 1))
            == stored_bytes(image, i, results[i]->Some_0),
{
    let n = results.len() as int;
    let all = lay_out(image, results, n)->Ok_0;
    let end = data_start(n as u64) + all.data.len();
    let words = all.index.push(end as u32);
    let head = CisoHeader::canonical_bytes(image.len() as u64);
    let table = index_bytes(words);
    lemma_produced_frame(image, results, cso);
    lemma_lay_out_prefix(image, results, n, n);
    lemma_lay_out_step(image, results, i, n);
    lemma_index_bytes_len(words);
    assert(cso =~= head + table + all.data);
    lemma_index_word_in_file(head, words, all.data, i);
    lemma_placed_word_reads_back(
        block_start(image, results, i),
        results[i]->Some_0.len() == 0,
    );
    if i + 1 < n {
        lemma_lay_out_step(image, results, i + 1, n);
        lemma_index_word_in_file(head, words, all.data, i + 1);
        lemma_placed_word_reads_back(
            block_start(image, results, i + 1),
            results[i + 1]->Some_0.len() == 0,
        );
    }
    let from = lay_out(image, results, i)->Ok_0.data.len() as int;
    let to = lay_out(image, results, i + 1)->Ok_0.data.len() as int;
    assert(cso.subrange(block_start(image, results, i), block_start(image, results, i + 1))
        =~= all.data.subrange(from, to));
}

} // verus!
