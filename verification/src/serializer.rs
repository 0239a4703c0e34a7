//! The serializer: it takes compressed blocks in whatever order the workers finish
//! them, holds back those that came too early, and emits the payloads in ascending
//! block order while it fills in the index table.

use std::collections::HashMap;
use vstd::prelude::*;
use crate::bytes::push_u32_le;
use crate::ciso_header::{CisoHeader, BLOCK_SIZE, HEADER_SIZE};
use crate::compress::{
    index_bytes, placed_word, stored_bytes, Block, CompressError, SCRATCH_SIZE,
};
use crate::layout::{block_count, data_start, PLAIN_FLAG};

verus! {

broadcast use vstd::std_specs::hash::group_hash_axioms;

/// What a serializer knows at a moment.
pub struct SerializerState {
    /// The block that is to be placed next; all blocks before it are placed.
    pub next: int,
    /// The file offset at which the next block will start.
    pub write_pos: int,
    /// The index table: final for the blocks that are placed, zero beyond them.
    pub index: Seq<u32>,
    /// The payloads that have arrived and are not placed yet, by block.
    pub pending: Map<u64, Seq<u8>>,
}

/// What a serializer does with the payloads it holds.
pub struct Drained {
    /// The serializer's state after it.
    pub state: SerializerState,
    /// The bytes that it appended to the file.
    pub emitted: Seq<u8>,
    /// Whether it stopped at a block whose offset does not fit an index word.
    pub overflow: bool,
}

impl SerializerState {
    /// The state before any block arrived, for an image of `blocks` blocks.
    pub open spec fn initial(blocks: u64) -> SerializerState {
        SerializerState {
            next: 0,
            write_pos: data_start(blocks),
            index: Seq::new((blocks + 1) as nat, |i: int| 0u32),
            pending: Map::empty(),
        }
    }

    /// The state with one more payload held.
    pub open spec fn with_arrival(self, index: u64, payload: Seq<u8>) -> SerializerState {
        SerializerState { pending: self.pending.insert(index, payload), ..self }
    }

    /// What is true of every state of a serializer for `blocks` blocks.
    pub open spec fn wf(self, blocks: u64) -> bool {
        &&& 0 <= self.next <= blocks
        &&& 0 <= self.write_pos <= u64::MAX
        &&& self.index.len() == blocks + 1
        &&& forall|k: u64| #[trigger]
            self.pending.contains_key(k) ==> k < blocks && self.pending[k].len() <= SCRATCH_SIZE
    }
}

/// Places the held payloads of blocks `s.next`, `s.next + 1`, ... as far as they are
/// there: each gets the current offset as its index word, with the plain flag where
/// its payload is empty, and its bytes are emitted.  It stops before a block that would
/// start beyond what an index word can hold, and drops that block's payload.
pub open spec fn drain(image: Seq<u8>, s: SerializerState, blocks: u64) -> Drained
    decreases blocks - s.next,
{
    if 0 <= s.next < blocks && s.pending.contains_key(s.next as u64) {
        let payload = s.pending[s.next as u64];
        let held = s.pending.remove(s.next as u64);
        if s.write_pos > u32::MAX {
            Drained {
                state: SerializerState { pending: held, ..s },
                emitted: Seq::empty(),
                overflow: true,
            }
        } else {
            let bytes = stored_bytes(image, s.next, payload);
            let rest = drain(
                image,
                SerializerState {
                    next: s.next + 1,
                    write_pos: s.write_pos + bytes.len(),
                    index: s.index.update(s.next, placed_word(s.write_pos, payload.len() == 0)),
                    pending: held,
                },
                blocks,
            );
            Drained { state: rest.state, emitted: bytes + rest.emitted, overflow: rest.overflow }
        }
    } else {
        Drained { state: s, emitted: Seq::empty(), overflow: false }
    }
}

/// `n` zero bytes.
pub open spec fn zeros(n: int) -> Seq<u8> {
    Seq::new(n as nat, |i: int| 0u8)
}

/// Puts compressed blocks into file order.
pub struct Serializer {
    header: CisoHeader,
    blocks: u64,
    next: u64,
    write_pos: u64,
    index: Vec<u32>,
    pending: HashMap<u64, Vec<u8>>,
}

impl View for Serializer {
    type V = SerializerState;

    closed spec fn view(&self) -> SerializerState {
        SerializerState {
            next: self.next as int,
            write_pos: self.write_pos as int,
            index: self.index@,
            pending: self.pending@.map_values(|v: Vec<u8>| v@),
        }
    }
}

impl Serializer {
    /// Length of the image that is being compressed.
    pub closed spec fn image_len(&self) -> u64 {
        self.header.total_bytes
    }

    /// Number of blocks of the image that is being compressed.
    pub open spec fn blocks(&self) -> u64 {
        block_count(self.image_len(), BLOCK_SIZE)
    }

    /// The serializer's invariant.
    pub closed spec fn wf(&self) -> bool {
        &&& self.header.is_canonical(self.header.total_bytes)
        &&& self.header.total_bytes <= usize::MAX
        &&& self.blocks == block_count(self.header.total_bytes, BLOCK_SIZE)
        &&& self@.wf(self.blocks)
    }

    /// A serializer for an image of `image_len` bytes.
    pub fn new(image_len: usize) -> (s: Serializer)
        ensures
            s.wf(),
            s.image_len() == image_len,
            s@ == SerializerState::initial(s.blocks()),
    {
        let header = CisoHeader::new(image_len as u64);
        let blocks: u64 = block_count(image_len as u64, BLOCK_SIZE);
        let index: Vec<u32> = vec![0u32; (blocks + 1) as usize];
        let s = Serializer {
            header,
            blocks,
            next: 0,
            write_pos: HEADER_SIZE as u64 + 4 * (blocks + 1),
            index,
            pending: HashMap::new(),
        };
        assert(s@.index =~= SerializerState::initial(blocks).index);
        assert(s@.pending =~= SerializerState::initial(blocks).pending);
        s
    }

    /// Number of blocks that are placed.
    pub fn placed(&self) -> (n: u64)
        requires
            self.wf(),
        ensures
            n == self@.next,
    {
        self.next
    }

    /// Whether every block of the image is placed.
    pub fn is_complete(&self) -> (done: bool)
        requires
            self.wf(),
        ensures
            done == (self@.next == self.blocks()),
    {
        self.next == self.blocks
    }

    /// Appends what opens the file: the header, and zero bytes where the index table
    /// will stand.
    pub fn write_preamble(&self, sink: &mut Vec<u8>)
        requires
            self.wf(),
        ensures
            final(sink)@ == old(sink)@ + CisoHeader::canonical_bytes(self.image_len()) + zeros(
                4 * (self.blocks() + 1),
            ),
    {
        proof {
            crate::ciso_header::lemma_canonical_bytes(self.header, self.header.total_bytes);
        }
        self.header.write_into(sink);
        let ghost opened = sink@;
        let mut i: u64 = 0;
        while i < self.blocks + 1
            invariant
                i <= self.blocks + 1,
                self.blocks < u64::MAX,
                sink@ == opened + zeros(4 * i),
            decreases self.blocks + 1 - i,
        {
            push_u32_le(sink, 0);
            i += 1;
            assert(sink@ =~= opened + zeros(4 * i));
        }
    }

    /// Takes the payload of one block and places all the blocks that can now be placed,
    /// appending their bytes to `sink`.
    pub fn accept(&mut self, image: &[u8], block: Block, sink: &mut Vec<u8>) -> (r: Result<
        (),
        CompressError,
    >)
        requires
            old(self).wf(),
            image@.len() == old(self).image_len(),
            block.index < old(self).blocks(),
            block.compressed@.len() <= SCRATCH_SIZE,
        ensures
            final(self).wf(),
            final(self).image_len() == old(self).image_len(),
            ({
                let d = drain(
                    image@,
                    old(self)@.with_arrival(block.index, block.compressed@),
                    old(self).blocks(),
                );
                &&& final(self)@ == d.state
                &&& final(sink)@ == old(sink)@ + d.emitted
                &&& r == if d.overflow {
                    Err::<(), CompressError>(CompressError::OffsetOverflow)
                } else {
                    Ok::<(), CompressError>(())
                }
            }),
    {
        let ghost start = self@.with_arrival(block.index, block.compressed@);
        let ghost blocks = self.blocks;
        self.pending.insert(block.index, block.compressed);
        assert(self@.pending =~= start.pending);
        let ghost mut emitted: Seq<u8> = Seq::empty();
        assert(sink@ =~= old(sink)@ + emitted);
        loop
            invariant
                self.wf(),
                self.image_len() == old(self).image_len(),
                image@.len() == self.image_len(),
                blocks == self.blocks,
                blocks == old(self).blocks(),
                start == old(self)@.with_arrival(block.index, block.compressed@),
                sink@ == old(sink)@ + emitted,
                drain(image@, start, blocks).state == drain(image@, self@, blocks).state,
                drain(image@, start, blocks).overflow == drain(image@, self@, blocks).overflow,
                drain(image@, start, blocks).emitted == emitted + drain(
                    image@,
                    self@,
                    blocks,
                ).emitted,
            ensures
                self@ == drain(image@, start, blocks).state,
                !drain(image@, start, blocks).overflow,
                sink@ == old(sink)@ + drain(image@, start, blocks).emitted,
            decreases self.blocks - self.next,
        {
            let ghost before = self@;
            let key: u64 = self.next;
            let taken = self.pending.remove(&key);
            assert(self@.pending =~= before.pending.remove(key));
            assert(before.pending.contains_key(key) == taken is Some);
            let payload = match taken {
                Some(payload) => payload,
                None => {
                    assert(self@.pending =~= before.pending);
                    assert(emitted + Seq::<u8>::empty() =~= emitted);
                    break ;
                },
            };
            assert(payload@ == before.pending[key]);
            let align: u64 = self.header.align as u64;
            let pos: u64 = self.write_pos;
            assert(pos >> align == pos) by (bit_vector)
                requires
                    align == 0,
            ;
            if pos >> align > u32::MAX as u64 {
                assert(emitted + Seq::<u8>::empty() =~= emitted);
                return Err(CompressError::OffsetOverflow);
            }
            let mut word: u32 = (pos >> align) as u32;
            if payload.is_empty() {
                word = word | PLAIN_FLAG;
                let from: usize = (key as usize) * (BLOCK_SIZE as usize);
                let to: usize = if image.len() - from < BLOCK_SIZE as usize {
                    image.len()
                } else {
                    from + BLOCK_SIZE as usize
                };
                sink.extend_from_slice(&image[from..to]);
                self.write_pos = self.write_pos + (to - from) as u64;
            } else {
                sink.extend_from_slice(payload.as_slice());
                self.write_pos = self.write_pos + payload.len() as u64;
            }
            self.index.set(key as usize, word);
            self.next = self.next + 1;
            proof {
                let bytes = stored_bytes(image@, key as int, payload@);
                assert(sink@ =~= old(sink)@ + (emitted + bytes));
                assert((emitted + bytes) + drain(image@, self@, blocks).emitted =~= emitted + (bytes
                    + drain(image@, self@, blocks).emitted));
                emitted = emitted + bytes;
            }
        }
        Ok(())
    }

    /// Sets the last word of the index table, the end of the last payload, and gives
    /// the table's bytes, which belong right behind the header.
    pub fn finish(&mut self) -> (r: Result<Vec<u8>, CompressError>)
        requires
            old(self).wf(),
            old(self)@.next == old(self).blocks(),
        ensures
            final(self).wf(),
            final(self).image_len() == old(self).image_len(),
            old(self)@.write_pos > u32::MAX ==> r == Err::<Vec<u8>, CompressError>(
                CompressError::OffsetOverflow,
            ) && final(self)@ == old(self)@,
            old(self)@.write_pos <= u32::MAX ==> r is Ok && final(self)@ == (SerializerState {
                index: old(self)@.index.update(
                    old(self).blocks() as int,
                    old(self)@.write_pos as u32,
                ),
                ..old(self)@
            }) && r->Ok_0@ == index_bytes(final(self)@.index),
    {
        let align: u64 = self.header.align as u64;
        let pos: u64 = self.write_pos;
        assert(pos >> align == pos) by (bit_vector)
            requires
                align == 0,
        ;
        if pos >> align > u32::MAX as u64 {
            return Err(CompressError::OffsetOverflow);
        }
        let sentinel: u32 = (pos >> align) as u32;
        self.index.set(self.blocks as usize, sentinel);
        let mut table: Vec<u8> = Vec::new();
        let mut i: usize = 0;
        assert(self.index@.take(0) =~= Seq::<u32>::empty());
        while i < self.index.len()
            invariant
                i <= self.index.len(),
                table@ == index_bytes(self.index@.take(i as int)),
            decreases self.index.len() - i,
        {
            push_u32_le(&mut table, self.index[i]);
            assert(self.index@.take(i + 1).drop_last() =~= self.index@.take(i as int));
            i += 1;
        }
        assert(self.index@.take(i as int) =~= self.index@);
        Ok(table)
    }
}

} // verus!
