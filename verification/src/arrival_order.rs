//! The serializer's output does not depend on the order in which the blocks arrive:
//! whatever the workers' timing, the file is the one that `assemble` describes.

use vstd::prelude::*;
use crate::ciso_header::CisoHeader;
use crate::compress::{assemble, index_bytes, lay_out, CompressError};
use crate::produced::{block_start, lemma_lay_out_prefix, lemma_lay_out_step};
use crate::serializer::{drain, Drained, SerializerState};

verus! {

/// What a serializer for `blocks` blocks has done after it accepted `arrivals`, each a
/// block's index and payload, one by one: its state, all it emitted, and whether it
/// stopped for an offset that does not fit.
pub open spec fn run(image: Seq<u8>, blocks: u64, arrivals: Seq<(u64, Seq<u8>)>) -> Drained
    decreases arrivals.len(),
{
    if arrivals.len() == 0 {
        Drained {
            state: SerializerState::initial(blocks),
            emitted: Seq::empty(),
            overflow: false,
        }
    } else {
        let before = run(image, blocks, arrivals.drop_last());
        if before.overflow {
            before
        } else {
            let d = drain(
                image,
                before.state.with_arrival(arrivals.last().0, arrivals.last().1),
                blocks,
            );
            Drained { state: d.state, emitted: before.emitted + d.emitted, overflow: d.overflow }
        }
    }
}

/// Whether `arrivals` brings each block of `results` once, with its payload.
pub open spec fn brings_each_block_once(
    results: Seq<Option<Seq<u8>>>,
    arrivals: Seq<(u64, Seq<u8>)>,
) -> bool {
    &&& arrivals.len() == results.len()
    &&& forall|k: int|
        0 <= k < arrivals.len() ==> (#[trigger] arrivals[k]).0 < results.len()
            && results[arrivals[k].0 as int] == Some(arrivals[k].1)
    &&& forall|k: int, l: int|
        0 <= k < l < arrivals.len() ==> (#[trigger] arrivals[k]).0 != (#[trigger] arrivals[l]).0
}

/// The blocks that are among the first `k` arrivals.
spec fn arrived(arrivals: Seq<(u64, Seq<u8>)>, k: int) -> Set<u64> {
    Set::new(|x: u64| exists|j: int| 0 <= j < k && (#[trigger] arrivals[j]).0 == x)
}

/// The first block from `from` on that is not in `have`, or `blocks`.
spec fn frontier(have: Set<u64>, from: int, blocks: int) -> int
    decreases blocks - from,
{
    if 0 <= from < blocks && have.contains(from as u64) {
        frontier(have, from + 1, blocks)
    } else {
        from
    }
}

/// The payloads of the blocks in `have` from `from` on.
spec fn held(have: Set<u64>, results: Seq<Option<Seq<u8>>>, from: int) -> Map<u64, Seq<u8>> {
    Map::new(|x: u64| have.contains(x) && x >= from, |x: u64| results[x as int]->Some_0)
}

/// Whether a serializer has placed exactly the blocks before `m` and holds the rest of
/// `have`.
spec fn caught_up(
    image: Seq<u8>,
    results: Seq<Option<Seq<u8>>>,
    d: Drained,
    have: Set<u64>,
    m: int,
) -> bool {
    &&& !d.overflow
    &&& d.state.next == m
    &&& d.state.write_pos == block_start(image, results, m)
    &&& d.state.index.len() == results.len() + 1
    &&& d.state.index.take(m) == lay_out(image, results, m)->Ok_0.index
    &&& d.state.pending == held(have, results, m)
    &&& d.emitted == lay_out(image, results, m)->Ok_0.data
}

proof fn lemma_frontier(have: Set<u64>, from: int, blocks: int)
    requires
        0 <= from <= blocks <= u64::MAX,
    ensures
        from <= frontier(have, from, blocks) <= blocks,
        forall|x: u64| from <= x < frontier(have, from, blocks) ==> have.contains(x),
        frontier(have, from, blocks) < blocks ==> !have.contains(
            frontier(have, from, blocks) as u64,
        ),
    decreases blocks - from,
{
    if from < blocks && have.contains(from as u64) {
        lemma_frontier(have, from + 1, blocks);
    }
}

proof fn lemma_frontier_skips(have: Set<u64>, from: int, m: int, blocks: int)
    requires
        0 <= from <= m <= blocks <= u64::MAX,
        forall|x: u64| from <= x < m ==> have.contains(x),
    ensures
        frontier(have, from, blocks) == frontier(have, m, blocks),
    decreases m - from,
{
    if from < m {
        assert(have.contains(from as u64));
        lemma_frontier_skips(have, from + 1, m, blocks);
    }
}

/// From a state that has placed the blocks before `s.next` and holds the rest of
/// `have`, draining places the blocks up to the first one missing.
proof fn lemma_drain(
    image: Seq<u8>,
    results: Seq<Option<Seq<u8>>>,
    s: SerializerState,
    have: Set<u64>,
)
    requires
        results.len() <= u64::MAX,
        lay_out(image, results, results.len() as int) is Ok,
        0 <= s.next <= results.len(),
        s.write_pos == block_start(image, results, s.next),
        s.index.len() == results.len() + 1,
        s.index.take(s.next) == lay_out(image, results, s.next)->Ok_0.index,
        s.pending == held(have, results, s.next),
    ensures
        ({
            let d = drain(image, s, results.len() as u64);
            let m = frontier(have, s.next, results.len() as int);
            &&& caught_up(
                image,
                results,
                Drained {
                    emitted: lay_out(image, results, s.next)->Ok_0.data + d.emitted,
                    ..d
                },
                have,
                m,
            )
        }),
    decreases results.len() - s.next,
{
    let n = results.len() as int;
    let here = lay_out(image, results, s.next)->Ok_0;
    if s.next < n && have.contains(s.next as u64) {
        lemma_lay_out_step(image, results, s.next, n);
        lemma_lay_out_prefix(image, results, s.next + 1, n);
        let payload = s.pending[s.next as u64];
        let bytes = crate::compress::stored_bytes(image, s.next, payload);
        let word = crate::compress::placed_word(s.write_pos, payload.len() == 0);
        let after = SerializerState {
            next: s.next + 1,
            write_pos: s.write_pos + bytes.len(),
            index: s.index.update(s.next, word),
            pending: s.pending.remove(s.next as u64),
        };
        let there = lay_out(image, results, s.next + 1)->Ok_0;
        assert(after.index.take(s.next + 1) =~= s.index.take(s.next).push(word));
        assert(after.pending =~= held(have, results, s.next + 1));
        lemma_drain(image, results, after, have);
        let rest = drain(image, after, n as u64);
        assert(here.data + (bytes + rest.emitted) =~= there.data + rest.emitted);
    } else {
        lemma_lay_out_prefix(image, results, s.next, n);
        assert(here.data + Seq::<u8>::empty() =~= here.data);
    }
}

/// After the first `k` arrivals the serializer has placed the blocks up to the first
/// one that has not arrived, and holds the others.
proof fn lemma_run_prefix(
    image: Seq<u8>,
    results: Seq<Option<Seq<u8>>>,
    arrivals: Seq<(u64, Seq<u8>)>,
    k: int,
)
    requires
        results.len() <= u64::MAX,
        lay_out(image, results, results.len() as int) is Ok,
        brings_each_block_once(results, arrivals),
        0 <= k <= arrivals.len(),
    ensures
        caught_up(
            image,
            results,
            run(image, results.len() as u64, arrivals.take(k)),
            arrived(arrivals, k),
            frontier(arrived(arrivals, k), 0, results.len() as int),
        ),
    decreases k,
{
    let n = results.len() as int;
    let blocks = n as u64;
    lemma_lay_out_prefix(image, results, 0, n);
    if k == 0 {
        let d = run(image, blocks, arrivals.take(0));
        assert(d.state.index.take(0) =~= lay_out(image, results, 0)->Ok_0.index);
        assert(d.state.pending =~= held(arrived(arrivals, 0), results, 0));
    } else {
        lemma_run_prefix(image, results, arrivals, k - 1);
        let had = arrived(arrivals, k - 1);
        let have = arrived(arrivals, k);
        let m = frontier(had, 0, n);
        let before = run(image, blocks, arrivals.take(k - 1));
        let new = arrivals[k - 1];
        lemma_frontier(had, 0, n);
        assert(arrivals.take(k).drop_last() =~= arrivals.take(k - 1));
        assert(arrivals.take(k).last() == new);
        assert(have.contains(new.0));
        assert(!had.contains(new.0));
        assert(new.0 >= m);
        assert forall|x: u64| had.contains(x) implies have.contains(x) by {
            let j = choose|j: int| 0 <= j < k - 1 && (#[trigger] arrivals[j]).0 == x;
            assert(0 <= j < k && arrivals[j].0 == x);
        }
        assert forall|x: u64| have.contains(x) implies had.contains(x) || x == new.0 by {
            let j = choose|j: int| 0 <= j < k && (#[trigger] arrivals[j]).0 == x;
            if j < k - 1 {
                assert(0 <= j < k - 1 && arrivals[j].0 == x);
            }
        }
        let start = before.state.with_arrival(new.0, new.1);
        assert(start.pending =~= held(have, results, m));
        lemma_drain(image, results, start, have);
        lemma_frontier_skips(have, 0, m, n);
    }
}

/// Arrivals that bring each of `n` blocks once bring every block.
proof fn lemma_all_arrived(results: Seq<Option<Seq<u8>>>, arrivals: Seq<(u64, Seq<u8>)>, x: int)
    requires
        brings_each_block_once(results, arrivals),
        0 <= x < results.len(),
    ensures
        arrived(arrivals, arrivals.len() as int).contains(x as u64),
{
    let n = results.len() as int;
    let indices = Seq::new(arrivals.len(), |j: int| arrivals[j].0 as int);
    let range = vstd::set_lib::set_int_range(0, n);
    assert(indices.no_duplicates());
    indices.unique_seq_to_set();
    vstd::set_lib::lemma_int_range(0, n);
    vstd::seq_lib::seq_to_set_is_finite(indices);
    assert(indices.to_set().subset_of(range)) by {
        assert forall|y: int| indices.to_set().contains(y) implies range.contains(y) by {
            let j = choose|j: int| 0 <= j < indices.len() && indices[j] == y;
            assert(arrivals[j].0 < n);
        }
    }
    vstd::set_lib::lemma_subset_equality(indices.to_set(), range);
    assert(range.contains(x));
    assert(indices.to_set().contains(x));
    let j = choose|j: int| 0 <= j < indices.len() && indices[j] == x;
    assert(0 <= j < arrivals.len() && arrivals[j].0 == x as u64);
}

/// In whatever order the blocks arrive, once each has arrived the serializer has
/// emitted the data of the file that `assemble` describes, and its index table, with
/// the last word set, is that file's.
pub proof fn lemma_arrival_order_is_irrelevant(
    image: Seq<u8>,
    results: Seq<Option<Seq<u8>>>,
    arrivals: Seq<(u64, Seq<u8>)>,
    cso: Seq<u8>,
)
    requires
        results.len() <= u64::MAX,
        assemble(image, results) == Ok::<Seq<u8>, CompressError>(cso),
        brings_each_block_once(results, arrivals),
    ensures
        ({
            let done = run(image, results.len() as u64, arrivals);
            &&& !done.overflow
            &&& done.state.next == results.len()
            &&& done.state.write_pos <= u32::MAX
            &&& cso == CisoHeader::canonical_bytes(image.len() as u64) + index_bytes(
                done.state.index.update(results.len() as int, done.state.write_pos as u32),
            ) + done.emitted
        }),
{
    let n = results.len() as int;
    let have = arrived(arrivals, n);
    let done = run(image, n as u64, arrivals);
    let all = lay_out(image, results, n)->Ok_0;
    lemma_run_prefix(image, results, arrivals, n);
    assert(arrivals.take(n) =~= arrivals);
    lemma_frontier(have, 0, n);
    if frontier(have, 0, n) < n {
        lemma_all_arrived(results, arrivals, frontier(have, 0, n));
    }
    lemma_lay_out_prefix(image, results, n, n);
    assert(done.state.index.update(n, done.state.write_pos as u32) =~= all.index.push(
        done.state.write_pos as u32,
    ));
}

} // verus!
