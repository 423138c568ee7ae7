//! Queues of chunk positions: searching, cancelling, filtering, and sorting
//! by distance.

use vstd::prelude::*;
use std::collections::VecDeque;
use crate::positions::ChunkPos;

verus! {

/// Whether a queue runs from the nearest position to the farthest.
pub open spec fn sorted_by_distance(queue: Seq<ChunkPos>, origin: ChunkPos) -> bool {
    forall|i: int, j: int|
        0 <= i < j < queue.len() ==> queue[i].spec_distance_squared(origin)
            <= queue[j].spec_distance_squared(origin)
}

/// Whether `after` holds the positions of `before` in the order that
/// `from` names, position `i` of `after` being position `from[i]` of
/// `before`, without changing the order of positions at the same distance.
pub open spec fn reordered_stably(
    before: Seq<ChunkPos>,
    after: Seq<ChunkPos>,
    origin: ChunkPos,
    from: Seq<int>,
) -> bool {
    &&& from.len() == after.len()
    &&& from.no_duplicates()
    &&& forall|i: int| 0 <= i < after.len() ==> 0 <= #[trigger] from[i] < before.len()
    &&& forall|i: int| 0 <= i < after.len() ==> after[i] == before[#[trigger] from[i]]
    &&& forall|i: int, j: int|
        0 <= i < j < after.len() && after[i].spec_distance_squared(origin)
            == after[j].spec_distance_squared(origin) ==> #[trigger] from[i] < #[trigger] from[j]
}

/// Whether `after` is `before`, sorted from the nearest position to the
/// farthest, with positions at the same distance left in their order.
pub open spec fn sorted_stably(before: Seq<ChunkPos>, after: Seq<ChunkPos>, origin: ChunkPos) -> bool {
    &&& after.len() == before.len()
    &&& after.to_multiset() == before.to_multiset()
    &&& sorted_by_distance(after, origin)
    &&& exists|from: Seq<int>| reordered_stably(before, after, origin, from)
}

/// Sorts a queue from the nearest position to the farthest.
///
/// Calls `sort_by_key` of slices in the standard library with the squared
/// distance to `origin` as the key. The standard library documents that the
/// slice is sorted by the key afterwards, and that the sort is stable: it
/// does not reorder elements with equal keys. A sort moves elements and
/// neither adds nor drops any.
#[verifier::external_body]
pub(crate) fn sort_by_distance(queue: &mut Vec<ChunkPos>, origin: ChunkPos)
    requires
        forall|i: int|
            0 <= i < old(queue)@.len() ==> (#[trigger] old(queue)@[i]).spec_distance_squared(origin)
                <= u32::MAX,
    ensures
        sorted_stably(old(queue)@, final(queue)@, origin),
{
    queue.sort_by_key(|pos| pos.distance_squared(origin));
}

/// The predicate that holds of the positions that are not in a queue.
pub open spec fn not_in(unwanted: Seq<ChunkPos>) -> spec_fn(ChunkPos) -> bool {
    |pos: ChunkPos| !unwanted.contains(pos)
}

/// A queue from which, for each entry of `cancelled` in turn, the first
/// entry at the same position has been taken out.
pub open spec fn without_all(queue: Seq<ChunkPos>, cancelled: Seq<ChunkPos>) -> Seq<ChunkPos>
    decreases cancelled.len(),
{
    if cancelled.len() == 0 {
        queue
    } else {
        without_all(queue, cancelled.drop_last()).remove_value(cancelled.last())
    }
}

/// The place of the first entry at a position.
pub fn position_in(queue: &Vec<ChunkPos>, pos: &ChunkPos) -> (found: Option<usize>)
    ensures
        match found {
            Some(i) => i < queue@.len() && queue@[i as int] == *pos && forall|j: int|
                0 <= j < i ==> queue@[j] != *pos,
            None => !queue@.contains(*pos),
        },
        found.is_some() == queue@.contains(*pos),
{
    let mut i: usize = 0;
    while i < queue.len()
        invariant
            i <= queue@.len(),
            forall|j: int| 0 <= j < i ==> queue@[j] != *pos,
        decreases queue@.len() - i,
    {
        if queue[i] == *pos {
            return Some(i);
        }
        i += 1;
    }
    None
}

/// Whether a queue has an entry at a position.
pub fn deque_contains(queue: &VecDeque<ChunkPos>, pos: &ChunkPos) -> (found: bool)
    ensures
        found == queue@.contains(*pos),
{
    let mut i: usize = 0;
    while i < queue.len()
        invariant
            i <= queue@.len(),
            forall|j: int| 0 <= j < i ==> queue@[j] != *pos,
        decreases queue@.len() - i,
    {
        if queue[i] == *pos {
            return true;
        }
        i += 1;
    }
    false
}

/// Takes the first entry at a position out of a queue, if there is one.
pub fn remove_first(queue: &mut Vec<ChunkPos>, pos: &ChunkPos)
    ensures
        final(queue)@ == old(queue)@.remove_value(*pos),
{
    proof {
        queue@.index_of_first_ensures(*pos);
    }
    match position_in(queue, pos) {
        Some(i) => {
            queue.remove(i);
        },
        None => {},
    }
}

/// Takes out of a queue, for each entry of `cancelled` in turn, the first
/// entry at the same position.
pub fn cancel_all(queue: &mut Vec<ChunkPos>, cancelled: &VecDeque<ChunkPos>)
    ensures
        final(queue)@ == without_all(old(queue)@, cancelled@),
{
    let mut i: usize = 0;
    while i < cancelled.len()
        invariant
            i <= cancelled@.len(),
            queue@ == without_all(old(queue)@, cancelled@.take(i as int)),
        decreases cancelled@.len() - i,
    {
        let pos = cancelled[i];
        remove_first(queue, &pos);
        proof {
            let done = cancelled@.take(i + 1);
            assert(done.drop_last() =~= cancelled@.take(i as int));
            assert(done.last() == pos);
        }
        i += 1;
    }
    assert(cancelled@.take(cancelled@.len() as int) =~= cancelled@);
}

/// The entries of the first `i + 1` places that pass a filter are those of
/// the first `i` places, and the next entry where it passes.
pub proof fn lemma_filter_step(queue: Seq<ChunkPos>, pred: spec_fn(ChunkPos) -> bool, i: int)
    requires
        0 <= i < queue.len(),
    ensures
        queue.take(i + 1).filter(pred) == if pred(queue[i]) {
            queue.take(i).filter(pred).push(queue[i])
        } else {
            queue.take(i).filter(pred)
        },
{
    reveal(Seq::filter);
    assert(queue.take(i + 1).drop_last() =~= queue.take(i));
    assert(queue.take(i + 1).last() == queue[i]);
}

/// Drops from a queue every entry at a position that is in `unwanted`.
pub fn retain_not_in(queue: &mut Vec<ChunkPos>, unwanted: &VecDeque<ChunkPos>)
    ensures
        final(queue)@ == old(queue)@.filter(not_in(unwanted@)),
{
    let ghost pred = not_in(unwanted@);
    let mut kept: Vec<ChunkPos> = Vec::new();
    let mut i: usize = 0;
    proof {
        reveal(Seq::filter);
        assert(queue@.take(0).filter(pred) =~= Seq::<ChunkPos>::empty());
    }
    while i < queue.len()
        invariant
            i <= queue@.len(),
            pred == not_in(unwanted@),
            kept@ == queue@.take(i as int).filter(pred),
        decreases queue@.len() - i,
    {
        let pos = queue[i];
        proof {
            lemma_filter_step(queue@, pred, i as int);
        }
        if !deque_contains(unwanted, &pos) {
            kept.push(pos);
        }
        i += 1;
    }
    assert(queue@.take(queue@.len() as int) =~= queue@);
    *queue = kept;
}

/// Appends positions to a queue.
pub fn extend_queue(queue: &mut Vec<ChunkPos>, items: &Vec<ChunkPos>)
    ensures
        final(queue)@ == old(queue)@ + items@,
{
    let mut i: usize = 0;
    while i < items.len()
        invariant
            i <= items@.len(),
            queue@ == old(queue)@ + items@.take(i as int),
        decreases items@.len() - i,
    {
        queue.push(items[i]);
        assert(queue@ =~= old(queue)@ + items@.take(i + 1));
        i += 1;
    }
    assert(items@.take(items@.len() as int) =~= items@);
}

/// Appends positions to the back of a queue.
pub fn extend_deque(queue: &mut VecDeque<ChunkPos>, items: &Vec<ChunkPos>)
    ensures
        final(queue)@ == old(queue)@ + items@,
{
    let mut i: usize = 0;
    while i < items.len()
        invariant
            i <= items@.len(),
            queue@ == old(queue)@ + items@.take(i as int),
        decreases items@.len() - i,
    {
        queue.push_back(items[i]);
        assert(queue@ =~= old(queue)@ + items@.take(i + 1));
        i += 1;
    }
    assert(items@.take(items@.len() as int) =~= items@);
}

} // verus!
