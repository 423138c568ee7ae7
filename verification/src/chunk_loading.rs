//! Chunk loaders: what has to be loaded and unloaded when an observer moves.
//!
//! A loader samples the chunks around its observer in two layers, voxel
//! data and meshes. The data layer reaches one chunk further than the mesh
//! layer, so that a chunk that is meshed has its neighbours' data around it.
//! When the observer enters another chunk, the positions that came into
//! reach are queued for loading, those that fell out of reach for unloading;
//! the loading queues are kept sorted, the nearest position first. The
//! queues are handed over to the world, a bounded number of positions at a
//! time.

use vstd::prelude::*;
use std::collections::VecDeque;
use crate::chunk_from_middle::{neighbour_resident, neighbourhood_resident};
use crate::chunk_map::ChunkMap;
use crate::chunk_set::{chunk_set_contents, ChunkSet};
use crate::constants::{CHUNK_SIZE, MAX_CHUNK_LOADS, MAX_DATA_TASKS};
use crate::positions::{chunk_of, index_to_chunk_pos_bounds, ChunkPos, WorldPos};
use crate::queues::{
    cancel_all,
    extend_deque,
    extend_queue,
    not_in,
    position_in,
    remove_first,
    retain_not_in,
    sort_by_distance,
    sorted_by_distance,
    sorted_stably,
    without_all,
};
use crate::sampling::{
    cube,
    cube_side,
    cube_volume,
    lemma_cube_volume,
    lemma_offset_distance,
    lemma_raster,
    lemma_raster_coordinates,
    lemma_same_positions,
    origin,
    raster,
    raster_offset,
    MAX_SAMPLING_RADIUS,
};
use crate::world::World;

verus! {

/// The state of one observer's loader.
#[derive(Debug)]
pub struct ChunkLoader {
    /// The chunk that the observer was in when the loader last looked.
    pub prev_chunk_pos: ChunkPos,
    /// Chunks to check in a frame
    pub chunks_per_frame: usize,
    /// Offset grid sampling across frames
    pub data_offset: usize,
    pub mesh_offset: usize,
    /// Loading queues for chunk data and meshes
    pub data_load_queue: Vec<ChunkPos>,
    pub mesh_load_queue: Vec<ChunkPos>,
    /// Unloading queues for chunk data and meshes
    pub data_unload_queue: VecDeque<ChunkPos>,
    pub mesh_unload_queue: VecDeque<ChunkPos>,
    /// When the loader is moved, these offsets identify which chunks need to be checked
    pub data_sampling_offsets: Vec<ChunkPos>,
    pub mesh_sampling_offsets: Vec<ChunkPos>,
}

/// The position of the chunk that holds a world position.
pub open spec fn chunk_at(observer: WorldPos) -> ChunkPos {
    ChunkPos {
        x: chunk_of(observer.x as int) as i32,
        y: chunk_of(observer.y as int) as i32,
        z: chunk_of(observer.z as int) as i32,
    }
}

/// The positions at the given offsets from a centre.
pub open spec fn shifted(center: ChunkPos, offsets: Seq<ChunkPos>) -> Seq<ChunkPos> {
    Seq::new(offsets.len(), |i: int| center.spec_plus(offsets[i]))
}

/// The set of positions that a layer samples around a centre.
pub open spec fn sampled(center: ChunkPos, offsets: Seq<ChunkPos>) -> Set<ChunkPos> {
    shifted(center, offsets).to_set()
}

/// Whether offsets are small enough to be added to any chunk that holds a
/// world position, and to be sorted by distance.
pub open spec fn offsets_in_reach(offsets: Seq<ChunkPos>) -> bool {
    forall|i: int| 0 <= i < offsets.len() ==> cube(1000).contains(#[trigger] offsets[i])
}

/// Whether a position is the chunk of a world position, or as near.
pub open spec fn chunk_in_world(pos: ChunkPos) -> bool {
    &&& -0x400_0000 <= pos.x <= 0x400_0000
    &&& -0x400_0000 <= pos.y <= 0x400_0000
    &&& -0x400_0000 <= pos.z <= 0x400_0000
}

/// The predicate that holds of the positions that are resident in a store.
pub open spec fn resident_in<V>(store: Map<ChunkPos, V>) -> spec_fn(ChunkPos) -> bool {
    |pos: ChunkPos| store.contains_key(pos)
}

/// What a move from the chunk `prev` to the chunk `now` does to the queues
/// of one layer. The positions that fell out of reach are appended to the
/// unloading queue, each once. Positions that wait for unloading are
/// cancelled in the world's loading queue. The loading queue takes in the
/// positions that came into reach, each once, gives up every position that
/// waits for unloading, and is sorted, the position nearest to `now` first,
/// positions at the same distance keeping their order. In which order the
/// positions of a move come into the queues is left open.
pub open spec fn layer_moved(
    offsets: Seq<ChunkPos>,
    prev: ChunkPos,
    now: ChunkPos,
    load_before: Seq<ChunkPos>,
    unload_before: Seq<ChunkPos>,
    global_before: Seq<ChunkPos>,
    load_after: Seq<ChunkPos>,
    unload_after: Seq<ChunkPos>,
    global_after: Seq<ChunkPos>,
) -> bool {
    let to_load = sampled(now, offsets).difference(sampled(prev, offsets));
    let to_unload = sampled(prev, offsets).difference(sampled(now, offsets));
    &&& unload_after.len() >= unload_before.len()
    &&& unload_after.take(unload_before.len() as int) == unload_before
    &&& unload_after.skip(unload_before.len() as int).no_duplicates()
    &&& unload_after.skip(unload_before.len() as int).to_set() == to_unload
    &&& global_after == without_all(global_before, unload_after)
    &&& sorted_by_distance(load_after, now)
    &&& exists|entering: Seq<ChunkPos>|
        entering.no_duplicates() && entering.to_set() == to_load && #[trigger] sorted_stably(
            (load_before + entering).filter(not_in(unload_after)),
            load_after,
            now,
        )
    &&& forall|pos: ChunkPos|
        #[trigger] load_after.to_multiset().count(pos) == if unload_after.contains(pos) {
            0
        } else {
            load_before.to_multiset().count(pos) + if to_load.contains(pos) {
                1nat
            } else {
                0nat
            }
        }
}

/// After a move no position waits both for loading and for unloading in
/// the same layer.
pub proof fn lemma_layer_disjoint(
    offsets: Seq<ChunkPos>,
    prev: ChunkPos,
    now: ChunkPos,
    load_before: Seq<ChunkPos>,
    unload_before: Seq<ChunkPos>,
    global_before: Seq<ChunkPos>,
    load_after: Seq<ChunkPos>,
    unload_after: Seq<ChunkPos>,
    global_after: Seq<ChunkPos>,
)
    requires
        layer_moved(
            offsets,
            prev,
            now,
            load_before,
            unload_before,
            global_before,
            load_after,
            unload_after,
            global_after,
        ),
    ensures
        forall|pos: ChunkPos| !(load_after.contains(pos) && unload_after.contains(pos)),
        load_after.to_set().disjoint(unload_after.to_set()),
{
    broadcast use vstd::seq_lib::group_to_multiset_ensures;

    assert forall|pos: ChunkPos| !(load_after.contains(pos) && unload_after.contains(pos)) by {
        if unload_after.contains(pos) {
            assert(load_after.to_multiset().count(pos) == 0);
        }
    }
}

/// After a move that found the queues of a layer drained, the loading
/// queue holds the positions that came into reach and the unloading queue
/// those that fell out of reach, each once: together the positions in which
/// what was sampled before and what is sampled now differ.
pub proof fn lemma_layer_difference(
    offsets: Seq<ChunkPos>,
    prev: ChunkPos,
    now: ChunkPos,
    global_before: Seq<ChunkPos>,
    load_after: Seq<ChunkPos>,
    unload_after: Seq<ChunkPos>,
    global_after: Seq<ChunkPos>,
)
    requires
        layer_moved(
            offsets,
            prev,
            now,
            Seq::empty(),
            Seq::empty(),
            global_before,
            load_after,
            unload_after,
            global_after,
        ),
    ensures
        load_after.no_duplicates(),
        unload_after.no_duplicates(),
        load_after.to_set() == sampled(now, offsets).difference(sampled(prev, offsets)),
        unload_after.to_set() == sampled(prev, offsets).difference(sampled(now, offsets)),
        load_after.to_set().union(unload_after.to_set()) == sampled(now, offsets).difference(
            sampled(prev, offsets),
        ).union(sampled(prev, offsets).difference(sampled(now, offsets))),
        load_after.to_set().disjoint(unload_after.to_set()),
{
    broadcast use vstd::seq_lib::group_to_multiset_ensures;

    let to_load = sampled(now, offsets).difference(sampled(prev, offsets));
    let to_unload = sampled(prev, offsets).difference(sampled(now, offsets));
    assert(unload_after.skip(0) =~= unload_after);
    assert forall|pos: ChunkPos| load_after.to_set().contains(pos) <==> to_load.contains(pos) by {
        assert(load_after.contains(pos) <==> load_after.to_multiset().count(pos) > 0);
        assert(Seq::<ChunkPos>::empty().to_multiset().count(pos) == 0);
        if unload_after.contains(pos) {
            assert(to_unload.contains(pos));
        }
    }
    assert(load_after.to_set() =~= to_load);
    assert forall|pos: ChunkPos| load_after.to_multiset().count(pos) <= 1 by {
        assert(Seq::<ChunkPos>::empty().to_multiset().count(pos) == 0);
    }
    load_after.lemma_multiset_has_no_duplicates_conv();
}

/// How often a position passes a filter: as often as it is in the queue,
/// if it passes at all.
pub proof fn lemma_filter_count(queue: Seq<ChunkPos>, pred: spec_fn(ChunkPos) -> bool, pos: ChunkPos)
    ensures
        queue.filter(pred).to_multiset().count(pos) == if pred(pos) {
            queue.to_multiset().count(pos)
        } else {
            0
        },
    decreases queue.len(),
{
    broadcast use vstd::seq_lib::group_to_multiset_ensures;

    reveal(Seq::filter);
    if queue.len() > 0 {
        lemma_filter_count(queue.drop_last(), pred, pos);
        assert(queue =~= queue.drop_last().push(queue.last()));
        assert(queue.to_multiset() == queue.drop_last().to_multiset().insert(queue.last()));
    }
}

/// How often a position is in a queue that holds each position once.
pub proof fn lemma_count_once(queue: Seq<ChunkPos>, pos: ChunkPos)
    requires
        queue.no_duplicates(),
    ensures
        queue.to_multiset().count(pos) == if queue.contains(pos) {
            1nat
        } else {
            0nat
        },
{
    broadcast use vstd::seq_lib::group_to_multiset_ensures;

    queue.lemma_multiset_has_no_duplicates();
}

/// Cancelling positions in a queue leaves each position in the queue at
/// most as often as before.
pub proof fn lemma_without_all(queue: Seq<ChunkPos>, cancelled: Seq<ChunkPos>)
    ensures
        forall|pos: ChunkPos|
            without_all(queue, cancelled).contains(pos) ==> #[trigger] queue.contains(pos),
        queue.no_duplicates() ==> without_all(queue, cancelled).no_duplicates(),
    decreases cancelled.len(),
{
    if cancelled.len() > 0 {
        lemma_without_all(queue, cancelled.drop_last());
        let shorter = without_all(queue, cancelled.drop_last());
        lemma_remove_value(shorter, cancelled.last());
    }
}

/// Taking the first entry at a position out of a queue leaves each position
/// in the queue at most as often as before.
pub proof fn lemma_remove_value(queue: Seq<ChunkPos>, value: ChunkPos)
    ensures
        forall|pos: ChunkPos|
            queue.remove_value(value).contains(pos) ==> #[trigger] queue.contains(pos),
        queue.no_duplicates() ==> queue.remove_value(value).no_duplicates(),
        queue.no_duplicates() ==> !queue.remove_value(value).contains(value),
{
    queue.index_of_first_ensures(value);
    match queue.index_of_first(value) {
        Some(i) => {
            let left = queue.remove(i);
            assert forall|pos: ChunkPos| left.contains(pos) implies #[trigger] queue.contains(
                pos,
            ) by {
                let k = choose|k: int| 0 <= k < left.len() && left[k] == pos;
                let k2 = if k < i {
                    k
                } else {
                    k + 1
                };
                assert(queue[k2] == pos);
            }
            if queue.no_duplicates() {
                assert forall|a: int, b: int|
                    0 <= a < left.len() && 0 <= b < left.len() && a != b implies left[a]
                    != left[b] by {
                    let a2 = if a < i {
                        a
                    } else {
                        a + 1
                    };
                    let b2 = if b < i {
                        b
                    } else {
                        b + 1
                    };
                    assert(left[a] == queue[a2] && left[b] == queue[b2]);
                }
                if left.contains(value) {
                    let k = choose|k: int| 0 <= k < left.len() && left[k] == value;
                    let k2 = if k < i {
                        k
                    } else {
                        k + 1
                    };
                    assert(queue[k2] == value && queue[i] == value);
                }
            }
        },
        None => {},
    }
}

/// The positions at the offsets of a layer around a centre, as a set.
fn sampled_set(offsets: &Vec<ChunkPos>, center: ChunkPos) -> (area: ChunkSet)
    requires
        offsets_in_reach(offsets@),
        chunk_in_world(center),
    ensures
        chunk_set_contents(area) == sampled(center, offsets@),
{
    let mut area = ChunkSet::new();
    let mut i: usize = 0;
    assert(shifted(center, offsets@).take(0).to_set() =~= Set::<ChunkPos>::empty());
    while i < offsets.len()
        invariant
            i <= offsets@.len(),
            offsets_in_reach(offsets@),
            chunk_in_world(center),
            chunk_set_contents(area) == shifted(center, offsets@).take(i as int).to_set(),
        decreases offsets@.len() - i,
    {
        let offset = offsets[i];
        assert(cube(1000).contains(offsets@[i as int]));
        let pos = center + offset;
        area.insert(pos);
        proof {
            let all = shifted(center, offsets@);
            assert(all.take(i + 1) =~= all.take(i as int).push(pos));
            all.take(i as int).lemma_push_to_set_commute(pos);
        }
        i += 1;
    }
    assert(shifted(center, offsets@).take(offsets@.len() as int) =~= shifted(center, offsets@));
    area
}

/// Whether the chunk at a position and the 26 chunks around it are all in
/// a store.
pub fn neighbourhood_is_resident<V>(store: &ChunkMap<V>, chunk_pos: ChunkPos) -> (resident: bool)
    ensures
        resident == neighbourhood_resident(store@, chunk_pos),
{
    let mut index: usize = 0;
    while index < 27
        invariant
            index <= 27,
            forall|i: int| 0 <= i < index ==> neighbour_resident(store@, chunk_pos, i),
        decreases 27 - index,
    {
        let offset = index_to_chunk_pos_bounds(index, 3);
        let x = chunk_pos.x.checked_add(offset.x - 1);
        let y = chunk_pos.y.checked_add(offset.y - 1);
        let z = chunk_pos.z.checked_add(offset.z - 1);
        let found = match (x, y, z) {
            (Some(x), Some(y), Some(z)) => store.contains_key(&ChunkPos::new(x, y, z)),
            _ => false,
        };
        if !found {
            assert(!neighbour_resident(store@, chunk_pos, index as int));
            return false;
        }
        index += 1;
    }
    true
}

/// What a move does to the queues of one layer: see [`layer_moved`].
fn move_layer(
    offsets: &Vec<ChunkPos>,
    prev: ChunkPos,
    now: ChunkPos,
    load_queue: &mut Vec<ChunkPos>,
    unload_queue: &mut VecDeque<ChunkPos>,
    global_queue: &mut Vec<ChunkPos>,
)
    requires
        offsets_in_reach(offsets@),
        chunk_in_world(prev),
        chunk_in_world(now),
        forall|i: int|
            0 <= i < old(load_queue)@.len() ==> (#[trigger] old(load_queue)@[i]).spec_distance_squared(
                now,
            ) <= u32::MAX,
    ensures
        layer_moved(
            offsets@,
            prev,
            now,
            old(load_queue)@,
            old(unload_queue)@,
            old(global_queue)@,
            final(load_queue)@,
            final(unload_queue)@,
            final(global_queue)@,
        ),
{
    let load_area = sampled_set(offsets, now);
    let unload_area = sampled_set(offsets, prev);

    let to_load = load_area.difference(&unload_area);
    let to_unload = unload_area.difference(&load_area);

    extend_queue(load_queue, &to_load);
    extend_deque(unload_queue, &to_unload);
    let ghost extended = load_queue@;
    assert(unload_queue@.take(old(unload_queue)@.len() as int) =~= old(unload_queue)@);
    assert(unload_queue@.skip(old(unload_queue)@.len() as int) =~= to_unload@);

    // Remove resolved chunks from the world's queue
    cancel_all(global_queue, unload_queue);

    // Remove the unloads from load
    retain_not_in(load_queue, unload_queue);
    let ghost retained = load_queue@;

    // Sort the load queue by distance to the observer's chunk
    proof {
        assert forall|i: int| 0 <= i < retained.len() implies (
        #[trigger] retained[i]).spec_distance_squared(now) <= u32::MAX by {
            let pos = retained[i];
            assert(retained.contains(pos));
            extended.lemma_filter_contains_rev(not_in(unload_queue@), pos);
            let k = choose|k: int| 0 <= k < extended.len() && extended[k] == pos;
            if k >= old(load_queue)@.len() {
                let at = k - old(load_queue)@.len();
                assert(to_load@[at] == pos);
                assert(to_load@.to_set().contains(pos));
                assert(shifted(now, offsets@).contains(pos));
                let o = choose|o: int|
                    0 <= o < shifted(now, offsets@).len() && shifted(now, offsets@)[o] == pos;
                assert(cube(1000).contains(offsets@[o]));
                lemma_offset_distance(1000, offsets@[o], now);
            } else {
                assert(old(load_queue)@[k] == pos);
            }
        }
    }
    sort_by_distance(load_queue, now);
    proof {
        broadcast use vstd::seq_lib::group_to_multiset_ensures;

        let added = sampled(now, offsets@).difference(sampled(prev, offsets@));
        assert(sorted_stably(
            (old(load_queue)@ + to_load@).filter(not_in(unload_queue@)),
            load_queue@,
            now,
        ));
        assert forall|pos: ChunkPos|
            #[trigger] load_queue@.to_multiset().count(pos) == if unload_queue@.contains(pos) {
                0
            } else {
                old(load_queue)@.to_multiset().count(pos) + if added.contains(pos) {
                    1nat
                } else {
                    0nat
                }
            } by {
            lemma_filter_count(extended, not_in(unload_queue@), pos);
            lemma_count_once(to_load@, pos);
            vstd::seq_lib::lemma_multiset_commutative(old(load_queue)@, to_load@);
            assert(to_load@.contains(pos) == added.contains(pos)) by {
                assert(to_load@.to_set().contains(pos) == to_load@.contains(pos));
            }
        }
    }
}

/// What the world's queues of the data layer are after a loader has handed
/// over the positions of `incoming`, one after the other. A position is
/// passed over if it is resident, waits already or is in flight. Otherwise
/// it waits for loading from now on, and waits for unloading no longer.
pub open spec fn admitted_data(
    resident: Set<ChunkPos>,
    in_flight: Set<ChunkPos>,
    load_queue: Seq<ChunkPos>,
    unload_queue: Seq<ChunkPos>,
    incoming: Seq<ChunkPos>,
) -> (Seq<ChunkPos>, Seq<ChunkPos>)
    decreases incoming.len(),
{
    if incoming.len() == 0 {
        (load_queue, unload_queue)
    } else {
        let (load, unload) = admitted_data(
            resident,
            in_flight,
            load_queue,
            unload_queue,
            incoming.drop_last(),
        );
        let pos = incoming.last();
        if resident.contains(pos) || load.contains(pos) || in_flight.contains(pos) {
            (load, unload)
        } else {
            (load.push(pos), unload.remove_value(pos))
        }
    }
}

/// What the world's queues of the mesh layer and the loader's list of
/// retries are after the loader has handed over the positions of
/// `incoming`, one after the other. A position that waits already, is in
/// flight or does not have all its neighbourhood resident is tried again
/// later. Otherwise it waits for meshing from now on, and waits for
/// unloading no longer.
pub open spec fn admitted_mesh<V>(
    store: Map<ChunkPos, V>,
    in_flight: Seq<ChunkPos>,
    load_queue: Seq<ChunkPos>,
    unload_queue: Seq<ChunkPos>,
    incoming: Seq<ChunkPos>,
) -> (Seq<ChunkPos>, Seq<ChunkPos>, Seq<ChunkPos>)
    decreases incoming.len(),
{
    if incoming.len() == 0 {
        (load_queue, unload_queue, Seq::empty())
    } else {
        let (load, unload, retries) = admitted_mesh(
            store,
            in_flight,
            load_queue,
            unload_queue,
            incoming.drop_last(),
        );
        let pos = incoming.last();
        if load.contains(pos) || in_flight.contains(pos) || !neighbourhood_resident(store, pos) {
            (load, unload, retries.push(pos))
        } else {
            (load.push(pos), unload.remove_value(pos), retries)
        }
    }
}

/// The number of positions that a loader hands over at once.
pub open spec fn handed_over(waiting: int) -> int {
    if waiting < MAX_CHUNK_LOADS {
        waiting
    } else {
        MAX_CHUNK_LOADS as int
    }
}

/// Takes the first positions off a queue, as many as are handed over at once.
fn take_front(queue: &mut Vec<ChunkPos>) -> (front: Vec<ChunkPos>)
    ensures
        front@ == old(queue)@.take(handed_over(old(queue)@.len() as int)),
        final(queue)@ == old(queue)@.skip(handed_over(old(queue)@.len() as int)),
{
    let len = queue.len();
    let count = if len < MAX_CHUNK_LOADS {
        len
    } else {
        MAX_CHUNK_LOADS
    };
    let mut front = queue.split_off(count);
    std::mem::swap(&mut front, queue);
    assert(front@ =~= old(queue)@.take(count as int));
    assert(queue@ =~= old(queue)@.skip(count as int));
    front
}

impl ChunkLoader {
    /// What holds of a loader between any two calls: its offsets are small
    /// enough to be added to the chunk of any world position, and the chunk
    /// it last saw its observer in is the chunk of a world position, or as
    /// near.
    pub open spec fn wf(&self) -> bool {
        &&& offsets_in_reach(self.data_sampling_offsets@)
        &&& offsets_in_reach(self.mesh_sampling_offsets@)
        &&& chunk_in_world(self.prev_chunk_pos)
    }

    /// A loader that samples meshes up to `load_distance` chunks from its
    /// observer, and voxel data one chunk further. It has not seen its
    /// observer yet.
    pub fn new(load_distance: u32) -> (loader: Self)
        requires
            load_distance < MAX_SAMPLING_RADIUS,
        ensures
            loader.wf(),
            loader.prev_chunk_pos == (ChunkPos { x: 999, y: 999, z: 999 }),
            loader.chunks_per_frame == 32768,
            loader.data_offset == 0,
            loader.mesh_offset == 0,
            loader.data_load_queue@.len() == 0,
            loader.mesh_load_queue@.len() == 0,
            loader.data_unload_queue@.len() == 0,
            loader.mesh_unload_queue@.len() == 0,
            sorted_stably(raster(load_distance + 1), loader.data_sampling_offsets@, origin()),
            loader.data_sampling_offsets@.to_set() == cube(load_distance + 1),
            sorted_stably(raster(load_distance as int), loader.mesh_sampling_offsets@, origin()),
            loader.mesh_sampling_offsets@.to_set() == cube(load_distance as int),
    {
        let data_distance = load_distance + 1;
        let mesh_distance = load_distance;

        let data_sampling_offsets = Self::make_spherical_offsets(data_distance);
        let mesh_sampling_offsets = Self::make_spherical_offsets(mesh_distance);
        proof {
            assert forall|i: int| 0 <= i < data_sampling_offsets@.len() implies cube(1000).contains(
                #[trigger] data_sampling_offsets@[i],
            ) by {
                assert(data_sampling_offsets@.to_set().contains(data_sampling_offsets@[i]));
            }
            assert forall|i: int| 0 <= i < mesh_sampling_offsets@.len() implies cube(1000).contains(
                #[trigger] mesh_sampling_offsets@[i],
            ) by {
                assert(mesh_sampling_offsets@.to_set().contains(mesh_sampling_offsets@[i]));
            }
        }

        Self {
            chunks_per_frame: CHUNK_SIZE * CHUNK_SIZE * CHUNK_SIZE,
            prev_chunk_pos: ChunkPos::new(999, 999, 999),
            data_offset: 0,
            mesh_offset: 0,
            data_load_queue: Vec::new(),
            mesh_load_queue: Vec::new(),
            data_unload_queue: VecDeque::new(),
            mesh_unload_queue: VecDeque::new(),
            data_sampling_offsets,
            mesh_sampling_offsets,
        }
    }

    /// The offsets of all chunks within `radius` of an observer's chunk on
    /// every axis, the nearest first. Offsets at the same distance follow one
    /// another in raster order.
    pub fn make_spherical_offsets(radius: u32) -> (sampling_offsets: Vec<ChunkPos>)
        requires
            radius <= MAX_SAMPLING_RADIUS,
        ensures
            sampling_offsets@.len() == cube_volume(radius as int),
            sampling_offsets@.no_duplicates(),
            sampling_offsets@.to_set() == cube(radius as int),
            sorted_by_distance(sampling_offsets@, origin()),
            sorted_stably(raster(radius as int), sampling_offsets@, origin()),
    {
        let r: u32 = (radius * 2) + 1;
        proof {
            lemma_cube_volume(radius as int);
        }
        let volume: u32 = r * r * r;

        let mut sampling_offsets: Vec<ChunkPos> = Vec::new();
        let mut i: u32 = 0;
        while i < volume
            invariant
                i <= volume,
                radius <= 644,
                r == cube_side(radius as int),
                volume == cube_volume(radius as int),
                volume <= 1289 * 1289 * 1289,
                sampling_offsets@.len() == i,
                forall|j: int| 0 <= j < i ==> sampling_offsets@[j] == raster_offset(radius as int, j),
            decreases volume - i,
        {
            proof {
                lemma_raster_coordinates(radius as int, i as int);
            }
            let chunk_pos = index_to_chunk_pos_bounds(i as usize, r);
            let chunk_pos = chunk_pos - ChunkPos::splat(r as i32 / 2);

            sampling_offsets.push(chunk_pos);
            i += 1;
        }
        assert(sampling_offsets@ =~= raster(radius as int));

        // Sort offsets by the distance from origin
        let origin = ChunkPos::new(0, 0, 0);
        proof {
            lemma_raster(radius as int);
            assert forall|j: int| 0 <= j < sampling_offsets@.len() implies (
            #[trigger] sampling_offsets@[j]).spec_distance_squared(origin) <= u32::MAX by {
                lemma_raster_coordinates(radius as int, j);
                lemma_offset_distance(radius as int, sampling_offsets@[j], origin);
            }
        }
        sort_by_distance(&mut sampling_offsets, origin);
        proof {
            lemma_same_positions(raster(radius as int), sampling_offsets@);
        }
        sampling_offsets
    }

    /// What [`ChunkLoader::detect_move`] does to a loader and to the world
    /// when the observer is at `observer`. Nothing changes while the
    /// observer stays in the chunk that the loader last saw it in. When it
    /// has entered another chunk, the loader remembers that chunk, and the
    /// queues of both layers take in the move: see [`layer_moved`].
    pub open spec fn moved(
        before: ChunkLoader,
        world_before: World,
        observer: WorldPos,
        after: ChunkLoader,
        world_after: World,
    ) -> bool {
        let now = chunk_at(observer);
        if now == before.prev_chunk_pos {
            after == before && world_after == world_before
        } else {
            &&& after.prev_chunk_pos == now
            &&& after.chunks_per_frame == before.chunks_per_frame
            &&& after.data_offset == before.data_offset
            &&& after.mesh_offset == before.mesh_offset
            &&& after.data_sampling_offsets == before.data_sampling_offsets
            &&& after.mesh_sampling_offsets == before.mesh_sampling_offsets
            &&& layer_moved(
                before.data_sampling_offsets@,
                before.prev_chunk_pos,
                now,
                before.data_load_queue@,
                before.data_unload_queue@,
                world_before.load_data_queue@,
                after.data_load_queue@,
                after.data_unload_queue@,
                world_after.load_data_queue@,
            )
            &&& layer_moved(
                before.mesh_sampling_offsets@,
                before.prev_chunk_pos,
                now,
                before.mesh_load_queue@,
                before.mesh_unload_queue@,
                world_before.load_mesh_queue@,
                after.mesh_load_queue@,
                after.mesh_unload_queue@,
                world_after.load_mesh_queue@,
            )
            &&& world_after.chunks == world_before.chunks
            &&& world_after.unload_data_queue == world_before.unload_data_queue
            &&& world_after.unload_mesh_queue == world_before.unload_mesh_queue
            &&& world_after.data_tasks == world_before.data_tasks
            &&& world_after.mesh_tasks == world_before.mesh_tasks
            &&& world_after.chunk_entities == world_before.chunk_entities
        }
    }

    /// Looks where the observer is. When it has entered another chunk, the
    /// positions that came into reach are queued for loading and those that
    /// fell out of reach for unloading, in both layers.
    pub fn detect_move(&mut self, observer: WorldPos, world: &mut World)
        requires
            old(self).wf(),
            old(world).wf(),
            forall|i: int|
                0 <= i < old(self).data_load_queue@.len() ==> (
                #[trigger] old(self).data_load_queue@[i]).spec_distance_squared(chunk_at(observer))
                    <= u32::MAX,
            forall|i: int|
                0 <= i < old(self).mesh_load_queue@.len() ==> (
                #[trigger] old(self).mesh_load_queue@[i]).spec_distance_squared(chunk_at(observer))
                    <= u32::MAX,
        ensures
            final(self).wf(),
            final(world).wf(),
            Self::moved(*old(self), *old(world), observer, *final(self), *final(world)),
            final(self).prev_chunk_pos == chunk_at(observer),
    {
        let chunk_pos = WorldPos::to_voxel_pos(observer).1;

        let prev_chunk_pos = self.prev_chunk_pos;
        let chunk_pos_has_changed = chunk_pos != prev_chunk_pos;
        if !chunk_pos_has_changed {
            return;
        }
        self.prev_chunk_pos = chunk_pos;

        move_layer(
            &self.data_sampling_offsets,
            prev_chunk_pos,
            chunk_pos,
            &mut self.data_load_queue,
            &mut self.data_unload_queue,
            &mut world.load_data_queue,
        );
        move_layer(
            &self.mesh_sampling_offsets,
            prev_chunk_pos,
            chunk_pos,
            &mut self.mesh_load_queue,
            &mut self.mesh_unload_queue,
            &mut world.load_mesh_queue,
        );
        proof {
            lemma_without_all(old(world).load_data_queue@, self.data_unload_queue@);
            lemma_without_all(old(world).load_mesh_queue@, self.mesh_unload_queue@);
            assert forall|i: int|
                0 <= i < world.load_data_queue@.len() implies !world.data_tasks@.contains_key(
                #[trigger] world.load_data_queue@[i],
            ) by {
                let pos = world.load_data_queue@[i];
                assert(world.load_data_queue@.contains(pos));
                assert(old(world).load_data_queue@.contains(pos));
                let k = choose|k: int|
                    0 <= k < old(world).load_data_queue@.len() && old(world).load_data_queue@[k]
                        == pos;
                assert(!old(world).data_tasks@.contains_key(old(world).load_data_queue@[k]));
            }
            assert forall|i: int|
                0 <= i < world.load_mesh_queue@.len() implies !world.mesh_tasks@.contains(
                #[trigger] world.load_mesh_queue@[i],
            ) by {
                let pos = world.load_mesh_queue@[i];
                assert(world.load_mesh_queue@.contains(pos));
                assert(old(world).load_mesh_queue@.contains(pos));
                let k = choose|k: int|
                    0 <= k < old(world).load_mesh_queue@.len() && old(world).load_mesh_queue@[k]
                        == pos;
                assert(!old(world).mesh_tasks@.contains(old(world).load_mesh_queue@[k]));
            }
        }
    }

    /// Looking twice while the observer stays where it is changes nothing
    /// the second time: no queue of the loader or of the world gets another
    /// entry.
    pub proof fn lemma_detect_move_twice(
        first: ChunkLoader,
        world_first: World,
        observer: WorldPos,
        second: ChunkLoader,
        world_second: World,
        third: ChunkLoader,
        world_third: World,
    )
        requires
            Self::moved(first, world_first, observer, second, world_second),
            Self::moved(second, world_second, observer, third, world_third),
        ensures
            third == second,
            world_third == world_second,
    {
    }

    /// A look that finds the observer in another chunk and the loader's
    /// queues drained leaves in the queues the positions in which what was
    /// sampled around the old chunk and what is sampled around the new chunk
    /// differ, each once: in the loading queues those that came into reach,
    /// in the unloading queues those that fell out of reach.
    pub proof fn lemma_drained_move(
        before: ChunkLoader,
        world_before: World,
        observer: WorldPos,
        after: ChunkLoader,
        world_after: World,
    )
        requires
            Self::moved(before, world_before, observer, after, world_after),
            chunk_at(observer) != before.prev_chunk_pos,
            before.data_load_queue@.len() == 0,
            before.data_unload_queue@.len() == 0,
            before.mesh_load_queue@.len() == 0,
            before.mesh_unload_queue@.len() == 0,
        ensures
            after.data_load_queue@.no_duplicates(),
            after.data_unload_queue@.no_duplicates(),
            after.mesh_load_queue@.no_duplicates(),
            after.mesh_unload_queue@.no_duplicates(),
            after.data_load_queue@.to_set() == sampled(
                chunk_at(observer),
                before.data_sampling_offsets@,
            ).difference(sampled(before.prev_chunk_pos, before.data_sampling_offsets@)),
            after.data_unload_queue@.to_set() == sampled(
                before.prev_chunk_pos,
                before.data_sampling_offsets@,
            ).difference(sampled(chunk_at(observer), before.data_sampling_offsets@)),
            after.mesh_load_queue@.to_set() == sampled(
                chunk_at(observer),
                before.mesh_sampling_offsets@,
            ).difference(sampled(before.prev_chunk_pos, before.mesh_sampling_offsets@)),
            after.mesh_unload_queue@.to_set() == sampled(
                before.prev_chunk_pos,
                before.mesh_sampling_offsets@,
            ).difference(sampled(chunk_at(observer), before.mesh_sampling_offsets@)),
    {
        assert(before.data_load_queue@ =~= Seq::<ChunkPos>::empty());
        assert(before.data_unload_queue@ =~= Seq::<ChunkPos>::empty());
        assert(before.mesh_load_queue@ =~= Seq::<ChunkPos>::empty());
        assert(before.mesh_unload_queue@ =~= Seq::<ChunkPos>::empty());
        lemma_layer_difference(
            before.data_sampling_offsets@,
            before.prev_chunk_pos,
            chunk_at(observer),
            world_before.load_data_queue@,
            after.data_load_queue@,
            after.data_unload_queue@,
            world_after.load_data_queue@,
        );
        lemma_layer_difference(
            before.mesh_sampling_offsets@,
            before.prev_chunk_pos,
            chunk_at(observer),
            world_before.load_mesh_queue@,
            after.mesh_load_queue@,
            after.mesh_unload_queue@,
            world_after.load_mesh_queue@,
        );
    }

    /// After every look no position waits both for loading and for
    /// unloading in the same layer.
    pub proof fn lemma_queues_disjoint(
        before: ChunkLoader,
        world_before: World,
        observer: WorldPos,
        after: ChunkLoader,
        world_after: World,
    )
        requires
            Self::moved(before, world_before, observer, after, world_after),
            before.data_load_queue@.to_set().disjoint(before.data_unload_queue@.to_set()),
            before.mesh_load_queue@.to_set().disjoint(before.mesh_unload_queue@.to_set()),
        ensures
            after.data_load_queue@.to_set().disjoint(after.data_unload_queue@.to_set()),
            after.mesh_load_queue@.to_set().disjoint(after.mesh_unload_queue@.to_set()),
    {
        let now = chunk_at(observer);
        if now != before.prev_chunk_pos {
            lemma_layer_disjoint(
                before.data_sampling_offsets@,
                before.prev_chunk_pos,
                now,
                before.data_load_queue@,
                before.data_unload_queue@,
                world_before.load_data_queue@,
                after.data_load_queue@,
                after.data_unload_queue@,
                world_after.load_data_queue@,
            );
            lemma_layer_disjoint(
                before.mesh_sampling_offsets@,
                before.prev_chunk_pos,
                now,
                before.mesh_load_queue@,
                before.mesh_unload_queue@,
                world_before.load_mesh_queue@,
                after.mesh_load_queue@,
                after.mesh_unload_queue@,
                world_after.load_mesh_queue@,
            );
        }
    }

    /// Hands positions that wait for their data over to the world, the
    /// nearest first, unless the world has as many data jobs in flight as it
    /// may have.
    pub fn load_chunks(&mut self, world: &mut World)
        requires
            old(world).wf(),
        ensures
            final(world).wf(),
            old(world).data_tasks@.dom().len() >= MAX_DATA_TASKS ==> *final(self) == *old(self)
                && *final(world) == *old(world),
            old(world).data_tasks@.dom().len() < MAX_DATA_TASKS ==> {
                &&& final(self).data_load_queue@ == old(self).data_load_queue@.skip(
                    handed_over(old(self).data_load_queue@.len() as int),
                )
                &&& (final(world).load_data_queue@, final(world).unload_data_queue@)
                    == admitted_data(
                    old(world).chunks@.dom(),
                    old(world).data_tasks@.dom(),
                    old(world).load_data_queue@,
                    old(world).unload_data_queue@,
                    old(self).data_load_queue@.take(
                        handed_over(old(self).data_load_queue@.len() as int),
                    ),
                )
            },
            final(self).prev_chunk_pos == old(self).prev_chunk_pos,
            final(self).chunks_per_frame == old(self).chunks_per_frame,
            final(self).data_offset == old(self).data_offset,
            final(self).mesh_offset == old(self).mesh_offset,
            final(self).mesh_load_queue == old(self).mesh_load_queue,
            final(self).data_unload_queue == old(self).data_unload_queue,
            final(self).mesh_unload_queue == old(self).mesh_unload_queue,
            final(self).data_sampling_offsets == old(self).data_sampling_offsets,
            final(self).mesh_sampling_offsets == old(self).mesh_sampling_offsets,
            final(world).chunks == old(world).chunks,
            final(world).load_mesh_queue == old(world).load_mesh_queue,
            final(world).unload_mesh_queue == old(world).unload_mesh_queue,
            final(world).data_tasks == old(world).data_tasks,
            final(world).mesh_tasks == old(world).mesh_tasks,
            final(world).chunk_entities == old(world).chunk_entities,
    {
        if world.data_tasks.len() >= MAX_DATA_TASKS {
            return;
        }
        let incoming = take_front(&mut self.data_load_queue);

        let mut i: usize = 0;
        while i < incoming.len()
            invariant
                i <= incoming@.len(),
                world.wf(),
                (world.load_data_queue@, world.unload_data_queue@) == admitted_data(
                    old(world).chunks@.dom(),
                    old(world).data_tasks@.dom(),
                    old(world).load_data_queue@,
                    old(world).unload_data_queue@,
                    incoming@.take(i as int),
                ),
                world.chunks == old(world).chunks,
                world.load_mesh_queue == old(world).load_mesh_queue,
                world.unload_mesh_queue == old(world).unload_mesh_queue,
                world.data_tasks == old(world).data_tasks,
                world.mesh_tasks == old(world).mesh_tasks,
                world.chunk_entities == old(world).chunk_entities,
            decreases incoming@.len() - i,
        {
            let chunk_pos = incoming[i];
            proof {
                assert(incoming@.take(i + 1).drop_last() =~= incoming@.take(i as int));
                assert(incoming@.take(i + 1).last() == chunk_pos);
            }
            let is_busy = world.chunks.contains_key(&chunk_pos) || position_in(
                &world.load_data_queue,
                &chunk_pos,
            ).is_some() || world.data_tasks.contains_key(&chunk_pos);

            if !is_busy {
                let ghost waiting = world.load_data_queue@;
                world.load_data_queue.push(chunk_pos);

                // Abort unloading
                remove_first(&mut world.unload_data_queue, &chunk_pos);
                proof {
                    assert forall|a: int, b: int|
                        0 <= a < world.load_data_queue@.len() && 0 <= b
                            < world.load_data_queue@.len() && a != b implies world.load_data_queue@[a]
                        != world.load_data_queue@[b] by {
                        if a < waiting.len() {
                            assert(waiting.contains(waiting[a]));
                        }
                        if b < waiting.len() {
                            assert(waiting.contains(waiting[b]));
                        }
                    }
                }
            }
            i += 1;
        }
        assert(incoming@.take(incoming@.len() as int) =~= incoming@);
    }

    /// Hands every position that waits for the eviction of its data over
    /// to the world, if its data is resident.
    pub fn unload_chunks(&mut self, world: &mut World)
        requires
            old(world).wf(),
        ensures
            final(world).wf(),
            final(self).data_unload_queue@.len() == 0,
            final(world).unload_data_queue@ == old(world).unload_data_queue@ + old(self).data_unload_queue@.filter(resident_in(old(world).chunks@)),
            final(self).prev_chunk_pos == old(self).prev_chunk_pos,
            final(self).chunks_per_frame == old(self).chunks_per_frame,
            final(self).data_offset == old(self).data_offset,
            final(self).mesh_offset == old(self).mesh_offset,
            final(self).data_load_queue == old(self).data_load_queue,
            final(self).mesh_load_queue == old(self).mesh_load_queue,
            final(self).mesh_unload_queue == old(self).mesh_unload_queue,
            final(self).data_sampling_offsets == old(self).data_sampling_offsets,
            final(self).mesh_sampling_offsets == old(self).mesh_sampling_offsets,
            final(world).chunks == old(world).chunks,
            final(world).load_data_queue == old(world).load_data_queue,
            final(world).load_mesh_queue == old(world).load_mesh_queue,
            final(world).unload_mesh_queue == old(world).unload_mesh_queue,
            final(world).data_tasks == old(world).data_tasks,
            final(world).mesh_tasks == old(world).mesh_tasks,
            final(world).chunk_entities == old(world).chunk_entities,
    {
        let ghost leaving = self.data_unload_queue@;
        let ghost resident = resident_in(old(world).chunks@);
        let ghost mut done: int = 0;
        proof {
            reveal(Seq::filter);
            assert(leaving.take(0).filter(resident) =~= Seq::<ChunkPos>::empty());
            assert(world.unload_data_queue@ =~= old(world).unload_data_queue@ + leaving.take(
                0,
            ).filter(resident));
            assert(leaving.skip(0) =~= leaving);
        }
        loop
            invariant
                0 <= done <= leaving.len(),
                leaving == old(self).data_unload_queue@,
                resident == resident_in(old(world).chunks@),
                self.data_unload_queue@ == leaving.skip(done),
                world.unload_data_queue@ == old(world).unload_data_queue@ + leaving.take(
                    done,
                ).filter(resident),
                self.prev_chunk_pos == old(self).prev_chunk_pos,
                self.chunks_per_frame == old(self).chunks_per_frame,
                self.data_offset == old(self).data_offset,
                self.mesh_offset == old(self).mesh_offset,
                self.data_load_queue == old(self).data_load_queue,
                self.mesh_load_queue == old(self).mesh_load_queue,
                self.mesh_unload_queue == old(self).mesh_unload_queue,
                self.data_sampling_offsets == old(self).data_sampling_offsets,
                self.mesh_sampling_offsets == old(self).mesh_sampling_offsets,
                world.chunks == old(world).chunks,
                world.load_data_queue == old(world).load_data_queue,
                world.load_mesh_queue == old(world).load_mesh_queue,
                world.unload_mesh_queue == old(world).unload_mesh_queue,
                world.data_tasks == old(world).data_tasks,
                world.mesh_tasks == old(world).mesh_tasks,
                world.chunk_entities == old(world).chunk_entities,
            ensures
                done == leaving.len(),
                self.data_unload_queue@.len() == 0,
            decreases leaving.len() - done,
        {
            match self.data_unload_queue.pop_front() {
                Some(chunk_pos) => {
                    proof {
                        assert(leaving[done] == chunk_pos);
                        crate::queues::lemma_filter_step(leaving, resident, done);
                        assert(leaving.skip(done).skip(1) =~= leaving.skip(done + 1));
                    }
                    let is_busy = !world.chunks.contains_key(&chunk_pos);

                    if !is_busy {
                        world.unload_data_queue.push(chunk_pos);
                    }
                    proof {
                        done = done + 1;
                        assert(world.unload_data_queue@ =~= old(world).unload_data_queue@
                            + leaving.take(done).filter(resident));
                    }
                },
                None => {
                    break ;
                },
            }
        }
        assert(leaving.take(leaving.len() as int) =~= leaving);
    }

    /// Hands positions that wait for their mesh over to the world, the
    /// nearest first. A position that the world cannot take yet, because it
    /// waits there already, is in flight, or does not have all the data of
    /// its neighbourhood resident, goes to the back of the queue and is
    /// tried again next time.
    pub fn load_mesh(&mut self, world: &mut World)
        requires
            old(world).wf(),
        ensures
            final(world).wf(),
            ({
                let count = handed_over(old(self).mesh_load_queue@.len() as int);
                let admitted = admitted_mesh(
                    old(world).chunks@,
                    old(world).mesh_tasks@,
                    old(world).load_mesh_queue@,
                    old(world).unload_mesh_queue@,
                    old(self).mesh_load_queue@.take(count),
                );
                &&& final(world).load_mesh_queue@ == admitted.0
                &&& final(world).unload_mesh_queue@ == admitted.1
                &&& final(self).mesh_load_queue@ == old(self).mesh_load_queue@.skip(count)
                    + admitted.2
            }),
            final(self).prev_chunk_pos == old(self).prev_chunk_pos,
            final(self).chunks_per_frame == old(self).chunks_per_frame,
            final(self).data_offset == old(self).data_offset,
            final(self).mesh_offset == old(self).mesh_offset,
            final(self).data_load_queue == old(self).data_load_queue,
            final(self).data_unload_queue == old(self).data_unload_queue,
            final(self).mesh_unload_queue == old(self).mesh_unload_queue,
            final(self).data_sampling_offsets == old(self).data_sampling_offsets,
            final(self).mesh_sampling_offsets == old(self).mesh_sampling_offsets,
            final(world).chunks == old(world).chunks,
            final(world).load_data_queue == old(world).load_data_queue,
            final(world).unload_data_queue == old(world).unload_data_queue,
            final(world).data_tasks == old(world).data_tasks,
            final(world).mesh_tasks == old(world).mesh_tasks,
            final(world).chunk_entities == old(world).chunk_entities,
    {
        let mut retries: Vec<ChunkPos> = Vec::new();
        let incoming = take_front(&mut self.mesh_load_queue);

        let mut i: usize = 0;
        while i < incoming.len()
            invariant
                i <= incoming@.len(),
                world.wf(),
                (world.load_mesh_queue@, world.unload_mesh_queue@, retries@) == admitted_mesh(
                    old(world).chunks@,
                    old(world).mesh_tasks@,
                    old(world).load_mesh_queue@,
                    old(world).unload_mesh_queue@,
                    incoming@.take(i as int),
                ),
                world.chunks == old(world).chunks,
                world.load_data_queue == old(world).load_data_queue,
                world.unload_data_queue == old(world).unload_data_queue,
                world.data_tasks == old(world).data_tasks,
                world.mesh_tasks == old(world).mesh_tasks,
                world.chunk_entities == old(world).chunk_entities,
            decreases incoming@.len() - i,
        {
            let chunk_pos = incoming[i];
            proof {
                assert(incoming@.take(i + 1).drop_last() =~= incoming@.take(i as int));
                assert(incoming@.take(i + 1).last() == chunk_pos);
            }
            let mut is_busy = position_in(&world.load_mesh_queue, &chunk_pos).is_some()
                || position_in(&world.mesh_tasks, &chunk_pos).is_some();

            is_busy = is_busy || !neighbourhood_is_resident(&world.chunks, chunk_pos);

            if !is_busy {
                let ghost waiting = world.load_mesh_queue@;
                world.load_mesh_queue.push(chunk_pos);

                // Abort unloading
                remove_first(&mut world.unload_mesh_queue, &chunk_pos);
                proof {
                    assert forall|a: int, b: int|
                        0 <= a < world.load_mesh_queue@.len() && 0 <= b
                            < world.load_mesh_queue@.len() && a != b implies world.load_mesh_queue@[a]
                        != world.load_mesh_queue@[b] by {
                        if a < waiting.len() {
                            assert(waiting.contains(waiting[a]));
                        }
                        if b < waiting.len() {
                            assert(waiting.contains(waiting[b]));
                        }
                    }
                }
            } else {
                retries.push(chunk_pos);
            }
            i += 1;
        }
        assert(incoming@.take(incoming@.len() as int) =~= incoming@);

        self.mesh_load_queue.append(&mut retries);
    }

    /// Hands every position that waits for the destruction of its mesh
    /// over to the world.
    pub fn unload_mesh(&mut self, world: &mut World)
        requires
            old(world).wf(),
        ensures
            final(world).wf(),
            final(self).mesh_unload_queue@.len() == 0,
            final(world).unload_mesh_queue@ == old(world).unload_mesh_queue@ + old(self).mesh_unload_queue@,
            final(self).prev_chunk_pos == old(self).prev_chunk_pos,
            final(self).chunks_per_frame == old(self).chunks_per_frame,
            final(self).data_offset == old(self).data_offset,
            final(self).mesh_offset == old(self).mesh_offset,
            final(self).data_load_queue == old(self).data_load_queue,
            final(self).mesh_load_queue == old(self).mesh_load_queue,
            final(self).data_unload_queue == old(self).data_unload_queue,
            final(self).data_sampling_offsets == old(self).data_sampling_offsets,
            final(self).mesh_sampling_offsets == old(self).mesh_sampling_offsets,
            final(world).chunks == old(world).chunks,
            final(world).load_data_queue == old(world).load_data_queue,
            final(world).load_mesh_queue == old(world).load_mesh_queue,
            final(world).unload_data_queue == old(world).unload_data_queue,
            final(world).data_tasks == old(world).data_tasks,
            final(world).mesh_tasks == old(world).mesh_tasks,
            final(world).chunk_entities == old(world).chunk_entities,
    {
        let ghost leaving = self.mesh_unload_queue@;
        let ghost mut done: int = 0;
        proof {
            assert(world.unload_mesh_queue@ =~= old(world).unload_mesh_queue@ + leaving.take(0));
            assert(leaving.skip(0) =~= leaving);
        }
        loop
            invariant
                0 <= done <= leaving.len(),
                leaving == old(self).mesh_unload_queue@,
                self.mesh_unload_queue@ == leaving.skip(done),
                world.unload_mesh_queue@ == old(world).unload_mesh_queue@ + leaving.take(done),
                self.prev_chunk_pos == old(self).prev_chunk_pos,
                self.chunks_per_frame == old(self).chunks_per_frame,
                self.data_offset == old(self).data_offset,
                self.mesh_offset == old(self).mesh_offset,
                self.data_load_queue == old(self).data_load_queue,
                self.mesh_load_queue == old(self).mesh_load_queue,
                self.data_unload_queue == old(self).data_unload_queue,
                self.data_sampling_offsets == old(self).data_sampling_offsets,
                self.mesh_sampling_offsets == old(self).mesh_sampling_offsets,
                world.chunks == old(world).chunks,
                world.load_data_queue == old(world).load_data_queue,
                world.load_mesh_queue == old(world).load_mesh_queue,
                world.unload_data_queue == old(world).unload_data_queue,
                world.data_tasks == old(world).data_tasks,
                world.mesh_tasks == old(world).mesh_tasks,
                world.chunk_entities == old(world).chunk_entities,
            ensures
                done == leaving.len(),
                self.mesh_unload_queue@.len() == 0,
            decreases leaving.len() - done,
        {
            match self.mesh_unload_queue.pop_front() {
                Some(chunk_pos) => {
                    world.unload_mesh_queue.push(chunk_pos);
                    proof {
                        assert(leaving[done] == chunk_pos);
                        assert(leaving.skip(done).skip(1) =~= leaving.skip(done + 1));
                        assert(leaving.take(done + 1) =~= leaving.take(done).push(chunk_pos));
                        done = done + 1;
                        assert(world.unload_mesh_queue@ =~= old(world).unload_mesh_queue@
                            + leaving.take(done));
                    }
                },
                None => {
                    break ;
                },
            }
        }
        assert(leaving.take(leaving.len() as int) =~= leaving);
    }
}

} // verus!
