//! The voxel store and the scheduler of background jobs.
//!
//! The world decides; it starts no job itself. A caller runs the jobs that
//! [`World::start_data_tasks`] and [`World::start_mesh_tasks`] hand out, and
//! reports each result with [`World::join_data`] or [`World::join_mesh`].
//! Between the two a position is in flight. No more jobs are in flight at
//! once than the caps allow, and no position is in flight twice in a layer.

use vstd::prelude::*;
use std::sync::Arc;
use crate::chunk::Chunk;
use crate::chunk_from_middle::{neighbourhood_resident, ChunksFromMiddle};
use crate::chunk_map::ChunkMap;
use crate::chunk_mesh::ChunkMesh;
use crate::constants::{MAX_DATA_TASKS, MAX_MESH_TASKS};
use crate::positions::ChunkPos;
use crate::queues::{position_in, sort_by_distance, sorted_stably};

verus! {

/// The chunks that are resident, the work that is waiting, and the work
/// that is in flight.
pub struct World {
    /// The voxel store: the chunks whose data has been generated and not
    /// yet evicted.
    pub chunks: ChunkMap<Arc<Chunk>>,
    /// Positions whose data is to be generated, for all loaders together.
    pub load_data_queue: Vec<ChunkPos>,
    /// Positions that are to be meshed, for all loaders together.
    pub load_mesh_queue: Vec<ChunkPos>,
    /// Positions whose data is to be evicted.
    pub unload_data_queue: Vec<ChunkPos>,
    /// Positions whose mesh is to be destroyed.
    pub unload_mesh_queue: Vec<ChunkPos>,
    /// Positions whose data is being generated.
    pub data_tasks: ChunkMap<()>,
    /// Positions that are being meshed.
    pub mesh_tasks: Vec<ChunkPos>,
    /// The rendering handle of the mesh that is shown for a position.
    pub chunk_entities: ChunkMap<u64>,
}

/// What the renderer has to do when a meshing job has ended.
pub struct MeshUpdate {
    /// The handle of the mesh that was shown for the position and is to be
    /// destroyed.
    pub despawn: Option<u64>,
    /// The mesh that is to be shown for the position from now on.
    pub spawn: Option<ChunkMesh>,
}

/// The store after the listed positions have been evicted.
pub open spec fn evicted<V>(store: Map<ChunkPos, V>, queue: Seq<ChunkPos>) -> Map<ChunkPos, V> {
    store.remove_keys(queue.to_set())
}

/// The handles that are left when the meshes at the listed positions have
/// been given up, and the handles that were given up, in the order of the
/// list.
pub open spec fn released(entities: Map<ChunkPos, u64>, queue: Seq<ChunkPos>) -> (
    Map<ChunkPos, u64>,
    Seq<u64>,
)
    decreases queue.len(),
{
    if queue.len() == 0 {
        (entities, Seq::empty())
    } else {
        let (left, handles) = released(entities, queue.drop_last());
        let pos = queue.last();
        if left.contains_key(pos) {
            (left.remove(pos), handles.push(left[pos]))
        } else {
            (left, handles)
        }
    }
}

/// The number of jobs that may be started: as many as are waiting, but no
/// more than the cap leaves room for.
pub open spec fn tasks_left(cap: int, in_flight: int, waiting: int) -> int {
    if in_flight >= cap {
        0
    } else if cap - in_flight < waiting {
        cap - in_flight
    } else {
        waiting
    }
}

impl World {
    /// What holds of the scheduler between any two calls: no position waits
    /// twice for a job of one layer, none waits while it is in flight, none
    /// is in flight twice, and the jobs in flight keep within the caps.
    pub open spec fn wf(&self) -> bool {
        &&& self.load_data_queue@.no_duplicates()
        &&& forall|i: int|
            0 <= i < self.load_data_queue@.len() ==> !self.data_tasks@.contains_key(
                #[trigger] self.load_data_queue@[i],
            )
        &&& self.data_tasks@.dom().finite()
        &&& self.data_tasks@.dom().len() <= MAX_DATA_TASKS
        &&& self.load_mesh_queue@.no_duplicates()
        &&& forall|i: int|
            0 <= i < self.load_mesh_queue@.len() ==> !self.mesh_tasks@.contains(
                #[trigger] self.load_mesh_queue@[i],
            )
        &&& self.mesh_tasks@.no_duplicates()
        &&& self.mesh_tasks@.len() <= MAX_MESH_TASKS
    }

    /// A world without chunks and without work.
    pub fn new() -> (world: Self)
        ensures
            world.wf(),
            world.chunks@ == Map::<ChunkPos, Arc<Chunk>>::empty(),
            world.load_data_queue@.len() == 0,
            world.load_mesh_queue@.len() == 0,
            world.unload_data_queue@.len() == 0,
            world.unload_mesh_queue@.len() == 0,
            world.data_tasks@ == Map::<ChunkPos, ()>::empty(),
            world.mesh_tasks@.len() == 0,
            world.chunk_entities@ == Map::<ChunkPos, u64>::empty(),
    {
        World {
            chunks: ChunkMap::new(),
            load_data_queue: Vec::new(),
            load_mesh_queue: Vec::new(),
            unload_data_queue: Vec::new(),
            unload_mesh_queue: Vec::new(),
            data_tasks: ChunkMap::new(),
            mesh_tasks: Vec::new(),
            chunk_entities: ChunkMap::new(),
        }
    }

    /// Picks the positions for which the generation of data is to start
    /// now: the nearest to `loader_pos` of those that are waiting, as many
    /// as the cap on jobs in flight leaves room for. They are in flight from
    /// now on, until [`World::join_data`] reports their chunks.
    pub fn start_data_tasks(&mut self, loader_pos: ChunkPos) -> (started: Vec<ChunkPos>)
        requires
            old(self).wf(),
            forall|i: int|
                0 <= i < old(self).load_data_queue@.len() ==> (
                #[trigger] old(self).load_data_queue@[i]).spec_distance_squared(loader_pos)
                    <= u32::MAX,
        ensures
            final(self).wf(),
            sorted_stably(
                old(self).load_data_queue@,
                started@ + final(self).load_data_queue@,
                loader_pos,
            ),
            started@.len() == tasks_left(
                MAX_DATA_TASKS as int,
                old(self).data_tasks@.dom().len() as int,
                old(self).load_data_queue@.len() as int,
            ),
            started@.no_duplicates(),
            forall|i: int|
                0 <= i < started@.len() ==> !old(self).data_tasks@.contains_key(
                    #[trigger] started@[i],
                ),
            final(self).data_tasks@.dom() == old(self).data_tasks@.dom().union(started@.to_set()),
            final(self).chunks == old(self).chunks,
            final(self).load_mesh_queue == old(self).load_mesh_queue,
            final(self).unload_data_queue == old(self).unload_data_queue,
            final(self).unload_mesh_queue == old(self).unload_mesh_queue,
            final(self).mesh_tasks == old(self).mesh_tasks,
            final(self).chunk_entities == old(self).chunk_entities,
    {
        let ghost waiting = self.load_data_queue@;
        sort_by_distance(&mut self.load_data_queue, loader_pos);
        let ghost sorted = self.load_data_queue@;
        proof {
            lemma_reordered_queue(waiting, sorted, self.data_tasks@.dom());
        }

        let in_flight = self.data_tasks.len();
        let tasks_left: usize = if in_flight >= MAX_DATA_TASKS {
            0
        } else if MAX_DATA_TASKS - in_flight < self.load_data_queue.len() {
            MAX_DATA_TASKS - in_flight
        } else {
            self.load_data_queue.len()
        };

        let mut started = self.load_data_queue.split_off(tasks_left);
        std::mem::swap(&mut started, &mut self.load_data_queue);
        assert(started@ + self.load_data_queue@ =~= sorted);

        let mut i: usize = 0;
        while i < started.len()
            invariant
                i <= started@.len(),
                started@ + self.load_data_queue@ == sorted,
                sorted.no_duplicates(),
                forall|j: int|
                    0 <= j < sorted.len() ==> !old(self).data_tasks@.contains_key(
                        #[trigger] sorted[j],
                    ),
                self.data_tasks@.dom().finite(),
                self.data_tasks@.dom() == old(self).data_tasks@.dom().union(
                    started@.take(i as int).to_set(),
                ),
                self.data_tasks@.dom().len() == old(self).data_tasks@.dom().len() + i,
                self.chunks == old(self).chunks,
                self.load_mesh_queue == old(self).load_mesh_queue,
                self.unload_data_queue == old(self).unload_data_queue,
                self.unload_mesh_queue == old(self).unload_mesh_queue,
                self.mesh_tasks == old(self).mesh_tasks,
                self.chunk_entities == old(self).chunk_entities,
            decreases started@.len() - i,
        {
            let chunk_pos = started[i];
            proof {
                assert(sorted[i as int] == chunk_pos);
                assert(!old(self).data_tasks@.contains_key(chunk_pos));
                assert(!started@.take(i as int).to_set().contains(chunk_pos)) by {
                    if started@.take(i as int).contains(chunk_pos) {
                        let j = choose|j: int|
                            0 <= j < i && started@.take(i as int)[j] == chunk_pos;
                        assert(sorted[j] == sorted[i as int]);
                    }
                }
                assert(started@.take(i + 1).to_set() =~= started@.take(i as int).to_set().insert(
                    chunk_pos,
                )) by {
                    assert(started@.take(i + 1) =~= started@.take(i as int).push(chunk_pos));
                    started@.take(i as int).lemma_push_to_set_commute(chunk_pos);
                }
            }
            self.data_tasks.insert(chunk_pos, ());
            assert(self.data_tasks@.dom() =~= old(self).data_tasks@.dom().union(
                started@.take(i + 1).to_set(),
            ));
            i += 1;
        }
        proof {
            assert(started@.take(started@.len() as int) =~= started@);
            assert forall|j: int| 0 <= j < self.load_data_queue@.len() implies !self.data_tasks@.contains_key(
                #[trigger] self.load_data_queue@[j],
            ) by {
                let pos = self.load_data_queue@[j];
                assert(sorted[started@.len() + j] == pos);
                if started@.contains(pos) {
                    let k = choose|k: int| 0 <= k < started@.len() && started@[k] == pos;
                    assert(sorted[k] == pos);
                }
            }
            assert(self.load_data_queue@.no_duplicates()) by {
                assert forall|a: int, b: int|
                    0 <= a < self.load_data_queue@.len() && 0 <= b < self.load_data_queue@.len()
                        && a != b implies self.load_data_queue@[a] != self.load_data_queue@[b] by {
                    assert(sorted[started@.len() + a] == self.load_data_queue@[a]);
                    assert(sorted[started@.len() + b] == self.load_data_queue@[b]);
                }
            }
            assert(started@.no_duplicates()) by {
                assert forall|a: int, b: int|
                    0 <= a < started@.len() && 0 <= b < started@.len() && a != b implies started@[a]
                    != started@[b] by {
                    assert(sorted[a] == started@[a]);
                    assert(sorted[b] == started@[b]);
                }
            }
            assert forall|j: int| 0 <= j < started@.len() implies !old(self).data_tasks@.contains_key(
                #[trigger] started@[j],
            ) by {
                assert(sorted[j] == started@[j]);
            }
        }
        started
    }

    /// Evicts the data of every position that is waiting for eviction.
    pub fn unload_data(&mut self)
        requires
            old(self).wf(),
        ensures
            final(self).wf(),
            final(self).unload_data_queue@.len() == 0,
            final(self).chunks@ == evicted(old(self).chunks@, old(self).unload_data_queue@),
            final(self).load_data_queue == old(self).load_data_queue,
            final(self).load_mesh_queue == old(self).load_mesh_queue,
            final(self).unload_mesh_queue == old(self).unload_mesh_queue,
            final(self).data_tasks == old(self).data_tasks,
            final(self).mesh_tasks == old(self).mesh_tasks,
            final(self).chunk_entities == old(self).chunk_entities,
    {
        let mut i: usize = 0;
        while i < self.unload_data_queue.len()
            invariant
                i <= self.unload_data_queue@.len(),
                self.unload_data_queue == old(self).unload_data_queue,
                self.chunks@ == evicted(
                    old(self).chunks@,
                    old(self).unload_data_queue@.take(i as int),
                ),
                self.load_data_queue == old(self).load_data_queue,
                self.load_mesh_queue == old(self).load_mesh_queue,
                self.unload_mesh_queue == old(self).unload_mesh_queue,
                self.data_tasks == old(self).data_tasks,
                self.mesh_tasks == old(self).mesh_tasks,
                self.chunk_entities == old(self).chunk_entities,
            decreases self.unload_data_queue@.len() - i,
        {
            let chunk_pos = self.unload_data_queue[i];
            self.chunks.remove(&chunk_pos);
            proof {
                let queue = old(self).unload_data_queue@;
                assert(queue.take(i + 1) =~= queue.take(i as int).push(chunk_pos));
                queue.take(i as int).lemma_push_to_set_commute(chunk_pos);
                assert(self.chunks@ =~= evicted(old(self).chunks@, queue.take(i + 1)));
            }
            i += 1;
        }
        assert(old(self).unload_data_queue@.take(old(self).unload_data_queue@.len() as int)
            =~= old(self).unload_data_queue@);
        self.unload_data_queue.clear();
    }

    /// Picks the positions for which meshing is to start now: the nearest
    /// to `loader_pos` of those that are waiting, as many as the cap on jobs
    /// in flight leaves room for. Each is handed out with the view of its
    /// neighbourhood that the job has to mesh, and is in flight from now on,
    /// until [`World::join_mesh`] reports its mesh. A position whose
    /// neighbourhood is no longer resident is handed out without a view: it
    /// gets no job and waits no longer.
    pub fn start_mesh_tasks(&mut self, loader_pos: ChunkPos) -> (picked: Vec<
        (ChunkPos, Option<ChunksFromMiddle>),
    >)
        requires
            old(self).wf(),
            forall|i: int|
                0 <= i < old(self).load_mesh_queue@.len() ==> (
                #[trigger] old(self).load_mesh_queue@[i]).spec_distance_squared(loader_pos)
                    <= u32::MAX,
        ensures
            final(self).wf(),
            sorted_stably(
                old(self).load_mesh_queue@,
                picked@.map_values(|job: (ChunkPos, Option<ChunksFromMiddle>)| job.0)
                    + final(self).load_mesh_queue@,
                loader_pos,
            ),
            picked@.len() == tasks_left(
                MAX_MESH_TASKS as int,
                old(self).mesh_tasks@.len() as int,
                old(self).load_mesh_queue@.len() as int,
            ),
            forall|i: int|
                0 <= i < picked@.len() ==> {
                    &&& (#[trigger] picked@[i]).1 is Some == neighbourhood_resident(
                        old(self).chunks@,
                        picked@[i].0,
                    )
                    &&& !old(self).mesh_tasks@.contains(picked@[i].0)
                },
            forall|i: int, index: int|
                0 <= i < picked@.len() && 0 <= index < 27 && picked@[i].1 is Some
                    ==> #[trigger] picked@[i].1.unwrap().chunk(index) == *old(self).chunks@[crate::chunk_from_middle::neighbour(picked@[i].0, index).unwrap()],
            final(self).mesh_tasks@ == old(self).mesh_tasks@ + picked@.filter(
                |job: (ChunkPos, Option<ChunksFromMiddle>)| job.1 is Some,
            ).map_values(|job: (ChunkPos, Option<ChunksFromMiddle>)| job.0),
            final(self).chunks == old(self).chunks,
            final(self).load_data_queue == old(self).load_data_queue,
            final(self).unload_data_queue == old(self).unload_data_queue,
            final(self).unload_mesh_queue == old(self).unload_mesh_queue,
            final(self).data_tasks == old(self).data_tasks,
            final(self).chunk_entities == old(self).chunk_entities,
    {
        let ghost waiting = self.load_mesh_queue@;
        let ghost pos_of = |job: (ChunkPos, Option<ChunksFromMiddle>)| job.0;
        let ghost has_view = |job: (ChunkPos, Option<ChunksFromMiddle>)| job.1 is Some;
        sort_by_distance(&mut self.load_mesh_queue, loader_pos);
        let ghost sorted = self.load_mesh_queue@;
        proof {
            lemma_reordered_queue(waiting, sorted, self.mesh_tasks@.to_set());
        }

        let in_flight = self.mesh_tasks.len();
        let tasks_left: usize = if in_flight >= MAX_MESH_TASKS {
            0
        } else if MAX_MESH_TASKS - in_flight < self.load_mesh_queue.len() {
            MAX_MESH_TASKS - in_flight
        } else {
            self.load_mesh_queue.len()
        };

        let mut drained = self.load_mesh_queue.split_off(tasks_left);
        std::mem::swap(&mut drained, &mut self.load_mesh_queue);
        assert(drained@ + self.load_mesh_queue@ =~= sorted);

        let mut picked: Vec<(ChunkPos, Option<ChunksFromMiddle>)> = Vec::new();
        let mut i: usize = 0;
        proof {
            reveal(Seq::filter);
            assert(picked@.filter(has_view) =~= Seq::empty());
            assert(self.mesh_tasks@ =~= old(self).mesh_tasks@ + picked@.filter(has_view).map_values(
                pos_of,
            ));
            assert(picked@.map_values(pos_of) =~= drained@.take(0));
        }
        while i < drained.len()
            invariant
                i <= drained@.len(),
                drained@.len() == tasks_left,
                old(self).mesh_tasks@.len() + tasks_left <= MAX_MESH_TASKS,
                old(self).mesh_tasks@.no_duplicates(),
                drained@ + self.load_mesh_queue@ == sorted,
                sorted.no_duplicates(),
                forall|j: int|
                    0 <= j < sorted.len() ==> !old(self).mesh_tasks@.contains(#[trigger] sorted[j]),
                pos_of == (|job: (ChunkPos, Option<ChunksFromMiddle>)| job.0),
                has_view == (|job: (ChunkPos, Option<ChunksFromMiddle>)| job.1 is Some),
                picked@.len() == i,
                picked@.map_values(pos_of) == drained@.take(i as int),
                forall|j: int|
                    0 <= j < picked@.len() ==> (#[trigger] picked@[j]).1 is Some
                        == neighbourhood_resident(old(self).chunks@, picked@[j].0),
                forall|j: int, index: int|
                    0 <= j < picked@.len() && 0 <= index < 27 && picked@[j].1 is Some
                        ==> #[trigger] picked@[j].1.unwrap().chunk(index) == *old(self).chunks@[crate::chunk_from_middle::neighbour(picked@[j].0, index).unwrap()],
                self.mesh_tasks@ == old(self).mesh_tasks@ + picked@.filter(has_view).map_values(
                    pos_of,
                ),
                picked@.filter(has_view).len() <= i,
                self.chunks == old(self).chunks,
                self.load_data_queue == old(self).load_data_queue,
                self.unload_data_queue == old(self).unload_data_queue,
                self.unload_mesh_queue == old(self).unload_mesh_queue,
                self.data_tasks == old(self).data_tasks,
                self.chunk_entities == old(self).chunk_entities,
            decreases drained@.len() - i,
        {
            let chunk_pos = drained[i];
            let view = ChunksFromMiddle::try_new(&self.chunks, chunk_pos);
            let ghost before = picked@;
            let ghost job = (chunk_pos, view);
            if view.is_some() {
                self.mesh_tasks.push(chunk_pos);
            }
            picked.push((chunk_pos, view));
            proof {
                reveal(Seq::filter);
                assert(picked@.drop_last() =~= before);
                assert(picked@.last() == job);
                assert(picked@.map_values(pos_of) =~= drained@.take(i + 1));
                if view.is_some() {
                    assert(picked@.filter(has_view) == before.filter(has_view).push(job));
                    assert(picked@.filter(has_view).map_values(pos_of) =~= before.filter(
                        has_view,
                    ).map_values(pos_of).push(chunk_pos));
                } else {
                    assert(picked@.filter(has_view) == before.filter(has_view));
                }
            }
            i += 1;
        }
        proof {
            assert(drained@.take(drained@.len() as int) =~= drained@);
            let started = picked@.filter(has_view).map_values(pos_of);
            // What was started was waiting, each position once
            assert forall|k: int| 0 <= k < started.len() implies exists|j: int|
                0 <= j < drained@.len() && drained@[j] == #[trigger] started[k] by {
                let job = picked@.filter(has_view)[k];
                picked@.lemma_filter_contains_rev(has_view, job);
                assert(picked@.filter(has_view).contains(job));
                let j = choose|j: int| 0 <= j < picked@.len() && picked@[j] == job;
                assert(picked@.map_values(pos_of)[j] == job.0);
            }
            lemma_started_meshes(
                old(self).mesh_tasks@,
                sorted,
                drained@,
                self.load_mesh_queue@,
                picked@,
            );
        }
        picked
    }

    /// Gives up the mesh of every position that is waiting for it, and
    /// hands out the rendering handles that are to be destroyed. A position
    /// without a mesh is passed over.
    pub fn unload_mesh(&mut self) -> (destroyed: Vec<u64>)
        requires
            old(self).wf(),
        ensures
            final(self).wf(),
            final(self).unload_mesh_queue@.len() == 0,
            final(self).chunk_entities@ == released(
                old(self).chunk_entities@,
                old(self).unload_mesh_queue@,
            ).0,
            destroyed@ == released(old(self).chunk_entities@, old(self).unload_mesh_queue@).1,
            final(self).chunks == old(self).chunks,
            final(self).load_data_queue == old(self).load_data_queue,
            final(self).load_mesh_queue == old(self).load_mesh_queue,
            final(self).unload_data_queue == old(self).unload_data_queue,
            final(self).data_tasks == old(self).data_tasks,
            final(self).mesh_tasks == old(self).mesh_tasks,
    {
        let mut destroyed: Vec<u64> = Vec::new();
        let mut i: usize = 0;
        while i < self.unload_mesh_queue.len()
            invariant
                i <= self.unload_mesh_queue@.len(),
                self.unload_mesh_queue == old(self).unload_mesh_queue,
                self.chunk_entities@ == released(
                    old(self).chunk_entities@,
                    old(self).unload_mesh_queue@.take(i as int),
                ).0,
                destroyed@ == released(
                    old(self).chunk_entities@,
                    old(self).unload_mesh_queue@.take(i as int),
                ).1,
                self.chunks == old(self).chunks,
                self.load_data_queue == old(self).load_data_queue,
                self.load_mesh_queue == old(self).load_mesh_queue,
                self.unload_data_queue == old(self).unload_data_queue,
                self.data_tasks == old(self).data_tasks,
                self.mesh_tasks == old(self).mesh_tasks,
            decreases self.unload_mesh_queue@.len() - i,
        {
            let chunk_pos = self.unload_mesh_queue[i];
            proof {
                let queue = old(self).unload_mesh_queue@;
                assert(queue.take(i + 1).drop_last() =~= queue.take(i as int));
                assert(queue.take(i + 1).last() == chunk_pos);
            }
            match self.chunk_entities.remove(&chunk_pos) {
                Some(chunk_id) => {
                    destroyed.push(chunk_id);
                },
                None => {},
            }
            i += 1;
        }
        assert(old(self).unload_mesh_queue@.take(old(self).unload_mesh_queue@.len() as int)
            =~= old(self).unload_mesh_queue@);
        self.unload_mesh_queue.clear();
        destroyed
    }

    /// Takes in the chunk that a data job has produced: the chunk becomes
    /// resident and the position is no longer in flight. A chunk for a
    /// position that is not in flight is not taken in.
    pub fn join_data(&mut self, chunk_pos: ChunkPos, chunk: Chunk)
        requires
            old(self).wf(),
        ensures
            final(self).wf(),
            final(self).data_tasks@ == old(self).data_tasks@.remove(chunk_pos),
            old(self).data_tasks@.contains_key(chunk_pos) ==> {
                &&& final(self).chunks@.dom() == old(self).chunks@.dom().insert(chunk_pos)
                &&& *final(self).chunks@[chunk_pos] == chunk
                &&& forall|pos: ChunkPos|
                    pos != chunk_pos && old(self).chunks@.contains_key(pos) ==> final(self).chunks@[pos] == old(self).chunks@[pos]
            },
            !old(self).data_tasks@.contains_key(chunk_pos) ==> final(self).chunks == old(self).chunks,
            final(self).load_data_queue == old(self).load_data_queue,
            final(self).load_mesh_queue == old(self).load_mesh_queue,
            final(self).unload_data_queue == old(self).unload_data_queue,
            final(self).unload_mesh_queue == old(self).unload_mesh_queue,
            final(self).mesh_tasks == old(self).mesh_tasks,
            final(self).chunk_entities == old(self).chunk_entities,
    {
        proof {
            self.data_tasks.lemma_finite();
        }
        match self.data_tasks.remove(&chunk_pos) {
            Some(_) => {
                self.chunks.insert(chunk_pos, Arc::new(chunk));
            },
            None => {},
        }
        proof {
            self.data_tasks.lemma_finite();
            assert(self.data_tasks@.dom() =~= old(self).data_tasks@.dom().remove(chunk_pos));
        }
    }

    /// Takes in what a meshing job has produced: the position is no longer
    /// in flight, the mesh that was shown for it is to be destroyed, and the
    /// new mesh, if the job produced one, is to be shown. The handle of the
    /// new mesh is recorded with [`World::mesh_spawned`]. The outcome of a
    /// job for a position that is not in flight is passed over.
    pub fn join_mesh(&mut self, chunk_pos: ChunkPos, mesh: Option<ChunkMesh>) -> (update: MeshUpdate)
        requires
            old(self).wf(),
        ensures
            final(self).wf(),
            final(self).mesh_tasks@ == old(self).mesh_tasks@.remove_value(chunk_pos),
            old(self).mesh_tasks@.contains(chunk_pos) ==> {
                &&& update.spawn == mesh
                &&& final(self).chunk_entities@ == old(self).chunk_entities@.remove(chunk_pos)
                &&& update.despawn == if old(self).chunk_entities@.contains_key(chunk_pos) {
                    Some(old(self).chunk_entities@[chunk_pos])
                } else {
                    None
                }
            },
            !old(self).mesh_tasks@.contains(chunk_pos) ==> {
                &&& update.spawn is None
                &&& update.despawn is None
                &&& final(self).chunk_entities == old(self).chunk_entities
            },
            final(self).chunks == old(self).chunks,
            final(self).load_data_queue == old(self).load_data_queue,
            final(self).load_mesh_queue == old(self).load_mesh_queue,
            final(self).unload_data_queue == old(self).unload_data_queue,
            final(self).unload_mesh_queue == old(self).unload_mesh_queue,
            final(self).data_tasks == old(self).data_tasks,
    {
        proof {
            self.mesh_tasks@.index_of_first_ensures(chunk_pos);
        }
        match position_in(&self.mesh_tasks, &chunk_pos) {
            Some(i) => {
                self.mesh_tasks.remove(i);
                proof {
                    lemma_remove_keeps(old(self).mesh_tasks@, i as int, old(self).load_mesh_queue@);
                }
                let despawn = self.chunk_entities.remove(&chunk_pos);
                MeshUpdate { despawn, spawn: mesh }
            },
            None => MeshUpdate { despawn: None, spawn: None },
        }
    }

    /// Gives up a data job that has ended without a chunk: the position is
    /// no longer in flight, and is not resident either. It is loaded only
    /// if a loader asks for it again.
    pub fn drop_data_job(&mut self, chunk_pos: ChunkPos)
        requires
            old(self).wf(),
        ensures
            final(self).wf(),
            final(self).data_tasks@ == old(self).data_tasks@.remove(chunk_pos),
            final(self).chunks == old(self).chunks,
            final(self).load_data_queue == old(self).load_data_queue,
            final(self).load_mesh_queue == old(self).load_mesh_queue,
            final(self).unload_data_queue == old(self).unload_data_queue,
            final(self).unload_mesh_queue == old(self).unload_mesh_queue,
            final(self).mesh_tasks == old(self).mesh_tasks,
            final(self).chunk_entities == old(self).chunk_entities,
    {
        proof {
            self.data_tasks.lemma_finite();
        }
        self.data_tasks.remove(&chunk_pos);
        proof {
            self.data_tasks.lemma_finite();
            assert(self.data_tasks@.dom() =~= old(self).data_tasks@.dom().remove(chunk_pos));
        }
    }

    /// Gives up a meshing job that has ended without an outcome: the
    /// position is no longer in flight, and what is shown for it stays as
    /// it is. It is meshed only if a loader asks for it again.
    pub fn drop_mesh_job(&mut self, chunk_pos: ChunkPos)
        requires
            old(self).wf(),
        ensures
            final(self).wf(),
            final(self).mesh_tasks@ == old(self).mesh_tasks@.remove_value(chunk_pos),
            final(self).chunks == old(self).chunks,
            final(self).load_data_queue == old(self).load_data_queue,
            final(self).load_mesh_queue == old(self).load_mesh_queue,
            final(self).unload_data_queue == old(self).unload_data_queue,
            final(self).unload_mesh_queue == old(self).unload_mesh_queue,
            final(self).data_tasks == old(self).data_tasks,
            final(self).chunk_entities == old(self).chunk_entities,
    {
        proof {
            self.mesh_tasks@.index_of_first_ensures(chunk_pos);
        }
        match position_in(&self.mesh_tasks, &chunk_pos) {
            Some(i) => {
                self.mesh_tasks.remove(i);
                proof {
                    lemma_remove_keeps(old(self).mesh_tasks@, i as int, old(self).load_mesh_queue@);
                }
            },
            None => {},
        }
    }

    /// Records the rendering handle of the mesh that is now shown for a
    /// position, and hands back the handle that was recorded before, which
    /// is to be destroyed.
    pub fn mesh_spawned(&mut self, chunk_pos: ChunkPos, handle: u64) -> (replaced: Option<u64>)
        requires
            old(self).wf(),
        ensures
            final(self).wf(),
            final(self).chunk_entities@ == old(self).chunk_entities@.insert(chunk_pos, handle),
            replaced == if old(self).chunk_entities@.contains_key(chunk_pos) {
                Some(old(self).chunk_entities@[chunk_pos])
            } else {
                None
            },
            final(self).chunks == old(self).chunks,
            final(self).load_data_queue == old(self).load_data_queue,
            final(self).load_mesh_queue == old(self).load_mesh_queue,
            final(self).unload_data_queue == old(self).unload_data_queue,
            final(self).unload_mesh_queue == old(self).unload_mesh_queue,
            final(self).data_tasks == old(self).data_tasks,
            final(self).mesh_tasks == old(self).mesh_tasks,
    {
        self.chunk_entities.insert(chunk_pos, handle)
    }
}

impl Default for World {
    fn default() -> (world: Self)
        ensures
            world.wf(),
    {
        World::new()
    }
}

/// A queue that has been reordered still holds each position once, and
/// none of the positions that it did not hold before.
pub proof fn lemma_reordered_queue(before: Seq<ChunkPos>, after: Seq<ChunkPos>, busy: Set<ChunkPos>)
    requires
        before.no_duplicates(),
        after.len() == before.len(),
        after.to_multiset() == before.to_multiset(),
        forall|i: int| 0 <= i < before.len() ==> !busy.contains(#[trigger] before[i]),
    ensures
        after.no_duplicates(),
        forall|i: int| 0 <= i < after.len() ==> !busy.contains(#[trigger] after[i]),
{
    broadcast use vstd::seq_lib::group_to_multiset_ensures;

    before.lemma_multiset_has_no_duplicates();
    after.lemma_multiset_has_no_duplicates_conv();
    assert forall|i: int| 0 <= i < after.len() implies !busy.contains(#[trigger] after[i]) by {
        let pos = after[i];
        assert(after.contains(pos));
        assert(after.to_multiset().count(pos) > 0);
        assert(before.to_multiset().count(pos) > 0);
        assert(before.contains(pos));
        let j = choose|j: int| 0 <= j < before.len() && before[j] == pos;
        assert(!busy.contains(before[j]));
    }
}

/// Taking an entry out of the positions in flight leaves each of them in
/// flight once, and none in flight that is waiting.
pub proof fn lemma_remove_keeps(in_flight: Seq<ChunkPos>, i: int, waiting: Seq<ChunkPos>)
    requires
        0 <= i < in_flight.len(),
        in_flight.no_duplicates(),
        forall|j: int| 0 <= j < waiting.len() ==> !in_flight.contains(#[trigger] waiting[j]),
    ensures
        in_flight.remove(i).no_duplicates(),
        forall|j: int| 0 <= j < waiting.len() ==> !in_flight.remove(i).contains(#[trigger] waiting[j]),
{
    let left = in_flight.remove(i);
    assert forall|a: int, b: int| 0 <= a < left.len() && 0 <= b < left.len() && a != b implies left[a]
        != left[b] by {
        let a2 = if a < i {
            a
        } else {
            a + 1
        };
        let b2 = if b < i {
            b
        } else {
            b + 1
        };
        assert(left[a] == in_flight[a2]);
        assert(left[b] == in_flight[b2]);
    }
    assert forall|j: int| 0 <= j < waiting.len() implies !left.contains(#[trigger] waiting[j]) by {
        if left.contains(waiting[j]) {
            let k = choose|k: int| 0 <= k < left.len() && left[k] == waiting[j];
            let k2 = if k < i {
                k
            } else {
                k + 1
            };
            assert(in_flight[k2] == waiting[j]);
            assert(in_flight.contains(waiting[j]));
        }
    }
}

/// The positions for which meshing has been started were waiting, each
/// once, and were not in flight: with them in flight, the scheduler is as
/// it has to be.
proof fn lemma_started_meshes(
    in_flight: Seq<ChunkPos>,
    sorted: Seq<ChunkPos>,
    drained: Seq<ChunkPos>,
    waiting: Seq<ChunkPos>,
    picked: Seq<(ChunkPos, Option<ChunksFromMiddle>)>,
)
    requires
        in_flight.no_duplicates(),
        sorted.no_duplicates(),
        drained + waiting == sorted,
        forall|j: int| 0 <= j < sorted.len() ==> !in_flight.contains(#[trigger] sorted[j]),
        picked.len() == drained.len(),
        picked.map_values(|job: (ChunkPos, Option<ChunksFromMiddle>)| job.0) == drained,
    ensures
        ({
            let started = picked.filter(
                |job: (ChunkPos, Option<ChunksFromMiddle>)| job.1 is Some,
            ).map_values(|job: (ChunkPos, Option<ChunksFromMiddle>)| job.0);
            &&& started.len() <= drained.len()
            &&& (in_flight + started).no_duplicates()
            &&& waiting.no_duplicates()
            &&& forall|j: int|
                0 <= j < waiting.len() ==> !(in_flight + started).contains(#[trigger] waiting[j])
        }),
        forall|j: int| 0 <= j < picked.len() ==> !in_flight.contains((#[trigger] picked[j]).0),
{
    let pos_of = |job: (ChunkPos, Option<ChunksFromMiddle>)| job.0;
    let has_view = |job: (ChunkPos, Option<ChunksFromMiddle>)| job.1 is Some;
    let jobs = picked.filter(has_view);
    let started = jobs.map_values(pos_of);
    picked.lemma_filter_len(has_view);
    assert forall|j: int| 0 <= j < picked.len() implies !in_flight.contains((#[trigger] picked[j]).0) by {
        assert(picked.map_values(pos_of)[j] == picked[j].0);
        assert(sorted[j] == drained[j]);
    }
    // The jobs are picked entries in their order, so their positions are
    // positions of the sorted queue in their order.
    lemma_filter_places(picked, has_view);
    let places = choose|places: Seq<int>|
        places.len() == jobs.len() && (forall|k: int|
            0 <= k < places.len() ==> 0 <= #[trigger] places[k] < picked.len() && jobs[k]
                == picked[places[k]]) && (forall|a: int, b: int|
            0 <= a < b < places.len() ==> #[trigger] places[a] < #[trigger] places[b]);
    assert forall|k: int| 0 <= k < started.len() implies started[k] == sorted[#[trigger] places[k]] by {
        assert(picked.map_values(pos_of)[places[k]] == picked[places[k]].0);
        assert(sorted[places[k]] == drained[places[k]]);
    }
    assert forall|a: int, b: int|
        0 <= a < (in_flight + started).len() && 0 <= b < (in_flight + started).len() && a
            != b implies (in_flight + started)[a] != (in_flight + started)[b] by {
        let n = in_flight.len() as int;
        if a < n && b < n {
        } else if a >= n && b >= n {
            assert(places[a - n] != places[b - n]);
            assert(started[a - n] == sorted[places[a - n]]);
            assert(started[b - n] == sorted[places[b - n]]);
        } else if a < n {
            assert(started[b - n] == sorted[places[b - n]]);
            assert(in_flight.contains(in_flight[a]));
        } else {
            assert(started[a - n] == sorted[places[a - n]]);
            assert(in_flight.contains(in_flight[b]));
        }
    }
    assert forall|a: int, b: int|
        0 <= a < waiting.len() && 0 <= b < waiting.len() && a != b implies waiting[a]
        != waiting[b] by {
        assert(sorted[drained.len() + a] == waiting[a]);
        assert(sorted[drained.len() + b] == waiting[b]);
    }
    assert forall|j: int| 0 <= j < waiting.len() implies !(in_flight + started).contains(
        #[trigger] waiting[j],
    ) by {
        assert(sorted[drained.len() + j] == waiting[j]);
        if (in_flight + started).contains(waiting[j]) {
            let k = choose|k: int|
                0 <= k < (in_flight + started).len() && (in_flight + started)[k] == waiting[j];
            let n = in_flight.len() as int;
            if k < n {
                assert(in_flight.contains(in_flight[k]));
            } else {
                assert(started[k - n] == sorted[places[k - n]]);
            }
        }
    }
}

/// The entries that pass a filter are entries of the queue at places that
/// rise from one to the next.
pub proof fn lemma_filter_places<A>(queue: Seq<A>, pred: spec_fn(A) -> bool)
    ensures
        exists|places: Seq<int>|
            places.len() == queue.filter(pred).len() && (forall|k: int|
                0 <= k < places.len() ==> 0 <= #[trigger] places[k] < queue.len() && queue.filter(
                    pred,
                )[k] == queue[places[k]]) && (forall|a: int, b: int|
                0 <= a < b < places.len() ==> #[trigger] places[a] < #[trigger] places[b]),
    decreases queue.len(),
{
    reveal(Seq::filter);
    if queue.len() == 0 {
        let places = Seq::<int>::empty();
        assert(places.len() == queue.filter(pred).len());
    } else {
        lemma_filter_places(queue.drop_last(), pred);
        let shorter = queue.drop_last();
        let before = choose|places: Seq<int>|
            places.len() == shorter.filter(pred).len() && (forall|k: int|
                0 <= k < places.len() ==> 0 <= #[trigger] places[k] < shorter.len()
                    && shorter.filter(pred)[k] == shorter[places[k]]) && (forall|a: int, b: int|
                0 <= a < b < places.len() ==> #[trigger] places[a] < #[trigger] places[b]);
        let places = if pred(queue.last()) {
            before.push(queue.len() - 1)
        } else {
            before
        };
        assert(places.len() == queue.filter(pred).len());
        assert forall|k: int| 0 <= k < places.len() implies 0 <= #[trigger] places[k] < queue.len()
            && queue.filter(pred)[k] == queue[places[k]] by {
            if k < before.len() {
                assert(shorter[before[k]] == queue[before[k]]);
            }
        }
        assert forall|a: int, b: int| 0 <= a < b < places.len() implies #[trigger] places[a]
            < #[trigger] places[b] by {
            if b < before.len() {
            } else {
                assert(0 <= before[a] < shorter.len());
            }
        }
    }
}

} // verus!
