//! A read-only view of one chunk together with the 26 chunks around it, so
//! that a mesher can look across the chunk's borders.
//!
//! The 27 chunks are held in raster order, x running fastest, then y, then
//! z. Voxels are addressed by their position relative to the origin of the
//! middle chunk: a coordinate from -32 to -1 lies in the chunk before, one
//! from 32 to 63 in the chunk after.

use vstd::prelude::*;
use std::sync::Arc;
use crate::chunk::Chunk;
use crate::chunk_map::ChunkMap;
use crate::constants::{CHUNKS_FROM_MIDDLE_SIZE, CHUNK_SIZE, MIDDLE_CHUNK_INDEX};
use crate::positions::{chunk_pos_to_index_bounds, index_to_chunk_pos_bounds, ChunkPos, IVec3, VoxelPos};
use crate::voxel::Voxel;

verus! {

/// The chunks around a middle chunk, and the middle chunk itself.
pub struct ChunksFromMiddle {
    chunks: Vec<Arc<Chunk>>,
}

/// The position of the chunk at a place of the block around `middle`, on
/// one axis each, where it fits the machine integers.
pub open spec fn neighbour(middle: ChunkPos, index: int) -> Option<ChunkPos> {
    let x = middle.x + index % 3 - 1;
    let y = middle.y + (index / 3) % 3 - 1;
    let z = middle.z + index / 9 - 1;
    if i32::MIN <= x <= i32::MAX && i32::MIN <= y <= i32::MAX && i32::MIN <= z <= i32::MAX {
        Some(ChunkPos { x: x as i32, y: y as i32, z: z as i32 })
    } else {
        None
    }
}

/// Whether the chunk at a place of the block around `middle` is in `store`.
pub open spec fn neighbour_resident<V>(store: Map<ChunkPos, V>, middle: ChunkPos, index: int) -> bool {
    neighbour(middle, index) matches Some(pos) && store.contains_key(pos)
}

/// Whether all 27 chunks of the block around `middle` are in `store`.
pub open spec fn neighbourhood_resident<V>(store: Map<ChunkPos, V>, middle: ChunkPos) -> bool {
    forall|index: int| 0 <= index < 27 ==> neighbour_resident(store, middle, index)
}

/// Whether a position relative to the middle chunk lies in the block.
pub open spec fn in_block(pos: IVec3) -> bool {
    -32 <= pos.x < 64 && -32 <= pos.y < 64 && -32 <= pos.z < 64
}

/// The place in the block of the chunk that holds a position.
pub open spec fn block_index(pos: IVec3) -> int {
    (pos.x + 32) / 32 + ((pos.y + 32) / 32) * 3 + ((pos.z + 32) / 32) * 9
}

/// The voxel, inside the chunk that holds it, at a position.
pub open spec fn block_voxel_pos(pos: IVec3) -> VoxelPos {
    VoxelPos {
        x: ((pos.x + 32) % 32) as usize,
        y: ((pos.y + 32) % 32) as usize,
        z: ((pos.z + 32) % 32) as usize,
    }
}

/// Hands out another owner of a shared chunk.
///
/// Calls `Arc::clone` of the standard library, which returns a pointer to
/// the same allocation: the chunk behind the result is the chunk behind the
/// argument.
#[verifier::external_body]
fn share(chunk: &Arc<Chunk>) -> (shared: Arc<Chunk>)
    ensures
        *shared == **chunk,
{
    Arc::clone(chunk)
}

impl ChunksFromMiddle {
    #[verifier::type_invariant]
    spec fn holds_the_block(&self) -> bool {
        self.chunks@.len() == 27
    }

    /// The chunk at a place of the block.
    pub closed spec fn chunk(&self, index: int) -> Chunk {
        *self.chunks@[index]
    }

    /// The voxel at a position relative to the origin of the middle chunk.
    pub open spec fn spec_get_voxel(&self, pos: IVec3) -> Voxel {
        self.chunk(block_index(pos))@[block_voxel_pos(pos).spec_to_index()]
    }

    /// Whether all 27 chunks are stored as a single voxel, of one and the
    /// same type.
    pub open spec fn spec_all_same(&self) -> bool {
        forall|index: int|
            0 <= index < 27 ==> {
                &&& (#[trigger] self.chunk(index)).is_homogeneous()
                &&& self.chunk(index)@[0].voxel_type == self.chunk(0)@[0].voxel_type
            }
    }

    /// Gathers the chunk at `middle_chunk` and the 26 chunks around it from
    /// the store. There is no view unless all 27 are there.
    pub fn try_new(chunk_hashmap: &ChunkMap<Arc<Chunk>>, middle_chunk: ChunkPos) -> (view: Option<Self>)
        ensures
            view is Some <==> neighbourhood_resident(chunk_hashmap@, middle_chunk),
            view matches Some(chunks) ==> forall|index: int|
                0 <= index < 27 ==> #[trigger] chunks.chunk(index) == *chunk_hashmap@[neighbour(
                    middle_chunk,
                    index,
                ).unwrap()],
    {
        let mut chunks: Vec<Arc<Chunk>> = Vec::new();

        let mut index: usize = 0;
        while index < CHUNKS_FROM_MIDDLE_SIZE * CHUNKS_FROM_MIDDLE_SIZE * CHUNKS_FROM_MIDDLE_SIZE
            invariant
                index <= 27,
                chunks@.len() == index,
                forall|i: int| 0 <= i < index ==> neighbour_resident(chunk_hashmap@, middle_chunk, i),
                forall|i: int|
                    0 <= i < index ==> *(#[trigger] chunks@[i]) == *chunk_hashmap@[neighbour(
                        middle_chunk,
                        i,
                    ).unwrap()],
            decreases 27 - index,
        {
            let offset = index_to_chunk_pos_bounds(index, CHUNKS_FROM_MIDDLE_SIZE as u32);
            let x = middle_chunk.x.checked_add(offset.x - 1);
            let y = middle_chunk.y.checked_add(offset.y - 1);
            let z = middle_chunk.z.checked_add(offset.z - 1);
            let found = match (x, y, z) {
                (Some(x), Some(y), Some(z)) => chunk_hashmap.get(&ChunkPos::new(x, y, z)),
                _ => None,
            };
            match found {
                Some(chunk) => {
                    chunks.push(share(chunk));
                },
                None => {
                    assert(!neighbour_resident(chunk_hashmap@, middle_chunk, index as int));
                    return None;
                },
            }
            index += 1;
        }

        let view = Self { chunks };
        assert forall|index: int| 0 <= index < 27 implies #[trigger] view.chunk(index)
            == *chunk_hashmap@[neighbour(middle_chunk, index).unwrap()] by {
            assert(view.chunk(index) == *view.chunks@[index]);
        }
        Some(view)
    }

    /// The voxel at a position relative to the origin of the middle chunk,
    /// which may lie in any of the 27 chunks.
    pub fn get_voxel(&self, voxel_pos_ivec3: IVec3) -> (voxel: &Voxel)
        requires
            in_block(voxel_pos_ivec3),
        ensures
            *voxel == self.spec_get_voxel(voxel_pos_ivec3),
    {
        proof {
            use_type_invariant(self);
        }
        let voxel_pos = VoxelPos::from_ivec3(voxel_pos_ivec3 + IVec3::splat(CHUNK_SIZE as i32));
        let chunk_pos: ChunkPos = (voxel_pos / CHUNK_SIZE).to_i32().into();

        // The position inside the chunk that holds it
        let voxel_pos = voxel_pos % CHUNK_SIZE;
        assert(crate::positions::truncated_rem(chunk_pos.x as int, 3) == chunk_pos.x) by {
            assert(crate::positions::size_of(3) == 3);
        }
        let chunk_index = chunk_pos_to_index_bounds(chunk_pos, CHUNKS_FROM_MIDDLE_SIZE as u32);
        assert(chunk_index == block_index(voxel_pos_ivec3));
        assert(voxel_pos == block_voxel_pos(voxel_pos_ivec3));

        let chunk: &Chunk = &self.chunks[chunk_index];
        proof {
            chunk.lemma_view();
        }
        if chunk.len() == 1 {
            &chunk[0usize]
        } else {
            &chunk[voxel_pos]
        }
    }

    /// The voxel of the middle chunk at a position inside it.
    pub fn get_voxel_no_neighbour(&self, voxel_pos: VoxelPos) -> (voxel: &Voxel)
        requires
            voxel_pos.in_chunk(),
        ensures
            *voxel == self.chunk(13)@[voxel_pos.spec_to_index()],
    {
        proof {
            use_type_invariant(self);
        }
        let chunk: &Chunk = &self.chunks[MIDDLE_CHUNK_INDEX];
        proof {
            chunk.lemma_view();
        }
        if chunk.len() == 1 {
            &chunk[0usize]
        } else {
            &chunk[voxel_pos]
        }
    }

    /// The voxel of the middle chunk at a position, and the voxels one step
    /// back, one step to the left and one step down from it: what culling
    /// the faces of one voxel needs to look at.
    pub fn get_adjacent_voxels(&self, voxel_pos: VoxelPos) -> (voxels: (&Voxel, &Voxel, &Voxel, &Voxel))
        requires
            voxel_pos.in_chunk(),
        ensures
            *voxels.0 == self.spec_get_voxel(
                IVec3 { x: voxel_pos.x as i32, y: voxel_pos.y as i32, z: voxel_pos.z as i32 },
            ),
            *voxels.1 == self.spec_get_voxel(
                IVec3 { x: voxel_pos.x as i32, y: voxel_pos.y as i32, z: (voxel_pos.z - 1) as i32 },
            ),
            *voxels.2 == self.spec_get_voxel(
                IVec3 { x: (voxel_pos.x - 1) as i32, y: voxel_pos.y as i32, z: voxel_pos.z as i32 },
            ),
            *voxels.3 == self.spec_get_voxel(
                IVec3 { x: voxel_pos.x as i32, y: (voxel_pos.y - 1) as i32, z: voxel_pos.z as i32 },
            ),
    {
        let pos_ivec3 = voxel_pos.to_ivec3();

        let current = self.get_voxel(pos_ivec3);
        let back = self.get_voxel((pos_ivec3.x, pos_ivec3.y, pos_ivec3.z - 1).into());
        let left = self.get_voxel((pos_ivec3.x - 1, pos_ivec3.y, pos_ivec3.z).into());
        let down = self.get_voxel((pos_ivec3.x, pos_ivec3.y - 1, pos_ivec3.z).into());

        (current, back, left, down)
    }

    /// Whether the whole block is known to be one kind of voxel, so that
    /// the middle chunk has no face to show.
    pub fn are_all_voxels_same(&self) -> (same: bool)
        ensures
            same == self.spec_all_same(),
    {
        proof {
            use_type_invariant(self);
        }
        // Only a block of single-voxel chunks is known to be the same all over
        let first: &Chunk = &self.chunks[0];
        proof {
            first.lemma_view();
        }
        if first.len() == 1 {
            let block = first[0usize];
            let mut index: usize = 1;
            while index < 27
                invariant
                    1 <= index <= 27,
                    self.chunks@.len() == 27,
                    self.chunk(0).is_homogeneous(),
                    block == self.chunk(0)@[0],
                    forall|i: int|
                        0 <= i < index ==> {
                            &&& (#[trigger] self.chunk(i)).is_homogeneous()
                            &&& self.chunk(i)@[0].voxel_type == self.chunk(0)@[0].voxel_type
                        },
                decreases 27 - index,
            {
                let chunk: &Chunk = &self.chunks[index];
                proof {
                    chunk.lemma_view();
                }
                if chunk.len() == 1 {
                    // A first voxel of another type than the first chunk's
                    if block.voxel_type != chunk[0usize].voxel_type {
                        assert(self.chunk(index as int)@[0].voxel_type != self.chunk(
                            0,
                        )@[0].voxel_type);
                        return false;
                    }
                } else {
                    assert(!self.chunk(index as int).is_homogeneous());
                    return false;
                }
                index += 1;
            }
            true
        } else {
            assert(!self.chunk(0).is_homogeneous());
            false
        }
    }
}

} // verus!
