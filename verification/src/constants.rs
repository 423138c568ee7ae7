//! Sizes and limits shared by the whole pipeline.

use vstd::prelude::*;

verus! {

/// View distance of a chunk loader, in chunks.
pub const CHUNK_LOAD_DISTANCE: u32 = 12;

/// Side length of a chunk, in voxels.
pub const CHUNK_SIZE: usize = 32;

/// Side length of a chunk plus one voxel of padding on either side.
pub const CHUNK_SIZE_PADDED: usize = CHUNK_SIZE + 2;

/// Number of voxels in a full chunk.
pub const CHUNK_VOLUME: usize = CHUNK_SIZE * CHUNK_SIZE * CHUNK_SIZE;

/// Side length of the block of chunks that a mesher can see into.
pub const CHUNKS_FROM_MIDDLE_SIZE: usize = 3;

/// Index, in raster order, of the centre chunk of that block.
pub const MIDDLE_CHUNK_INDEX: usize = 13;

/// Bounds of the worker pool that runs the background jobs.
pub const MIN_THREADS: usize = 1;

pub const MAX_THREADS: usize = 16;

/// Cap on the data-generation jobs that may be in flight at once.
pub const MAX_DATA_TASKS: usize = 64;

/// Cap on the meshing jobs that may be in flight at once.
pub const MAX_MESH_TASKS: usize = 64;

/// Cap on the coordinates a loader hands over per tick and layer.
pub const MAX_CHUNK_LOADS: usize = 26000;

/// Seed of the terrain noise.
pub const NOISE_SEED: u64 = 0;

} // verus!
