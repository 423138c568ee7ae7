//! What the mesh of a chunk is: the faces of the chunk, sorted into planes
//! of faces that may be merged, and the quads that each plane is cut into.
//!
//! A face belongs to a solid voxel of the middle chunk and looks into one of
//! six directions, numbered down, up, left, right, front, back; it exists
//! where the neighbour in that direction is not solid. Faces are merged only
//! with faces of the same direction and the same place along the direction's
//! axis that share the voxel type and the occlusion around them.

use vstd::prelude::*;
use crate::bits::word_of;
use crate::chunk_from_middle::ChunksFromMiddle;
use crate::chunk_mesh::{FaceDir, GreedyQuad};
use crate::greedy_mesher::scan_plane;
use crate::positions::IVec3;
use crate::vertex::VertexU32;
use crate::voxel::VoxelType;

verus! {

/// Whether the voxel at a position relative to the middle chunk is solid.
pub open spec fn solid(chunks: &ChunksFromMiddle, pos: IVec3) -> bool {
    chunks.spec_get_voxel(pos).voxel_type.spec_is_solid()
}

/// The position one step away.
pub open spec fn stepped(pos: IVec3, step: IVec3) -> IVec3 {
    IVec3 { x: (pos.x + step.x) as i32, y: (pos.y + step.y) as i32, z: (pos.z + step.z) as i32 }
}

/// The direction with a number: down, up, left, right, front, back.
pub open spec fn face_dir_of(axis: int) -> FaceDir {
    if axis == 0 {
        FaceDir::Down
    } else if axis == 1 {
        FaceDir::Up
    } else if axis == 2 {
        FaceDir::Left
    } else if axis == 3 {
        FaceDir::Right
    } else if axis == 4 {
        FaceDir::Front
    } else {
        FaceDir::Back
    }
}

/// The step from a voxel to the neighbour that a face looks at.
pub open spec fn axis_normal(axis: int) -> IVec3 {
    if axis == 0 {
        IVec3 { x: 0, y: -1i32, z: 0 }
    } else if axis == 1 {
        IVec3 { x: 0, y: 1, z: 0 }
    } else if axis == 2 {
        IVec3 { x: -1i32, y: 0, z: 0 }
    } else if axis == 3 {
        IVec3 { x: 1, y: 0, z: 0 }
    } else if axis == 4 {
        IVec3 { x: 0, y: 0, z: -1i32 }
    } else {
        IVec3 { x: 0, y: 0, z: 1 }
    }
}

/// Whether a voxel shows a face in a direction.
pub open spec fn is_face(chunks: &ChunksFromMiddle, axis: int, pos: IVec3) -> bool {
    solid(chunks, pos) && !solid(chunks, stepped(pos, axis_normal(axis)))
}

/// The step, in the plane of a face, to the `i`th of the nine voxels that
/// are sampled for occlusion.
pub open spec fn ao_dir(i: int) -> (int, int) {
    (i / 3 - 1, i % 3 - 1)
}

/// The step from a voxel to the `i`th voxel that is sampled for the
/// occlusion of its face: one step in the face's direction, and one in the
/// plane of the face.
pub open spec fn ao_sample_offset(axis: int, i: int) -> IVec3 {
    let (a, b) = ao_dir(i);
    if axis == 0 {
        IVec3 { x: a as i32, y: -1i32, z: b as i32 }
    } else if axis == 1 {
        IVec3 { x: a as i32, y: 1, z: b as i32 }
    } else if axis == 2 {
        IVec3 { x: -1i32, y: b as i32, z: a as i32 }
    } else if axis == 3 {
        IVec3 { x: 1, y: b as i32, z: a as i32 }
    } else if axis == 4 {
        IVec3 { x: a as i32, y: b as i32, z: -1i32 }
    } else {
        IVec3 { x: a as i32, y: b as i32, z: 1 }
    }
}

/// Which of the voxels that are sampled for the occlusion of a face are solid.
pub open spec fn ao_samples(chunks: &ChunksFromMiddle, axis: int, pos: IVec3) -> spec_fn(int) -> bool {
    |i: int| solid(chunks, stepped(pos, ao_sample_offset(axis, i)))
}

/// The occlusion around a face: bit `i` is set where the `i`th sample is solid.
pub open spec fn face_ao(chunks: &ChunksFromMiddle, axis: int, pos: IVec3) -> u32 {
    word_of(ao_samples(chunks, axis, pos), 9)
}

/// What faces must share to be merged: the occlusion in the low nine bits,
/// the voxel type's tag above them.
pub open spec fn face_key(chunks: &ChunksFromMiddle, axis: int, pos: IVec3) -> u32 {
    face_ao(chunks, axis, pos) | (chunks.spec_get_voxel(pos).voxel_type.tag() << 9u32)
}

/// The voxel whose face is bit `bit` of row `row` of the plane at `pos`
/// along the axis of a direction.
pub open spec fn plane_voxel(axis: int, row: int, pos: int, bit: int) -> IVec3 {
    if axis == 0 || axis == 1 {
        IVec3 { x: row as i32, y: pos as i32, z: bit as i32 }
    } else if axis == 2 || axis == 3 {
        IVec3 { x: pos as i32, y: bit as i32, z: row as i32 }
    } else {
        IVec3 { x: row as i32, y: bit as i32, z: pos as i32 }
    }
}

/// Whether a bit of a plane is set: the voxel shows a face and has the
/// plane's key.
pub open spec fn plane_bit(
    chunks: &ChunksFromMiddle,
    axis: int,
    key: u32,
    pos: int,
    row: int,
    bit: int,
) -> bool {
    is_face(chunks, axis, plane_voxel(axis, row, pos, bit)) && face_key(
        chunks,
        axis,
        plane_voxel(axis, row, pos, bit),
    ) == key
}

/// The bits of one row of a plane.
pub open spec fn plane_row(
    chunks: &ChunksFromMiddle,
    axis: int,
    key: u32,
    pos: int,
    row: int,
) -> spec_fn(int) -> bool {
    |bit: int| plane_bit(chunks, axis, key, pos, row, bit)
}

/// The plane of the faces of one direction at one place along its axis that
/// share a key: 32 rows of 32 bits.
pub open spec fn plane_of(chunks: &ChunksFromMiddle, axis: int, key: u32, pos: int) -> Seq<u32> {
    Seq::new(32, |row: int| word_of(plane_row(chunks, axis, key, pos, row), 32))
}

/// The corners of a list of quads, quad after quad.
pub open spec fn quads_vertices(
    quads: Seq<GreedyQuad>,
    face_dir: FaceDir,
    axis_pos: u32,
    ao: u32,
    voxel_type: VoxelType,
) -> Seq<VertexU32>
    decreases quads.len(),
{
    if quads.len() == 0 {
        Seq::empty()
    } else {
        quads_vertices(quads.drop_last(), face_dir, axis_pos, ao, voxel_type)
            + quads.last().spec_vertices(face_dir, axis_pos, 1, ao, voxel_type)
    }
}

/// The corners of the quads that one plane is cut into.
pub open spec fn bucket_vertices(
    chunks: &ChunksFromMiddle,
    lod_size: int,
    axis: int,
    key: u32,
    pos: int,
) -> Seq<VertexU32> {
    quads_vertices(
        scan_plane(plane_of(chunks, axis, key, pos), 0, lod_size),
        face_dir_of(axis),
        pos as u32,
        key & 0x1ffu32,
        VoxelType::spec_from_u32(key >> 9u32),
    )
}

/// The corners of the quads of the first `n` planes. The planes are
/// numbered by direction, then by key, then by their place along the axis.
pub open spec fn vertices_upto(chunks: &ChunksFromMiddle, lod_size: int, n: int) -> Seq<VertexU32>
    decreases n,
{
    if n <= 0 {
        Seq::empty()
    } else {
        vertices_upto(chunks, lod_size, n - 1) + bucket_vertices(
            chunks,
            lod_size,
            (n - 1) / 32768,
            (((n - 1) / 32) % 1024) as u32,
            (n - 1) % 32,
        )
    }
}

/// The corners of the whole mesh of the middle chunk.
pub open spec fn mesh_vertices(chunks: &ChunksFromMiddle, lod_size: int) -> Seq<VertexU32> {
    vertices_upto(chunks, lod_size, 196608)
}

} // verus!
