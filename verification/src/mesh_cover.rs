//! What the mesh of a chunk is good for: at the finest level of detail
//! every face of the chunk is covered by one quad of the plane that the
//! face is sorted into, and a chunk has a mesh if it shows a face.

use vstd::prelude::*;
use crate::bits::{lemma_key_parts, lemma_nine_bits, lemma_word_of};
use crate::chunk_from_middle::ChunksFromMiddle;
use crate::chunk_mesh::{FaceDir, GreedyQuad};
use crate::greedy_mesher::scan_plane;
use crate::mesh_model::{
    ao_samples,
    bucket_vertices,
    face_key,
    is_face,
    mesh_vertices,
    plane_bit,
    plane_of,
    plane_row,
    plane_voxel,
    quads_vertices,
    vertices_upto,
};
use crate::plane_cover::{apart, covered, lemma_plane_cover};
use crate::positions::IVec3;
use crate::voxel::VoxelType;

verus! {

/// The quads of a plane of faces cover the faces of the plane, each face
/// once, and nothing else.
pub proof fn lemma_bucket_cover(chunks: &ChunksFromMiddle, axis: int, key: u32, pos: int)
    ensures
        forall|row: int, bit: int|
            0 <= row < 32 && 0 <= bit < 32 ==> #[trigger] covered(
                scan_plane(plane_of(chunks, axis, key, pos), 0, 32),
                row,
                bit,
            ) == plane_bit(chunks, axis, key, pos, row, bit),
        apart(scan_plane(plane_of(chunks, axis, key, pos), 0, 32)),
{
    let plane = plane_of(chunks, axis, key, pos);
    lemma_plane_cover(plane);
    assert forall|row: int, bit: int| 0 <= row < 32 && 0 <= bit < 32 implies #[trigger] covered(
        scan_plane(plane, 0, 32),
        row,
        bit,
    ) == plane_bit(chunks, axis, key, pos, row, bit) by {
        lemma_word_of(plane_row(chunks, axis, key, pos, row), 32, bit);
    }
}

/// Every quad has four corners.
pub proof fn lemma_quads_vertices_len(
    quads: Seq<GreedyQuad>,
    face_dir: FaceDir,
    axis_pos: u32,
    ao: u32,
    voxel_type: VoxelType,
)
    ensures
        quads_vertices(quads, face_dir, axis_pos, ao, voxel_type).len() == 4 * quads.len(),
    decreases quads.len(),
{
    if quads.len() > 0 {
        lemma_quads_vertices_len(quads.drop_last(), face_dir, axis_pos, ao, voxel_type);
    }
}

/// The mesh holds the corners of each of its planes.
pub proof fn lemma_mesh_holds_plane(chunks: &ChunksFromMiddle, lod_size: int, n: int, id: int)
    requires
        0 <= id < n,
    ensures
        vertices_upto(chunks, lod_size, n).len() >= bucket_vertices(
            chunks,
            lod_size,
            id / 32768,
            ((id / 32) % 1024) as u32,
            id % 32,
        ).len(),
    decreases n,
{
    if id < n - 1 {
        lemma_mesh_holds_plane(chunks, lod_size, n - 1, id);
    }
}

/// The key of a face is one of the 1024 keys.
pub proof fn lemma_face_key(chunks: &ChunksFromMiddle, axis: int, pos: IVec3)
    ensures
        face_key(chunks, axis, pos) < 1024,
{
    lemma_nine_bits(ao_samples(chunks, axis, pos));
    lemma_key_parts(
        crate::mesh_model::face_ao(chunks, axis, pos),
        chunks.spec_get_voxel(pos).voxel_type.tag(),
    );
}

/// A chunk that shows a face has a mesh at the finest level of detail.
pub proof fn lemma_face_is_meshed(chunks: &ChunksFromMiddle, axis: int, row: int, pos: int, bit: int)
    requires
        0 <= axis < 6,
        0 <= row < 32,
        0 <= pos < 32,
        0 <= bit < 32,
        is_face(chunks, axis, plane_voxel(axis, row, pos, bit)),
    ensures
        mesh_vertices(chunks, 32).len() > 0,
{
    let at = plane_voxel(axis, row, pos, bit);
    let key = face_key(chunks, axis, at);
    lemma_face_key(chunks, axis, at);
    let id = (axis * 1024 + key) * 32 + pos;
    assert(id / 32768 == axis && (id / 32) % 1024 == key && id % 32 == pos);
    lemma_mesh_holds_plane(chunks, 32, 196608, id);
    lemma_bucket_cover(chunks, axis, key, pos);
    let quads = scan_plane(plane_of(chunks, axis, key, pos), 0, 32);
    assert(covered(quads, row, bit));
    lemma_quads_vertices_len(
        quads,
        crate::mesh_model::face_dir_of(axis),
        pos as u32,
        key & 0x1ffu32,
        VoxelType::spec_from_u32(key >> 9u32),
    );
}

} // verus!
