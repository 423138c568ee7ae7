//! Culled meshing: one quad for every face of a solid voxel that is not
//! hidden by a solid neighbour, without merging and without occlusion.

use vstd::prelude::*;
use crate::chunk_from_middle::ChunksFromMiddle;
use crate::chunk_mesh::{generate_indices, spec_generate_indices, ChunkMesh, Direction, Quad};
use crate::positions::{IVec3, VoxelPos};
use crate::vertex::{Vertex, VertexU32};
use crate::voxel::VoxelType;

verus! {

/// The four packed corners of the face of the voxel at `pos` that looks
/// into `dir`.
pub open spec fn face_vertices(dir: Direction, pos: VoxelPos, voxel_type: VoxelType) -> Seq<
    VertexU32,
> {
    Seq::new(
        4,
        |i: int|
            VertexU32(
                (Vertex {
                    pos: VoxelPos {
                        x: Quad::spec_corners(pos, dir)[i][0] as usize,
                        y: Quad::spec_corners(pos, dir)[i][1] as usize,
                        z: Quad::spec_corners(pos, dir)[i][2] as usize,
                    },
                    ao: 0,
                    normal: dir.spec_normal_index(),
                    voxel_type,
                }).spec_to_u32(),
            ),
    )
}

/// Appends the face of the voxel at `vertex_pos` that looks into `dir` to
/// the mesh, as four corners without occlusion.
pub fn push_face(mesh: &mut ChunkMesh, dir: Direction, vertex_pos: VoxelPos, voxel_type: VoxelType)
    requires
        vertex_pos.x < usize::MAX,
        vertex_pos.y < usize::MAX,
        vertex_pos.z < usize::MAX,
    ensures
        final(mesh).vertices@ == old(mesh).vertices@ + face_vertices(dir, vertex_pos, voxel_type),
        final(mesh).indices@ == old(mesh).indices@,
{
    let quad = Quad::from_dir(vertex_pos, dir);
    let ghost before = mesh.vertices@;
    let ghost wanted = face_vertices(dir, vertex_pos, voxel_type);

    let mut i: usize = 0;
    while i < 4
        invariant
            i <= 4,
            quad.corners_view() == Quad::spec_corners(vertex_pos, dir),
            wanted == face_vertices(dir, vertex_pos, voxel_type),
            mesh.indices@ == old(mesh).indices@,
            mesh.vertices@ == before + wanted.take(i as int),
        decreases 4 - i,
    {
        let corner = quad.corners[i];
        proof {
            let corners = quad.corners_view();
            assert(corners[i as int][0] == corner[0] && corners[i as int][1] == corner[1]
                && corners[i as int][2] == corner[2]);
        }
        mesh.vertices.push(
            VertexU32::new(
                VoxelPos::new(corner[0], corner[1], corner[2]),
                0,
                dir.get_normal_index(),
                voxel_type,
            ),
        );
        assert(mesh.vertices@ =~= before + wanted.take(i + 1));
        i += 1;
    }
    assert(wanted.take(4) =~= wanted);
}

/// The voxel of the middle chunk at a place of its storage.
pub open spec fn voxel_at(index: int) -> IVec3 {
    IVec3 { x: (index % 32) as i32, y: ((index / 32) % 32) as i32, z: ((index / 1024) % 32) as i32 }
}

/// The faces between a voxel and its neighbours to the left, behind and
/// below. A solid voxel shows its own faces towards these neighbours where
/// they are not solid; a voxel that is not solid shows the faces that its
/// solid neighbours turn towards it.
pub open spec fn voxel_faces(chunks: &ChunksFromMiddle, index: int) -> Seq<VertexU32> {
    let at = voxel_at(index);
    let pos = VoxelPos { x: at.x as usize, y: at.y as usize, z: at.z as usize };
    let current = chunks.spec_get_voxel(at).voxel_type;
    let back = chunks.spec_get_voxel(IVec3 { x: at.x, y: at.y, z: (at.z - 1) as i32 }).voxel_type;
    let left = chunks.spec_get_voxel(IVec3 { x: (at.x - 1) as i32, y: at.y, z: at.z }).voxel_type;
    let down = chunks.spec_get_voxel(IVec3 { x: at.x, y: (at.y - 1) as i32, z: at.z }).voxel_type;
    if current.spec_is_solid() {
        (if !left.spec_is_solid() {
            face_vertices(Direction::Left, pos, current)
        } else {
            Seq::empty()
        }) + (if !back.spec_is_solid() {
            face_vertices(Direction::Back, pos, current)
        } else {
            Seq::empty()
        }) + (if !down.spec_is_solid() {
            face_vertices(Direction::Down, pos, current)
        } else {
            Seq::empty()
        })
    } else {
        (if left.spec_is_solid() {
            face_vertices(Direction::Right, pos, left)
        } else {
            Seq::empty()
        }) + (if back.spec_is_solid() {
            face_vertices(Direction::Front, pos, back)
        } else {
            Seq::empty()
        }) + (if down.spec_is_solid() {
            face_vertices(Direction::Up, pos, down)
        } else {
            Seq::empty()
        })
    }
}

/// The corners of the faces of the first `n` voxels of the middle chunk.
pub open spec fn culled_vertices(chunks: &ChunksFromMiddle, n: int) -> Seq<VertexU32>
    decreases n,
{
    if n <= 0 {
        Seq::empty()
    } else {
        culled_vertices(chunks, n - 1) + voxel_faces(chunks, n - 1)
    }
}

/// The mesh of the middle chunk of a block of chunks, one quad for each
/// face that is not hidden. There is no mesh where there is no face.
pub fn build_chunk_mesh(chunks_from_middle: &ChunksFromMiddle) -> (mesh: Option<ChunkMesh>)
    ensures
        match mesh {
            Some(mesh) => {
                &&& mesh.vertices@ == culled_vertices(chunks_from_middle, 32768)
                &&& mesh.vertices@.len() > 0
                &&& mesh.indices@ == spec_generate_indices(mesh.vertices@.len() as int)
            },
            None => culled_vertices(chunks_from_middle, 32768).len() == 0,
        },
{
    let mut mesh = ChunkMesh::default();

    let mut index: usize = 0;
    while index < 32768
        invariant
            index <= 32768,
            mesh.indices@.len() == 0,
            mesh.vertices@ == culled_vertices(chunks_from_middle, index as int),
            mesh.vertices@.len() <= 12 * index,
        decreases 32768 - index,
    {
        let voxel_pos = VoxelPos::from_index(index);
        let ghost before = mesh.vertices@;

        let (current, back, left, down) = chunks_from_middle.get_adjacent_voxels(voxel_pos);

        if current.voxel_type.is_solid() {
            if !left.voxel_type.is_solid() {
                push_face(&mut mesh, Direction::Left, voxel_pos, current.voxel_type)
            }
            if !back.voxel_type.is_solid() {
                push_face(&mut mesh, Direction::Back, voxel_pos, current.voxel_type)
            }
            if !down.voxel_type.is_solid() {
                push_face(&mut mesh, Direction::Down, voxel_pos, current.voxel_type)
            }
        } else {
            if left.voxel_type.is_solid() {
                push_face(&mut mesh, Direction::Right, voxel_pos, left.voxel_type)
            }
            if back.voxel_type.is_solid() {
                push_face(&mut mesh, Direction::Front, voxel_pos, back.voxel_type)
            }
            if down.voxel_type.is_solid() {
                push_face(&mut mesh, Direction::Up, voxel_pos, down.voxel_type);
            }
        }
        assert(mesh.vertices@ =~= before + voxel_faces(chunks_from_middle, index as int));
        index += 1;
    }

    if mesh.vertices.is_empty() {
        None
    } else {
        mesh.indices = generate_indices(mesh.vertices.len());
        Some(mesh)
    }
}

} // verus!
