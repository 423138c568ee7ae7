//! Meshes of chunks, and the quads they are made of.

use vstd::prelude::*;
use crate::lod::Lod;
use crate::positions::{IVec3, VoxelPos};
use crate::vertex::{Vertex, VertexU32};
use crate::voxel::VoxelType;

verus! {

/// The six directions a face of a voxel can look into.
#[derive(Copy, Clone, Debug, PartialEq, Eq, Structural)]
pub enum Direction {
    Left,
    Right,
    Back,
    Front,
    Up,
    Down,
}

impl Direction {
    pub open spec fn spec_normal_index(&self) -> usize {
        match self {
            Direction::Left => 0,
            Direction::Right => 1,
            Direction::Back => 2,
            Direction::Front => 3,
            Direction::Up => 4,
            Direction::Down => 5,
        }
    }

    /// The index of the face normal, as the renderer numbers them.
    #[verifier::when_used_as_spec(spec_normal_index)]
    pub fn get_normal_index(&self) -> (index: usize)
        ensures
            index == self.spec_normal_index(),
    {
        match self {
            Self::Left => 0,
            Self::Right => 1,
            Self::Back => 2,
            Self::Front => 3,
            Self::Up => 4,
            Self::Down => 5,
        }
    }
}

/// The geometry of one chunk: packed corners, four to a quad, and the
/// indices of the two triangles of each quad.
pub struct ChunkMesh {
    pub vertices: Vec<VertexU32>,
    pub indices: Vec<u32>,
}

impl Clone for ChunkMesh {
    fn clone(&self) -> (copy: Self)
        ensures
            copy.vertices@ == self.vertices@,
            copy.indices@ == self.indices@,
    {
        let vertices = self.vertices.clone();
        let indices = self.indices.clone();
        assert(vertices@ =~= self.vertices@);
        assert(indices@ =~= self.indices@);
        ChunkMesh { vertices, indices }
    }
}

impl Default for ChunkMesh {
    fn default() -> (mesh: Self)
        ensures
            mesh.vertices@.len() == 0,
            mesh.indices@.len() == 0,
    {
        ChunkMesh { vertices: Vec::new(), indices: Vec::new() }
    }
}

/// The four corners of one face of a voxel.
pub struct Quad {
    pub corners: [[usize; 3]; 4],
    pub dir: Direction,
}

impl Quad {
    /// The corners of the face of the voxel at `pos` that looks into `dir`,
    /// counter-clockwise for a viewer in front of the face.
    pub open spec fn spec_corners(pos: VoxelPos, dir: Direction) -> Seq<Seq<int>> {
        let (x, y, z) = (pos.x as int, pos.y as int, pos.z as int);
        match dir {
            Direction::Left => seq![
                seq![x, y, z],
                seq![x, y, z + 1],
                seq![x, y + 1, z + 1],
                seq![x, y + 1, z],
            ],
            Direction::Right => seq![
                seq![x, y + 1, z],
                seq![x, y + 1, z + 1],
                seq![x, y, z + 1],
                seq![x, y, z],
            ],
            Direction::Back => seq![
                seq![x, y, z],
                seq![x, y + 1, z],
                seq![x + 1, y + 1, z],
                seq![x + 1, y, z],
            ],
            Direction::Front => seq![
                seq![x + 1, y, z],
                seq![x + 1, y + 1, z],
                seq![x, y + 1, z],
                seq![x, y, z],
            ],
            Direction::Up => seq![
                seq![x, y, z + 1],
                seq![x + 1, y, z + 1],
                seq![x + 1, y, z],
                seq![x, y, z],
            ],
            Direction::Down => seq![
                seq![x, y, z],
                seq![x + 1, y, z],
                seq![x + 1, y, z + 1],
                seq![x, y, z + 1],
            ],
        }
    }

    /// The corners of this quad as mathematical integers.
    pub open spec fn corners_view(&self) -> Seq<Seq<int>> {
        Seq::new(4, |i: int| Seq::new(3, |j: int| self.corners[i][j] as int))
    }

    pub fn from_dir(pos: VoxelPos, dir: Direction) -> (quad: Self)
        requires
            pos.x < usize::MAX,
            pos.y < usize::MAX,
            pos.z < usize::MAX,
        ensures
            quad.dir == dir,
            quad.corners_view() == Self::spec_corners(pos, dir),
    {
        let corners = match dir {
            Direction::Left => [
                [pos.x, pos.y, pos.z],
                [pos.x, pos.y, pos.z + 1],
                [pos.x, pos.y + 1, pos.z + 1],
                [pos.x, pos.y + 1, pos.z],
            ],
            Direction::Right => [
                [pos.x, pos.y + 1, pos.z],
                [pos.x, pos.y + 1, pos.z + 1],
                [pos.x, pos.y, pos.z + 1],
                [pos.x, pos.y, pos.z],
            ],
            Direction::Back => [
                [pos.x, pos.y, pos.z],
                [pos.x, pos.y + 1, pos.z],
                [pos.x + 1, pos.y + 1, pos.z],
                [pos.x + 1, pos.y, pos.z],
            ],
            Direction::Front => [
                [pos.x + 1, pos.y, pos.z],
                [pos.x + 1, pos.y + 1, pos.z],
                [pos.x, pos.y + 1, pos.z],
                [pos.x, pos.y, pos.z],
            ],
            Direction::Up => [
                [pos.x, pos.y, pos.z + 1],
                [pos.x + 1, pos.y, pos.z + 1],
                [pos.x + 1, pos.y, pos.z],
                [pos.x, pos.y, pos.z],
            ],
            Direction::Down => [
                [pos.x, pos.y, pos.z],
                [pos.x + 1, pos.y, pos.z],
                [pos.x + 1, pos.y, pos.z + 1],
                [pos.x, pos.y, pos.z + 1],
            ],
        };
        let quad = Self { corners, dir };
        proof {
            let got = quad.corners_view();
            let want = Self::spec_corners(pos, dir);
            assert(got.len() == want.len());
            assert forall|i: int| 0 <= i < 4 implies got[i] == want[i] by {
                assert(got[i] =~= want[i]);
            }
            assert(got =~= want);
        }
        quad
    }
}

/// The number of quads that `vertex_count` corners make; corners that are
/// left over count as a quad of their own.
pub open spec fn quad_count(vertex_count: int) -> int {
    (vertex_count + 3) / 4
}

/// The indices of the two triangles of the quad whose first corner is
/// `first`: counter-clockwise, sharing the diagonal from the first to the
/// third corner.
pub open spec fn quad_indices(first: int) -> Seq<u32> {
    seq![
        first as u32,
        (first + 1) as u32,
        (first + 2) as u32,
        first as u32,
        (first + 2) as u32,
        (first + 3) as u32,
    ]
}

/// The index buffer of the first `quads` quads.
pub open spec fn indices_of_quads(quads: int) -> Seq<u32>
    decreases quads,
{
    if quads <= 0 {
        Seq::empty()
    } else {
        indices_of_quads(quads - 1) + quad_indices(4 * (quads - 1))
    }
}

/// The index buffer for `vertex_count` corners: six indices for every four
/// corners.
pub open spec fn spec_generate_indices(vertex_count: int) -> Seq<u32> {
    indices_of_quads(quad_count(vertex_count))
}

/// The index buffer of a mesh made of quads with counter-clockwise corners.
pub fn generate_indices(vertex_count: usize) -> (indices: Vec<u32>)
    requires
        vertex_count <= u32::MAX,
    ensures
        indices@ == spec_generate_indices(vertex_count as int),
        indices@.len() == 6 * quad_count(vertex_count as int),
{
    let mut indices: Vec<u32> = Vec::new();
    let count: u32 = vertex_count as u32;
    let mut vert_index: u32 = 0;
    let ghost mut quads: int = 0;
    while vert_index < count
        invariant
            count == vertex_count,
            vert_index == 4 * quads,
            0 <= quads < quad_count(count as int) || (quads == quad_count(count as int)
                && vert_index >= count),
            indices@ == indices_of_quads(quads),
            indices@.len() == 6 * quads,
        decreases quad_count(count as int) - quads,
    {
        let ghost before = indices@;
        indices.push(vert_index);
        indices.push(vert_index + 1);
        indices.push(vert_index + 2);
        indices.push(vert_index);
        indices.push(vert_index + 2);
        indices.push(vert_index + 3);
        proof {
            assert(indices@ =~= before + quad_indices(4 * quads));
            quads = quads + 1;
        }
        if count - vert_index <= 4 {
            return indices;
        }
        vert_index = vert_index + 4;
    }
    indices
}

/// A rectangle of merged faces in a plane: its lower corner, width and height.
#[derive(Debug, Copy, Clone, PartialEq, Eq, Structural)]
pub struct GreedyQuad {
    pub x: usize,
    pub y: usize,
    pub w: usize,
    pub h: usize,
}

/// One of the nine occlusion samples around a face: 1 where the sampled
/// voxel is solid.
pub open spec fn ao_bit(ao: u32, i: u32) -> u32 {
    (ao >> i) & 1u32
}

/// The occlusion level of a corner of a quad, 0 to 3: the number of solid
/// samples among the three that touch the corner.
pub open spec fn corner_ao(ao: u32, corner: int) -> u32 {
    if corner == 0 {
        (ao_bit(ao, 0) + ao_bit(ao, 1) + ao_bit(ao, 3)) as u32
    } else if corner == 1 {
        (ao_bit(ao, 3) + ao_bit(ao, 6) + ao_bit(ao, 7)) as u32
    } else if corner == 2 {
        (ao_bit(ao, 5) + ao_bit(ao, 8) + ao_bit(ao, 7)) as u32
    } else {
        (ao_bit(ao, 1) + ao_bit(ao, 2) + ao_bit(ao, 5)) as u32
    }
}

/// The order in which the corners of a quad are emitted. The corners are
/// numbered around the rectangle from its lower corner. Faces that look the
/// other way are wound the other way, and where occlusion differs across the
/// diagonal, the order is rotated by one so that the triangles share the
/// other diagonal.
pub open spec fn corner_order(reverse: bool, flip: bool) -> Seq<int> {
    if reverse {
        if flip {
            seq![3, 2, 1, 0]
        } else {
            seq![0, 3, 2, 1]
        }
    } else {
        if flip {
            seq![1, 2, 3, 0]
        } else {
            seq![0, 1, 2, 3]
        }
    }
}

/// Whether occlusion is lopsided across the diagonal from the first to the
/// third corner.
pub open spec fn needs_flip(ao: u32) -> bool {
    (corner_ao(ao, 0) > 0) != (corner_ao(ao, 2) > 0)
}

impl GreedyQuad {
    pub fn new(x: usize, y: usize, w: usize, h: usize) -> (quad: Self)
        ensures
            quad == (GreedyQuad { x, y, w, h }),
    {
        Self { x, y, w, h }
    }

    /// The place in the plane of a corner of the rectangle.
    pub open spec fn corner_in_plane(&self, corner: int) -> (int, int) {
        if corner == 0 {
            (self.x as int, self.y as int)
        } else if corner == 1 {
            (self.x + self.w, self.y as int)
        } else if corner == 2 {
            (self.x + self.w, self.y + self.h)
        } else {
            (self.x as int, self.y + self.h)
        }
    }

    /// A corner of the rectangle as a packed vertex.
    pub open spec fn corner_vertex(
        &self,
        corner: int,
        face_dir: FaceDir,
        axis: u32,
        jump: usize,
        ao: u32,
        voxel_type: VoxelType,
    ) -> VertexU32 {
        let (px, py) = self.corner_in_plane(corner);
        spec_sample_vertex(
            face_dir,
            axis,
            px as usize,
            py as usize,
            jump,
            corner_ao(ao, corner),
            voxel_type,
        )
    }

    /// The four packed corners of the rectangle, in the order they are emitted.
    pub open spec fn spec_vertices(
        &self,
        face_dir: FaceDir,
        axis: u32,
        jump: usize,
        ao: u32,
        voxel_type: VoxelType,
    ) -> Seq<VertexU32> {
        let order = corner_order(face_dir.spec_reverse_order(), needs_flip(ao));
        Seq::new(4, |i: int| self.corner_vertex(order[i], face_dir, axis, jump, ao, voxel_type))
    }

    /// Whether the corners of the rectangle can be computed in machine integers.
    pub open spec fn fits(&self, axis: u32, jump: usize) -> bool {
        &&& (self.x + self.w) * jump <= usize::MAX
        &&& (self.y + self.h) * jump <= usize::MAX
        &&& (axis + 1) * jump <= usize::MAX
        &&& self.x + self.w <= usize::MAX
        &&& self.y + self.h <= usize::MAX
        &&& axis + 1 <= usize::MAX
    }

    /// Appends the four corners of this rectangle of the plane at `axis`,
    /// seen from `face_dir`, to `vertices`.
    pub fn append_vertices(
        &self,
        vertices: &mut Vec<VertexU32>,
        face_dir: FaceDir,
        axis: u32,
        lod: &Lod,
        ao: u32,
        voxel_type: VoxelType,
    )
        requires
            self.fits(axis, lod.spec_jump_index()),
        ensures
            final(vertices)@ == old(vertices)@ + self.spec_vertices(
                face_dir,
                axis,
                lod.spec_jump_index(),
                ao,
                voxel_type,
            ),
    {
        let jump = lod.jump_index();

        // The occlusion of each corner
        let (v1ao, v2ao, v3ao, v4ao) = corner_levels(ao);

        proof {
            lemma_mul_le(self.x as int, self.x + self.w, jump as int);
            lemma_mul_le(self.y as int, self.y + self.h, jump as int);
        }
        let vertex_1 = sample_vertex(face_dir, axis, self.x, self.y, jump, v1ao, voxel_type);
        let vertex_2 = sample_vertex(
            face_dir,
            axis,
            self.x + self.w,
            self.y,
            jump,
            v2ao,
            voxel_type,
        );
        let vertex_3 = sample_vertex(
            face_dir,
            axis,
            self.x + self.w,
            self.y + self.h,
            jump,
            v3ao,
            voxel_type,
        );
        let vertex_4 = sample_vertex(
            face_dir,
            axis,
            self.x,
            self.y + self.h,
            jump,
            v4ao,
            voxel_type,
        );

        // Faces that look the other way keep the first corner and reverse
        // the others; where occlusion is lopsided the triangles share the
        // other diagonal.
        let reverse = face_dir.reverse_order();
        let flip = (v1ao > 0) != (v3ao > 0);
        let ghost corners = seq![vertex_1, vertex_2, vertex_3, vertex_4];
        push_in_order(vertices, vertex_1, vertex_2, vertex_3, vertex_4, reverse, flip);
        proof {
            let order = corner_order(reverse, flip);
            let emitted = self.spec_vertices(face_dir, axis, jump, ao, voxel_type);
            assert forall|i: int| 0 <= i < 4 implies corners[order[i]] == emitted[i] by {
                let corner = order[i];
                assert(0 <= corner < 4);
                assert(corners[corner] == self.corner_vertex(
                    corner,
                    face_dir,
                    axis,
                    jump,
                    ao,
                    voxel_type,
                ));
            }
            assert(Seq::new(4, |i: int| corners[order[i]]) =~= emitted);
        }
    }
}

/// The occlusion levels of the four corners of a quad.
fn corner_levels(ao: u32) -> (levels: (u32, u32, u32, u32))
    ensures
        levels.0 == corner_ao(ao, 0),
        levels.1 == corner_ao(ao, 1),
        levels.2 == corner_ao(ao, 2),
        levels.3 == corner_ao(ao, 3),
{
    proof {
        lemma_ao_bits(ao);
    }
    let v1ao: u32 = (ao & 1u32) + ((ao >> 1u32) & 1u32) + ((ao >> 3u32) & 1u32);
    let v2ao: u32 = ((ao >> 3u32) & 1u32) + ((ao >> 6u32) & 1u32) + ((ao >> 7u32) & 1u32);
    let v3ao: u32 = ((ao >> 5u32) & 1u32) + ((ao >> 8u32) & 1u32) + ((ao >> 7u32) & 1u32);
    let v4ao: u32 = ((ao >> 1u32) & 1u32) + ((ao >> 2u32) & 1u32) + ((ao >> 5u32) & 1u32);
    (v1ao, v2ao, v3ao, v4ao)
}

/// Appends the four corners of a quad in the order that its winding and
/// its diagonal ask for.
fn push_in_order(
    vertices: &mut Vec<VertexU32>,
    vertex_1: VertexU32,
    vertex_2: VertexU32,
    vertex_3: VertexU32,
    vertex_4: VertexU32,
    reverse: bool,
    flip: bool,
)
    ensures
        final(vertices)@ == old(vertices)@ + Seq::new(
            4,
            |i: int| seq![vertex_1, vertex_2, vertex_3, vertex_4][corner_order(reverse, flip)[i]],
        ),
{
    let ghost before = vertices@;
    if reverse {
        if flip {
            vertices.push(vertex_4);
            vertices.push(vertex_3);
            vertices.push(vertex_2);
            vertices.push(vertex_1);
        } else {
            vertices.push(vertex_1);
            vertices.push(vertex_4);
            vertices.push(vertex_3);
            vertices.push(vertex_2);
        }
    } else {
        if flip {
            vertices.push(vertex_2);
            vertices.push(vertex_3);
            vertices.push(vertex_4);
            vertices.push(vertex_1);
        } else {
            vertices.push(vertex_1);
            vertices.push(vertex_2);
            vertices.push(vertex_3);
            vertices.push(vertex_4);
        }
    }
    assert(vertices@ =~= before + Seq::new(
        4,
        |i: int| seq![vertex_1, vertex_2, vertex_3, vertex_4][corner_order(reverse, flip)[i]],
    ));
}

/// The packed vertex at the place `(x, y)` of the plane at `axis`.
pub open spec fn spec_sample_vertex(
    face_dir: FaceDir,
    axis: u32,
    x: usize,
    y: usize,
    jump: usize,
    ao_level: u32,
    voxel_type: VoxelType,
) -> VertexU32 {
    let sample = face_dir.spec_world_to_sample(axis, x, y);
    VertexU32(
        (Vertex {
            pos: VoxelPos {
                x: (sample.x * jump) as usize,
                y: (sample.y * jump) as usize,
                z: (sample.z * jump) as usize,
            },
            ao: ao_level,
            normal: face_dir.spec_normal_index(),
            voxel_type,
        }).spec_to_u32(),
    )
}

fn sample_vertex(
    face_dir: FaceDir,
    axis: u32,
    x: usize,
    y: usize,
    jump: usize,
    ao_level: u32,
    voxel_type: VoxelType,
) -> (vertex: VertexU32)
    requires
        x * jump <= usize::MAX,
        y * jump <= usize::MAX,
        (axis + 1) * jump <= usize::MAX,
        axis + 1 <= usize::MAX,
    ensures
        vertex == spec_sample_vertex(face_dir, axis, x, y, jump, ao_level, voxel_type),
{
    proof {
        lemma_mul_le(axis as int, axis + 1, jump as int);
    }
    let sample = face_dir.world_to_sample(axis, x, y);
    VertexU32::new(sample * jump, ao_level, face_dir.get_normal_index(), voxel_type)
}

/// Every occlusion sample is 0 or 1.
proof fn lemma_ao_bits(ao: u32)
    ensures
        ao_bit(ao, 0) <= 1,
        ao_bit(ao, 1) <= 1,
        ao_bit(ao, 2) <= 1,
        ao_bit(ao, 3) <= 1,
        ao_bit(ao, 5) <= 1,
        ao_bit(ao, 6) <= 1,
        ao_bit(ao, 7) <= 1,
        ao_bit(ao, 8) <= 1,
        ao & 1 == ao_bit(ao, 0),
{
    assert(forall|i: u32| (ao >> i) & 1u32 <= 1) by (bit_vector);
    assert(ao & 1 == (ao >> 0u32) & 1u32) by (bit_vector);
}

/// A product grows with its first factor.
proof fn lemma_mul_le(a: int, b: int, c: int)
    requires
        0 <= a <= b,
        0 <= c,
    ensures
        0 <= a * c <= b * c,
{
    assert(0 <= a * c <= b * c) by (nonlinear_arith)
        requires
            0 <= a <= b,
            0 <= c,
    ;
}

/// The direction a merged face looks into.
#[derive(Copy, Clone, Debug, PartialEq, Eq, Structural)]
pub enum FaceDir {
    Left,
    Right,
    Back,
    Front,
    Up,
    Down,
}

impl FaceDir {
    pub open spec fn spec_normal_index(&self) -> usize {
        match self {
            FaceDir::Left => 0,
            FaceDir::Right => 1,
            FaceDir::Back => 2,
            FaceDir::Front => 3,
            FaceDir::Up => 4,
            FaceDir::Down => 5,
        }
    }

    /// The index of the face normal, as the renderer numbers them.
    #[verifier::when_used_as_spec(spec_normal_index)]
    pub fn get_normal_index(&self) -> (index: usize)
        ensures
            index == self.spec_normal_index(),
    {
        match self {
            Self::Left => 0,
            Self::Right => 1,
            Self::Back => 2,
            Self::Front => 3,
            Self::Up => 4,
            Self::Down => 5,
        }
    }

    pub open spec fn spec_sample_dir(&self) -> IVec3 {
        match self {
            FaceDir::Left => IVec3 { x: -1i32, y: 0, z: 0 },
            FaceDir::Right => IVec3 { x: 1, y: 0, z: 0 },
            FaceDir::Back => IVec3 { x: 0, y: 0, z: 1 },
            FaceDir::Front => IVec3 { x: 0, y: 0, z: -1i32 },
            FaceDir::Up => IVec3 { x: 0, y: 1, z: 0 },
            FaceDir::Down => IVec3 { x: 0, y: -1i32, z: 0 },
        }
    }

    /// The step from a voxel to the neighbour that can hide this face.
    #[verifier::when_used_as_spec(spec_sample_dir)]
    pub fn sample_dir(&self) -> (dir: IVec3)
        ensures
            dir == self.spec_sample_dir(),
    {
        match self {
            Self::Left => IVec3::new(-1, 0, 0),
            Self::Right => IVec3::new(1, 0, 0),
            Self::Back => IVec3::new(0, 0, 1),
            Self::Front => IVec3::new(0, 0, -1),
            Self::Up => IVec3::new(0, 1, 0),
            Self::Down => IVec3::new(0, -1, 0),
        }
    }

    /// The point of the chunk at the place `(x, y)` of the plane at `axis`.
    /// Faces that look up their axis lie one step further along it.
    pub open spec fn spec_world_to_sample(&self, axis: u32, x: usize, y: usize) -> VoxelPos {
        match self {
            FaceDir::Up => VoxelPos { x, y: (axis + 1) as usize, z: y },
            FaceDir::Down => VoxelPos { x, y: axis as usize, z: y },
            FaceDir::Left => VoxelPos { x: axis as usize, y, z: x },
            FaceDir::Right => VoxelPos { x: (axis + 1) as usize, y, z: x },
            FaceDir::Front => VoxelPos { x, y, z: axis as usize },
            FaceDir::Back => VoxelPos { x, y, z: (axis + 1) as usize },
        }
    }

    pub fn world_to_sample(&self, axis: u32, x: usize, y: usize) -> (pos: VoxelPos)
        requires
            axis + 1 <= usize::MAX,
        ensures
            pos == self.spec_world_to_sample(axis, x, y),
    {
        match self {
            FaceDir::Up => VoxelPos::new(x, axis as usize + 1, y),
            FaceDir::Down => VoxelPos::new(x, axis as usize, y),
            FaceDir::Left => VoxelPos::new(axis as usize, y, x),
            FaceDir::Right => VoxelPos::new(axis as usize + 1, y, x),
            FaceDir::Front => VoxelPos::new(x, y, axis as usize),
            FaceDir::Back => VoxelPos::new(x, y, axis as usize + 1),
        }
    }

    pub open spec fn spec_reverse_order(&self) -> bool {
        match self {
            FaceDir::Left => false,
            FaceDir::Right => true,
            FaceDir::Back => false,
            FaceDir::Front => true,
            FaceDir::Up => true,
            FaceDir::Down => false,
        }
    }

    /// Whether the corners of a quad have to be emitted the other way round
    /// to stay counter-clockwise for a viewer outside the solid.
    #[verifier::when_used_as_spec(spec_reverse_order)]
    pub fn reverse_order(&self) -> (reverse: bool)
        ensures
            reverse == self.spec_reverse_order(),
    {
        match self {
            Self::Left => false,
            Self::Right => true,
            Self::Back => false,
            Self::Front => true,
            Self::Up => true,
            Self::Down => false,
        }
    }
}

} // verus!
