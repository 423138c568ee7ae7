//! Quad corners, and their packing into one 32-bit word.
//!
//! From the lowest bit upwards a packed corner holds the x, y and z
//! coordinates in six bits each, the ambient-occlusion level in three bits,
//! the index of the face normal in three bits and the voxel type's tag in the
//! eight bits that are left.

use vstd::prelude::*;
use vstd::std_specs::convert::FromSpecImpl;
use crate::positions::VoxelPos;
use crate::voxel::VoxelType;

verus! {

/// The word that holds the given fields, each at its place. A field that is
/// too wide for its place runs into the places above it.
pub open spec fn pack(x: u32, y: u32, z: u32, ao: u32, normal: u32, tag: u32) -> u32 {
    x | (y << 6u32) | (z << 12u32) | (ao << 18u32) | (normal << 21u32) | (tag << 24u32)
}

pub open spec fn packed_x(word: u32) -> u32 {
    word & 0x3fu32
}

pub open spec fn packed_y(word: u32) -> u32 {
    (word >> 6u32) & 0x3fu32
}

pub open spec fn packed_z(word: u32) -> u32 {
    (word >> 12u32) & 0x3fu32
}

pub open spec fn packed_ao(word: u32) -> u32 {
    (word >> 18u32) & 0x7u32
}

pub open spec fn packed_normal(word: u32) -> u32 {
    (word >> 21u32) & 0x7u32
}

pub open spec fn packed_tag(word: u32) -> u32 {
    (word >> 24u32) & 0xffu32
}

/// One corner of a quad.
#[derive(Copy, Clone, Debug)]
pub struct Vertex {
    pub pos: VoxelPos,
    pub ao: u32,
    /// Index of the face normal.
    pub normal: usize,
    pub voxel_type: VoxelType,
}

/// One corner of a quad, packed for the renderer.
#[derive(Copy, Clone)]
pub struct VertexU32(pub u32);

impl View for VertexU32 {
    type V = u32;

    /// The packed word.
    open spec fn view(&self) -> u32 {
        self.0
    }
}

impl VertexU32 {
    pub fn new(pos: VoxelPos, ao: u32, normal_index: usize, voxel_type: VoxelType) -> (packed: Self)
        ensures
            packed@ == (Vertex { pos, ao, normal: normal_index, voxel_type }).spec_to_u32(),
    {
        Vertex::new(pos, ao, normal_index, voxel_type).to_u32()
    }
}

impl Vertex {
    pub fn new(pos: VoxelPos, ao: u32, normal_index: usize, voxel_type: VoxelType) -> (vertex: Self)
        ensures
            vertex == (Vertex { pos, ao, normal: normal_index, voxel_type }),
    {
        Self { pos, ao, normal: normal_index, voxel_type }
    }

    /// Whether every field fits its place in the packed word.
    pub open spec fn fits(&self) -> bool {
        &&& self.pos.x < 64
        &&& self.pos.y < 64
        &&& self.pos.z < 64
        &&& self.ao < 8
        &&& self.normal < 8
    }

    /// The packed word of a corner.
    pub open spec fn spec_to_u32(&self) -> u32 {
        pack(
            self.pos.x as u32,
            self.pos.y as u32,
            self.pos.z as u32,
            self.ao,
            self.normal as u32,
            self.voxel_type.tag(),
        )
    }

    /// The corner that a packed word holds, where its tag is that of a voxel type.
    pub open spec fn spec_from_u32(word: u32) -> Vertex {
        Vertex {
            pos: VoxelPos {
                x: packed_x(word) as usize,
                y: packed_y(word) as usize,
                z: packed_z(word) as usize,
            },
            ao: packed_ao(word),
            normal: packed_normal(word) as usize,
            voxel_type: VoxelType::spec_from_u32(packed_tag(word)),
        }
    }

    /// Unpacks a corner. The word has to carry the tag of a voxel type.
    pub fn from_u32(vertex: VertexU32) -> (unpacked: Self)
        requires
            packed_tag(vertex@) <= 1,
        ensures
            unpacked == Self::spec_from_u32(vertex@),
    {
        let pos_mask: u32 = 0b111111u32;
        let three_bits_mask: u32 = 0b111u32;
        let eight_bits_mask: u32 = 0b11111111u32;
        let word: u32 = vertex.0;

        let x: u32 = word & pos_mask;
        let y: u32 = (word & (pos_mask << 6u32)) >> 6u32;
        let z: u32 = (word & (pos_mask << 12u32)) >> 12u32;
        let ao: u32 = (word & (three_bits_mask << 18u32)) >> 18u32;
        let normal: u32 = (word & (three_bits_mask << 21u32)) >> 21u32;
        let tag: u32 = (word & (eight_bits_mask << 24u32)) >> 24u32;
        assert(x == packed_x(word) && y == packed_y(word) && z == packed_z(word) && ao
            == packed_ao(word) && normal == packed_normal(word) && tag == packed_tag(word))
            by (bit_vector)
            requires
                pos_mask == 0x3fu32,
                three_bits_mask == 0x7u32,
                eight_bits_mask == 0xffu32,
                x == word & pos_mask,
                y == (word & (pos_mask << 6u32)) >> 6u32,
                z == (word & (pos_mask << 12u32)) >> 12u32,
                ao == (word & (three_bits_mask << 18u32)) >> 18u32,
                normal == (word & (three_bits_mask << 21u32)) >> 21u32,
                tag == (word & (eight_bits_mask << 24u32)) >> 24u32,
        ;

        Self {
            pos: VoxelPos { x: x as usize, y: y as usize, z: z as usize },
            normal: normal as usize,
            ao,
            voxel_type: VoxelType::from_u32(tag),
        }
    }

    /// Packs a corner. Coordinates and the normal index are taken by their
    /// low 32 bits.
    pub fn to_u32(&self) -> (packed: VertexU32)
        ensures
            packed@ == self.spec_to_u32(),
    {
        let tag: u32 = u32::from(self.voxel_type);
        VertexU32(
            self.pos.x as u32 | (self.pos.y as u32) << 6u32 | (self.pos.z as u32) << 12u32
                | self.ao << 18u32 | (self.normal as u32) << 21u32 | tag << 24u32,
        )
    }

    /// Packing a corner whose fields fit their places and unpacking it again
    /// gives the corner back.
    pub proof fn lemma_pack_round_trip(vertex: Vertex)
        requires
            vertex.fits(),
        ensures
            packed_tag(vertex.spec_to_u32()) == vertex.voxel_type.tag(),
            Self::spec_from_u32(vertex.spec_to_u32()) == vertex,
    {
        let x: u32 = vertex.pos.x as u32;
        let y: u32 = vertex.pos.y as u32;
        let z: u32 = vertex.pos.z as u32;
        let ao: u32 = vertex.ao;
        let normal: u32 = vertex.normal as u32;
        let tag: u32 = vertex.voxel_type.tag();
        lemma_fields_round_trip(x, y, z, ao, normal, tag);
    }

    /// Unpacking any word and packing the corner again gives the word back.
    pub proof fn lemma_unpack_round_trip(word: u32)
        requires
            packed_tag(word) <= 1,
        ensures
            Self::spec_from_u32(word).fits(),
            Self::spec_from_u32(word).spec_to_u32() == word,
    {
        lemma_word_round_trip(word);
        assert(packed_x(word) < 64 && packed_y(word) < 64 && packed_z(word) < 64 && packed_ao(word)
            < 8 && packed_normal(word) < 8) by (bit_vector);
    }
}

/// Each field that fits its place is read back from the packed word.
pub proof fn lemma_fields_round_trip(x: u32, y: u32, z: u32, ao: u32, normal: u32, tag: u32)
    requires
        x < 64,
        y < 64,
        z < 64,
        ao < 8,
        normal < 8,
        tag < 256,
    ensures
        packed_x(pack(x, y, z, ao, normal, tag)) == x,
        packed_y(pack(x, y, z, ao, normal, tag)) == y,
        packed_z(pack(x, y, z, ao, normal, tag)) == z,
        packed_ao(pack(x, y, z, ao, normal, tag)) == ao,
        packed_normal(pack(x, y, z, ao, normal, tag)) == normal,
        packed_tag(pack(x, y, z, ao, normal, tag)) == tag,
{
    assert(packed_x(pack(x, y, z, ao, normal, tag)) == x && packed_y(
        pack(x, y, z, ao, normal, tag),
    ) == y && packed_z(pack(x, y, z, ao, normal, tag)) == z && packed_ao(
        pack(x, y, z, ao, normal, tag),
    ) == ao && packed_normal(pack(x, y, z, ao, normal, tag)) == normal && packed_tag(
        pack(x, y, z, ao, normal, tag),
    ) == tag) by (bit_vector)
        requires
            x < 64,
            y < 64,
            z < 64,
            ao < 8,
            normal < 8,
            tag < 256,
    ;
}

/// A word is the packing of its own fields.
pub proof fn lemma_word_round_trip(word: u32)
    ensures
        pack(
            packed_x(word),
            packed_y(word),
            packed_z(word),
            packed_ao(word),
            packed_normal(word),
            packed_tag(word),
        ) == word,
{
    assert(pack(
        packed_x(word),
        packed_y(word),
        packed_z(word),
        packed_ao(word),
        packed_normal(word),
        packed_tag(word),
    ) == word) by (bit_vector);
}

impl From<Vertex> for VertexU32 {
    fn from(vertex: Vertex) -> (packed: VertexU32) {
        vertex.to_u32()
    }
}

impl FromSpecImpl<Vertex> for VertexU32 {
    open spec fn obeys_from_spec() -> bool {
        true
    }

    open spec fn from_spec(vertex: Vertex) -> VertexU32 {
        VertexU32(vertex.spec_to_u32())
    }
}

impl From<VertexU32> for u32 {
    fn from(vertex: VertexU32) -> (word: u32) {
        vertex.0
    }
}

impl FromSpecImpl<VertexU32> for u32 {
    open spec fn obeys_from_spec() -> bool {
        true
    }

    open spec fn from_spec(vertex: VertexU32) -> u32 {
        vertex@
    }
}

} // verus!
