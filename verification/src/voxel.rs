//! Voxels and their type tags.

use vstd::prelude::*;
use vstd::std_specs::convert::FromSpecImpl;

verus! {

/// The closed set of voxel kinds.
#[derive(Copy, Clone, PartialEq, Eq, Structural, Debug)]
pub enum VoxelType {
    Air,
    Block,
}

impl VoxelType {
    /// The number that stands for a voxel type in packed data.
    pub open spec fn tag(self) -> u32 {
        match self {
            VoxelType::Air => 0,
            VoxelType::Block => 1,
        }
    }

    pub open spec fn spec_is_solid(&self) -> bool {
        *self == VoxelType::Block
    }

    /// Whether this kind of voxel fills its cell: only solid voxels have
    /// faces, and only they occlude their neighbours.
    #[verifier::when_used_as_spec(spec_is_solid)]
    pub fn is_solid(&self) -> (solid: bool)
        ensures
            solid == self.spec_is_solid(),
    {
        match self {
            VoxelType::Block => true,
            _ => false,
        }
    }

    /// The voxel type that a tag stands for.
    pub open spec fn spec_from_u32(voxel_type: u32) -> VoxelType {
        if voxel_type == 0 {
            VoxelType::Air
        } else {
            VoxelType::Block
        }
    }

    /// The voxel type that a tag stands for. Only the tags of the known
    /// types are accepted.
    pub fn from_u32(voxel_type: u32) -> (decoded: VoxelType)
        requires
            voxel_type <= 1,
        ensures
            decoded == Self::spec_from_u32(voxel_type),
            decoded.tag() == voxel_type,
    {
        if voxel_type == 0 {
            VoxelType::Air
        } else {
            VoxelType::Block
        }
    }
}

impl From<VoxelType> for u32 {
    fn from(voxel_type: VoxelType) -> (tag: u32) {
        match voxel_type {
            VoxelType::Air => 0,
            VoxelType::Block => 1,
        }
    }
}

impl FromSpecImpl<VoxelType> for u32 {
    open spec fn obeys_from_spec() -> bool {
        true
    }

    open spec fn from_spec(voxel_type: VoxelType) -> u32 {
        voxel_type.tag()
    }
}

/// The smallest unit of terrain. Its only attribute is its type.
#[derive(Copy, Clone, Debug)]
pub struct Voxel {
    pub voxel_type: VoxelType,
}

impl Voxel {
    pub fn new(voxel_type: VoxelType) -> (voxel: Self)
        ensures
            voxel.voxel_type == voxel_type,
    {
        Self { voxel_type }
    }
}

impl Default for Voxel {
    /// A voxel is air unless something else is said.
    fn default() -> (voxel: Self)
        ensures
            voxel.voxel_type == VoxelType::Air,
    {
        Self { voxel_type: VoxelType::Air }
    }
}

} // verus!
