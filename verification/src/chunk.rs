//! Chunks: cubes of voxels, the unit of generation and streaming.

use vstd::prelude::*;
use std::ops::Index;
use crate::constants::CHUNK_VOLUME;
use crate::positions::VoxelPos;
use crate::voxel::{Voxel, VoxelType};

verus! {

/// The voxels of one chunk. A chunk whose voxels are all the same may be
/// stored as that single voxel; otherwise every voxel is stored, x running
/// fastest, then y, then z.
#[derive(Debug)]
pub struct Chunk {
    voxels: Vec<Voxel>,
}

/// The plane of voxels after a list of edits, of which a later one
/// overrides an earlier one at the same place.
pub open spec fn apply_edits(voxels: Seq<Voxel>, edits: Seq<(VoxelPos, VoxelType)>) -> Seq<Voxel>
    decreases edits.len(),
{
    if edits.len() == 0 {
        voxels
    } else {
        let (voxel_pos, voxel_type) = edits.last();
        apply_edits(voxels, edits.drop_last()).update(
            voxel_pos.spec_to_index(),
            Voxel { voxel_type },
        )
    }
}

/// The storage of a chunk of air.
fn air() -> (voxels: Vec<Voxel>)
    ensures
        voxels@.len() == 32768,
        forall|i: int| 0 <= i < 32768 ==> voxels@[i].voxel_type == VoxelType::Air,
{
    let mut voxels: Vec<Voxel> = Vec::new();
    let mut i: usize = 0;
    while i < CHUNK_VOLUME
        invariant
            i <= CHUNK_VOLUME,
            voxels@.len() == i,
            forall|j: int| 0 <= j < i ==> voxels@[j].voxel_type == VoxelType::Air,
        decreases CHUNK_VOLUME - i,
    {
        voxels.push(Voxel::default());
        i += 1;
    }
    voxels
}

/// Sets the types of the listed voxels in the storage of a chunk, one after
/// the other.
fn edit(stored: &mut Vec<Voxel>, voxels: &Vec<(VoxelPos, VoxelType)>)
    requires
        old(stored)@.len() == 32768,
        forall|i: int| 0 <= i < voxels@.len() ==> (#[trigger] voxels@[i]).0.spec_to_index() < 32768,
    ensures
        final(stored)@.len() == 32768,
        final(stored)@ == apply_edits(old(stored)@, voxels@),
{
    let mut i: usize = 0;
    while i < voxels.len()
        invariant
            i <= voxels@.len(),
            forall|i: int|
                0 <= i < voxels@.len() ==> (#[trigger] voxels@[i]).0.spec_to_index() < 32768,
            stored@.len() == 32768,
            stored@ == apply_edits(old(stored)@, voxels@.take(i as int)),
        decreases voxels@.len() - i,
    {
        let (voxel_pos, voxel_type) = voxels[i];
        assert(voxels@[i as int].0.spec_to_index() < 32768);
        let index = voxel_pos.to_index();
        stored[index] = Voxel::new(voxel_type);
        proof {
            let done = voxels@.take(i + 1);
            assert(done.drop_last() =~= voxels@.take(i as int));
            assert(done.last() == voxels@[i as int]);
        }
        i += 1;
    }
    assert(voxels@.take(voxels@.len() as int) =~= voxels@);
}

impl View for Chunk {
    type V = Seq<Voxel>;

    /// The voxels of the chunk, one for each place of the cube, however the
    /// chunk is stored.
    closed spec fn view(&self) -> Seq<Voxel> {
        Seq::new(
            32768,
            |i: int|
                if self.voxels@.len() == 1 {
                    self.voxels@[0]
                } else {
                    self.voxels@[i]
                },
        )
    }
}

impl Chunk {
    #[verifier::type_invariant]
    spec fn stored_whole_or_as_one(&self) -> bool {
        self.voxels@.len() == 1 || self.voxels@.len() == 32768
    }

    /// The number of voxels that are stored: 1 or the volume of a chunk.
    pub closed spec fn spec_len(&self) -> usize {
        self.voxels.len()
    }

    /// Whether the chunk is stored as a single voxel.
    pub open spec fn is_homogeneous(&self) -> bool {
        self.spec_len() == 1
    }

    /// The voxel stored at a place of the storage.
    pub closed spec fn stored(&self, index: int) -> Voxel {
        self.voxels@[index]
    }

    /// A chunk has a voxel at each place of the cube, and holds either all
    /// of them or one that stands for all.
    pub proof fn lemma_view(&self)
        ensures
            self@.len() == 32768,
            self.spec_len() == 32768 ==> forall|i: int|
                0 <= i < 32768 ==> self@[i] == #[trigger] self.stored(i),
            self.is_homogeneous() ==> forall|i: int|
                0 <= i < 32768 ==> #[trigger] self@[i] == self.stored(0),
    {
    }

    /// A chunk of air, with every voxel stored.
    pub fn new() -> (chunk: Self)
        ensures
            chunk.spec_len() == 32768,
            chunk@ == Seq::new(32768, |i: int| Voxel { voxel_type: VoxelType::Air }),
    {
        let chunk = Chunk { voxels: air() };
        assert(chunk@ =~= Seq::new(32768, |i: int| Voxel { voxel_type: VoxelType::Air }));
        chunk
    }

    /// A chunk whose voxels are all of one type, stored as a single voxel.
    pub fn uniform(voxel_type: VoxelType) -> (chunk: Self)
        ensures
            chunk.is_homogeneous(),
            chunk@ == Seq::new(32768, |i: int| Voxel { voxel_type }),
    {
        let mut voxels: Vec<Voxel> = Vec::new();
        voxels.push(Voxel::new(voxel_type));
        let chunk = Chunk { voxels };
        assert(chunk@ =~= Seq::new(32768, |i: int| Voxel { voxel_type }));
        chunk
    }

    /// Takes the storage out of the chunk, stored whole, and leaves a
    /// single voxel in its place.
    fn take_whole(&mut self) -> (voxels: Vec<Voxel>)
        ensures
            voxels@ == old(self)@,
    {
        proof {
            use_type_invariant(&*self);
        }
        let mut voxels: Vec<Voxel> = Vec::new();
        voxels.push(Voxel::default());
        std::mem::swap(&mut self.voxels, &mut voxels);
        if voxels.len() == 1 {
            let voxel = voxels[0];
            let mut i: usize = 1;
            while i < CHUNK_VOLUME
                invariant
                    1 <= i <= CHUNK_VOLUME,
                    voxels@.len() == i,
                    forall|j: int| 0 <= j < i ==> voxels@[j] == voxel,
                decreases CHUNK_VOLUME - i,
            {
                voxels.push(voxel);
                i += 1;
            }
        }
        assert(voxels@ =~= old(self)@);
        voxels
    }

    /// Sets the type of one voxel.
    pub fn set_voxel(&mut self, voxel_pos: VoxelPos, voxel_type: VoxelType)
        requires
            voxel_pos.in_chunk(),
        ensures
            final(self)@ == old(self)@.update(voxel_pos.spec_to_index(), Voxel { voxel_type }),
            final(self).spec_len() == 32768,
    {
        let mut voxels = self.take_whole();
        let index = voxel_pos.to_index();
        voxels[index] = Voxel::new(voxel_type);
        self.voxels = voxels;
        assert(self@ =~= old(self)@.update(voxel_pos.spec_to_index(), Voxel { voxel_type }));
    }

    /// Sets the types of the listed voxels, one after the other.
    pub fn set_voxels(&mut self, voxels: Vec<(VoxelPos, VoxelType)>)
        requires
            forall|i: int| 0 <= i < voxels@.len() ==> (#[trigger] voxels@[i]).0.in_chunk(),
        ensures
            final(self)@ == apply_edits(old(self)@, voxels@),
    {
        let mut stored = self.take_whole();
        proof {
            assert forall|i: int| 0 <= i < voxels@.len() implies (
            #[trigger] voxels@[i]).0.spec_to_index() < 32768 by {
                VoxelPos::lemma_index_round_trip(voxels@[i].0);
            }
        }
        edit(&mut stored, &voxels);
        self.voxels = stored;
        assert(self@ =~= stored@);
    }

    /// A chunk of air in which the listed voxels have been set, one after
    /// the other. A voxel is found by its place in the storage.
    pub fn with_voxels(voxels: Vec<(VoxelPos, VoxelType)>) -> (chunk: Self)
        requires
            forall|i: int|
                0 <= i < voxels@.len() ==> (#[trigger] voxels@[i]).0.spec_to_index() < 32768,
        ensures
            chunk.spec_len() == 32768,
            chunk@ == apply_edits(
                Seq::new(32768, |i: int| Voxel { voxel_type: VoxelType::Air }),
                voxels@,
            ),
    {
        let mut stored = air();
        assert(stored@ =~= Seq::new(32768, |i: int| Voxel { voxel_type: VoxelType::Air }));
        edit(&mut stored, &voxels);
        let chunk = Chunk { voxels: stored };
        assert(chunk@ =~= stored@);
        chunk
    }

    /// The number of voxels that are stored.
    #[verifier::when_used_as_spec(spec_len)]
    pub fn len(&self) -> (len: usize)
        ensures
            len == self.spec_len(),
            len == 1 || len == 32768,
    {
        proof {
            use_type_invariant(self);
        }
        self.voxels.len()
    }

    /// Whether no voxel is stored, which never holds.
    pub fn is_empty(&self) -> (empty: bool)
        ensures
            !empty,
    {
        self.len() == 0
    }
}

impl Clone for Chunk {
    fn clone(&self) -> (copy: Self)
        ensures
            copy@ == self@,
            copy.spec_len() == self.spec_len(),
    {
        proof {
            use_type_invariant(self);
        }
        let voxels = self.voxels.clone();
        assert(voxels@ =~= self.voxels@);
        Chunk { voxels }
    }
}

impl Default for Chunk {
    fn default() -> (chunk: Self)
        ensures
            chunk.spec_len() == 32768,
            chunk@ == Seq::new(32768, |i: int| Voxel { voxel_type: VoxelType::Air }),
    {
        Chunk::new()
    }
}

impl Index<usize> for Chunk {
    type Output = Voxel;

    /// The voxel at a place of the storage.
    fn index(&self, index: usize) -> (voxel: &Voxel)
        ensures
            *voxel == self.stored(index as int),
    {
        &self.voxels[index]
    }
}

impl vstd::std_specs::core::IndexSpecImpl<usize> for Chunk {
    open spec fn index_req(&self, index: &usize) -> bool {
        *index < self.spec_len()
    }
}

impl Index<VoxelPos> for Chunk {
    type Output = Voxel;

    /// The voxel stored for a position.
    fn index(&self, index: VoxelPos) -> (voxel: &Voxel)
        ensures
            *voxel == self.stored(index.spec_to_index()),
    {
        &self.voxels[index.to_index()]
    }
}

impl vstd::std_specs::core::IndexSpecImpl<VoxelPos> for Chunk {
    open spec fn index_req(&self, index: &VoxelPos) -> bool {
        index.spec_to_index() < self.spec_len()
    }
}

} // verus!
