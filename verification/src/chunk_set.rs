//! Sets of chunk positions, kept in a hash set.

use vstd::prelude::*;
use crate::positions::ChunkPos;

verus! {

/// A set of chunk positions.
///
/// The positions are held, as tuples of their coordinates, in the hash set
/// of `bevy::utils`. The verifier does not look inside: what it knows of a
/// set is what [`chunk_set_contents`] names and what the methods below
/// state about it.
#[verifier::external_body]
pub struct ChunkSet {
    set: bevy::utils::HashSet<(i32, i32, i32)>,
}

/// The positions that a set holds.
pub uninterp spec fn chunk_set_contents(set: ChunkSet) -> Set<ChunkPos>;

impl ChunkSet {
    /// An empty set.
    ///
    /// Calls `HashSet::default`, which creates an empty set.
    #[verifier::external_body]
    pub(crate) fn new() -> (set: ChunkSet)
        ensures
            chunk_set_contents(set) == Set::<ChunkPos>::empty(),
    {
        ChunkSet { set: bevy::utils::HashSet::default() }
    }

    /// Adds a position to the set and says whether it was new.
    ///
    /// Calls `HashSet::insert`, which adds the value to the set and returns
    /// whether the set did not hold it before. A set that held the
    /// value is left as it was.
    #[verifier::external_body]
    pub(crate) fn insert(&mut self, pos: ChunkPos) -> (fresh: bool)
        ensures
            chunk_set_contents(*final(self)) == chunk_set_contents(*old(self)).insert(pos),
            fresh == !chunk_set_contents(*old(self)).contains(pos),
    {
        self.set.insert((pos.x, pos.y, pos.z))
    }

    /// The positions of this set that are not in `other`, each once, in the
    /// order in which the hash set is walked.
    ///
    /// Calls `HashSet::difference`, whose iterator visits every value of
    /// the first set once and hands out those that the second set does not
    /// hold. Nothing is stated of the order.
    #[verifier::external_body]
    pub(crate) fn difference(&self, other: &ChunkSet) -> (left: Vec<ChunkPos>)
        ensures
            left@.no_duplicates(),
            left@.to_set() == chunk_set_contents(*self).difference(chunk_set_contents(*other)),
    {
        self.set.difference(&other.set).map(|pos| ChunkPos { x: pos.0, y: pos.1, z: pos.2 }).collect()
    }
}

} // verus!
