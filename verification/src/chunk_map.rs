//! A map keyed by chunk position.

use vstd::prelude::*;
use std::collections::HashMap;
use crate::positions::ChunkPos;

verus! {

broadcast use vstd::std_specs::hash::group_hash_axioms;

/// The number that stands for a chunk position in the underlying hash map:
/// the three coordinates, each shifted into the unsigned range, side by side.
pub open spec fn key_of(pos: ChunkPos) -> u128 {
    (((pos.x + 0x8000_0000) * 0x1_0000_0000 + (pos.y + 0x8000_0000)) * 0x1_0000_0000 + (pos.z
        + 0x8000_0000)) as u128
}

/// The position that a key stands for.
pub open spec fn pos_of(key: u128) -> ChunkPos {
    ChunkPos {
        x: (key / 0x1_0000_0000_0000_0000 - 0x8000_0000) as i32,
        y: ((key / 0x1_0000_0000) % 0x1_0000_0000 - 0x8000_0000) as i32,
        z: (key % 0x1_0000_0000 - 0x8000_0000) as i32,
    }
}

/// Whether a number is the key of a position.
pub open spec fn is_key(key: u128) -> bool {
    key < 0x1_0000_0000_0000_0000_0000_0000
}

/// Every position has a key of its own.
pub proof fn lemma_keys(pos: ChunkPos)
    ensures
        is_key(key_of(pos)),
        pos_of(key_of(pos)) == pos,
{
}

/// Every key belongs to a position.
pub proof fn lemma_positions(key: u128)
    requires
        is_key(key),
    ensures
        key_of(pos_of(key)) == key,
{
}

fn key(pos: &ChunkPos) -> (k: u128)
    ensures
        k == key_of(*pos),
{
    let x: u128 = (pos.x as i64 + 0x8000_0000) as u128;
    let y: u128 = (pos.y as i64 + 0x8000_0000) as u128;
    let z: u128 = (pos.z as i64 + 0x8000_0000) as u128;
    (x * 0x1_0000_0000 + y) * 0x1_0000_0000 + z
}

/// A finite map from chunk positions to values.
pub struct ChunkMap<V> {
    map: HashMap<u128, V>,
}

impl<V> View for ChunkMap<V> {
    type V = Map<ChunkPos, V>;

    closed spec fn view(&self) -> Map<ChunkPos, V> {
        Map::new(|pos: ChunkPos| self.map@.contains_key(key_of(pos)), |pos: ChunkPos| self.map@[key_of(pos)])
    }
}

/// The positions whose keys are in a set of keys.
spec fn positions(keys: Set<u128>) -> Set<ChunkPos> {
    Set::new(|pos: ChunkPos| keys.contains(key_of(pos)))
}

/// A finite set of keys stands for as many positions.
proof fn lemma_count(keys: Set<u128>)
    requires
        keys.finite(),
        forall|k: u128| keys.contains(k) ==> is_key(k),
    ensures
        positions(keys).finite(),
        positions(keys).len() == keys.len(),
    decreases keys.len(),
{
    if keys.len() == 0 {
        assert(keys =~= Set::empty());
        assert(positions(keys) =~= Set::empty());
    } else {
        let k = keys.choose();
        let rest = keys.remove(k);
        lemma_count(rest);
        lemma_positions(k);
        assert forall|pos: ChunkPos| positions(keys).contains(pos) <==> positions(rest).insert(
            pos_of(k),
        ).contains(pos) by {
            lemma_keys(pos);
        }
        assert(positions(keys) =~= positions(rest).insert(pos_of(k)));
    }
}

impl<V> ChunkMap<V> {
    #[verifier::type_invariant]
    spec fn keyed_by_positions(&self) -> bool {
        forall|k: u128| self.map@.contains_key(k) ==> is_key(k)
    }

    /// A map has finitely many entries.
    pub proof fn lemma_finite(&self)
        ensures
            self@.dom().finite(),
    {
        // The domain is a subset of the positions of the finitely many keys.
        let keys = self.map@.dom().filter(|k: u128| is_key(k));
        self.map@.dom().lemma_len_filter(|k: u128| is_key(k));
        lemma_count(keys);
        assert forall|pos: ChunkPos| self@.dom().contains(pos) implies positions(keys).contains(
            pos,
        ) by {
            lemma_keys(pos);
        }
        vstd::set_lib::lemma_len_subset(self@.dom(), positions(keys));
    }

    pub fn new() -> (map: Self)
        ensures
            map@ == Map::<ChunkPos, V>::empty(),
    {
        let map = ChunkMap { map: HashMap::new() };
        assert(map@ =~= Map::<ChunkPos, V>::empty());
        map
    }

    /// The number of entries.
    pub fn len(&self) -> (len: usize)
        ensures
            len == self@.dom().len(),
            self@.dom().finite(),
    {
        proof {
            use_type_invariant(self);
            lemma_count(self.map@.dom());
            assert(self@.dom() =~= positions(self.map@.dom()));
        }
        self.map.len()
    }

    pub fn contains_key(&self, pos: &ChunkPos) -> (found: bool)
        ensures
            found == self@.contains_key(*pos),
    {
        let k = key(pos);
        self.map.contains_key(&k)
    }

    pub fn get(&self, pos: &ChunkPos) -> (value: Option<&V>)
        ensures
            match value {
                Some(v) => self@.contains_key(*pos) && *v == self@[*pos],
                None => !self@.contains_key(*pos),
            },
    {
        let k = key(pos);
        self.map.get(&k)
    }

    /// Puts a value at a position and hands back the value that was there.
    pub fn insert(&mut self, pos: ChunkPos, value: V) -> (previous: Option<V>)
        ensures
            final(self)@ == old(self)@.insert(pos, value),
            match previous {
                Some(v) => old(self)@.contains_key(pos) && v == old(self)@[pos],
                None => !old(self)@.contains_key(pos),
            },
    {
        proof {
            use_type_invariant(&*self);
        }
        let k = key(&pos);
        let mut map: HashMap<u128, V> = HashMap::new();
        std::mem::swap(&mut self.map, &mut map);
        let previous = map.insert(k, value);
        self.map = map;
        proof {
            lemma_keys(pos);
            assert forall|p: ChunkPos| key_of(p) == k implies p == pos by {
                lemma_keys(p);
            }
            assert(self@ =~= old(self)@.insert(pos, value));
        }
        previous
    }

    /// Takes the value at a position out of the map.
    pub fn remove(&mut self, pos: &ChunkPos) -> (previous: Option<V>)
        ensures
            final(self)@ == old(self)@.remove(*pos),
            match previous {
                Some(v) => old(self)@.contains_key(*pos) && v == old(self)@[*pos],
                None => !old(self)@.contains_key(*pos),
            },
    {
        proof {
            use_type_invariant(&*self);
        }
        let k = key(pos);
        let mut map: HashMap<u128, V> = HashMap::new();
        std::mem::swap(&mut self.map, &mut map);
        let previous = map.remove(&k);
        self.map = map;
        proof {
            lemma_keys(*pos);
            assert forall|p: ChunkPos| key_of(p) == k implies p == *pos by {
                lemma_keys(p);
            }
            assert(self@ =~= old(self)@.remove(*pos));
        }
        previous
    }
}

} // verus!
