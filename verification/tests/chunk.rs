use std::sync::Arc;
use voxel_stream::chunk::Chunk;
use voxel_stream::chunk_from_middle::ChunksFromMiddle;
use voxel_stream::chunk_map::ChunkMap;
use voxel_stream::positions::{ChunkPos, IVec3, VoxelPos};
use voxel_stream::voxel::VoxelType;

fn block_around(middle: ChunkPos, centre: Chunk, around: VoxelType) -> ChunkMap<Arc<Chunk>> {
    let mut store: ChunkMap<Arc<Chunk>> = ChunkMap::new();
    for z in -1..=1 {
        for y in -1..=1 {
            for x in -1..=1 {
                let pos = ChunkPos::new(middle.x + x, middle.y + y, middle.z + z);
                if pos != middle {
                    store.insert(pos, Arc::new(Chunk::uniform(around)));
                }
            }
        }
    }
    store.insert(middle, Arc::new(centre));
    store
}

#[test]
fn new_chunk_is_air_and_stored_whole() {
    let chunk = Chunk::new();
    assert_eq!(chunk.len(), 32768);
    assert!(!chunk.is_empty());
    assert_eq!(chunk[0usize].voxel_type, VoxelType::Air);
    assert_eq!(chunk[32767usize].voxel_type, VoxelType::Air);
    assert_eq!(chunk[VoxelPos::new(3, 4, 5)].voxel_type, VoxelType::Air);
    assert_eq!(Chunk::default().len(), 32768);
}

#[test]
fn uniform_chunk_is_stored_as_one_voxel() {
    let chunk = Chunk::uniform(VoxelType::Block);
    assert_eq!(chunk.len(), 1);
    assert!(!chunk.is_empty());
    assert_eq!(chunk[0usize].voxel_type, VoxelType::Block);
}

#[test]
fn set_voxel_changes_one_voxel() {
    let mut chunk = Chunk::new();
    chunk.set_voxel(VoxelPos::new(3, 4, 5), VoxelType::Block);
    assert_eq!(chunk[VoxelPos::new(3, 4, 5)].voxel_type, VoxelType::Block);
    assert_eq!(chunk[3 + (4 + 5 * 32) * 32].voxel_type, VoxelType::Block);
    assert_eq!(chunk[VoxelPos::new(4, 4, 5)].voxel_type, VoxelType::Air);
    assert_eq!(chunk[VoxelPos::new(3, 4, 6)].voxel_type, VoxelType::Air);
    let solid = (0..32768usize).filter(|i| chunk[*i].voxel_type == VoxelType::Block).count();
    assert_eq!(solid, 1);
}

#[test]
fn set_voxel_on_a_uniform_chunk_stores_it_whole() {
    let mut chunk = Chunk::uniform(VoxelType::Block);
    chunk.set_voxel(VoxelPos::new(0, 0, 1), VoxelType::Air);
    assert_eq!(chunk.len(), 32768);
    assert_eq!(chunk[VoxelPos::new(0, 0, 1)].voxel_type, VoxelType::Air);
    assert_eq!(chunk[VoxelPos::new(0, 0, 0)].voxel_type, VoxelType::Block);
    assert_eq!(chunk[VoxelPos::new(31, 31, 31)].voxel_type, VoxelType::Block);
    let solid = (0..32768usize).filter(|i| chunk[*i].voxel_type == VoxelType::Block).count();
    assert_eq!(solid, 32767);
}

#[test]
fn later_edits_override_earlier_ones() {
    let chunk = Chunk::with_voxels(vec![
        (VoxelPos::new(1, 1, 1), VoxelType::Block),
        (VoxelPos::new(2, 2, 2), VoxelType::Block),
        (VoxelPos::new(1, 1, 1), VoxelType::Air),
    ]);
    assert_eq!(chunk[VoxelPos::new(1, 1, 1)].voxel_type, VoxelType::Air);
    assert_eq!(chunk[VoxelPos::new(2, 2, 2)].voxel_type, VoxelType::Block);
    let mut other = Chunk::new();
    other.set_voxels(vec![
        (VoxelPos::new(0, 0, 0), VoxelType::Block),
        (VoxelPos::new(31, 31, 31), VoxelType::Block),
    ]);
    assert_eq!(other[0usize].voxel_type, VoxelType::Block);
    assert_eq!(other[32767usize].voxel_type, VoxelType::Block);
    assert_eq!(other[1usize].voxel_type, VoxelType::Air);
}

#[test]
fn clone_keeps_the_voxels() {
    let mut chunk = Chunk::new();
    chunk.set_voxel(VoxelPos::new(9, 8, 7), VoxelType::Block);
    let copy = chunk.clone();
    assert_eq!(copy.len(), 32768);
    assert_eq!(copy[VoxelPos::new(9, 8, 7)].voxel_type, VoxelType::Block);
    assert_eq!(copy[VoxelPos::new(7, 8, 9)].voxel_type, VoxelType::Air);
}

#[test]
fn chunk_map_inserts_finds_and_removes() {
    let mut map: ChunkMap<u64> = ChunkMap::new();
    assert_eq!(map.len(), 0);
    assert_eq!(map.insert(ChunkPos::new(1, -2, 3), 7), None);
    assert_eq!(map.insert(ChunkPos::new(-1, 2, -3), 8), None);
    assert_eq!(map.insert(ChunkPos::new(i32::MIN, i32::MAX, 0), 9), None);
    assert_eq!(map.len(), 3);
    assert!(map.contains_key(&ChunkPos::new(1, -2, 3)));
    assert!(!map.contains_key(&ChunkPos::new(1, -2, 4)));
    assert!(!map.contains_key(&ChunkPos::new(3, -2, 1)));
    assert_eq!(map.get(&ChunkPos::new(-1, 2, -3)), Some(&8));
    assert_eq!(map.get(&ChunkPos::new(i32::MIN, i32::MAX, 0)), Some(&9));
    assert_eq!(map.get(&ChunkPos::new(i32::MAX, i32::MIN, 0)), None);
    assert_eq!(map.insert(ChunkPos::new(1, -2, 3), 70), Some(7));
    assert_eq!(map.len(), 3);
    assert_eq!(map.remove(&ChunkPos::new(1, -2, 3)), Some(70));
    assert_eq!(map.remove(&ChunkPos::new(1, -2, 3)), None);
    assert_eq!(map.len(), 2);
}

#[test]
fn no_view_unless_all_neighbours_are_resident() {
    let middle = ChunkPos::new(4, -2, 0);
    let mut store = block_around(middle, Chunk::new(), VoxelType::Air);
    assert!(ChunksFromMiddle::try_new(&store, middle).is_some());
    assert!(ChunksFromMiddle::try_new(&store, ChunkPos::new(5, -2, 0)).is_none());
    store.remove(&ChunkPos::new(5, -1, 1));
    assert!(ChunksFromMiddle::try_new(&store, middle).is_none());
    let empty: ChunkMap<Arc<Chunk>> = ChunkMap::new();
    assert!(ChunksFromMiddle::try_new(&empty, middle).is_none());
}

#[test]
fn no_view_at_the_edge_of_the_coordinates() {
    let middle = ChunkPos::new(i32::MAX, 0, 0);
    let mut store: ChunkMap<Arc<Chunk>> = ChunkMap::new();
    for z in -1..=1 {
        for y in -1..=1 {
            for x in -1..=0 {
                store.insert(ChunkPos::new(i32::MAX + x, y, z), Arc::new(Chunk::new()));
            }
        }
    }
    assert!(ChunksFromMiddle::try_new(&store, middle).is_none());
    assert!(ChunksFromMiddle::try_new(&store, ChunkPos::new(i32::MAX - 1, 0, 0)).is_none());
}

#[test]
fn view_looks_into_the_neighbours() {
    let middle = ChunkPos::new(0, 0, 0);
    let mut centre = Chunk::new();
    centre.set_voxel(VoxelPos::new(0, 0, 0), VoxelType::Block);
    centre.set_voxel(VoxelPos::new(31, 5, 7), VoxelType::Block);
    let mut store = block_around(middle, centre, VoxelType::Air);
    let mut left = Chunk::new();
    left.set_voxel(VoxelPos::new(31, 2, 3), VoxelType::Block);
    store.insert(ChunkPos::new(-1, 0, 0), Arc::new(left));
    store.insert(ChunkPos::new(1, 1, 1), Arc::new(Chunk::uniform(VoxelType::Block)));
    let view = ChunksFromMiddle::try_new(&store, middle).unwrap();

    assert_eq!(view.get_voxel(IVec3::new(0, 0, 0)).voxel_type, VoxelType::Block);
    assert_eq!(view.get_voxel(IVec3::new(1, 0, 0)).voxel_type, VoxelType::Air);
    assert_eq!(view.get_voxel(IVec3::new(31, 5, 7)).voxel_type, VoxelType::Block);
    // One step to the left of the middle chunk
    assert_eq!(view.get_voxel(IVec3::new(-1, 2, 3)).voxel_type, VoxelType::Block);
    assert_eq!(view.get_voxel(IVec3::new(-1, 3, 2)).voxel_type, VoxelType::Air);
    assert_eq!(view.get_voxel(IVec3::new(-32, 0, 0)).voxel_type, VoxelType::Air);
    // The neighbour that is stored as one voxel
    assert_eq!(view.get_voxel(IVec3::new(32, 32, 32)).voxel_type, VoxelType::Block);
    assert_eq!(view.get_voxel(IVec3::new(63, 40, 50)).voxel_type, VoxelType::Block);
    assert_eq!(view.get_voxel(IVec3::new(32, 31, 32)).voxel_type, VoxelType::Air);

    assert_eq!(view.get_voxel_no_neighbour(VoxelPos::new(31, 5, 7)).voxel_type, VoxelType::Block);
    assert_eq!(view.get_voxel_no_neighbour(VoxelPos::new(30, 5, 7)).voxel_type, VoxelType::Air);

    let (current, back, left, down) = view.get_adjacent_voxels(VoxelPos::new(0, 2, 3));
    assert_eq!(current.voxel_type, VoxelType::Air);
    assert_eq!(back.voxel_type, VoxelType::Air);
    assert_eq!(left.voxel_type, VoxelType::Block);
    assert_eq!(down.voxel_type, VoxelType::Air);
    let (current, back, left, down) = view.get_adjacent_voxels(VoxelPos::new(0, 1, 0));
    assert_eq!(current.voxel_type, VoxelType::Air);
    assert_eq!(back.voxel_type, VoxelType::Air);
    assert_eq!(left.voxel_type, VoxelType::Air);
    assert_eq!(down.voxel_type, VoxelType::Block);
    assert!(!view.are_all_voxels_same());
}

#[test]
fn all_voxels_same_only_for_uniform_chunks_of_one_type() {
    let middle = ChunkPos::new(0, 0, 0);
    let store = block_around(middle, Chunk::uniform(VoxelType::Air), VoxelType::Air);
    assert!(ChunksFromMiddle::try_new(&store, middle).unwrap().are_all_voxels_same());
    let store = block_around(middle, Chunk::uniform(VoxelType::Block), VoxelType::Block);
    assert!(ChunksFromMiddle::try_new(&store, middle).unwrap().are_all_voxels_same());
    let store = block_around(middle, Chunk::uniform(VoxelType::Block), VoxelType::Air);
    assert!(!ChunksFromMiddle::try_new(&store, middle).unwrap().are_all_voxels_same());
    // A chunk of air that is stored whole is not known to be uniform
    let store = block_around(middle, Chunk::new(), VoxelType::Air);
    assert!(!ChunksFromMiddle::try_new(&store, middle).unwrap().are_all_voxels_same());
    let mut store = block_around(middle, Chunk::uniform(VoxelType::Air), VoxelType::Air);
    store.insert(ChunkPos::new(1, 1, 1), Arc::new(Chunk::uniform(VoxelType::Block)));
    assert!(!ChunksFromMiddle::try_new(&store, middle).unwrap().are_all_voxels_same());
}

#[test]
fn with_voxels_finds_a_voxel_by_its_place_in_the_storage() {
    // A position beyond the chunk on one axis falls on the place of another voxel
    let chunk = Chunk::with_voxels(vec![(VoxelPos::new(33, 0, 0), VoxelType::Block)]);
    assert_eq!(chunk[33usize].voxel_type, VoxelType::Block);
    assert_eq!(chunk[VoxelPos::new(1, 1, 0)].voxel_type, VoxelType::Block);
    let solid = (0..32768usize).filter(|i| chunk[*i].voxel_type == VoxelType::Block).count();
    assert_eq!(solid, 1);
    assert_eq!(Chunk::with_voxels(Vec::new()).len(), 32768);
}
