use std::collections::VecDeque;
use std::sync::Arc;
use voxel_stream::chunk::Chunk;
use voxel_stream::chunk_loading::{neighbourhood_is_resident, ChunkLoader};
use voxel_stream::chunk_map::ChunkMap;
use voxel_stream::positions::{ChunkPos, WorldPos};
use voxel_stream::queues::{
    cancel_all, deque_contains, extend_deque, extend_queue, position_in, remove_first, retain_not_in,
};
use voxel_stream::voxel::VoxelType;
use voxel_stream::world::World;

fn sorted_positions(queue: &[ChunkPos]) -> Vec<(i32, i32, i32)> {
    let mut positions: Vec<(i32, i32, i32)> = queue.iter().map(|pos| pos.to_tuple()).collect();
    positions.sort();
    positions
}

fn cube_around(center: (i32, i32, i32), radius: i32) -> Vec<(i32, i32, i32)> {
    let mut positions = Vec::new();
    for x in -radius..=radius {
        for y in -radius..=radius {
            for z in -radius..=radius {
                positions.push((center.0 + x, center.1 + y, center.2 + z));
            }
        }
    }
    positions.sort();
    positions
}

fn is_sorted_by_distance(queue: &[ChunkPos], origin: ChunkPos) -> bool {
    queue.windows(2).all(|pair| pair[0].distance_squared(origin) <= pair[1].distance_squared(origin))
}

fn make_resident(world: &mut World, positions: &[ChunkPos]) {
    for pos in positions {
        world.chunks.insert(*pos, Arc::new(Chunk::uniform(VoxelType::Air)));
    }
}

#[test]
fn offsets_fill_the_cube_nearest_first() {
    for radius in 0..4u32 {
        let offsets = ChunkLoader::make_spherical_offsets(radius);
        let side = 2 * radius as usize + 1;
        assert_eq!(offsets.len(), side * side * side);
        assert_eq!(sorted_positions(&offsets), cube_around((0, 0, 0), radius as i32));
        assert!(is_sorted_by_distance(&offsets, ChunkPos::new(0, 0, 0)));
        assert_eq!(offsets[0], ChunkPos::new(0, 0, 0));
    }
}

#[test]
fn offsets_at_the_same_distance_keep_raster_order() {
    let offsets = ChunkLoader::make_spherical_offsets(1);
    let nearest: Vec<(i32, i32, i32)> = offsets[0..7].iter().map(|pos| pos.to_tuple()).collect();
    assert_eq!(
        nearest,
        vec![(0, 0, 0), (0, 0, -1), (0, -1, 0), (-1, 0, 0), (1, 0, 0), (0, 1, 0), (0, 0, 1)]
    );
    let farthest: Vec<(i32, i32, i32)> = offsets[19..27].iter().map(|pos| pos.to_tuple()).collect();
    assert_eq!(
        farthest,
        vec![
            (-1, -1, -1),
            (1, -1, -1),
            (-1, 1, -1),
            (1, 1, -1),
            (-1, -1, 1),
            (1, -1, 1),
            (-1, 1, 1),
            (1, 1, 1)
        ]
    );
}

#[test]
fn offsets_of_a_wide_radius() {
    let offsets = ChunkLoader::make_spherical_offsets(13);
    assert_eq!(offsets.len(), 27 * 27 * 27);
    assert!(is_sorted_by_distance(&offsets, ChunkPos::new(0, 0, 0)));
    assert_eq!(offsets[27 * 27 * 27 - 1].distance_squared(ChunkPos::new(0, 0, 0)), 3 * 13 * 13);
}

#[test]
fn new_loader_reaches_one_chunk_further_for_data() {
    let loader = ChunkLoader::new(2);
    assert_eq!(loader.prev_chunk_pos, ChunkPos::new(999, 999, 999));
    assert_eq!(loader.chunks_per_frame, 32768);
    assert_eq!(loader.data_offset, 0);
    assert_eq!(loader.mesh_offset, 0);
    assert_eq!(loader.data_sampling_offsets.len(), 7 * 7 * 7);
    assert_eq!(loader.mesh_sampling_offsets.len(), 5 * 5 * 5);
    assert_eq!(loader.mesh_sampling_offsets, ChunkLoader::make_spherical_offsets(2));
    assert_eq!(loader.data_sampling_offsets, ChunkLoader::make_spherical_offsets(3));
    assert!(loader.data_load_queue.is_empty());
    assert!(loader.mesh_load_queue.is_empty());
    assert!(loader.data_unload_queue.is_empty());
    assert!(loader.mesh_unload_queue.is_empty());
}

#[test]
fn first_look_queues_everything_in_reach() {
    let mut loader = ChunkLoader::new(1);
    let mut world = World::new();
    loader.detect_move(WorldPos::new(5, 40, -3), &mut world);
    assert_eq!(loader.prev_chunk_pos, ChunkPos::new(0, 1, -1));
    assert_eq!(sorted_positions(&loader.data_load_queue), cube_around((0, 1, -1), 2));
    assert_eq!(sorted_positions(&loader.mesh_load_queue), cube_around((0, 1, -1), 1));
    assert!(is_sorted_by_distance(&loader.data_load_queue, ChunkPos::new(0, 1, -1)));
    assert!(is_sorted_by_distance(&loader.mesh_load_queue, ChunkPos::new(0, 1, -1)));
    assert_eq!(loader.data_load_queue[0], ChunkPos::new(0, 1, -1));
    let leaving: Vec<ChunkPos> = loader.data_unload_queue.iter().copied().collect();
    assert_eq!(sorted_positions(&leaving), cube_around((999, 999, 999), 2));
    let leaving: Vec<ChunkPos> = loader.mesh_unload_queue.iter().copied().collect();
    assert_eq!(sorted_positions(&leaving), cube_around((999, 999, 999), 1));
}

#[test]
fn looking_twice_from_the_same_place_queues_nothing_more() {
    let mut loader = ChunkLoader::new(1);
    let mut world = World::new();
    loader.detect_move(WorldPos::new(0, 0, 0), &mut world);
    let data_load = loader.data_load_queue.clone();
    let mesh_load = loader.mesh_load_queue.clone();
    let data_unload = loader.data_unload_queue.clone();
    let mesh_unload = loader.mesh_unload_queue.clone();
    loader.detect_move(WorldPos::new(0, 0, 0), &mut world);
    assert_eq!(loader.data_load_queue, data_load);
    assert_eq!(loader.mesh_load_queue, mesh_load);
    assert_eq!(loader.data_unload_queue, data_unload);
    assert_eq!(loader.mesh_unload_queue, mesh_unload);
    // Another place inside the same chunk
    loader.detect_move(WorldPos::new(31, 31, 31), &mut world);
    assert_eq!(loader.data_load_queue, data_load);
    assert_eq!(loader.data_unload_queue, data_unload);
    assert!(world.load_data_queue.is_empty());
}

#[test]
fn a_step_queues_the_difference() {
    let mut loader = ChunkLoader::new(1);
    let mut world = World::new();
    loader.detect_move(WorldPos::new(0, 0, 0), &mut world);
    loader.data_load_queue.clear();
    loader.mesh_load_queue.clear();
    loader.data_unload_queue.clear();
    loader.mesh_unload_queue.clear();

    loader.detect_move(WorldPos::new(32, 0, 0), &mut world);
    assert_eq!(loader.prev_chunk_pos, ChunkPos::new(1, 0, 0));
    let mut entering = Vec::new();
    let mut leaving = Vec::new();
    for y in -2..=2 {
        for z in -2..=2 {
            entering.push((3, y, z));
            leaving.push((-2, y, z));
        }
    }
    entering.sort();
    leaving.sort();
    assert_eq!(sorted_positions(&loader.data_load_queue), entering);
    let unload: Vec<ChunkPos> = loader.data_unload_queue.iter().copied().collect();
    assert_eq!(sorted_positions(&unload), leaving);
    assert_eq!(loader.mesh_load_queue.len(), 9);
    assert_eq!(loader.mesh_unload_queue.len(), 9);
    assert!(loader.mesh_load_queue.iter().all(|pos| pos.x == 2));
    assert!(loader.mesh_unload_queue.iter().all(|pos| pos.x == -1));
    assert!(is_sorted_by_distance(&loader.data_load_queue, ChunkPos::new(1, 0, 0)));
    assert_eq!(loader.data_load_queue[0], ChunkPos::new(3, 0, 0));
}

#[test]
fn no_position_waits_for_loading_and_unloading() {
    let mut loader = ChunkLoader::new(1);
    let mut world = World::new();
    for step in [0, 32, 64, 32, 0, -32, 96, 0] {
        loader.detect_move(WorldPos::new(step, -step, 0), &mut world);
        for pos in &loader.data_load_queue {
            assert!(!loader.data_unload_queue.contains(pos));
        }
        for pos in &loader.mesh_load_queue {
            assert!(!loader.mesh_unload_queue.contains(pos));
        }
        assert!(is_sorted_by_distance(&loader.data_load_queue, loader.prev_chunk_pos));
        assert!(is_sorted_by_distance(&loader.mesh_load_queue, loader.prev_chunk_pos));
    }
}

#[test]
fn moving_away_cancels_what_waits_in_the_world() {
    let mut loader = ChunkLoader::new(1);
    let mut world = World::new();
    loader.detect_move(WorldPos::new(0, 0, 0), &mut world);
    loader.load_chunks(&mut world);
    loader.data_unload_queue.clear();
    loader.mesh_unload_queue.clear();
    assert_eq!(world.load_data_queue.len(), 125);
    assert!(world.load_data_queue.contains(&ChunkPos::new(-2, 0, 0)));

    loader.detect_move(WorldPos::new(32, 0, 0), &mut world);
    assert_eq!(world.load_data_queue.len(), 100);
    assert!(!world.load_data_queue.contains(&ChunkPos::new(-2, 0, 0)));
    assert!(world.load_data_queue.contains(&ChunkPos::new(-1, 0, 0)));
}

#[test]
fn load_chunks_hands_over_what_is_not_busy() {
    let mut loader = ChunkLoader::new(1);
    let mut world = World::new();
    loader.data_load_queue = vec![
        ChunkPos::new(0, 0, 0),
        ChunkPos::new(1, 0, 0),
        ChunkPos::new(2, 0, 0),
        ChunkPos::new(3, 0, 0),
        ChunkPos::new(1, 0, 0),
        ChunkPos::new(4, 0, 0),
    ];
    make_resident(&mut world, &[ChunkPos::new(0, 0, 0)]);
    world.data_tasks.insert(ChunkPos::new(2, 0, 0), ());
    world.unload_data_queue = vec![ChunkPos::new(3, 0, 0), ChunkPos::new(0, 0, 0), ChunkPos::new(3, 0, 0)];
    loader.load_chunks(&mut world);
    assert!(loader.data_load_queue.is_empty());
    assert_eq!(
        world.load_data_queue,
        vec![ChunkPos::new(1, 0, 0), ChunkPos::new(3, 0, 0), ChunkPos::new(4, 0, 0)]
    );
    // Only the first entry of a position is taken off the unloading queue
    assert_eq!(world.unload_data_queue, vec![ChunkPos::new(0, 0, 0), ChunkPos::new(3, 0, 0)]);
}

#[test]
fn load_chunks_waits_while_the_jobs_are_at_the_cap() {
    let mut loader = ChunkLoader::new(1);
    let mut world = World::new();
    for x in 0..64 {
        world.data_tasks.insert(ChunkPos::new(x, 5, 5), ());
    }
    loader.data_load_queue = vec![ChunkPos::new(0, 0, 0)];
    loader.load_chunks(&mut world);
    assert_eq!(loader.data_load_queue, vec![ChunkPos::new(0, 0, 0)]);
    assert!(world.load_data_queue.is_empty());
}

#[test]
fn load_chunks_hands_over_a_bounded_number() {
    let mut loader = ChunkLoader::new(1);
    let mut world = World::new();
    for i in 0..26010 {
        loader.data_load_queue.push(ChunkPos::new(i % 1000, i / 1000, 0));
    }
    loader.load_chunks(&mut world);
    assert_eq!(loader.data_load_queue.len(), 10);
    assert_eq!(loader.data_load_queue[0], ChunkPos::new(0, 26, 0));
    assert_eq!(world.load_data_queue.len(), 26000);
}

#[test]
fn unload_chunks_hands_over_what_is_resident() {
    let mut loader = ChunkLoader::new(1);
    let mut world = World::new();
    make_resident(&mut world, &[ChunkPos::new(1, 0, 0), ChunkPos::new(3, 0, 0)]);
    loader.data_unload_queue =
        VecDeque::from(vec![ChunkPos::new(1, 0, 0), ChunkPos::new(2, 0, 0), ChunkPos::new(3, 0, 0)]);
    world.unload_data_queue = vec![ChunkPos::new(9, 9, 9)];
    loader.unload_chunks(&mut world);
    assert!(loader.data_unload_queue.is_empty());
    assert_eq!(
        world.unload_data_queue,
        vec![ChunkPos::new(9, 9, 9), ChunkPos::new(1, 0, 0), ChunkPos::new(3, 0, 0)]
    );
}

#[test]
fn load_mesh_retries_until_the_neighbourhood_is_resident() {
    let mut loader = ChunkLoader::new(1);
    let mut world = World::new();
    let mut block = Vec::new();
    for x in -1..=1 {
        for y in -1..=1 {
            for z in -1..=1 {
                block.push(ChunkPos::new(x, y, z));
            }
        }
    }
    make_resident(&mut world, &block[0..26]);
    loader.mesh_load_queue = vec![ChunkPos::new(0, 0, 0), ChunkPos::new(7, 7, 7)];
    world.unload_mesh_queue = vec![ChunkPos::new(0, 0, 0)];
    assert!(!neighbourhood_is_resident(&world.chunks, ChunkPos::new(0, 0, 0)));
    loader.load_mesh(&mut world);
    assert_eq!(loader.mesh_load_queue, vec![ChunkPos::new(0, 0, 0), ChunkPos::new(7, 7, 7)]);
    assert!(world.load_mesh_queue.is_empty());
    assert_eq!(world.unload_mesh_queue, vec![ChunkPos::new(0, 0, 0)]);

    make_resident(&mut world, &block[26..27]);
    assert!(neighbourhood_is_resident(&world.chunks, ChunkPos::new(0, 0, 0)));
    assert!(!neighbourhood_is_resident(&world.chunks, ChunkPos::new(1, 0, 0)));
    loader.load_mesh(&mut world);
    assert_eq!(loader.mesh_load_queue, vec![ChunkPos::new(7, 7, 7)]);
    assert_eq!(world.load_mesh_queue, vec![ChunkPos::new(0, 0, 0)]);
    assert!(world.unload_mesh_queue.is_empty());
}

#[test]
fn load_mesh_retries_what_waits_or_is_in_flight() {
    let mut loader = ChunkLoader::new(1);
    let mut world = World::new();
    let mut block = Vec::new();
    for x in -1..=2 {
        for y in -1..=1 {
            for z in -1..=1 {
                block.push(ChunkPos::new(x, y, z));
            }
        }
    }
    make_resident(&mut world, &block);
    world.load_mesh_queue = vec![ChunkPos::new(0, 0, 0)];
    world.mesh_tasks = vec![ChunkPos::new(1, 0, 0)];
    loader.mesh_load_queue = vec![ChunkPos::new(0, 0, 0), ChunkPos::new(1, 0, 0)];
    loader.load_mesh(&mut world);
    assert_eq!(world.load_mesh_queue, vec![ChunkPos::new(0, 0, 0)]);
    assert_eq!(loader.mesh_load_queue, vec![ChunkPos::new(0, 0, 0), ChunkPos::new(1, 0, 0)]);
}

#[test]
fn unload_mesh_hands_over_everything() {
    let mut loader = ChunkLoader::new(1);
    let mut world = World::new();
    loader.mesh_unload_queue = VecDeque::from(vec![ChunkPos::new(1, 0, 0), ChunkPos::new(2, 0, 0)]);
    world.unload_mesh_queue = vec![ChunkPos::new(9, 9, 9)];
    loader.unload_mesh(&mut world);
    assert!(loader.mesh_unload_queue.is_empty());
    assert_eq!(
        world.unload_mesh_queue,
        vec![ChunkPos::new(9, 9, 9), ChunkPos::new(1, 0, 0), ChunkPos::new(2, 0, 0)]
    );
}

#[test]
fn queues_search_and_cancel() {
    let a = ChunkPos::new(1, 0, 0);
    let b = ChunkPos::new(2, 0, 0);
    let c = ChunkPos::new(3, 0, 0);
    let mut queue = vec![a, b, a, c];
    assert_eq!(position_in(&queue, &a), Some(0));
    assert_eq!(position_in(&queue, &c), Some(3));
    assert_eq!(position_in(&queue, &ChunkPos::new(4, 0, 0)), None);
    remove_first(&mut queue, &a);
    assert_eq!(queue, vec![b, a, c]);
    remove_first(&mut queue, &ChunkPos::new(4, 0, 0));
    assert_eq!(queue, vec![b, a, c]);

    let mut queue = vec![a, b, a, c, a];
    cancel_all(&mut queue, &VecDeque::from(vec![a, c, a, ChunkPos::new(9, 9, 9)]));
    assert_eq!(queue, vec![b, a]);

    let unwanted = VecDeque::from(vec![a, c]);
    assert!(deque_contains(&unwanted, &a));
    assert!(!deque_contains(&unwanted, &b));
    let mut queue = vec![a, b, a, c, b];
    retain_not_in(&mut queue, &unwanted);
    assert_eq!(queue, vec![b, b]);

    let mut queue = vec![a];
    extend_queue(&mut queue, &vec![b, c]);
    assert_eq!(queue, vec![a, b, c]);
    let mut queue = VecDeque::from(vec![a]);
    extend_deque(&mut queue, &vec![b, c]);
    assert_eq!(queue, VecDeque::from(vec![a, b, c]));
}

#[test]
fn neighbourhood_of_an_empty_store_is_not_resident() {
    let store: ChunkMap<u64> = ChunkMap::new();
    assert!(!neighbourhood_is_resident(&store, ChunkPos::new(0, 0, 0)));
    assert!(!neighbourhood_is_resident(&store, ChunkPos::new(i32::MIN, 0, i32::MAX)));
}
