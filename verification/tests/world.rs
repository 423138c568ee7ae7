use std::sync::Arc;
use voxel_stream::chunk::Chunk;
use voxel_stream::chunk_loading::ChunkLoader;
use voxel_stream::chunk_mesh::ChunkMesh;
use voxel_stream::constants::{
    CHUNKS_FROM_MIDDLE_SIZE, CHUNK_LOAD_DISTANCE, CHUNK_SIZE, CHUNK_SIZE_PADDED, MAX_CHUNK_LOADS,
    MAX_DATA_TASKS, MAX_MESH_TASKS,
};
use voxel_stream::positions::{ChunkPos, VoxelPos, WorldPos};
use voxel_stream::vertex::VertexU32;
use voxel_stream::voxel::VoxelType;
use voxel_stream::world::World;

fn line(from: i32, to: i32) -> Vec<ChunkPos> {
    (from..to).map(|x| ChunkPos::new(x, 0, 0)).collect()
}

fn make_block_resident(world: &mut World, from: i32, to: i32) {
    for x in from..=to {
        for y in -1..=1 {
            for z in -1..=1 {
                world.chunks.insert(ChunkPos::new(x, y, z), Arc::new(Chunk::uniform(VoxelType::Air)));
            }
        }
    }
}

#[test]
fn constants_of_the_pipeline() {
    assert_eq!(CHUNK_SIZE, 32);
    assert_eq!(CHUNK_SIZE_PADDED, 34);
    assert_eq!(CHUNKS_FROM_MIDDLE_SIZE, 3);
    assert_eq!(CHUNK_LOAD_DISTANCE, 12);
    assert_eq!(MAX_DATA_TASKS, 64);
    assert_eq!(MAX_MESH_TASKS, 64);
    assert_eq!(MAX_CHUNK_LOADS, 26000);
}

#[test]
fn new_world_is_empty() {
    let world = World::new();
    assert_eq!(world.chunks.len(), 0);
    assert_eq!(world.data_tasks.len(), 0);
    assert_eq!(world.chunk_entities.len(), 0);
    assert!(world.load_data_queue.is_empty());
    assert!(world.load_mesh_queue.is_empty());
    assert!(world.unload_data_queue.is_empty());
    assert!(world.unload_mesh_queue.is_empty());
    assert!(world.mesh_tasks.is_empty());
    assert_eq!(World::default().chunks.len(), 0);
}

#[test]
fn data_jobs_start_nearest_first() {
    let mut world = World::new();
    world.load_data_queue =
        vec![ChunkPos::new(5, 0, 0), ChunkPos::new(1, 0, 0), ChunkPos::new(-3, 0, 0), ChunkPos::new(0, 2, 0)];
    let started = world.start_data_tasks(ChunkPos::new(0, 0, 0));
    assert_eq!(
        started,
        vec![ChunkPos::new(1, 0, 0), ChunkPos::new(0, 2, 0), ChunkPos::new(-3, 0, 0), ChunkPos::new(5, 0, 0)]
    );
    assert!(world.load_data_queue.is_empty());
    assert_eq!(world.data_tasks.len(), 4);
    assert!(world.data_tasks.contains_key(&ChunkPos::new(-3, 0, 0)));
}

#[test]
fn data_jobs_in_flight_keep_within_the_cap() {
    let mut world = World::new();
    world.load_data_queue = line(0, 100);
    let started = world.start_data_tasks(ChunkPos::new(0, 0, 0));
    assert_eq!(started, line(0, 64));
    assert_eq!(world.data_tasks.len(), 64);
    assert_eq!(world.load_data_queue, line(64, 100));

    // Nothing more starts while the cap is reached
    assert_eq!(world.start_data_tasks(ChunkPos::new(0, 0, 0)), Vec::<ChunkPos>::new());
    assert_eq!(world.data_tasks.len(), 64);
    assert_eq!(world.load_data_queue.len(), 36);

    // Ten jobs end and make room for ten more
    for x in 0..10 {
        world.join_data(ChunkPos::new(x, 0, 0), Chunk::new());
    }
    assert_eq!(world.data_tasks.len(), 54);
    assert_eq!(world.chunks.len(), 10);
    let started = world.start_data_tasks(ChunkPos::new(0, 0, 0));
    assert_eq!(started, line(64, 74));
    assert_eq!(world.data_tasks.len(), 64);
}

#[test]
fn join_data_makes_the_chunk_resident() {
    let mut world = World::new();
    world.load_data_queue = vec![ChunkPos::new(1, 2, 3)];
    world.start_data_tasks(ChunkPos::new(0, 0, 0));
    let mut chunk = Chunk::new();
    chunk.set_voxel(VoxelPos::new(1, 1, 1), VoxelType::Block);
    world.join_data(ChunkPos::new(1, 2, 3), chunk);
    assert_eq!(world.data_tasks.len(), 0);
    let resident = world.chunks.get(&ChunkPos::new(1, 2, 3)).unwrap();
    assert_eq!(resident[VoxelPos::new(1, 1, 1)].voxel_type, VoxelType::Block);
    assert_eq!(resident.len(), 32768);
}

#[test]
fn join_data_passes_over_what_is_not_in_flight() {
    let mut world = World::new();
    world.join_data(ChunkPos::new(1, 2, 3), Chunk::new());
    assert_eq!(world.chunks.len(), 0);
    assert_eq!(world.data_tasks.len(), 0);
}

#[test]
fn unload_data_evicts_what_waits_for_it() {
    let mut world = World::new();
    make_block_resident(&mut world, 0, 0);
    assert_eq!(world.chunks.len(), 9);
    world.unload_data_queue = vec![ChunkPos::new(0, 0, 0), ChunkPos::new(0, 1, 1), ChunkPos::new(5, 5, 5)];
    world.unload_data();
    assert!(world.unload_data_queue.is_empty());
    assert_eq!(world.chunks.len(), 7);
    assert!(!world.chunks.contains_key(&ChunkPos::new(0, 0, 0)));
    assert!(!world.chunks.contains_key(&ChunkPos::new(0, 1, 1)));
    assert!(world.chunks.contains_key(&ChunkPos::new(0, 1, 0)));
}

#[test]
fn mesh_jobs_start_with_a_view_of_the_neighbourhood() {
    let mut world = World::new();
    make_block_resident(&mut world, -1, 2);
    world.load_mesh_queue = vec![ChunkPos::new(1, 0, 0), ChunkPos::new(0, 0, 0), ChunkPos::new(2, 0, 0)];
    let picked = world.start_mesh_tasks(ChunkPos::new(0, 0, 0));
    let positions: Vec<ChunkPos> = picked.iter().map(|job| job.0).collect();
    assert_eq!(positions, vec![ChunkPos::new(0, 0, 0), ChunkPos::new(1, 0, 0), ChunkPos::new(2, 0, 0)]);
    assert!(picked[0].1.is_some());
    assert!(picked[1].1.is_some());
    // The neighbourhood of the last one is not resident
    assert!(picked[2].1.is_none());
    assert_eq!(world.mesh_tasks, vec![ChunkPos::new(0, 0, 0), ChunkPos::new(1, 0, 0)]);
    assert!(world.load_mesh_queue.is_empty());
}

#[test]
fn mesh_jobs_in_flight_keep_within_the_cap() {
    let mut world = World::new();
    make_block_resident(&mut world, -1, 101);
    world.load_mesh_queue = line(0, 100);
    let picked = world.start_mesh_tasks(ChunkPos::new(0, 0, 0));
    assert_eq!(picked.len(), 64);
    assert_eq!(world.mesh_tasks, line(0, 64));
    assert_eq!(world.load_mesh_queue, line(64, 100));
    assert!(world.start_mesh_tasks(ChunkPos::new(0, 0, 0)).is_empty());

    let update = world.join_mesh(ChunkPos::new(3, 0, 0), None);
    assert!(update.spawn.is_none());
    assert!(update.despawn.is_none());
    assert_eq!(world.mesh_tasks.len(), 63);
    let picked = world.start_mesh_tasks(ChunkPos::new(0, 0, 0));
    assert_eq!(picked.len(), 1);
    assert_eq!(picked[0].0, ChunkPos::new(64, 0, 0));
    assert_eq!(world.mesh_tasks.len(), 64);
    let mut in_flight = world.mesh_tasks.clone();
    in_flight.sort_by_key(|pos| pos.x);
    in_flight.dedup();
    assert_eq!(in_flight.len(), 64);
}

#[test]
fn join_mesh_replaces_the_mesh_that_is_shown() {
    let mut world = World::new();
    make_block_resident(&mut world, -1, 1);
    let pos = ChunkPos::new(0, 0, 0);
    let mesh = || ChunkMesh { vertices: vec![VertexU32(1), VertexU32(2)], indices: vec![0, 1] };

    world.load_mesh_queue = vec![pos];
    world.start_mesh_tasks(pos);
    let update = world.join_mesh(pos, Some(mesh()));
    assert_eq!(update.despawn, None);
    assert_eq!(update.spawn.unwrap().indices, vec![0, 1]);
    assert!(world.mesh_tasks.is_empty());
    assert_eq!(world.mesh_spawned(pos, 41), None);
    assert_eq!(world.chunk_entities.get(&pos), Some(&41));

    // A second mesh for the position replaces the first
    world.load_mesh_queue = vec![pos];
    world.start_mesh_tasks(pos);
    let update = world.join_mesh(pos, Some(mesh()));
    assert_eq!(update.despawn, Some(41));
    assert!(update.spawn.is_some());
    assert!(!world.chunk_entities.contains_key(&pos));
    assert_eq!(world.mesh_spawned(pos, 42), None);

    // A job without a mesh removes what was shown
    world.load_mesh_queue = vec![pos];
    world.start_mesh_tasks(pos);
    let update = world.join_mesh(pos, None);
    assert_eq!(update.despawn, Some(42));
    assert!(update.spawn.is_none());
    assert_eq!(world.chunk_entities.len(), 0);
}

#[test]
fn join_mesh_passes_over_what_is_not_in_flight() {
    let mut world = World::new();
    world.mesh_spawned(ChunkPos::new(0, 0, 0), 7);
    let update = world.join_mesh(ChunkPos::new(0, 0, 0), Some(ChunkMesh::default()));
    assert!(update.spawn.is_none());
    assert!(update.despawn.is_none());
    assert_eq!(world.chunk_entities.get(&ChunkPos::new(0, 0, 0)), Some(&7));
    assert_eq!(world.mesh_spawned(ChunkPos::new(0, 0, 0), 8), Some(7));
}

#[test]
fn unload_mesh_hands_out_the_handles_to_destroy() {
    let mut world = World::new();
    world.mesh_spawned(ChunkPos::new(1, 0, 0), 11);
    world.mesh_spawned(ChunkPos::new(2, 0, 0), 12);
    world.mesh_spawned(ChunkPos::new(3, 0, 0), 13);
    world.unload_mesh_queue =
        vec![ChunkPos::new(3, 0, 0), ChunkPos::new(9, 0, 0), ChunkPos::new(1, 0, 0), ChunkPos::new(3, 0, 0)];
    let destroyed = world.unload_mesh();
    assert_eq!(destroyed, vec![13, 11]);
    assert!(world.unload_mesh_queue.is_empty());
    assert_eq!(world.chunk_entities.len(), 1);
    assert_eq!(world.chunk_entities.get(&ChunkPos::new(2, 0, 0)), Some(&12));
}

#[test]
fn a_tick_after_tick_run_of_the_pipeline() {
    let mut loader = ChunkLoader::new(1);
    let mut world = World::new();
    let observer = WorldPos::new(10, 10, 10);
    let mut meshed = 0;
    let mut next_handle = 0;
    for _tick in 0..8 {
        loader.detect_move(observer, &mut world);
        loader.unload_chunks(&mut world);
        loader.load_chunks(&mut world);
        loader.unload_mesh(&mut world);
        loader.load_mesh(&mut world);
        world.unload_data();
        world.unload_mesh();

        let started = world.start_data_tasks(loader.prev_chunk_pos);
        assert!(world.data_tasks.len() <= MAX_DATA_TASKS);
        let picked = world.start_mesh_tasks(loader.prev_chunk_pos);
        assert!(world.mesh_tasks.len() <= MAX_MESH_TASKS);

        for pos in started {
            let mut chunk = Chunk::new();
            chunk.set_voxel(VoxelPos::new(1, 1, 1), VoxelType::Block);
            world.join_data(pos, chunk);
        }
        for (pos, view) in picked {
            let mesh = voxel_stream::greedy_mesher::build_chunk_mesh(&view.unwrap(), voxel_stream::lod::Lod::L32);
            let update = world.join_mesh(pos, mesh);
            assert!(update.despawn.is_none());
            assert_eq!(update.spawn.unwrap().vertices.len(), 24);
            world.mesh_spawned(pos, next_handle);
            next_handle += 1;
            meshed += 1;
        }
    }
    assert_eq!(world.chunks.len(), 125);
    assert_eq!(meshed, 27);
    assert_eq!(world.chunk_entities.len(), 27);
    assert!(loader.data_load_queue.is_empty());
    assert!(loader.mesh_load_queue.is_empty());
    assert_eq!(world.data_tasks.len(), 0);
    assert!(world.mesh_tasks.is_empty());
}

#[test]
fn a_job_that_fails_frees_its_slot() {
    let mut world = World::new();
    make_block_resident(&mut world, -1, 1);
    world.load_data_queue = vec![ChunkPos::new(9, 9, 9)];
    world.load_mesh_queue = vec![ChunkPos::new(0, 0, 0)];
    world.start_data_tasks(ChunkPos::new(0, 0, 0));
    world.start_mesh_tasks(ChunkPos::new(0, 0, 0));
    world.mesh_spawned(ChunkPos::new(0, 0, 0), 5);
    assert_eq!(world.data_tasks.len(), 1);
    assert_eq!(world.mesh_tasks.len(), 1);

    world.drop_data_job(ChunkPos::new(9, 9, 9));
    world.drop_mesh_job(ChunkPos::new(0, 0, 0));
    assert_eq!(world.data_tasks.len(), 0);
    assert!(world.mesh_tasks.is_empty());
    assert!(!world.chunks.contains_key(&ChunkPos::new(9, 9, 9)));
    assert_eq!(world.chunk_entities.get(&ChunkPos::new(0, 0, 0)), Some(&5));
    // Dropping what is not in flight changes nothing
    world.drop_data_job(ChunkPos::new(9, 9, 9));
    world.drop_mesh_job(ChunkPos::new(0, 0, 0));
    assert_eq!(world.data_tasks.len(), 0);
}
