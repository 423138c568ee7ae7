use voxel_stream::positions::{
    chunk_pos_to_index_bounds, index_to_chunk_pos_bounds, ChunkPos, IVec3, VoxelPos, WorldPos,
};

#[test]
fn world_pos_splits_into_voxel_and_chunk() {
    let (voxel, chunk) = WorldPos::to_voxel_pos(WorldPos::new(33, 64, 95));
    assert_eq!(voxel, VoxelPos::new(1, 0, 31));
    assert_eq!(chunk, ChunkPos::new(1, 2, 2));
}

#[test]
fn negative_world_pos_belongs_to_the_chunk_below() {
    let (voxel, chunk) = WorldPos::to_voxel_pos(WorldPos::new(-1, -32, -33));
    assert_eq!(voxel, VoxelPos::new(31, 0, 31));
    assert_eq!(chunk, ChunkPos::new(-1, -1, -2));
    assert_eq!(WorldPos::from_voxel_pos(voxel, chunk), WorldPos::new(-1, -32, -33));
}

#[test]
fn world_pos_round_trip_over_a_range() {
    let mut w = -200;
    while w <= 200 {
        let pos = WorldPos::new(w, -w, w * 7);
        let (voxel, chunk) = WorldPos::to_voxel_pos(pos);
        assert!(voxel.x < 32 && voxel.y < 32 && voxel.z < 32);
        assert_eq!(WorldPos::from_voxel_pos(voxel, chunk), pos);
        w += 1;
    }
}

#[test]
fn world_pos_round_trip_at_the_limits() {
    for w in [i32::MIN, i32::MIN + 1, -1, 0, 1, i32::MAX - 1, i32::MAX] {
        let pos = WorldPos::new(w, w, w);
        let (voxel, chunk) = WorldPos::to_voxel_pos(pos);
        assert_eq!(WorldPos::from_voxel_pos(voxel, chunk), pos);
    }
    let (voxel, chunk) = WorldPos::to_voxel_pos(WorldPos::splat(i32::MIN));
    assert_eq!(voxel, VoxelPos::new(0, 0, 0));
    assert_eq!(chunk, ChunkPos::splat(-67108864));
}

#[test]
fn voxel_index_runs_x_first() {
    assert_eq!(VoxelPos::new(0, 0, 0).to_index(), 0);
    assert_eq!(VoxelPos::new(1, 0, 0).to_index(), 1);
    assert_eq!(VoxelPos::new(0, 1, 0).to_index(), 32);
    assert_eq!(VoxelPos::new(0, 0, 1).to_index(), 1024);
    assert_eq!(VoxelPos::new(31, 31, 31).to_index(), 32767);
    assert_eq!(VoxelPos::new(3, 4, 5).to_index(), 3 + (4 + 5 * 32) * 32);
}

#[test]
fn voxel_index_round_trip() {
    for index in [0usize, 1, 31, 32, 1023, 1024, 5000, 32767] {
        let pos = VoxelPos::from_index(index);
        assert_eq!(pos.to_index(), index);
    }
    assert_eq!(VoxelPos::from_index(5283), VoxelPos::new(3, 5, 5));
    assert_eq!(VoxelPos::from_index(32768 + 7), VoxelPos::new(7, 0, 0));
}

#[test]
fn tuples_and_positions_convert() {
    assert_eq!(ChunkPos::from_tuple((1, -2, 3)), ChunkPos::new(1, -2, 3));
    assert_eq!(ChunkPos::new(1, -2, 3).to_tuple(), (1, -2, 3));
    assert_eq!(ChunkPos::from((4, 5, 6)), ChunkPos::new(4, 5, 6));
    let tuple: (i32, i32, i32) = ChunkPos::new(7, 8, 9).into();
    assert_eq!(tuple, (7, 8, 9));
    assert_eq!(VoxelPos::from_tuple((1, 2, 3)), VoxelPos::new(1, 2, 3));
    assert_eq!(VoxelPos::new(1, 2, 3).to_tuple(), (1, 2, 3));
    assert_eq!(VoxelPos::from((1, 2, 3)), VoxelPos::new(1, 2, 3));
    assert_eq!(WorldPos::from((1, 2, 3)), WorldPos::new(1, 2, 3));
    assert_eq!(IVec3::from((1, -2, 3)), IVec3::new(1, -2, 3));
    assert_eq!(ChunkPos::splat(-4), ChunkPos::new(-4, -4, -4));
    assert_eq!(IVec3::splat(2), IVec3::new(2, 2, 2));
}

#[test]
fn distance_squared_is_euclidean() {
    let a = ChunkPos::new(1, 2, 3);
    let b = ChunkPos::new(-1, 5, 3);
    assert_eq!(a.distance_squared(b), 4 + 9);
    assert_eq!(b.distance_squared(a), 13);
    assert_eq!(a.distance_squared(a), 0);
    assert_eq!(ChunkPos::new(37837, 0, 0).distance_squared(ChunkPos::new(0, 37837, 37837)), 4294915707);
}

#[test]
fn index_to_chunk_pos_walks_the_cube() {
    assert_eq!(index_to_chunk_pos_bounds(0, 3), ChunkPos::new(0, 0, 0));
    assert_eq!(index_to_chunk_pos_bounds(1, 3), ChunkPos::new(1, 0, 0));
    assert_eq!(index_to_chunk_pos_bounds(3, 3), ChunkPos::new(0, 1, 0));
    assert_eq!(index_to_chunk_pos_bounds(9, 3), ChunkPos::new(0, 0, 1));
    assert_eq!(index_to_chunk_pos_bounds(13, 3), ChunkPos::new(1, 1, 1));
    assert_eq!(index_to_chunk_pos_bounds(26, 3), ChunkPos::new(2, 2, 2));
    // Beyond the cube only z keeps growing
    assert_eq!(index_to_chunk_pos_bounds(27, 3), ChunkPos::new(0, 0, 3));
}

#[test]
fn chunk_pos_to_index_is_the_inverse_inside_the_cube() {
    for index in 0..27usize {
        let pos = index_to_chunk_pos_bounds(index, 3);
        assert_eq!(chunk_pos_to_index_bounds(pos, 3), index);
    }
    assert_eq!(chunk_pos_to_index_bounds(ChunkPos::new(1, 1, 1), 3), 13);
    // Only x is reduced into the cube
    assert_eq!(chunk_pos_to_index_bounds(ChunkPos::new(4, 0, 0), 3), 1);
    assert_eq!(chunk_pos_to_index_bounds(ChunkPos::new(-1, 1, 0), 3), 2);
}

#[test]
fn positions_add_and_subtract() {
    assert_eq!(ChunkPos::new(1, 2, 3) + ChunkPos::new(-1, -1, 5), ChunkPos::new(0, 1, 8));
    assert_eq!(ChunkPos::new(1, 2, 3) - ChunkPos::new(-1, -1, 5), ChunkPos::new(2, 3, -2));
    assert_eq!(ChunkPos::new(1, -2, 3) * 3, ChunkPos::new(3, -6, 9));
    assert_eq!(WorldPos::new(1, 2, 3) + WorldPos::new(1, 1, 1), WorldPos::new(2, 3, 4));
    assert_eq!(IVec3::new(1, 2, 3) + IVec3::new(1, 1, 1), IVec3::new(2, 3, 4));
    assert_eq!(IVec3::new(1, 2, 3) - IVec3::new(1, 1, 1), IVec3::new(0, 1, 2));
    assert_eq!(VoxelPos::new(1, 2, 3) + VoxelPos::new(1, 1, 1), VoxelPos::new(2, 3, 4));
    assert_eq!(VoxelPos::new(1, 2, 3) - VoxelPos::new(1, 1, 1), VoxelPos::new(0, 1, 2));
    assert_eq!(VoxelPos::new(1, 2, 3) * 2, VoxelPos::new(2, 4, 6));
    assert_eq!(VoxelPos::new(33, 64, 95) / 32, VoxelPos::new(1, 2, 2));
    assert_eq!(VoxelPos::new(33, 64, 95) % 32, VoxelPos::new(1, 0, 31));
}

#[test]
fn division_of_signed_positions_rounds_towards_zero() {
    assert_eq!(ChunkPos::new(7, -7, 64) / 2, ChunkPos::new(3, -3, 32));
    assert_eq!(ChunkPos::new(7, -7, 64) / -2, ChunkPos::new(-3, 3, -32));
    assert_eq!(ChunkPos::new(-33, 31, -32) / 32, ChunkPos::new(-1, 0, -1));
    assert_eq!(ChunkPos::new(i32::MIN, i32::MAX, 0) / 1, ChunkPos::new(i32::MIN, i32::MAX, 0));
    assert_eq!(WorldPos::new(7, -7, 64) % 32, WorldPos::new(7, -7, 0));
    assert_eq!(WorldPos::new(-33, 33, -1) % 32, WorldPos::new(-1, 1, -1));
    assert_eq!(WorldPos::new(-33, 33, i32::MIN) % -32, WorldPos::new(-1, 1, 0));
    assert_eq!(WorldPos::new(5, -5, i32::MIN) % -1, WorldPos::new(0, 0, 0));
}

#[test]
fn voxel_pos_and_vectors_convert() {
    assert_eq!(VoxelPos::new(1, 2, 3).to_ivec3(), IVec3::new(1, 2, 3));
    assert_eq!(VoxelPos::new(1, 2, 3).to_i32(), (1, 2, 3));
    assert_eq!(VoxelPos::from_ivec3(IVec3::new(1, 2, 3)), VoxelPos::new(1, 2, 3));
    // Negative coordinates are clamped
    assert_eq!(VoxelPos::from_ivec3(IVec3::new(-1, 2, -30)), VoxelPos::new(0, 2, 0));
    assert_eq!(ChunkPos::new(-1, 2, 3).to_ivec3(), IVec3::new(-1, 2, 3));
}
