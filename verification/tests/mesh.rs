use std::sync::Arc;
use voxel_stream::chunk::Chunk;
use voxel_stream::chunk_from_middle::ChunksFromMiddle;
use voxel_stream::chunk_map::ChunkMap;
use voxel_stream::chunk_mesh::{generate_indices, ChunkMesh, Direction, FaceDir, GreedyQuad, Quad};
use voxel_stream::culled_mesher;
use voxel_stream::greedy_mesher::{adjacent_ao_dir, build_chunk_mesh, greedy_mesh_binary_plane};
use voxel_stream::lod::Lod;
use voxel_stream::positions::{ChunkPos, IVec2, IVec3, VoxelPos};
use voxel_stream::vertex::{Vertex, VertexU32};
use voxel_stream::voxel::VoxelType;

fn view_of(centre: Chunk, around: VoxelType) -> ChunksFromMiddle {
    let mut store: ChunkMap<Arc<Chunk>> = ChunkMap::new();
    for z in -1..=1 {
        for y in -1..=1 {
            for x in -1..=1 {
                if (x, y, z) != (0, 0, 0) {
                    store.insert(ChunkPos::new(x, y, z), Arc::new(Chunk::uniform(around)));
                }
            }
        }
    }
    store.insert(ChunkPos::new(0, 0, 0), Arc::new(centre));
    ChunksFromMiddle::try_new(&store, ChunkPos::new(0, 0, 0)).unwrap()
}

fn unpacked(mesh: &ChunkMesh) -> Vec<Vertex> {
    mesh.vertices.iter().map(|vertex| Vertex::from_u32(*vertex)).collect()
}

fn quads_with_normal(mesh: &ChunkMesh, normal: usize) -> usize {
    unpacked(mesh).iter().filter(|vertex| vertex.normal == normal).count() / 4
}

fn words(vertices: &Vec<VertexU32>) -> Vec<u32> {
    vertices.iter().map(|vertex| u32::from(*vertex)).collect()
}

#[test]
fn indices_make_two_triangles_per_quad() {
    assert_eq!(generate_indices(0), Vec::<u32>::new());
    assert_eq!(generate_indices(4), vec![0, 1, 2, 0, 2, 3]);
    assert_eq!(generate_indices(8), vec![0, 1, 2, 0, 2, 3, 4, 5, 6, 4, 6, 7]);
    // Corners that are left over count as a quad
    assert_eq!(generate_indices(5), vec![0, 1, 2, 0, 2, 3, 4, 5, 6, 4, 6, 7]);
    assert_eq!(generate_indices(400).len(), 600);
}

#[test]
fn quad_corners_by_direction() {
    let pos = VoxelPos::new(1, 2, 3);
    assert_eq!(Quad::from_dir(pos, Direction::Left).corners, [[1, 2, 3], [1, 2, 4], [1, 3, 4], [1, 3, 3]]);
    assert_eq!(Quad::from_dir(pos, Direction::Right).corners, [[1, 3, 3], [1, 3, 4], [1, 2, 4], [1, 2, 3]]);
    assert_eq!(Quad::from_dir(pos, Direction::Back).corners, [[1, 2, 3], [1, 3, 3], [2, 3, 3], [2, 2, 3]]);
    assert_eq!(Quad::from_dir(pos, Direction::Front).corners, [[2, 2, 3], [2, 3, 3], [1, 3, 3], [1, 2, 3]]);
    assert_eq!(Quad::from_dir(pos, Direction::Up).corners, [[1, 2, 4], [2, 2, 4], [2, 2, 3], [1, 2, 3]]);
    assert_eq!(Quad::from_dir(pos, Direction::Down).corners, [[1, 2, 3], [2, 2, 3], [2, 2, 4], [1, 2, 4]]);
    assert_eq!(Quad::from_dir(pos, Direction::Up).dir, Direction::Up);
}

#[test]
fn directions_are_numbered() {
    let numbers: Vec<usize> = [
        Direction::Left,
        Direction::Right,
        Direction::Back,
        Direction::Front,
        Direction::Up,
        Direction::Down,
    ]
    .iter()
    .map(|dir| dir.get_normal_index())
    .collect();
    assert_eq!(numbers, vec![0, 1, 2, 3, 4, 5]);
    let numbers: Vec<usize> =
        [FaceDir::Left, FaceDir::Right, FaceDir::Back, FaceDir::Front, FaceDir::Up, FaceDir::Down]
            .iter()
            .map(|dir| dir.get_normal_index())
            .collect();
    assert_eq!(numbers, vec![0, 1, 2, 3, 4, 5]);
}

#[test]
fn face_directions_sample_and_wind() {
    assert_eq!(FaceDir::Left.sample_dir(), IVec3::new(-1, 0, 0));
    assert_eq!(FaceDir::Right.sample_dir(), IVec3::new(1, 0, 0));
    assert_eq!(FaceDir::Back.sample_dir(), IVec3::new(0, 0, 1));
    assert_eq!(FaceDir::Front.sample_dir(), IVec3::new(0, 0, -1));
    assert_eq!(FaceDir::Up.sample_dir(), IVec3::new(0, 1, 0));
    assert_eq!(FaceDir::Down.sample_dir(), IVec3::new(0, -1, 0));

    assert_eq!(FaceDir::Up.world_to_sample(7, 1, 2), VoxelPos::new(1, 8, 2));
    assert_eq!(FaceDir::Down.world_to_sample(7, 1, 2), VoxelPos::new(1, 7, 2));
    assert_eq!(FaceDir::Left.world_to_sample(7, 1, 2), VoxelPos::new(7, 2, 1));
    assert_eq!(FaceDir::Right.world_to_sample(7, 1, 2), VoxelPos::new(8, 2, 1));
    assert_eq!(FaceDir::Front.world_to_sample(7, 1, 2), VoxelPos::new(1, 2, 7));
    assert_eq!(FaceDir::Back.world_to_sample(7, 1, 2), VoxelPos::new(1, 2, 8));

    assert!(!FaceDir::Left.reverse_order());
    assert!(FaceDir::Right.reverse_order());
    assert!(!FaceDir::Back.reverse_order());
    assert!(FaceDir::Front.reverse_order());
    assert!(FaceDir::Up.reverse_order());
    assert!(!FaceDir::Down.reverse_order());
}

#[test]
fn occlusion_samples_surround_the_face() {
    let dirs: Vec<IVec2> = (0..9).map(|i| adjacent_ao_dir(i)).collect();
    assert_eq!(
        dirs,
        vec![
            IVec2::new(-1, -1),
            IVec2::new(-1, 0),
            IVec2::new(-1, 1),
            IVec2::new(0, -1),
            IVec2::new(0, 0),
            IVec2::new(0, 1),
            IVec2::new(1, -1),
            IVec2::new(1, 0),
            IVec2::new(1, 1),
        ]
    );
}

#[test]
fn quad_appends_four_corners_in_order() {
    let quad = GreedyQuad::new(1, 2, 3, 4);
    let corner = |x: usize, y: usize, z: usize, ao: u32, normal: usize| {
        u32::from(VertexU32::new(VoxelPos::new(x, y, z), ao, normal, VoxelType::Block))
    };

    // Down: not reversed
    let mut vertices = Vec::new();
    quad.append_vertices(&mut vertices, FaceDir::Down, 7, &Lod::L32, 0, VoxelType::Block);
    assert_eq!(
        words(&vertices),
        vec![corner(1, 7, 2, 0, 5), corner(4, 7, 2, 0, 5), corner(4, 7, 6, 0, 5), corner(1, 7, 6, 0, 5)]
    );

    // Up: reversed, keeps the first corner
    let mut vertices = Vec::new();
    quad.append_vertices(&mut vertices, FaceDir::Up, 7, &Lod::L32, 0, VoxelType::Block);
    assert_eq!(
        words(&vertices),
        vec![corner(1, 8, 2, 0, 4), corner(1, 8, 6, 0, 4), corner(4, 8, 6, 0, 4), corner(4, 8, 2, 0, 4)]
    );

    // Occlusion at the first corner only: the diagonal is flipped
    let mut vertices = Vec::new();
    quad.append_vertices(&mut vertices, FaceDir::Down, 7, &Lod::L32, 0b1, VoxelType::Block);
    assert_eq!(
        words(&vertices),
        vec![corner(4, 7, 2, 0, 5), corner(4, 7, 6, 0, 5), corner(1, 7, 6, 0, 5), corner(1, 7, 2, 1, 5)]
    );

    // Reversed and flipped
    let mut vertices = vec![VertexU32(99)];
    quad.append_vertices(&mut vertices, FaceDir::Right, 7, &Lod::L32, 0b1, VoxelType::Block);
    assert_eq!(
        words(&vertices),
        vec![99, corner(8, 6, 1, 0, 1), corner(8, 6, 4, 0, 1), corner(8, 2, 4, 0, 1), corner(8, 2, 1, 1, 1)]
    );

    // Every sample solid: each corner is touched by three
    let mut vertices = Vec::new();
    quad.append_vertices(&mut vertices, FaceDir::Left, 0, &Lod::L16, 0b111111111, VoxelType::Block);
    assert_eq!(
        words(&vertices),
        vec![corner(0, 4, 2, 3, 0), corner(0, 4, 8, 3, 0), corner(0, 12, 8, 3, 0), corner(0, 12, 2, 3, 0)]
    );
}

#[test]
fn full_plane_merges_into_one_quad() {
    let quads = greedy_mesh_binary_plane([u32::MAX; 32], 32);
    assert_eq!(quads, vec![GreedyQuad::new(0, 0, 32, 32)]);
    assert_eq!(greedy_mesh_binary_plane([0; 32], 32), Vec::<GreedyQuad>::new());
}

#[test]
fn plane_is_cut_into_runs_that_spread_over_rows() {
    let mut plane = [0u32; 32];
    plane[0] = 0b0110;
    plane[1] = 0b0111;
    plane[2] = 0b1110;
    plane[5] = 1 << 31;
    let quads = greedy_mesh_binary_plane(plane, 32);
    assert_eq!(
        quads,
        vec![
            GreedyQuad::new(0, 1, 3, 2),
            GreedyQuad::new(1, 0, 1, 1),
            GreedyQuad::new(2, 3, 1, 1),
            GreedyQuad::new(5, 31, 1, 1),
        ]
    );
}

#[test]
fn rows_beyond_the_level_of_detail_are_not_merged() {
    let quads = greedy_mesh_binary_plane([0b11; 32], 2);
    assert_eq!(quads.len(), 31);
    assert_eq!(quads[0], GreedyQuad::new(0, 0, 2, 2));
    assert_eq!(quads[1], GreedyQuad::new(2, 0, 1, 2));
    assert_eq!(quads[30], GreedyQuad::new(31, 0, 1, 2));
    assert_eq!(greedy_mesh_binary_plane([0b11; 32], 0), Vec::<GreedyQuad>::new());
}

#[test]
fn single_voxel_in_air_has_six_quads() {
    let mut centre = Chunk::new();
    centre.set_voxel(VoxelPos::new(5, 6, 7), VoxelType::Block);
    let mesh = build_chunk_mesh(&view_of(centre, VoxelType::Air), Lod::L32).unwrap();
    assert_eq!(mesh.vertices.len(), 24);
    assert_eq!(mesh.indices, generate_indices(24));
    for normal in 0..6 {
        assert_eq!(quads_with_normal(&mesh, normal), 1);
    }
    let corner = |x: usize, y: usize, z: usize, normal: usize| {
        u32::from(VertexU32::new(VoxelPos::new(x, y, z), 0, normal, VoxelType::Block))
    };
    // The faces come by direction: down, up, left, right, front, back
    assert_eq!(
        words(&mesh.vertices),
        vec![
            corner(5, 6, 7, 5),
            corner(6, 6, 7, 5),
            corner(6, 6, 8, 5),
            corner(5, 6, 8, 5),
            corner(5, 7, 7, 4),
            corner(5, 7, 8, 4),
            corner(6, 7, 8, 4),
            corner(6, 7, 7, 4),
            corner(5, 6, 7, 0),
            corner(5, 6, 8, 0),
            corner(5, 7, 8, 0),
            corner(5, 7, 7, 0),
            corner(6, 6, 7, 1),
            corner(6, 7, 7, 1),
            corner(6, 7, 8, 1),
            corner(6, 6, 8, 1),
            corner(5, 6, 7, 3),
            corner(5, 7, 7, 3),
            corner(6, 7, 7, 3),
            corner(6, 6, 7, 3),
            corner(5, 6, 8, 2),
            corner(6, 6, 8, 2),
            corner(6, 7, 8, 2),
            corner(5, 7, 8, 2),
        ]
    );
}

#[test]
fn solid_chunk_among_solid_chunks_has_no_mesh() {
    let mut edits = Vec::new();
    for index in 0..32768 {
        edits.push((VoxelPos::from_index(index), VoxelType::Block));
    }
    let centre = Chunk::with_voxels(edits);
    assert_eq!(centre.len(), 32768);
    assert!(build_chunk_mesh(&view_of(centre, VoxelType::Block), Lod::L32).is_none());
}

#[test]
fn uniform_block_has_no_mesh() {
    assert!(build_chunk_mesh(&view_of(Chunk::uniform(VoxelType::Block), VoxelType::Block), Lod::L32).is_none());
    assert!(build_chunk_mesh(&view_of(Chunk::uniform(VoxelType::Air), VoxelType::Air), Lod::L32).is_none());
    assert!(build_chunk_mesh(&view_of(Chunk::new(), VoxelType::Air), Lod::L32).is_none());
}

#[test]
fn solid_chunk_in_air_has_one_quad_per_side() {
    let mesh = build_chunk_mesh(&view_of(Chunk::uniform(VoxelType::Block), VoxelType::Air), Lod::L32).unwrap();
    assert_eq!(mesh.vertices.len(), 24);
    assert_eq!(mesh.indices.len(), 36);
    let vertices = unpacked(&mesh);
    for vertex in &vertices {
        assert_eq!(vertex.ao, 0);
        assert_eq!(vertex.voxel_type, VoxelType::Block);
        assert!(vertex.pos.x == 0 || vertex.pos.x == 32);
        assert!(vertex.pos.y == 0 || vertex.pos.y == 32);
        assert!(vertex.pos.z == 0 || vertex.pos.z == 32);
    }
}

#[test]
fn flat_slab_merges_top_and_bottom_into_one_quad_each() {
    let mut edits = Vec::new();
    for z in 0..32 {
        for x in 0..32 {
            edits.push((VoxelPos::new(x, 0, z), VoxelType::Block));
        }
    }
    let mesh = build_chunk_mesh(&view_of(Chunk::with_voxels(edits), VoxelType::Air), Lod::L32).unwrap();
    assert_eq!(quads_with_normal(&mesh, FaceDir::Up.get_normal_index()), 1);
    assert_eq!(quads_with_normal(&mesh, FaceDir::Down.get_normal_index()), 1);
    assert_eq!(mesh.vertices.len(), 24);
    let top: Vec<VoxelPos> = unpacked(&mesh).iter().filter(|vertex| vertex.normal == 4).map(|vertex| vertex.pos).collect();
    assert_eq!(
        top,
        vec![VoxelPos::new(0, 1, 0), VoxelPos::new(0, 1, 32), VoxelPos::new(32, 1, 32), VoxelPos::new(32, 1, 0)]
    );
}

#[test]
fn faces_are_hidden_by_solid_voxels_of_the_neighbours() {
    // A voxel at the border of the chunk, with a solid chunk beside it
    let mut store: ChunkMap<Arc<Chunk>> = ChunkMap::new();
    for z in -1..=1 {
        for y in -1..=1 {
            for x in -1..=1 {
                store.insert(ChunkPos::new(x, y, z), Arc::new(Chunk::uniform(VoxelType::Air)));
            }
        }
    }
    let mut centre = Chunk::new();
    centre.set_voxel(VoxelPos::new(0, 10, 10), VoxelType::Block);
    store.insert(ChunkPos::new(0, 0, 0), Arc::new(centre));
    store.insert(ChunkPos::new(-1, 0, 0), Arc::new(Chunk::uniform(VoxelType::Block)));
    let view = ChunksFromMiddle::try_new(&store, ChunkPos::new(0, 0, 0)).unwrap();
    let mesh = build_chunk_mesh(&view, Lod::L32).unwrap();
    assert_eq!(quads_with_normal(&mesh, FaceDir::Left.get_normal_index()), 0);
    assert_eq!(quads_with_normal(&mesh, FaceDir::Right.get_normal_index()), 1);
    assert_eq!(mesh.vertices.len(), 20);
    // The wall beside the voxel occludes the faces that touch it
    let occluded = unpacked(&mesh).iter().filter(|vertex| vertex.ao > 0).count();
    assert_eq!(occluded, 8);
}

#[test]
fn faces_with_different_occlusion_are_not_merged() {
    // Two voxels side by side with a third on top of one of them
    let centre = Chunk::with_voxels(vec![
        (VoxelPos::new(4, 4, 4), VoxelType::Block),
        (VoxelPos::new(5, 4, 4), VoxelType::Block),
        (VoxelPos::new(5, 5, 4), VoxelType::Block),
    ]);
    let mesh = build_chunk_mesh(&view_of(centre, VoxelType::Air), Lod::L32).unwrap();
    // Bottom: both faces have no occlusion and merge
    assert_eq!(quads_with_normal(&mesh, FaceDir::Down.get_normal_index()), 1);
    // Top: the lower face is occluded by the voxel beside it
    assert_eq!(quads_with_normal(&mesh, FaceDir::Up.get_normal_index()), 2);
    assert_eq!(mesh.indices, generate_indices(mesh.vertices.len()));
}

#[test]
fn culled_mesh_of_a_single_voxel() {
    let mut centre = Chunk::new();
    centre.set_voxel(VoxelPos::new(5, 6, 7), VoxelType::Block);
    let mesh = culled_mesher::build_chunk_mesh(&view_of(centre, VoxelType::Air)).unwrap();
    assert_eq!(mesh.vertices.len(), 24);
    assert_eq!(mesh.indices, generate_indices(24));
    for normal in 0..6 {
        assert_eq!(quads_with_normal(&mesh, normal), 1);
    }
    let corner = |x: usize, y: usize, z: usize, normal: usize| {
        u32::from(VertexU32::new(VoxelPos::new(x, y, z), 0, normal, VoxelType::Block))
    };
    // The voxel's own faces to the left, behind and below come first
    assert_eq!(
        words(&mesh.vertices)[0..12],
        [
            corner(5, 6, 7, 0),
            corner(5, 6, 8, 0),
            corner(5, 7, 8, 0),
            corner(5, 7, 7, 0),
            corner(5, 6, 7, 2),
            corner(5, 7, 7, 2),
            corner(6, 7, 7, 2),
            corner(6, 6, 7, 2),
            corner(5, 6, 7, 5),
            corner(6, 6, 7, 5),
            corner(6, 6, 8, 5),
            corner(5, 6, 8, 5),
        ]
    );
}

#[test]
fn culled_mesh_of_nothing_is_no_mesh() {
    assert!(culled_mesher::build_chunk_mesh(&view_of(Chunk::new(), VoxelType::Air)).is_none());
    assert!(culled_mesher::build_chunk_mesh(&view_of(Chunk::uniform(VoxelType::Block), VoxelType::Block)).is_none());
}

#[test]
fn culled_mesh_does_not_merge() {
    let centre = Chunk::with_voxels(vec![
        (VoxelPos::new(4, 4, 4), VoxelType::Block),
        (VoxelPos::new(5, 4, 4), VoxelType::Block),
    ]);
    let mesh = culled_mesher::build_chunk_mesh(&view_of(centre, VoxelType::Air)).unwrap();
    // Ten faces are exposed, the two between the voxels are not
    assert_eq!(mesh.vertices.len(), 40);
    assert_eq!(mesh.indices.len(), 60);
}

#[test]
fn push_face_appends_the_corners_of_one_face() {
    let mut mesh = ChunkMesh::default();
    culled_mesher::push_face(&mut mesh, Direction::Up, VoxelPos::new(1, 2, 3), VoxelType::Block);
    let corner = |x: usize, y: usize, z: usize| {
        u32::from(VertexU32::new(VoxelPos::new(x, y, z), 0, 4, VoxelType::Block))
    };
    assert_eq!(words(&mesh.vertices), vec![corner(1, 2, 4), corner(2, 2, 4), corner(2, 2, 3), corner(1, 2, 3)]);
    assert!(mesh.indices.is_empty());
}

#[test]
fn quads_cover_every_face_of_a_plane_once() {
    let mut seed: u32 = 12345;
    for _round in 0..50 {
        let mut plane = [0u32; 32];
        for row in plane.iter_mut() {
            seed = seed.wrapping_mul(1664525).wrapping_add(1013904223);
            let a = seed;
            seed = seed.wrapping_mul(1664525).wrapping_add(1013904223);
            // Rows with long runs, so that quads spread over rows
            *row = a | (seed >> 3) | (seed << 5);
        }
        let quads = greedy_mesh_binary_plane(plane, 32);
        let mut cover = [0u32; 32];
        for quad in &quads {
            assert!(quad.w >= 1 && quad.h >= 1);
            assert!(quad.x + quad.w <= 32 && quad.y + quad.h <= 32);
            for row in quad.x..quad.x + quad.w {
                for bit in quad.y..quad.y + quad.h {
                    assert_eq!(cover[row] & (1 << bit), 0);
                    cover[row] |= 1 << bit;
                }
            }
        }
        assert_eq!(cover, plane);
    }
}
