use voxel_stream::lod::Lod;
use voxel_stream::positions::VoxelPos;
use voxel_stream::vertex::{Vertex, VertexU32};
use voxel_stream::voxel::{Voxel, VoxelType};

#[test]
fn vertex_packs_each_field_at_its_place() {
    let word: u32 = VertexU32::new(VoxelPos::new(1, 0, 0), 0, 0, VoxelType::Air).into();
    assert_eq!(word, 1);
    let word: u32 = VertexU32::new(VoxelPos::new(0, 1, 0), 0, 0, VoxelType::Air).into();
    assert_eq!(word, 1 << 6);
    let word: u32 = VertexU32::new(VoxelPos::new(0, 0, 1), 0, 0, VoxelType::Air).into();
    assert_eq!(word, 1 << 12);
    let word: u32 = VertexU32::new(VoxelPos::new(0, 0, 0), 1, 0, VoxelType::Air).into();
    assert_eq!(word, 1 << 18);
    let word: u32 = VertexU32::new(VoxelPos::new(0, 0, 0), 0, 1, VoxelType::Air).into();
    assert_eq!(word, 1 << 21);
    let word: u32 = VertexU32::new(VoxelPos::new(0, 0, 0), 0, 0, VoxelType::Block).into();
    assert_eq!(word, 1 << 24);
}

#[test]
fn vertex_packs_to_a_known_word() {
    let vertex = Vertex::new(VoxelPos::new(5, 5, 5), 0, 5, VoxelType::Block);
    let word: u32 = vertex.to_u32().into();
    assert_eq!(word, 5 + (5 << 6) + (5 << 12) + (5 << 21) + (1 << 24));
    assert_eq!(word, 27283781);
    let word: u32 = Vertex::new(VoxelPos::new(32, 33, 63), 3, 4, VoxelType::Block).to_u32().into();
    assert_eq!(word, 32 | (33 << 6) | (63 << 12) | (3 << 18) | (4 << 21) | (1 << 24));
}

#[test]
fn vertex_round_trip_over_all_fields() {
    for x in [0usize, 1, 31, 32, 33, 63] {
        for y in [0usize, 7, 32, 63] {
            for z in [0usize, 13, 63] {
                for ao in 0..8u32 {
                    for normal in 0..8usize {
                        for voxel_type in [VoxelType::Air, VoxelType::Block] {
                            let vertex = Vertex::new(VoxelPos::new(x, y, z), ao, normal, voxel_type);
                            let back = Vertex::from_u32(vertex.to_u32());
                            assert_eq!(back.pos, vertex.pos);
                            assert_eq!(back.ao, ao);
                            assert_eq!(back.normal, normal);
                            assert_eq!(back.voxel_type, voxel_type);
                        }
                    }
                }
            }
        }
    }
}

#[test]
fn word_round_trip() {
    for word in [0u32, 1, 27283781, 0x00ff_ffff, 0x01ff_ffff, 0x0123_4567] {
        let vertex = Vertex::from_u32(VertexU32(word));
        let again: u32 = vertex.to_u32().into();
        assert_eq!(again, word);
    }
}

#[test]
fn vertex_converts_into_its_packed_form() {
    let vertex = Vertex::new(VoxelPos::new(1, 2, 3), 2, 4, VoxelType::Block);
    let packed: VertexU32 = vertex.into();
    assert_eq!(u32::from(packed), u32::from(vertex.to_u32()));
    assert_eq!(u32::from(packed), 1 | (2 << 6) | (3 << 12) | (2 << 18) | (4 << 21) | (1 << 24));
}

#[test]
fn a_field_that_is_too_wide_runs_into_the_next() {
    let word: u32 = Vertex::new(VoxelPos::new(64, 0, 0), 0, 0, VoxelType::Air).to_u32().into();
    assert_eq!(word, 1 << 6);
    let word: u32 = Vertex::new(VoxelPos::new(0, 0, 0), 8, 0, VoxelType::Air).to_u32().into();
    assert_eq!(word, 1 << 21);
}

#[test]
fn voxel_types_and_tags() {
    assert!(VoxelType::Block.is_solid());
    assert!(!VoxelType::Air.is_solid());
    assert_eq!(u32::from(VoxelType::Air), 0);
    assert_eq!(u32::from(VoxelType::Block), 1);
    assert_eq!(VoxelType::from_u32(0), VoxelType::Air);
    assert_eq!(VoxelType::from_u32(1), VoxelType::Block);
    assert_eq!(Voxel::default().voxel_type, VoxelType::Air);
    assert_eq!(Voxel::new(VoxelType::Block).voxel_type, VoxelType::Block);
}

#[test]
fn levels_of_detail() {
    let sizes: Vec<usize> = [Lod::L32, Lod::L16, Lod::L8, Lod::L4, Lod::L2].iter().map(|lod| lod.size()).collect();
    assert_eq!(sizes, vec![32, 16, 8, 4, 2]);
    let jumps: Vec<usize> =
        [Lod::L32, Lod::L16, Lod::L8, Lod::L4, Lod::L2].iter().map(|lod| lod.jump_index()).collect();
    assert_eq!(jumps, vec![1, 2, 4, 8, 16]);
}
