use std::collections::HashMap;

use voxel_engine::block::{get_block_texture_index, is_block_transparent, Block, BlockFace};
use voxel_engine::chunk::Chunk;
use voxel_engine::coords::{index_to_local_xyz, local_xyz_to_index, xz_to_index};
use voxel_engine::mesher::mesh_slice;
use voxel_engine::surface_vertex::SurfaceVertex;
use voxel_engine::texture_bin::TextureBin;
use voxel_engine::world::World;

fn terrain_textures() -> TextureBin<()> {
    let mut bin = TextureBin::<()>::new();
    for name in ["stone", "dirt", "grass-top", "grass-side"] {
        bin.add_texture_block(name.to_string());
    }
    bin
}

#[test]
fn local_index_layout() {
    assert_eq!(local_xyz_to_index(0, 0, 0), 0);
    assert_eq!(local_xyz_to_index(1, 2, 3), 2 * 256 + 3 * 16 + 1);
    assert_eq!(local_xyz_to_index(15, 15, 15), 4095);
    assert_eq!(index_to_local_xyz(561), (1, 2, 3));
    assert_eq!(index_to_local_xyz(4095), (15, 15, 15));
}

#[test]
fn local_index_roundtrip_everywhere() {
    for i in 0..4096u32 {
        let (x, y, z) = index_to_local_xyz(i);
        assert_eq!(local_xyz_to_index(x, y, z), i);
    }
    for x in 0..16 {
        for y in 0..16 {
            for z in 0..16 {
                assert_eq!(index_to_local_xyz(local_xyz_to_index(x, y, z)), (x, y, z));
            }
        }
    }
}

#[test]
fn index_wraps_each_coordinate() {
    assert_eq!(index_to_local_xyz(4096 + 17), (1, 0, 1));
}

#[test]
fn chunk_keys_follow_cantor_pairing() {
    assert_eq!(xz_to_index(0, 0), 0);
    assert_eq!(xz_to_index(-1, 0), 1);
    assert_eq!(xz_to_index(0, -1), 2);
    assert_eq!(xz_to_index(1, 0), 3);
    assert_eq!(xz_to_index(0, 1), 5);
    assert_eq!(xz_to_index(3, -2), 48);
}

#[test]
fn chunk_keys_are_distinct_in_start_area() {
    let mut seen = std::collections::HashSet::new();
    for x in -4..4 {
        for z in -4..4 {
            assert!(seen.insert(xz_to_index(x, z)));
        }
    }
}

#[test]
fn chunk_key_saturates() {
    assert_eq!(xz_to_index(40000, 40000), u32::MAX);
}

#[test]
fn faces_number_in_order() {
    let faces = [
        BlockFace::Front,
        BlockFace::Back,
        BlockFace::Right,
        BlockFace::Left,
        BlockFace::Top,
        BlockFace::Bottom,
    ];
    for (n, face) in faces.iter().enumerate() {
        assert_eq!(BlockFace::into(*face), n as u32);
        assert_eq!(BlockFace::from(n as u32), *face);
    }
}

#[test]
fn only_air_is_transparent() {
    assert!(is_block_transparent(&Block::Air));
    assert!(!is_block_transparent(&Block::Stone));
    assert!(!is_block_transparent(&Block::Dirt));
    assert!(!is_block_transparent(&Block::Grass));
}

#[test]
fn texture_layers_are_given_in_order() {
    let mut bin = TextureBin::<()>::new();
    assert_eq!(bin.add_texture_block("stone".to_string()), 0);
    assert_eq!(bin.add_texture_block("dirt".to_string()), 1);
    assert_eq!(bin.get_texture_index_by_name_block("stone"), 0);
    assert_eq!(bin.get_texture_index_by_name_block("dirt"), 1);
    assert_eq!(bin.add_texture_block("stone".to_string()), 2);
    assert_eq!(bin.get_texture_index_by_name_block("stone"), 2);
}

#[test]
fn block_textures_by_face() {
    let bin = terrain_textures();
    assert_eq!(get_block_texture_index(&bin, &Block::Stone, BlockFace::Top), 0);
    assert_eq!(get_block_texture_index(&bin, &Block::Dirt, BlockFace::Left), 1);
    assert_eq!(get_block_texture_index(&bin, &Block::Grass, BlockFace::Top), 2);
    assert_eq!(get_block_texture_index(&bin, &Block::Grass, BlockFace::Bottom), 1);
    assert_eq!(get_block_texture_index(&bin, &Block::Grass, BlockFace::Front), 3);
}

#[test]
fn generated_terrain_layers() {
    let chunk = Chunk::generate_terrain((2, -1));
    assert_eq!(chunk.position, (2, -1));
    for (y, block) in [(0, Block::Stone), (29, Block::Stone), (30, Block::Dirt), (33, Block::Dirt), (34, Block::Grass), (35, Block::Air), (255, Block::Air)] {
        assert_eq!(*chunk.get_block_local(5, y, 7), block);
        assert_eq!(*chunk.get_block_local(0, y, 15), block);
    }
}

#[test]
fn surface_vertex_packing() {
    let v = SurfaceVertex::new([1, 2, 3], 7, BlockFace::Top, 2);
    assert_eq!(v.d0, 1 | (2 << 5) | (3 << 10) | (4 << 15) | (2 << 18));
    assert_eq!(v.d1, 7);
    assert_eq!(v.illumination, 15 << 24);
    assert_eq!(v.d0 & 31, 1);
    assert_eq!((v.d0 >> 5) & 31, 2);
    assert_eq!((v.d0 >> 10) & 31, 3);
    assert_eq!((v.d0 >> 15) & 7, 4);
    assert_eq!(v.d0 >> 18, 2);
}

#[test]
fn mesh_of_a_lone_chunk_surface_slice() {
    let mut chunks = HashMap::new();
    chunks.insert(xz_to_index(0, 0), Chunk::generate_terrain((0, 0)));
    let bin = terrain_textures();
    let (vertices, indices, count) = mesh_slice(0, 0, 2, &chunks, &bin);
    // 256 grass tops and 3 layers of 64 border faces
    assert_eq!(vertices.len(), 448 * 4);
    assert_eq!(indices.len(), 448 * 6);
    assert_eq!(count as usize, indices.len());
    assert!(indices.iter().all(|&i| (i as usize) < vertices.len()));
    let tops = vertices.iter().filter(|v| (v.d0 >> 15) & 7 == 4).count();
    assert_eq!(tops, 256 * 4);
    assert!(vertices.iter().filter(|v| (v.d0 >> 15) & 7 == 4).all(|v| v.d1 == 2));
}

#[test]
fn first_face_of_a_mesh() {
    let mut chunks = HashMap::new();
    chunks.insert(xz_to_index(0, 0), Chunk::generate_terrain((0, 0)));
    let bin = terrain_textures();
    let (vertices, indices, _) = mesh_slice(0, 0, 0, &chunks, &bin);
    // the first drawn face is the back face (z - 1) of block (0, 0, 0)
    assert_eq!(&indices[0..6], &[2, 1, 0, 2, 3, 1]);
    assert_eq!(vertices[0], SurfaceVertex::new([0, 0, 0], 0, BlockFace::Back, 0));
    assert_eq!(vertices[3], SurfaceVertex::new([1, 1, 0], 0, BlockFace::Back, 3));
}

#[test]
fn mesh_of_empty_slice_is_empty() {
    let mut chunks = HashMap::new();
    chunks.insert(xz_to_index(1, 1), Chunk::generate_terrain((1, 1)));
    let bin = TextureBin::<()>::new();
    let (vertices, indices, count) = mesh_slice(1, 1, 15, &chunks, &bin);
    assert!(vertices.is_empty());
    assert!(indices.is_empty());
    assert_eq!(count, 0);
}

#[test]
fn new_world_chunks_and_meshes() {
    let world = World::create_new();
    assert_eq!(world.chunks.len(), 36);
    for x in -3..3 {
        for z in -3..3 {
            let chunk = &world.chunks[&xz_to_index(x, z)];
            assert_eq!(chunk.position, (x, z));
        }
    }
    let bin = terrain_textures();
    let meshes = world.mesh_slices(&bin);
    assert_eq!(meshes.len(), 576);
    assert_eq!((meshes[17].chunk_x, meshes[17].chunk_z, meshes[17].slice), (-3, -2, 1));
    // an inner chunk's surface slice shows only the grass tops
    let inner = meshes.iter().find(|m| m.chunk_x == 0 && m.chunk_z == 0 && m.slice == 2).unwrap();
    assert_eq!(inner.vertices.len(), 256 * 4);
    assert_eq!(inner.index_count, 256 * 6);
    // slices above the surface are empty
    assert!(meshes.iter().filter(|m| m.slice > 2).all(|m| m.vertices.is_empty()));
}

#[test]
fn manifest_textures_get_consecutive_layers() {
    let mut bin = TextureBin::<()>::new();
    bin.add_texture_block("air".to_string());
    let names = vec!["stone".to_string(), "dirt".to_string(), "stone".to_string()];
    assert_eq!(bin.add_block_textures(&names), vec![1, 2, 3]);
    assert_eq!(bin.get_texture_index_by_name_block("air"), 0);
    assert_eq!(bin.get_texture_index_by_name_block("dirt"), 2);
    assert_eq!(bin.get_texture_index_by_name_block("stone"), 3);
    assert_eq!(bin.add_texture_block("grass".to_string()), 4);
}

#[test]
fn free_textures_are_kept_by_name() {
    let mut bin = TextureBin::<u32>::new();
    assert!(!bin.add_texture_free("logo".to_string(), 7));
    assert!(!bin.add_texture_free("cursor".to_string(), 8));
    assert_eq!(*bin.get_free_texture("logo"), 7);
    assert!(bin.add_texture_free("logo".to_string(), 9));
    assert_eq!(*bin.get_free_texture("logo"), 9);
    assert_eq!(*bin.get_free_texture("cursor"), 8);
    assert_eq!(bin.add_texture_block("stone".to_string()), 0);
}
