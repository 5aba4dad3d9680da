use voxels::chunking::blocks::{Block, BlockType};
use voxels::chunking::chunk::{Chunk, ChunkContainer, CHUNK_BLOCK_COUNT};

fn heights_all(h: i64) -> Vec<i64> {
    vec![h; 1024]
}

fn types_all(t: BlockType) -> Vec<BlockType> {
    vec![t; CHUNK_BLOCK_COUNT as usize]
}

#[test]
fn terrain_fills_columns_with_alternating_layers() {
    let mut heights = heights_all(0);
    heights[3 * 32 + 4] = 3; // column (3, 4) is three blocks high
    let chunk = Chunk::from_offset(&(0, 0, 0), &heights);
    assert_eq!(chunk.world_offset, (0, 0, 0));
    assert!(!chunk.empty);
    assert_eq!(chunk.block_at((3, 0, 4)).unwrap().block_type, BlockType::Grass);
    assert_eq!(chunk.block_at((3, 1, 4)).unwrap().block_type, BlockType::Stone);
    assert_eq!(chunk.block_at((3, 2, 4)).unwrap().block_type, BlockType::Grass);
    assert_eq!(chunk.block_at((3, 3, 4)).unwrap().block_type, BlockType::Empty);
    assert_eq!(chunk.block_at((4, 0, 3)).unwrap().block_type, BlockType::Empty);
    assert_eq!(chunk.mass_halves, 0);
    assert_eq!(chunk.moment_halves, (0, 0, 0));
}

#[test]
fn terrain_height_is_relative_to_the_chunk_and_clamped() {
    // chunk one level up: a noise height of 40 leaves 8 blocks
    let chunk = Chunk::from_offset(&(0, 1, 0), &heights_all(40));
    assert_eq!(chunk.block_at((0, 7, 0)).unwrap().block_type, BlockType::Stone);
    assert_eq!(chunk.block_at((0, 8, 0)).unwrap().block_type, BlockType::Empty);
    // far below the surface every column is full
    let full = Chunk::from_offset(&(0, -2, 0), &heights_all(10));
    assert_eq!(full.block_at((31, 31, 31)).unwrap().block_type, BlockType::Stone);
    assert_eq!(full.block_at((31, 30, 31)).unwrap().block_type, BlockType::Grass);
}

#[test]
fn terrain_above_the_surface_is_empty() {
    let chunk = Chunk::from_offset(&(5, 2, -3), &heights_all(20));
    assert!(chunk.empty);
    assert!(!chunk.block_is_solid((0, 0, 0)));
}

#[test]
fn planets_account_for_mass_and_moments() {
    let mut types = types_all(BlockType::Empty);
    // stone at (1, 2, 3) and grass at (0, 0, 5)
    types[(1 * 32 + 2) * 32 + 3] = BlockType::Stone;
    types[5] = BlockType::Grass;
    let chunk = Chunk::generate_planets(&(1, 2, 3), &types);
    assert_eq!(chunk.world_offset, (1, 2, 3));
    assert!(!chunk.empty);
    assert_eq!(chunk.mass_halves, 3);
    assert_eq!(chunk.moment_halves, (2, 4, 6 + 5));
    assert_eq!(chunk.block_at((1, 2, 3)).unwrap().block_type, BlockType::Stone);
    assert_eq!(chunk.solid_block_at((0, 0, 5)).unwrap().block_type, BlockType::Grass);
    assert!(chunk.solid_block_at((0, 0, 4)).is_none());
}

#[test]
fn an_all_empty_planet_chunk_is_empty_and_weightless() {
    let chunk = Chunk::generate_planets(&(0, 0, 0), &types_all(BlockType::Empty));
    assert!(chunk.empty);
    assert_eq!(chunk.mass_halves, 0);
}

#[test]
fn a_full_stone_chunk_has_the_largest_mass() {
    let chunk = Chunk::generate_planets(&(0, 0, 0), &types_all(BlockType::Stone));
    assert_eq!(chunk.mass_halves, 2 * 32768);
    // every coordinate 0..32 appears 1024 times, with mass 2
    let moment = 2 * 1024 * (31 * 32 / 2);
    assert_eq!(chunk.moment_halves, (moment, moment, moment));
}

#[test]
fn block_lookup_uses_the_linear_index() {
    let chunk = Chunk::generate_planets(&(0, 0, 0), &types_all(BlockType::Grass));
    assert!(chunk.block_at((31, 31, 31)).is_some());
    assert!(chunk.block_at((32, 0, 0)).is_none());
    // an overlong z still lands inside the chunk
    assert!(chunk.block_at((0, 0, 200)).is_some());
    assert!(chunk.block_at((255, 255, 255)).is_none());
    assert!(!chunk.block_is_solid((40, 0, 0)));
}

#[test]
fn block_at_mut_writes_one_block() {
    let mut chunk = Chunk::generate_planets(&(0, 0, 0), &types_all(BlockType::Empty));
    if let Some(b) = chunk.block_at_mut(2, 3, 4) {
        b.block_type = BlockType::Stone;
    }
    assert!(chunk.block_is_solid((2, 3, 4)));
    assert!(!chunk.block_is_solid((2, 3, 5)));
    assert!(chunk.block_at_mut(32, 0, 0).is_none());
    // the empty flag is not touched by a direct write
    assert!(chunk.empty);
}

#[test]
fn container_adds_each_position_once() {
    let mut chunks = ChunkContainer::new();
    assert!(!chunks.chunk_at((0, 0, 0)));
    assert!(chunks.add_at(&(0, 0, 0), &heights_all(5)));
    assert!(chunks.chunk_at((0, 0, 0)));
    assert!(!chunks.add_at(&(0, 0, 0), &heights_all(30)));
    // the first chunk stays
    assert!(chunks.get_block((0, 0, 0), (0, 4, 0)).unwrap().is_solid());
    assert!(!chunks.get_block((0, 0, 0), (0, 5, 0)).unwrap().is_solid());
    assert!(chunks.get_block((1, 0, 0), (0, 0, 0)).is_none());
    assert!(chunks.get_block((0, 0, 0), (40, 0, 0)).is_none());
}

#[test]
fn update_chunk_replaces_and_returns_the_old_chunk() {
    let mut chunks = ChunkContainer::new();
    let first = Chunk::generate_planets(&(2, 0, 0), &types_all(BlockType::Empty));
    assert!(chunks.update_chunk(first).is_none());
    let second = Chunk::generate_planets(&(2, 0, 0), &types_all(BlockType::Stone));
    let old = chunks.update_chunk(second).unwrap();
    assert!(old.empty);
    let now = chunks.get_chunk((2, 0, 0)).unwrap();
    assert!(!now.empty);
    assert_eq!(chunks.chunks.len(), 1);
}

#[test]
fn blocks_compare_by_type() {
    assert_eq!(Block::new(BlockType::Grass), Block::new(BlockType::Grass));
    assert_ne!(Block::new(BlockType::Grass), Block::new(BlockType::Stone));
}
