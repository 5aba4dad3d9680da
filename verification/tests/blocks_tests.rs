use voxels::blocks::Block as RawBlock;
use voxels::chunking::blocks::block_mesh::face_corner;
use voxels::chunking::blocks::{Block, BlockFace, BlockType};

#[test]
fn raw_block_keeps_its_type_byte() {
    assert_eq!(RawBlock::new(7).block_type, 7);
}

#[test]
fn block_type_decodes_known_bytes() {
    assert_eq!(BlockType::try_from(0u8), Ok(BlockType::Empty));
    assert_eq!(BlockType::try_from(1u8), Ok(BlockType::Grass));
    assert_eq!(BlockType::try_from(2u8), Ok(BlockType::Stone));
}

#[test]
fn block_type_refuses_other_bytes() {
    assert_eq!(BlockType::try_from(3u8), Err(()));
    assert_eq!(BlockType::try_from(255u8), Err(()));
}

#[test]
fn block_masses_in_half_units() {
    assert_eq!(BlockType::Empty.mass_halves(), 0);
    assert_eq!(BlockType::Grass.mass_halves(), 1);
    assert_eq!(BlockType::Stone.mass_halves(), 2);
    assert_eq!(BlockType::Max.mass_halves(), 0);
}

#[test]
fn only_empty_blocks_are_not_solid() {
    assert!(!Block::new(BlockType::Empty).is_solid());
    assert!(Block::new(BlockType::Grass).is_solid());
    assert!(Block::new(BlockType::Stone).is_solid());
    assert!(Block::new(BlockType::Max).is_solid());
}

#[test]
fn missing_block_is_not_solid() {
    let stone = Block::new(BlockType::Stone);
    let empty = Block::new(BlockType::Empty);
    assert!(!Block::solid(None));
    assert!(Block::solid(Some(&stone)));
    assert!(!Block::solid(Some(&empty)));
}

#[test]
fn face_corners_in_half_blocks() {
    assert_eq!(face_corner(BlockFace::Front, 0), (1, 1, 1));
    assert_eq!(face_corner(BlockFace::Front, 2), (1, -1, -1));
    assert_eq!(face_corner(BlockFace::Back, 0), (-1, -1, -1));
    assert_eq!(face_corner(BlockFace::Left, 1), (-1, 1, 1));
    assert_eq!(face_corner(BlockFace::Right, 3), (-1, 1, -1));
    assert_eq!(face_corner(BlockFace::Top, 2), (-1, 1, -1));
    assert_eq!(face_corner(BlockFace::Bottom, 1), (1, -1, -1));
}
