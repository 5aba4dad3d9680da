use std::collections::BTreeSet;
use voxels::chunking::generator::HeightMap;
use voxels::world_gen::noise_source::NoiseSource;
use voxels::chunking::blocks::BlockType;
use voxels::world_gen::world_generator::{candidate_positions, ChunkJob, WorldGenerator};

#[test]
fn height_map_heights_stay_inside_a_chunk() {
    let map = HeightMap::new();
    let mut seen = BTreeSet::new();
    for x in 0..32u8 {
        for z in 0..32u8 {
            let h = map.height(x, z);
            assert!(h < 32);
            seen.insert(h);
        }
    }
    // 1024 draws from 32 values are not all the same
    assert!(seen.len() > 1);
}

#[test]
fn radius_one_visits_one_column() {
    let positions = candidate_positions((10, 20, 30), 1);
    assert_eq!(positions, vec![(10, 20, 30), (10, 19, 30), (10, 21, 30)]);
}

#[test]
fn radius_two_visits_the_centre_then_the_ring() {
    let positions = candidate_positions((0, 0, 0), 2);
    // one column then eight, five chunks high
    assert_eq!(positions.len(), 9 * 5);
    assert_eq!(&positions[0..5], &[(0, 0, 0), (0, -1, 0), (0, 1, 0), (0, -2, 0), (0, 2, 0)]);
    // the ring starts at its corner (-1, -1)
    assert_eq!(positions[5], (-1, 0, -1));
    // the interior cell is skipped on the middle row: (0, -1) then (0, 1)
    assert_eq!(positions[5 + 3 * 5], (0, 0, -1));
    assert_eq!(positions[5 + 4 * 5], (0, 0, 1));
    let distinct: BTreeSet<_> = positions.iter().collect();
    assert_eq!(distinct.len(), positions.len());
}

#[test]
fn no_radius_visits_nothing() {
    assert!(candidate_positions((0, 0, 0), 0).is_empty());
    assert!(candidate_positions((0, 0, 0), -3).is_empty());
}

#[test]
fn generator_hands_out_each_chunk_once() {
    let mut generator = WorldGenerator::new(1);
    let first = generator.generate_chunks((0, 0, 0), 2);
    assert_eq!(first, vec![ChunkJob { pos: (0, 0, 0) }, ChunkJob { pos: (0, -1, 0) }]);
    let second = generator.generate_chunks((0, 0, 0), 2);
    assert_eq!(second, vec![ChunkJob { pos: (0, 1, 0) }]);
    let third = generator.generate_chunks((0, 0, 0), 4);
    assert!(third.is_empty());
    assert_eq!(generator.generated_chunks.len(), 3);
    // everything is handed out, so asking for nothing is fine
    assert!(generator.generate_chunks((0, 0, 0), 0).is_empty());
}

#[test]
fn generator_follows_the_centre() {
    let mut generator = WorldGenerator::new(1);
    generator.generate_chunks((0, 0, 0), 3);
    let moved = generator.generate_chunks((0, 1, 0), 10);
    // (0, 1, 0) and (0, 0, 0) are known; only (0, 2, 0) is new
    assert_eq!(moved, vec![ChunkJob { pos: (0, 2, 0) }]);
}

struct Layers;

impl NoiseSource for Layers {
    fn get(&self, point: (i64, i64, i64)) -> BlockType {
        if point.1 < 0 { BlockType::Stone } else { BlockType::Empty }
    }
}

#[test]
fn noise_sources_give_block_types() {
    let noise = Layers;
    assert_eq!(noise.get((0, -1, 0)), BlockType::Stone);
    assert_eq!(noise.get((0, 0, 0)), BlockType::Empty);
}
