use voxels::chunking::blocks::BlockType;
use voxels::chunking::chunk::{Chunk, ChunkContainer, CHUNK_BLOCK_COUNT};
use voxels::rendering::mesh::primatives::uv_sphere_indices;
use voxels::rendering::mesh::MeshData;

fn index(x: usize, y: usize, z: usize) -> usize {
    (x * 32 + y) * 32 + z
}

#[test]
fn an_empty_chunk_has_an_empty_mesh() {
    let chunk = Chunk::generate_planets(&(0, 0, 0), &vec![BlockType::Empty; CHUNK_BLOCK_COUNT as usize]);
    let mesh = MeshData::from_chunk(&chunk, &ChunkContainer::new());
    assert!(mesh.vertices.is_empty());
    assert!(mesh.indices.is_empty());
    assert_eq!(mesh.vertex_count, 0);
}

#[test]
fn a_lone_block_shows_six_faces() {
    let mut types = vec![BlockType::Empty; CHUNK_BLOCK_COUNT as usize];
    types[index(1, 1, 1)] = BlockType::Stone;
    let chunk = Chunk::generate_planets(&(0, 0, 0), &types);
    let mesh = MeshData::from_chunk(&chunk, &ChunkContainer::new());
    assert_eq!(mesh.vertices.len(), 24);
    assert_eq!(mesh.indices.len(), 36);
    assert_eq!(mesh.vertex_count, 24);
    // every vertex belongs to the stone block
    assert!(mesh.vertices.iter().all(|v| v.block == (1, 1, 1) && v.block_type == BlockType::Stone));
    // first the block's own back face (towards -x)
    assert_eq!(mesh.vertices[0].corner_offset, (-1, -1, -1));
    assert_eq!(mesh.vertices[0].corner, 0);
    assert_eq!(mesh.vertices[3].corner, 3);
    // then the faces that its empty neighbours emit: left (+z), top (+y)
    // and last the front face (+x), emitted by block (2, 1, 1)
    assert_eq!(mesh.vertices[12].corner_offset, (1, 1, 1));
    assert_eq!(mesh.vertices[13].corner_offset, (-1, 1, 1));
    assert_eq!(mesh.vertices[20].corner_offset, (1, 1, 1));
    assert_eq!(mesh.vertices[21].corner_offset, (1, -1, 1));
    assert_eq!(&mesh.indices[0..6], &[0, 1, 2, 2, 3, 0]);
    assert_eq!(&mesh.indices[30..36], &[20, 21, 22, 22, 23, 20]);
    assert!(mesh.indices.iter().all(|i| (*i as usize) < mesh.vertices.len()));
}

#[test]
fn touching_solid_blocks_hide_their_shared_faces() {
    let mut types = vec![BlockType::Empty; CHUNK_BLOCK_COUNT as usize];
    types[index(1, 1, 1)] = BlockType::Grass;
    types[index(2, 1, 1)] = BlockType::Grass;
    let chunk = Chunk::generate_planets(&(0, 0, 0), &types);
    let mesh = MeshData::from_chunk(&chunk, &ChunkContainer::new());
    // two blocks of six faces, less the two between them
    assert_eq!(mesh.vertices.len(), 4 * 10);
    assert_eq!(mesh.indices.len(), 6 * 10);
}

#[test]
fn a_border_block_next_to_missing_chunks_shows_all_faces() {
    let mut types = vec![BlockType::Empty; CHUNK_BLOCK_COUNT as usize];
    types[index(0, 0, 0)] = BlockType::Stone;
    let chunk = Chunk::generate_planets(&(0, 0, 0), &types);
    let mesh = MeshData::from_chunk(&chunk, &ChunkContainer::new());
    // back, bottom and right across the borders, then front, top and left
    assert_eq!(mesh.vertices.len(), 24);
    assert_eq!(mesh.vertices[0].corner_offset, (-1, -1, -1));
    assert!(mesh.vertices.iter().all(|v| v.block == (0, 0, 0)));
}

fn full_chunk(pos: (i64, i64, i64)) -> Chunk {
    Chunk::generate_planets(&pos, &vec![BlockType::Stone; CHUNK_BLOCK_COUNT as usize])
}

#[test]
fn a_solid_neighbour_hides_the_border_face() {
    let mut types = vec![BlockType::Empty; CHUNK_BLOCK_COUNT as usize];
    types[index(0, 0, 0)] = BlockType::Stone;
    let chunk = Chunk::generate_planets(&(0, 0, 0), &types);
    let mut neighbors = ChunkContainer::new();
    neighbors.update_chunk(full_chunk((-1, 0, 0)));
    let mesh = MeshData::from_chunk(&chunk, &neighbors);
    // the back face now meets stone in the chunk at x - 1
    assert_eq!(mesh.vertices.len(), 20);
    assert_eq!(mesh.vertices[0].corner_offset, (-1, -1, -1));
    assert_eq!(mesh.vertices[1].corner_offset, (1, -1, -1));
}

#[test]
fn a_neighbour_with_air_on_its_border_keeps_the_face() {
    let mut types = vec![BlockType::Empty; CHUNK_BLOCK_COUNT as usize];
    types[index(31, 5, 7)] = BlockType::Grass;
    let chunk = Chunk::generate_planets(&(2, 0, 0), &types);
    let mut neighbors = ChunkContainer::new();
    // the chunk at x + 1 is stone except where it touches block (31, 5, 7)
    let mut next = vec![BlockType::Stone; CHUNK_BLOCK_COUNT as usize];
    next[index(0, 5, 7)] = BlockType::Empty;
    neighbors.update_chunk(Chunk::generate_planets(&(3, 0, 0), &next));
    let mesh = MeshData::from_chunk(&chunk, &neighbors);
    assert_eq!(mesh.vertices.len(), 24);
}

#[test]
fn a_full_chunk_alone_shows_only_its_shell() {
    let chunk = full_chunk((0, 0, 0));
    let mesh = MeshData::from_chunk(&chunk, &ChunkContainer::new());
    // one face for each border block on each of the six sides
    assert_eq!(mesh.vertices.len(), 4 * 6 * 1024);
    assert_eq!(mesh.indices.len(), 6 * 6 * 1024);
}

#[test]
fn a_full_chunk_among_full_chunks_shows_nothing() {
    let chunk = full_chunk((0, 0, 0));
    let mut neighbors = ChunkContainer::new();
    for pos in [(-1, 0, 0), (1, 0, 0), (0, -1, 0), (0, 1, 0), (0, 0, -1), (0, 0, 1)] {
        neighbors.update_chunk(full_chunk(pos));
    }
    let mesh = MeshData::from_chunk(&chunk, &neighbors);
    assert!(mesh.vertices.is_empty());
    assert!(mesh.indices.is_empty());
}

#[test]
fn terrain_mesh_indices_are_valid() {
    let mut heights = vec![0i64; 1024];
    for (k, h) in heights.iter_mut().enumerate() {
        *h = (k % 7) as i64;
    }
    let chunk = Chunk::from_offset(&(0, 0, 0), &heights);
    let mesh = MeshData::from_chunk(&chunk, &ChunkContainer::new());
    assert_eq!(mesh.vertices.len() * 6, mesh.indices.len() * 4);
    assert_eq!(mesh.vertex_count as usize, mesh.vertices.len());
    assert!(mesh.indices.iter().all(|i| (*i as usize) < mesh.vertices.len()));
}

#[test]
fn sphere_indices_join_neighbouring_rows() {
    let indices = uv_sphere_indices(2, 3);
    assert_eq!(indices.len(), 6 * 2 * 3);
    // first quad: rows 0 and 1, columns 0 and 1; rows hold four vertices
    assert_eq!(&indices[0..6], &[0, 1, 4, 1, 5, 4]);
    // last quad: rows 1 and 2, columns 2 and 3
    assert_eq!(&indices[30..36], &[6, 7, 10, 7, 11, 10]);
    assert!(indices.iter().all(|i| *i < 3 * 4));
}

#[test]
fn a_sphere_without_bands_has_no_triangles() {
    assert!(uv_sphere_indices(0, 5).is_empty());
    assert!(uv_sphere_indices(4, 0).is_empty());
}
