use voxels::chunk::{generate_vertices, Chunk};

#[test]
fn small_chunk_is_all_type_one() {
    let chunk = Chunk::new();
    assert_eq!(chunk.block_at(0, 0, 0).block_type, 1);
    assert_eq!(chunk.block_at(5, 5, 5).block_type, 1);
    assert_eq!(chunk.block_at(0, 0, 215).block_type, 1);
}

#[test]
fn cube_vertices_cover_every_block() {
    let (verts, indices) = generate_vertices();
    assert_eq!(verts.len(), 8 * 216);
    assert_eq!(indices.len(), 36 * 216);
    assert_eq!(verts[0], (0, 0, 0));
    assert_eq!(verts[1], (0, 0, 1));
    assert_eq!(verts[2], (0, 1, 0));
    assert_eq!(verts[7], (1, 1, 1));
    // block (0, 0, 1) starts at vertex 8
    assert_eq!(verts[8], (0, 0, 1));
    // the last block, (5, 5, 5), ends at its far corner
    assert_eq!(verts[8 * 216 - 1], (6, 6, 6));
}

#[test]
fn cube_indices_follow_the_triangle_pattern() {
    let (_, indices) = generate_vertices();
    assert_eq!(
        &indices[0..36],
        &[
            0, 4, 6, 0, 6, 2, 4, 5, 7, 4, 7, 6, 1, 5, 4, 1, 4, 0, 1, 3, 7, 1, 7, 5, 0, 2, 3, 0, 3, 1, 2, 6, 7, 2, 7,
            3
        ]
    );
    assert_eq!(&indices[36..42], &[8, 12, 14, 8, 14, 10]);
    assert!(indices.iter().all(|i| (*i as usize) < 8 * 216));
}

#[test]
fn every_block_gets_all_six_faces() {
    let (verts, indices) = generate_vertices();
    // block (2, 3, 4): each group of six indices lies on one face of its cube
    let b = 2 * 36 + 3 * 6 + 4;
    let base = (2u8, 3u8, 4u8);
    let mut faces = Vec::new();
    for f in 0..6 {
        let group = &indices[36 * b + 6 * f..36 * b + 6 * f + 6];
        let corners: Vec<(u8, u8, u8)> = group.iter().map(|i| verts[*i as usize]).collect();
        let on = |axis: usize, side: u8| {
            corners.iter().all(|c| {
                let (v, o) = match axis {
                    0 => (c.0, base.0),
                    1 => (c.1, base.1),
                    _ => (c.2, base.2),
                };
                v == o + side
            })
        };
        let face = (0..3).flat_map(|a| (0..2).map(move |s| (a, s))).find(|(a, s)| on(*a, *s)).unwrap();
        faces.push(face);
    }
    faces.sort();
    assert_eq!(faces, vec![(0, 0), (0, 1), (1, 0), (1, 1), (2, 0), (2, 1)]);
}
