use crate::blocks::Block;
use vstd::prelude::*;

verus! {

/// Edge length, in blocks, of the small cube chunk.
pub const CHUNK_SIZE: usize = 6;

/// Number of blocks in the small cube chunk.
pub const CHUNK_BLOCK_COUNT: usize = 216;

/// Linear index of the block at (x, y, z) in the small chunk.
pub open spec fn cube_index(x: int, y: int, z: int) -> int {
    x * 36 + y * 6 + z
}

/// Corner `c` (0..8) of the unit cube at the block with linear index `b`:
/// bit 2 of `c` moves along x, bit 1 along y and bit 0 along z.
pub open spec fn cube_corner(b: int, c: int) -> (int, int, int) {
    (b / 36 + c / 4, (b / 6) % 6 + (c / 2) % 2, b % 6 + c % 2)
}

/// Offset, from the block's first vertex, of index `r` (0..36) of a
/// block's triangle list: two triangles on each face of the cube, the faces
/// in the order z = 0, x = 1, y = 0, z = 1, x = 0, y = 1.
pub open spec fn cube_triangle_corner(r: int) -> int {
    let corners: Seq<int> = seq![
        0, 4, 6, 0, 6, 2,
        4, 5, 7, 4, 7, 6,
        1, 5, 4, 1, 4, 0,
        1, 3, 7, 1, 7, 5,
        0, 2, 3, 0, 3, 1,
        2, 6, 7, 2, 7, 3,
    ];
    corners[r]
}

/// The axis (0 for x, 1 for y, 2 for z) across which face `f` (0..6) of
/// the cube lies.
pub open spec fn cube_face_axis(f: int) -> int {
    if f == 0 || f == 3 {
        2
    } else if f == 1 || f == 4 {
        0
    } else {
        1
    }
}

/// Whether face `f` (0..6) of the cube lies on the far side (1) or the near
/// side (0) of its axis.
pub open spec fn cube_face_side(f: int) -> int {
    f % 2
}

/// Coordinate `axis` of corner `c` of the unit cube.
pub open spec fn corner_coord(c: int, axis: int) -> int {
    if axis == 0 {
        c / 4
    } else if axis == 1 {
        (c / 2) % 2
    } else {
        c % 2
    }
}

/// The six groups of six indices of a block cover the six faces of its
/// cube, one face each: every corner of group `f` lies on face `f`, and the
/// six faces are pairwise different.
pub proof fn lemma_cube_faces()
    ensures
        forall|f: int, k: int|
            0 <= f < 6 && 0 <= k < 6 ==> corner_coord(#[trigger] cube_triangle_corner(6 * f + k), cube_face_axis(f))
                == cube_face_side(f),
        forall|f: int, g: int|
            0 <= f < g < 6 ==> cube_face_axis(f) != cube_face_axis(g) || cube_face_side(f) != cube_face_side(g),
{
    assert forall|f: int, k: int| 0 <= f < 6 && 0 <= k < 6 implies corner_coord(
        #[trigger] cube_triangle_corner(6 * f + k),
        cube_face_axis(f),
    ) == cube_face_side(f) by {
if f == 0 {
if k == 0 {
assert(corner_coord(cube_triangle_corner(0), cube_face_axis(0)) == cube_face_side(0));
} else if k == 1 {
assert(corner_coord(cube_triangle_corner(1), cube_face_axis(0)) == cube_face_side(0));
} else if k == 2 {
assert(corner_coord(cube_triangle_corner(2), cube_face_axis(0)) == cube_face_side(0));
} else if k == 3 {
assert(corner_coord(cube_triangle_corner(3), cube_face_axis(0)) == cube_face_side(0));
} else if k == 4 {
assert(corner_coord(cube_triangle_corner(4), cube_face_axis(0)) == cube_face_side(0));
} else if k == 5 {
assert(corner_coord(cube_triangle_corner(5), cube_face_axis(0)) == cube_face_side(0));
}
} else if f == 1 {
if k == 0 {
assert(corner_coord(cube_triangle_corner(6), cube_face_axis(1)) == cube_face_side(1));
} else if k == 1 {
assert(corner_coord(cube_triangle_corner(7), cube_face_axis(1)) == cube_face_side(1));
} else if k == 2 {
assert(corner_coord(cube_triangle_corner(8), cube_face_axis(1)) == cube_face_side(1));
} else if k == 3 {
assert(corner_coord(cube_triangle_corner(9), cube_face_axis(1)) == cube_face_side(1));
} else if k == 4 {
assert(corner_coord(cube_triangle_corner(10), cube_face_axis(1)) == cube_face_side(1));
} else if k == 5 {
assert(corner_coord(cube_triangle_corner(11), cube_face_axis(1)) == cube_face_side(1));
}
} else if f == 2 {
if k == 0 {
assert(corner_coord(cube_triangle_corner(12), cube_face_axis(2)) == cube_face_side(2));
} else if k == 1 {
assert(corner_coord(cube_triangle_corner(13), cube_face_axis(2)) == cube_face_side(2));
} else if k == 2 {
assert(corner_coord(cube_triangle_corner(14), cube_face_axis(2)) == cube_face_side(2));
} else if k == 3 {
assert(corner_coord(cube_triangle_corner(15), cube_face_axis(2)) == cube_face_side(2));
} else if k == 4 {
assert(corner_coord(cube_triangle_corner(16), cube_face_axis(2)) == cube_face_side(2));
} else if k == 5 {
assert(corner_coord(cube_triangle_corner(17), cube_face_axis(2)) == cube_face_side(2));
}
} else if f == 3 {
if k == 0 {
assert(corner_coord(cube_triangle_corner(18), cube_face_axis(3)) == cube_face_side(3));
} else if k == 1 {
assert(corner_coord(cube_triangle_corner(19), cube_face_axis(3)) == cube_face_side(3));
} else if k == 2 {
assert(corner_coord(cube_triangle_corner(20), cube_face_axis(3)) == cube_face_side(3));
} else if k == 3 {
assert(corner_coord(cube_triangle_corner(21), cube_face_axis(3)) == cube_face_side(3));
} else if k == 4 {
assert(corner_coord(cube_triangle_corner(22), cube_face_axis(3)) == cube_face_side(3));
} else if k == 5 {
assert(corner_coord(cube_triangle_corner(23), cube_face_axis(3)) == cube_face_side(3));
}
} else if f == 4 {
if k == 0 {
assert(corner_coord(cube_triangle_corner(24), cube_face_axis(4)) == cube_face_side(4));
} else if k == 1 {
assert(corner_coord(cube_triangle_corner(25), cube_face_axis(4)) == cube_face_side(4));
} else if k == 2 {
assert(corner_coord(cube_triangle_corner(26), cube_face_axis(4)) == cube_face_side(4));
} else if k == 3 {
assert(corner_coord(cube_triangle_corner(27), cube_face_axis(4)) == cube_face_side(4));
} else if k == 4 {
assert(corner_coord(cube_triangle_corner(28), cube_face_axis(4)) == cube_face_side(4));
} else if k == 5 {
assert(corner_coord(cube_triangle_corner(29), cube_face_axis(4)) == cube_face_side(4));
}
} else if f == 5 {
if k == 0 {
assert(corner_coord(cube_triangle_corner(30), cube_face_axis(5)) == cube_face_side(5));
} else if k == 1 {
assert(corner_coord(cube_triangle_corner(31), cube_face_axis(5)) == cube_face_side(5));
} else if k == 2 {
assert(corner_coord(cube_triangle_corner(32), cube_face_axis(5)) == cube_face_side(5));
} else if k == 3 {
assert(corner_coord(cube_triangle_corner(33), cube_face_axis(5)) == cube_face_side(5));
} else if k == 4 {
assert(corner_coord(cube_triangle_corner(34), cube_face_axis(5)) == cube_face_side(5));
} else if k == 5 {
assert(corner_coord(cube_triangle_corner(35), cube_face_axis(5)) == cube_face_side(5));
}
}
    }
    assert forall|f: int, g: int| 0 <= f < g < 6 implies cube_face_axis(f) != cube_face_axis(g) || cube_face_side(f) != cube_face_side(g) by {
if f == 0 {
if g == 0 {
} else if g == 1 {
} else if g == 2 {
} else if g == 3 {
} else if g == 4 {
} else if g == 5 {
}
} else if f == 1 {
if g == 0 {
} else if g == 1 {
} else if g == 2 {
} else if g == 3 {
} else if g == 4 {
} else if g == 5 {
}
} else if f == 2 {
if g == 0 {
} else if g == 1 {
} else if g == 2 {
} else if g == 3 {
} else if g == 4 {
} else if g == 5 {
}
} else if f == 3 {
if g == 0 {
} else if g == 1 {
} else if g == 2 {
} else if g == 3 {
} else if g == 4 {
} else if g == 5 {
}
} else if f == 4 {
if g == 0 {
} else if g == 1 {
} else if g == 2 {
} else if g == 3 {
} else if g == 4 {
} else if g == 5 {
}
} else if f == 5 {
if g == 0 {
} else if g == 1 {
} else if g == 2 {
} else if g == 3 {
} else if g == 4 {
} else if g == 5 {
}
}
    }
}

/// Corner `c` of the unit cube, as offsets along x, y and z.
fn corner_offset(c: u8) -> (r: (u8, u8, u8))
    requires
        c < 8,
    ensures
        r.0 as int == c / 4,
        r.1 as int == (c / 2) % 2,
        r.2 as int == c % 2,
{
    (c / 4, (c / 2) % 2, c % 2)
}

/// The vertices and triangle indices of every block of the small chunk:
/// eight cube corners per block, in block order (x slowest, z fastest), and
/// twelve triangles per block, two on each of the six faces of its cube
/// (see `lemma_cube_faces`). Vertex positions are in blocks from the
/// chunk's corner.
pub fn generate_vertices() -> (r: (Vec<(u8, u8, u8)>, Vec<u32>))
    ensures
        r.0@.len() == 8 * 216,
        forall|v: int|
            0 <= v < 8 * 216 ==> {
                let p = #[trigger] r.0@[v];
                (p.0 as int, p.1 as int, p.2 as int) == cube_corner(v / 8, v % 8)
            },
        r.1@.len() == 36 * 216,
        forall|j: int|
            0 <= j < 36 * 216 ==> #[trigger] r.1@[j] == 8 * (j / 36) + cube_triangle_corner(j % 36),
        forall|j: int| 0 <= j < 36 * 216 ==> #[trigger] r.1@[j] < 8 * 216,
{
    let mut verts: Vec<(u8, u8, u8)> = Vec::new();
    let mut indices: Vec<u32> = Vec::new();
    let mut b: usize = 0;
    while b < 216
        invariant
            0 <= b <= 216,
            verts@.len() == 8 * b,
            forall|v: int|
                0 <= v < 8 * b ==> {
                    let p = #[trigger] verts@[v];
                    (p.0 as int, p.1 as int, p.2 as int) == cube_corner(v / 8, v % 8)
                },
            indices@.len() == 36 * b,
            forall|j: int|
                0 <= j < 36 * b ==> #[trigger] indices@[j] == 8 * (j / 36) + cube_triangle_corner(
                    j % 36,
                ),
        decreases 216 - b,
    {
        let x = (b / 36) as u8;
        let y = ((b / 6) % 6) as u8;
        let z = (b % 6) as u8;
        let index = verts.len() as u32;
        let mut c: u8 = 0;
        while c < 8
            invariant
                0 <= b < 216,
                0 <= c <= 8,
                x as int == b / 36,
                y as int == (b / 6) % 6,
                z as int == b % 6,
                verts@.len() == 8 * b + c,
                forall|v: int|
                    0 <= v < 8 * b + c ==> {
                        let p = #[trigger] verts@[v];
                        (p.0 as int, p.1 as int, p.2 as int) == cube_corner(v / 8, v % 8)
                    },
            decreases 8 - c,
        {
            let (dx, dy, dz) = corner_offset(c);
            verts.push((x + dx, y + dy, z + dz));
            proof {
                let n = 8 * b + c;
                assert forall|v: int| 0 <= v < n + 1 implies {
                    let p = #[trigger] verts@[v];
                    (p.0 as int, p.1 as int, p.2 as int) == cube_corner(v / 8, v % 8)
                } by {
                    if v == n {
                        assert(v / 8 == b);
                        assert(v % 8 == c);
                    }
                }
            }
            c += 1;
        }
        indices.push(index + 0);
        indices.push(index + 4);
        indices.push(index + 6);
        indices.push(index + 0);
        indices.push(index + 6);
        indices.push(index + 2);

        indices.push(index + 4);
        indices.push(index + 5);
        indices.push(index + 7);
        indices.push(index + 4);
        indices.push(index + 7);
        indices.push(index + 6);

        indices.push(index + 1);
        indices.push(index + 5);
        indices.push(index + 4);
        indices.push(index + 1);
        indices.push(index + 4);
        indices.push(index + 0);

        indices.push(index + 1);
        indices.push(index + 3);
        indices.push(index + 7);
        indices.push(index + 1);
        indices.push(index + 7);
        indices.push(index + 5);

        indices.push(index + 0);
        indices.push(index + 2);
        indices.push(index + 3);
        indices.push(index + 0);
        indices.push(index + 3);
        indices.push(index + 1);

        indices.push(index + 2);
        indices.push(index + 6);
        indices.push(index + 7);
        indices.push(index + 2);
        indices.push(index + 7);
        indices.push(index + 3);
        proof {
            assert forall|j: int| 0 <= j < 36 * (b + 1) implies #[trigger] indices@[j] == 8 * (j / 36)
                + cube_triangle_corner(j % 36) by {
                if j >= 36 * b {
                    assert(j / 36 == b);
                }
            }
        }
        b += 1;
    }
    assert forall|j: int| 0 <= j < 36 * 216 implies #[trigger] indices@[j] < 8 * 216 by {
        assert(j / 36 < 216);
    }
    (verts, indices)
}

/// The small cube chunk of 6 x 6 x 6 blocks.
pub struct Chunk {
    blocks: Vec<Block>,
}

impl Chunk {
    /// The chunk's blocks, by linear index.
    pub closed spec fn blocks(&self) -> Seq<Block> {
        self.blocks@
    }

    /// A new chunk: every block has type 1.
    pub fn new() -> (c: Self)
        ensures
            c.blocks().len() == 216,
            forall|i: int| 0 <= i < 216 ==> (#[trigger] c.blocks()[i]).block_type == 1,
    {
        let mut blocks: Vec<Block> = Vec::new();
        let mut i: usize = 0;
        while i < 216
            invariant
                0 <= i <= 216,
                blocks@.len() == i,
                forall|j: int| 0 <= j < i ==> (#[trigger] blocks@[j]).block_type == 1,
            decreases 216 - i,
        {
            blocks.push(Block::new(1));
            i += 1;
        }
        Self { blocks }
    }

    /// The block at (x, y, z); the linear index must fall inside the chunk.
    pub fn block_at(&self, x: u16, y: u16, z: u16) -> (b: Block)
        requires
            cube_index(x as int, y as int, z as int) < self.blocks().len(),
        ensures
            b == self.blocks()[cube_index(x as int, y as int, z as int)],
    {
        self.blocks[((x as usize) * CHUNK_SIZE * CHUNK_SIZE) + ((y as usize) * CHUNK_SIZE) + (z as usize)]
    }
}

} // verus!
