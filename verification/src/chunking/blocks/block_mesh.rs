use crate::chunking::blocks::BlockFace;
use vstd::prelude::*;

verus! {

/// Corner `corner` (0..4) of face `face` of a block, as its offset from the
/// block's centre in half blocks.
pub open spec fn spec_face_corner(face: BlockFace, corner: int) -> (int, int, int) {
    match face {
        BlockFace::Front => if corner == 0 {
            (1, 1, 1)
        } else if corner == 1 {
            (1, -1, 1)
        } else if corner == 2 {
            (1, -1, -1)
        } else {
            (1, 1, -1)
        },
        BlockFace::Back => if corner == 0 {
            (-1, -1, -1)
        } else if corner == 1 {
            (-1, -1, 1)
        } else if corner == 2 {
            (-1, 1, 1)
        } else {
            (-1, 1, -1)
        },
        BlockFace::Left => if corner == 0 {
            (1, 1, 1)
        } else if corner == 1 {
            (-1, 1, 1)
        } else if corner == 2 {
            (-1, -1, 1)
        } else {
            (1, -1, 1)
        },
        BlockFace::Right => if corner == 0 {
            (1, 1, -1)
        } else if corner == 1 {
            (1, -1, -1)
        } else if corner == 2 {
            (-1, -1, -1)
        } else {
            (-1, 1, -1)
        },
        BlockFace::Top => if corner == 0 {
            (1, 1, 1)
        } else if corner == 1 {
            (1, 1, -1)
        } else if corner == 2 {
            (-1, 1, -1)
        } else {
            (-1, 1, 1)
        },
        BlockFace::Bottom => if corner == 0 {
            (-1, -1, -1)
        } else if corner == 1 {
            (1, -1, -1)
        } else if corner == 2 {
            (1, -1, 1)
        } else {
            (-1, -1, 1)
        },
    }
}

/// The corners of the six block faces, in half blocks from the block's
/// centre, in the order in which a face's two triangles use them.
pub fn face_corner(face: BlockFace, corner: usize) -> (r: (i8, i8, i8))
    requires
        corner < 4,
    ensures
        (r.0 as int, r.1 as int, r.2 as int) == spec_face_corner(face, corner as int),
{
    match face {
        BlockFace::Front => if corner == 0 {
            (1, 1, 1)
        } else if corner == 1 {
            (1, -1, 1)
        } else if corner == 2 {
            (1, -1, -1)
        } else {
            (1, 1, -1)
        },
        BlockFace::Back => if corner == 0 {
            (-1, -1, -1)
        } else if corner == 1 {
            (-1, -1, 1)
        } else if corner == 2 {
            (-1, 1, 1)
        } else {
            (-1, 1, -1)
        },
        BlockFace::Left => if corner == 0 {
            (1, 1, 1)
        } else if corner == 1 {
            (-1, 1, 1)
        } else if corner == 2 {
            (-1, -1, 1)
        } else {
            (1, -1, 1)
        },
        BlockFace::Right => if corner == 0 {
            (1, 1, -1)
        } else if corner == 1 {
            (1, -1, -1)
        } else if corner == 2 {
            (-1, -1, -1)
        } else {
            (-1, 1, -1)
        },
        BlockFace::Top => if corner == 0 {
            (1, 1, 1)
        } else if corner == 1 {
            (1, 1, -1)
        } else if corner == 2 {
            (-1, 1, -1)
        } else {
            (-1, 1, 1)
        },
        BlockFace::Bottom => if corner == 0 {
            (-1, -1, -1)
        } else if corner == 1 {
            (1, -1, -1)
        } else if corner == 2 {
            (1, -1, 1)
        } else {
            (-1, -1, 1)
        },
    }
}

} // verus!
