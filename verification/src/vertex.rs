use crate::chunking::blocks::BlockType;
use vstd::prelude::*;

verus! {

/// A vertex of a block face, on the half-unit grid: the corner of block
/// `block` (local chunk coordinates) displaced by `corner_offset`, in half
/// blocks, from the block's centre. `corner` is the corner's number on its
/// face (0..4), which picks the texture coordinate; `block_type` picks the
/// texture.
#[derive(Clone, Copy, PartialEq, Eq, Debug)]
pub struct GridVertex {
    pub block: (u8, u8, u8),
    pub corner_offset: (i8, i8, i8),
    pub corner: u8,
    pub block_type: BlockType,
}

} // verus!
