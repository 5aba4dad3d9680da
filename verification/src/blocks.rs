use vstd::prelude::*;

verus! {

/// One voxel of the small test chunk, tagged with a raw type byte.
#[derive(Clone, Copy, PartialEq, Eq, Structural, Debug)]
pub struct Block {
    pub block_type: u8,
}

impl Block {
    pub fn new(block_type: u8) -> (b: Self)
        ensures
            b.block_type == block_type,
    {
        Self { block_type }
    }
}

} // verus!
