use crate::chunking::blocks::BlockType;
use vstd::prelude::*;

verus! {

/// A source of block types at world block coordinates.
pub trait NoiseSource {
    fn get(&self, point: (i64, i64, i64)) -> BlockType;
}

} // verus!
