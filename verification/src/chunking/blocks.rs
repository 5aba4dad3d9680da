pub mod block_mesh;

use vstd::prelude::*;

verus! {

/// The six faces of a block, named by the side of the block they cover.
#[derive(Clone, Copy, PartialEq, Eq, Structural, Debug)]
pub enum BlockFace {
    Front,
    Back,
    Left,
    Right,
    Top,
    Bottom,
}

/// The kinds of block a chunk can hold.
#[derive(Clone, Copy, PartialEq, Eq, Structural, Debug)]
pub enum BlockType {
    Empty,
    Grass,
    Stone,
    Max,
}

/// The block type that a raw byte stands for, if any.
pub open spec fn block_type_from_byte(value: u8) -> Option<BlockType> {
    if value == 0 {
        Some(BlockType::Empty)
    } else if value == 1 {
        Some(BlockType::Grass)
    } else if value == 2 {
        Some(BlockType::Stone)
    } else {
        None
    }
}

/// The decoding of a block type from its byte.
pub open spec fn spec_block_type_try_from(value: u8) -> Result<BlockType, ()> {
    match block_type_from_byte(value) {
        Some(t) => Ok(t),
        None => Err(()),
    }
}

impl TryFrom<u8> for BlockType {
    type Error = ();

    /// Decodes a block type from its byte: 0, 1 and 2 name the three real
    /// kinds; every other byte is refused.
    fn try_from(value: u8) -> (r: Result<Self, Self::Error>) {
        match value {
            0 => Ok(BlockType::Empty),
            1 => Ok(BlockType::Grass),
            2 => Ok(BlockType::Stone),
            _ => Err(()),
        }
    }
}

impl vstd::std_specs::convert::TryFromSpecImpl<u8> for BlockType {
    open spec fn obeys_try_from_spec() -> bool {
        true
    }

    open spec fn try_from_spec(v: u8) -> Result<Self, Self::Error> {
        spec_block_type_try_from(v)
    }
}

/// A block's mass, counted in half units.
pub open spec fn spec_mass_halves(t: BlockType) -> nat {
    match t {
        BlockType::Empty => 0,
        BlockType::Grass => 1,
        BlockType::Stone => 2,
        BlockType::Max => 0,
    }
}

impl BlockType {
    /// The block's mass in half units: empty blocks weigh nothing, grass
    /// weighs one half and stone one whole unit.
    pub fn mass_halves(&self) -> (m: u8)
        ensures
            m as nat == spec_mass_halves(*self),
    {
        match self {
            BlockType::Empty => 0,
            BlockType::Grass => 1,
            BlockType::Stone => 2,
            BlockType::Max => 0,
        }
    }
}

/// One voxel of a chunk.
#[derive(Clone, Copy, PartialEq, Eq, Structural, Debug)]
pub struct Block {
    pub block_type: BlockType,
}

/// A block is solid when it is not empty.
pub open spec fn spec_is_solid(b: Block) -> bool {
    b.block_type != BlockType::Empty
}

impl Block {
    pub fn new(block_type: BlockType) -> (b: Self)
        ensures
            b.block_type == block_type,
    {
        Self { block_type }
    }

    pub fn is_solid(&self) -> (r: bool)
        ensures
            r == spec_is_solid(*self),
    {
        self.block_type != BlockType::Empty
    }

    /// A missing block counts as not solid.
    pub fn solid(block: Option<&Block>) -> (r: bool)
        ensures
            r == match block {
                Some(b) => spec_is_solid(*b),
                None => false,
            },
    {
        if let Some(block) = block {
            return block.is_solid();
        }
        false
    }
}

} // verus!
