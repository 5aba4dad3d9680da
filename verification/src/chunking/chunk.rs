use crate::chunking::blocks::{spec_is_solid, spec_mass_halves, Block, BlockType};
use std::collections::BTreeMap;
use vstd::prelude::*;

verus! {

/// Position of a chunk in the grid of chunks (chunk units, not blocks).
pub type ChunkPos = (i64, i64, i64);

/// Edge length of a chunk, in blocks.
pub const CHUNK_BLOCK_SIZE: u8 = 32;

/// Number of blocks in a chunk.
pub const CHUNK_BLOCK_COUNT: u32 = 32768;

/// Linear index of the block at local coordinates (x, y, z): x varies
/// slowest and z fastest.
pub open spec fn block_index(x: int, y: int, z: int) -> int {
    (x * 32 + y) * 32 + z
}

/// The x coordinate of the block with linear index `i`.
pub open spec fn index_x(i: int) -> int {
    i / 1024
}

/// The y coordinate of the block with linear index `i`.
pub open spec fn index_y(i: int) -> int {
    (i / 32) % 32
}

/// The z coordinate of the block with linear index `i`.
pub open spec fn index_z(i: int) -> int {
    i % 32
}

/// Local coordinates inside a chunk and linear indices correspond one to one.
pub proof fn lemma_block_index(x: int, y: int, z: int)
    requires
        0 <= x < 32,
        0 <= y < 32,
        0 <= z < 32,
    ensures
        0 <= block_index(x, y, z) < 32768,
        index_x(block_index(x, y, z)) == x,
        index_y(block_index(x, y, z)) == y,
        index_z(block_index(x, y, z)) == z,
{
}

/// Every linear index below the block count names a block with in-range
/// coordinates.
pub proof fn lemma_index_coords(i: int)
    requires
        0 <= i < 32768,
    ensures
        0 <= index_x(i) < 32,
        0 <= index_y(i) < 32,
        0 <= index_z(i) < 32,
        block_index(index_x(i), index_y(i), index_z(i)) == i,
{
}


/// Height of the terrain column inside a chunk: the noise height minus the
/// chunk's base height, held to the range 0..=32.
pub open spec fn column_height(noise: int, chunk_y: int) -> int {
    let h = noise - chunk_y * 32;
    if h < 0 {
        0
    } else if h > 32 {
        32
    } else {
        h
    }
}

/// Block type at height `y` of a terrain column of the given height:
/// alternating grass and stone layers below the surface, empty above.
pub open spec fn terrain_block_type(height: int, y: int) -> BlockType {
    if y < height {
        if y % 2 == 0 {
            BlockType::Grass
        } else {
            BlockType::Stone
        }
    } else {
        BlockType::Empty
    }
}

/// The terrain block at linear index `i`, given the noise height of each
/// column (indexed by `x * 32 + z`).
pub open spec fn terrain_block(heights: Seq<i64>, chunk_y: int, i: int) -> Block {
    Block {
        block_type: terrain_block_type(
            column_height(heights[index_x(i) * 32 + index_z(i)] as int, chunk_y),
            index_y(i),
        ),
    }
}

/// Whether every block of the sequence is empty.
pub open spec fn all_empty(blocks: Seq<Block>) -> bool {
    forall|i: int| 0 <= i < blocks.len() ==> !spec_is_solid(#[trigger] blocks[i])
}

/// Appending a block keeps a sequence all empty exactly when the block is
/// not solid.
pub proof fn lemma_all_empty_push(s: Seq<Block>, b: Block)
    ensures
        all_empty(s.push(b)) == (all_empty(s) && !spec_is_solid(b)),
{
    let t = s.push(b);
    if all_empty(t) {
        assert forall|j: int| 0 <= j < s.len() implies !spec_is_solid(#[trigger] s[j]) by {
            assert(t[j] == s[j]);
        }
        assert(!spec_is_solid(t[s.len() as int]));
    }
    if all_empty(s) && !spec_is_solid(b) {
        assert forall|j: int| 0 <= j < t.len() implies !spec_is_solid(#[trigger] t[j]) by {
            if j < s.len() {
                assert(t[j] == s[j]);
            }
        }
    }
}

/// The column heights that a terrain chunk can be built from without an
/// arithmetic overflow.
pub open spec fn heights_fit(heights: Seq<i64>, chunk_y: int) -> bool {
    &&& heights.len() == 1024
    &&& i64::MIN <= chunk_y * 32 <= i64::MAX
    &&& forall|k: int|
        0 <= k < 1024 ==> i64::MIN <= #[trigger] heights[k] - chunk_y * 32 <= i64::MAX
}

/// Sum of the masses (in half units) of the first `n` block types.
pub open spec fn mass_prefix(types: Seq<BlockType>, n: int) -> int
    decreases n,
{
    if n <= 0 {
        0
    } else {
        mass_prefix(types, n - 1) + spec_mass_halves(types[n - 1])
    }
}

/// A chunk's mass counts every block in it: the mass of the first `n`
/// blocks is at least the mass of any one of them, so it is positive as
/// soon as one of them is grass or stone.
pub proof fn lemma_mass_prefix_counts_block(types: Seq<BlockType>, n: int, i: int)
    requires
        0 <= i < n,
    ensures
        mass_prefix(types, n) >= spec_mass_halves(types[i]),
        (types[i] == BlockType::Grass || types[i] == BlockType::Stone) ==> mass_prefix(types, n) > 0,
    decreases n,
{
    lemma_mass_prefix_nonneg(types, n - 1);
    if i < n - 1 {
        lemma_mass_prefix_counts_block(types, n - 1, i);
    }
}

/// Masses are never negative.
pub proof fn lemma_mass_prefix_nonneg(types: Seq<BlockType>, n: int)
    ensures
        mass_prefix(types, n) >= 0,
    decreases n,
{
    if n > 0 {
        lemma_mass_prefix_nonneg(types, n - 1);
    }
}

/// Coordinate `axis` (0 for x, 1 for y, 2 for z) of the block with linear
/// index `i`.
pub open spec fn index_coord(i: int, axis: int) -> int {
    if axis == 0 {
        index_x(i)
    } else if axis == 1 {
        index_y(i)
    } else {
        index_z(i)
    }
}

/// Sum over the first `n` blocks of mass (in half units) times coordinate
/// `axis`: the numerator of the centre of mass along that axis.
pub open spec fn moment_prefix(types: Seq<BlockType>, n: int, axis: int) -> int
    decreases n,
{
    if n <= 0 {
        0
    } else {
        moment_prefix(types, n - 1, axis) + spec_mass_halves(types[n - 1]) * index_coord(
            n - 1,
            axis,
        )
    }
}

/// A cube of 32 x 32 x 32 blocks at a position of the chunk grid.
///
/// The mass is kept exactly, in half units, together with the three
/// mass moments; the centre of mass is the moment divided by the mass.
pub struct Chunk {
    pub world_offset: ChunkPos,
    pub blocks: Vec<Block>,
    pub mass_halves: u32,
    pub moment_halves: (u32, u32, u32),
    pub empty: bool,
}

/// A block written through `block_at_mut` is read back by `block_at` at
/// the same coordinates, and every other block reads as before.
pub proof fn lemma_write_then_read(blocks: Seq<Block>, x: int, y: int, z: int, b: Block, i: int)
    requires
        0 <= block_index(x, y, z) < blocks.len(),
        0 <= i < blocks.len(),
        i != block_index(x, y, z),
    ensures
        blocks.update(block_index(x, y, z), b)[block_index(x, y, z)] == b,
        blocks.update(block_index(x, y, z), b)[i] == blocks[i],
        blocks.update(block_index(x, y, z), b).len() == blocks.len(),
{
}

/// Whether `c` is the terrain chunk at `pos` built from the column heights
/// `heights`.
pub open spec fn is_terrain_chunk(c: Chunk, pos: ChunkPos, heights: Seq<i64>) -> bool {
    &&& c.world_offset == pos
    &&& c.wf()
    &&& forall|i: int| 0 <= i < 32768 ==> #[trigger] c.blocks()[i] == terrain_block(heights, pos.1 as int, i)
    &&& c.mass_halves == 0
    &&& c.moment_halves == (0u32, 0u32, 0u32)
    &&& c.empty == all_empty(c.blocks())
}

impl Chunk {
    /// The chunk's blocks, by linear index.
    pub open spec fn blocks(&self) -> Seq<Block> {
        self.blocks@
    }

    /// A chunk holds exactly one block per position.
    pub open spec fn wf(&self) -> bool {
        self.blocks().len() == 32768
    }

    /// Builds the terrain chunk at `world_offset`. `heights[x * 32 + z]` is
    /// the terrain height that the height noise gives for column (x, z) of
    /// this chunk; each column is filled from the bottom with alternating
    /// grass and stone up to that height.
    pub fn from_offset(world_offset: &ChunkPos, heights: &Vec<i64>) -> (c: Self)
        requires
            heights_fit(heights@, world_offset.1 as int),
        ensures
            is_terrain_chunk(c, *world_offset, heights@),
    {
        let base = world_offset.1 * 32;
        let mut blocks: Vec<Block> = Vec::new();
        let mut empty = true;
        let mut i: usize = 0;
        while i < 32768
            invariant
                0 <= i <= 32768,
                base == world_offset.1 * 32,
                heights_fit(heights@, world_offset.1 as int),
                blocks@.len() == i,
                forall|j: int|
                    0 <= j < i ==> #[trigger] blocks@[j] == terrain_block(
                        heights@,
                        world_offset.1 as int,
                        j,
                    ),
                empty == all_empty(blocks@),
            decreases 32768 - i,
        {
            proof {
                lemma_index_coords(i as int);
            }
            let x = i / 1024;
            let y = (i / 32) % 32;
            let z = i % 32;
            let noise = heights[x * 32 + z];
            let mut height = noise - base;
            if height < 0 {
                height = 0;
            }
            if height > 32 {
                height = 32;
            }
            let block_type = if (y as i64) < height {
                if y % 2 == 0 {
                    BlockType::Grass
                } else {
                    BlockType::Stone
                }
            } else {
                BlockType::Empty
            };
            if block_type != BlockType::Empty {
                empty = false;
            }
            let ghost prev = blocks@;
            blocks.push(Block::new(block_type));
            proof {
                lemma_all_empty_push(prev, Block { block_type });
            }
            i += 1;
        }
        Self { world_offset: *world_offset, blocks, mass_halves: 0, moment_halves: (0, 0, 0), empty }
    }

    /// Builds the chunk at `world_offset` from the block type that the
    /// planet noise gives at each position (`block_types[i]` for the block
    /// with linear index `i`), and accounts for its mass and mass moments.
    pub fn generate_planets(world_offset: &ChunkPos, block_types: &Vec<BlockType>) -> (c: Self)
        requires
            block_types@.len() == 32768,
        ensures
            c.world_offset == *world_offset,
            c.wf(),
            forall|i: int|
                0 <= i < 32768 ==> (#[trigger] c.blocks()[i]).block_type == block_types@[i],
            c.empty == all_empty(c.blocks()),
            c.mass_halves == mass_prefix(block_types@, 32768),
            (exists|i: int|
                0 <= i < 32768 && (#[trigger] block_types@[i] == BlockType::Grass || block_types@[i]
                    == BlockType::Stone)) ==> c.mass_halves > 0,
            c.moment_halves.0 == moment_prefix(block_types@, 32768, 0),
            c.moment_halves.1 == moment_prefix(block_types@, 32768, 1),
            c.moment_halves.2 == moment_prefix(block_types@, 32768, 2),
    {
        let mut blocks: Vec<Block> = Vec::new();
        let mut empty = true;
        let mut mass: u32 = 0;
        let mut mx: u32 = 0;
        let mut my: u32 = 0;
        let mut mz: u32 = 0;
        let mut i: usize = 0;
        while i < 32768
            invariant
                0 <= i <= 32768,
                block_types@.len() == 32768,
                blocks@.len() == i,
                forall|j: int|
                    0 <= j < i ==> (#[trigger] blocks@[j]).block_type == block_types@[j],
                empty == all_empty(blocks@),
                mass == mass_prefix(block_types@, i as int),
                mx == moment_prefix(block_types@, i as int, 0),
                my == moment_prefix(block_types@, i as int, 1),
                mz == moment_prefix(block_types@, i as int, 2),
                mass <= 2 * i,
                mx <= 62 * i,
                my <= 62 * i,
                mz <= 62 * i,
            decreases 32768 - i,
        {
            proof {
                lemma_index_coords(i as int);
            }
            let x = (i / 1024) as u32;
            let y = ((i / 32) % 32) as u32;
            let z = (i % 32) as u32;
            let block_type = block_types[i];
            let m = block_type.mass_halves() as u32;
            assert(m * x <= 62 && m * y <= 62 && m * z <= 62) by (nonlinear_arith)
                requires
                    m <= 2,
                    x < 32,
                    y < 32,
                    z < 32,
            ;
            mass = mass + m;
            mx = mx + m * x;
            my = my + m * y;
            mz = mz + m * z;
            if block_type != BlockType::Empty {
                empty = false;
            }
            let ghost prev = blocks@;
            blocks.push(Block::new(block_type));
            proof {
                lemma_all_empty_push(prev, Block { block_type });
            }
            i += 1;
        }
        proof {
            if exists|i: int|
                0 <= i < 32768 && (#[trigger] block_types@[i] == BlockType::Grass || block_types@[i]
                    == BlockType::Stone) {
                let i = choose|i: int|
                    0 <= i < 32768 && (#[trigger] block_types@[i] == BlockType::Grass || block_types@[i]
                        == BlockType::Stone);
                lemma_mass_prefix_counts_block(block_types@, 32768, i);
            }
        }
        Self {
            world_offset: *world_offset,
            blocks,
            mass_halves: mass,
            moment_halves: (mx, my, mz),
            empty,
        }
    }

    /// The block at local coordinates `block`, if its linear index falls
    /// inside the chunk. The coordinates are not checked one by one: an
    /// out-of-range y or z that still gives an index inside the chunk names
    /// another block.
    pub fn block_at(&self, block: (u8, u8, u8)) -> (r: Option<&Block>)
        ensures
            match r {
                Some(b) => block_index(block.0 as int, block.1 as int, block.2 as int)
                    < self.blocks().len() && *b == self.blocks()[block_index(
                    block.0 as int,
                    block.1 as int,
                    block.2 as int,
                )],
                None => block_index(block.0 as int, block.1 as int, block.2 as int)
                    >= self.blocks().len(),
            },
    {
        let index = ((block.0 as usize) * 32 + block.1 as usize) * 32 + block.2 as usize;
        if index < self.blocks.len() {
            Some(&self.blocks[index])
        } else {
            None
        }
    }

    /// The block at `block` if it exists and is solid.
    pub fn solid_block_at(&self, block: (u8, u8, u8)) -> (r: Option<&Block>)
        ensures
            match r {
                Some(b) => block_index(block.0 as int, block.1 as int, block.2 as int)
                    < self.blocks().len() && *b == self.blocks()[block_index(
                    block.0 as int,
                    block.1 as int,
                    block.2 as int,
                )] && spec_is_solid(*b),
                None => block_index(block.0 as int, block.1 as int, block.2 as int)
                    >= self.blocks().len() || !spec_is_solid(
                    self.blocks()[block_index(block.0 as int, block.1 as int, block.2 as int)],
                ),
            },
    {
        match self.block_at(block) {
            Some(b) => {
                if b.block_type != BlockType::Empty {
                    Some(b)
                } else {
                    None
                }
            },
            None => None,
        }
    }

    /// Mutable access to the block at (x, y, z), if its linear index falls
    /// inside the chunk; nothing else of the chunk changes.
    pub fn block_at_mut(&mut self, x: u8, y: u8, z: u8) -> (r: Option<&mut Block>)
        ensures
            block_index(x as int, y as int, z as int) < old(self).blocks().len() ==> {
                &&& r is Some
                &&& *r->0 == old(self).blocks()[block_index(x as int, y as int, z as int)]
                &&& final(self).blocks() == old(self).blocks().update(
                    block_index(x as int, y as int, z as int),
                    *final(r->0),
                )
            },
            block_index(x as int, y as int, z as int) >= old(self).blocks().len() ==> {
                &&& r is None
                &&& final(self).blocks() == old(self).blocks()
            },
            final(self).world_offset == old(self).world_offset,
            final(self).mass_halves == old(self).mass_halves,
            final(self).moment_halves == old(self).moment_halves,
            final(self).empty == old(self).empty,
    {
        let index = ((x as usize) * 32 + y as usize) * 32 + z as usize;
        if index < self.blocks.len() {
            Some(&mut self.blocks[index])
        } else {
            None
        }
    }

    /// Whether the block at `block` exists and is solid.
    pub fn block_is_solid(&self, block: (u8, u8, u8)) -> (r: bool)
        ensures
            r == (block_index(block.0 as int, block.1 as int, block.2 as int)
                < self.blocks().len() && spec_is_solid(
                self.blocks()[block_index(block.0 as int, block.1 as int, block.2 as int)],
            )),
    {
        match self.block_at(block) {
            Some(b) => b.block_type != BlockType::Empty,
            None => false,
        }
    }
}

} // verus!

verus! {

broadcast use vstd::laws_cmp::group_laws_cmp, vstd::std_specs::btree::group_btree_axioms;

/// Chunk positions are totally ordered the way ordered collections expect.
pub proof fn lemma_chunk_pos_ordered()
    ensures
        vstd::laws_cmp::obeys_cmp::<ChunkPos>(),
{
}

/// Every chunk of the container is stored under its own position and holds
/// a full set of blocks.
pub open spec fn chunks_wf(chunks: Map<ChunkPos, Chunk>) -> bool {
    forall|k: ChunkPos| #[trigger]
        chunks.contains_key(k) ==> chunks[k].world_offset == k && chunks[k].wf()
}

/// The loaded chunks, keyed by their position in the chunk grid.
pub struct ChunkContainer {
    pub chunks: BTreeMap<ChunkPos, Chunk>,
}

/// After a chunk is stored, looking up its position finds it, and every
/// other position finds what it found before.
pub proof fn lemma_update_then_get(chunks: Map<ChunkPos, Chunk>, chunk: Chunk, other: ChunkPos)
    requires
        other != chunk.world_offset,
    ensures
        chunks.insert(chunk.world_offset, chunk).contains_key(chunk.world_offset),
        chunks.insert(chunk.world_offset, chunk)[chunk.world_offset] == chunk,
        chunks.insert(chunk.world_offset, chunk).contains_key(other) == chunks.contains_key(other),
        chunks.contains_key(other) ==> chunks.insert(chunk.world_offset, chunk)[other] == chunks[other],
{
}

impl ChunkContainer {
    pub open spec fn wf(&self) -> bool {
        chunks_wf(self.chunks@)
    }

    pub fn new() -> (c: Self)
        ensures
            c.chunks@ == Map::<ChunkPos, Chunk>::empty(),
            c.wf(),
    {
        Self { chunks: BTreeMap::new() }
    }

    /// Stores `chunk` under its own position, handing back the chunk it
    /// replaces.
    pub fn update_chunk(&mut self, chunk: Chunk) -> (r: Option<Chunk>)
        ensures
            final(self).chunks@ == old(self).chunks@.insert(chunk.world_offset, chunk),
            match r {
                Some(c) => old(self).chunks@.contains_key(chunk.world_offset) && c == old(
                    self,
                ).chunks@[chunk.world_offset],
                None => !old(self).chunks@.contains_key(chunk.world_offset),
            },
            old(self).wf() && chunk.wf() ==> final(self).wf(),
    {
        let pos = chunk.world_offset;
        self.chunks.insert(pos, chunk)
    }

    /// Generates the terrain chunk at `pos` from the column heights
    /// `heights`, unless a chunk is already there. Answers whether a chunk
    /// was added.
    pub fn add_at(&mut self, pos: &ChunkPos, heights: &Vec<i64>) -> (r: bool)
        requires
            !old(self).chunks@.contains_key(*pos) ==> heights_fit(heights@, pos.1 as int),
        ensures
            r == !old(self).chunks@.contains_key(*pos),
            !r ==> final(self).chunks@ == old(self).chunks@,
            r ==> {
                &&& final(self).chunks@.dom() == old(self).chunks@.dom().insert(*pos)
                &&& forall|k: ChunkPos|
                    k != *pos && #[trigger] old(self).chunks@.contains_key(k)
                        ==> final(self).chunks@[k] == old(self).chunks@[k]
                &&& is_terrain_chunk(final(self).chunks@[*pos], *pos, heights@)
            },
            old(self).wf() ==> final(self).wf(),
    {
        if !self.chunks.contains_key(pos) {
            let chunk = Chunk::from_offset(pos, heights);
            self.chunks.insert(*pos, chunk);
            true
        } else {
            false
        }
    }

    /// The chunk at `pos`, if loaded.
    pub fn get_chunk(&self, pos: ChunkPos) -> (r: Option<&Chunk>)
        ensures
            match r {
                Some(c) => self.chunks@.contains_key(pos) && *c == self.chunks@[pos],
                None => !self.chunks@.contains_key(pos),
            },
    {
        self.chunks.get(&pos)
    }

    /// Whether a chunk is loaded at `pos`.
    pub fn chunk_at(&self, pos: ChunkPos) -> (r: bool)
        ensures
            r == self.chunks@.contains_key(pos),
    {
        self.chunks.contains_key(&pos)
    }

    /// The block at local coordinates `block` of the chunk at `chunk`.
    pub fn get_block(&self, chunk: ChunkPos, block: (u8, u8, u8)) -> (r: Option<&Block>)
        ensures
            match r {
                Some(b) => self.chunks@.contains_key(chunk) && block_index(
                    block.0 as int,
                    block.1 as int,
                    block.2 as int,
                ) < self.chunks@[chunk].blocks().len() && *b == self.chunks@[chunk].blocks()[block_index(
                    block.0 as int,
                    block.1 as int,
                    block.2 as int,
                )],
                None => !self.chunks@.contains_key(chunk) || block_index(
                    block.0 as int,
                    block.1 as int,
                    block.2 as int,
                ) >= self.chunks@[chunk].blocks().len(),
            },
    {
        match self.get_chunk(chunk) {
            Some(c) => c.block_at(block),
            None => None,
        }
    }
}

} // verus!
