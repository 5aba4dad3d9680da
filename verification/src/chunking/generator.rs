use vstd::prelude::*;

verus! {

/// `rand::random_range` over `0..upper` with the thread-local generator:
/// a value below `upper`. The range must not be empty, since the call
/// panics on an empty range.
#[verifier::external_body]
fn random_below(upper: u32) -> (r: u32)
    requires
        upper > 0,
    ensures
        r < upper,
{
    rand::random_range(0..upper)
}

/// A random height for every column of a chunk.
pub struct HeightMap {
    height_map: Vec<u32>,
}

impl HeightMap {
    /// The heights, by column index `x * 32 + z`.
    pub closed spec fn heights(&self) -> Seq<u32> {
        self.height_map@
    }

    /// Draws a height in 0..32 for each of the 1024 columns.
    pub fn new() -> (m: Self)
        ensures
            m.heights().len() == 1024,
            forall|i: int| 0 <= i < 1024 ==> #[trigger] m.heights()[i] < 32,
    {
        let mut height_map: Vec<u32> = Vec::new();
        let mut i: usize = 0;
        while i < 1024
            invariant
                0 <= i <= 1024,
                height_map@.len() == i,
                forall|j: int| 0 <= j < i ==> #[trigger] height_map@[j] < 32,
            decreases 1024 - i,
        {
            height_map.push(random_below(32));
            i += 1;
        }
        Self { height_map }
    }

    /// The height of column (x, z); the column index `x * 32 + z` must fall
    /// inside the map.
    pub fn height(&self, x: u8, z: u8) -> (h: u32)
        requires
            (x as int) * 32 + (z as int) < self.heights().len(),
        ensures
            h == self.heights()[(x as int) * 32 + (z as int)],
    {
        self.height_map[(x as usize * 32) + z as usize]
    }
}

} // verus!
