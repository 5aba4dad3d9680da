pub mod chaos_thread;
pub mod maps;

use crate::chaos::maps::ChaosMap;
use vstd::prelude::*;

verus! {

/// A cloud of points that one map moves along, one iteration at a time.
pub struct ChaoticPoints<P, M> {
    pub points: Vec<P>,
    pub map: M,
    iter_num: u32,
}

impl<P, M> ChaoticPoints<P, M> {
    /// The points, in order.
    pub closed spec fn point_seq(&self) -> Seq<P> {
        self.points@
    }

    /// The map that moves the points.
    pub closed spec fn current_map(&self) -> M {
        self.map
    }

    /// How many times the map has been applied.
    pub closed spec fn iterations(&self) -> u32 {
        self.iter_num
    }

    /// Fresh points that the map has not moved yet.
    pub fn new(points: Vec<P>, map: M) -> (c: Self)
        ensures
            c.point_seq() == points@,
            c.current_map() == map,
            c.iterations() == 0,
    {
        Self { points, map, iter_num: 0 }
    }

    /// Takes over the points, the map and the iteration count of `other`.
    pub fn copy_from(&mut self, other: ChaoticPoints<P, M>)
        ensures
            final(self).point_seq() == other.point_seq(),
            final(self).current_map() == other.current_map(),
            final(self).iterations() == other.iterations(),
    {
        self.points = other.points;
        self.map = other.map;
        self.iter_num = other.iter_num;
    }

    pub fn get_iter_num(&self) -> (n: u32)
        ensures
            n == self.iterations(),
    {
        self.iter_num
    }
}

impl<P, M: ChaosMap<P>> ChaoticPoints<P, M> {
    /// Moves every point by the map once and counts the iteration.
    pub fn step(&mut self)
        requires
            old(self).iterations() < u32::MAX,
        ensures
            final(self).point_seq().len() == old(self).point_seq().len(),
            forall|i: int|
                0 <= i < old(self).point_seq().len() ==> #[trigger] final(self).point_seq()[i]
                    == old(self).current_map().spec_apply(old(self).point_seq()[i]),
            final(self).current_map() == old(self).current_map(),
            final(self).iterations() == old(self).iterations() + 1,
    {
        let n = self.points.len();
        let mut i: usize = 0;
        while i < n
            invariant
                0 <= i <= n,
                n == self.points@.len(),
                n == old(self).points@.len(),
                self.map == old(self).map,
                self.iter_num == old(self).iter_num,
                forall|j: int| 0 <= j < i ==> #[trigger] self.points@[j] == self.map.spec_apply(old(self).points@[j]),
                forall|j: int| i <= j < n ==> #[trigger] self.points@[j] == old(self).points@[j],
            decreases n - i,
        {
            let moved = self.map.apply(&self.points[i]);
            self.points.set(i, moved);
            i += 1;
        }
        self.iter_num = self.iter_num + 1;
    }
}

} // verus!
