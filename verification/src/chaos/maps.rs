pub mod polynomial_maps;

use vstd::prelude::*;

verus! {

/// A map of a space into itself.
pub trait ChaosMap<P> {
    /// The image of `input` under the map.
    spec fn spec_apply(&self, input: P) -> P;

    /// Maps `input` to its image.
    fn apply(&self, input: &P) -> (r: P)
        ensures
            r == self.spec_apply(*input),
    ;
}

} // verus!
