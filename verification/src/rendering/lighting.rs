use vstd::prelude::*;

verus! {

/// How many sphere lights the light uniform holds.
pub const MAX_SPHERE_LIGHTS: usize = 16;

/// How many sun lights the light uniform holds.
pub const MAX_SUN_LIGHTS: usize = 2;

/// The light slots of a uniform with `slots` places: the first lights, as
/// many as fit, in order, then `empty` in the places left; and the number
/// of lights placed.
pub fn fill_slots<L: Copy>(lights: &[L], empty: L, slots: usize) -> (r: (Vec<L>, usize))
    ensures
        r.0@.len() == slots,
        r.1 == if lights@.len() < slots {
            lights@.len() as int
        } else {
            slots as int
        },
        forall|k: int| 0 <= k < r.1 ==> #[trigger] r.0@[k] == lights@[k],
        forall|k: int| r.1 <= k < slots ==> #[trigger] r.0@[k] == empty,
{
    let mut uniforms: Vec<L> = Vec::new();
    let mut count: usize = 0;
    while count < lights.len() && count < slots
        invariant
            count <= lights@.len(),
            count <= slots,
            uniforms@.len() == count,
            forall|k: int| 0 <= k < count ==> #[trigger] uniforms@[k] == lights@[k],
        decreases slots - count,
    {
        uniforms.push(lights[count]);
        count += 1;
    }
    let mut k: usize = count;
    while k < slots
        invariant
            count <= k <= slots,
            count <= lights@.len(),
            uniforms@.len() == k,
            forall|j: int| 0 <= j < count ==> #[trigger] uniforms@[j] == lights@[j],
            forall|j: int| count <= j < k ==> #[trigger] uniforms@[j] == empty,
        decreases slots - k,
    {
        uniforms.push(empty);
        k += 1;
    }
    (uniforms, count)
}

} // verus!
