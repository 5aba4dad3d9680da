use vstd::prelude::*;

verus! {

/// The largest simulation speed-up.
pub const MAX_TIME_SCALE: u32 = 4194304;

/// The keys that change the simulation's speed-up when pressed.
#[derive(Clone, Copy, PartialEq, Eq, Structural, Debug)]
pub enum TimeScaleKey {
    /// Right bracket: four times faster.
    Faster,
    /// Left bracket: four times slower.
    Slower,
    /// Any other key.
    Other,
}

/// `v` held to the range `lo..=hi`.
pub open spec fn clamp(v: int, lo: int, hi: int) -> int {
    if v < lo {
        lo
    } else if v > hi {
        hi
    } else {
        v
    }
}

/// The speed-up after a key press.
pub open spec fn spec_time_scale_after(scale: u32, key: TimeScaleKey) -> u32 {
    let next = match key {
        TimeScaleKey::Faster => scale * 4,
        TimeScaleKey::Slower => (scale / 4) as int,
        TimeScaleKey::Other => scale as int,
    };
    clamp(next, 1, MAX_TIME_SCALE as int) as u32
}

/// The simulation speed-up after a key press: faster or slower by a factor
/// of four, and always held to 1..=`MAX_TIME_SCALE`.
pub fn time_scale_after(scale: u32, key: TimeScaleKey) -> (r: u32)
    requires
        key == TimeScaleKey::Faster ==> scale * 4 <= u32::MAX,
    ensures
        r == spec_time_scale_after(scale, key),
{
    let mut scale = scale;
    match key {
        TimeScaleKey::Faster => scale *= 4,
        TimeScaleKey::Slower => scale /= 4,
        TimeScaleKey::Other => {},
    }
    if scale < 1 {
        1
    } else if scale > MAX_TIME_SCALE {
        MAX_TIME_SCALE
    } else {
        scale
    }
}

/// A key press leaves the speed-up in 1..=`MAX_TIME_SCALE`; from inside that
/// range, speeding up and then slowing down comes back where it started,
/// unless speeding up had to be cut at the largest speed-up.
pub proof fn lemma_time_scale_bounded(scale: u32, key: TimeScaleKey)
    requires
        1 <= scale <= MAX_TIME_SCALE,
    ensures
        1 <= spec_time_scale_after(scale, key) <= MAX_TIME_SCALE,
        scale <= MAX_TIME_SCALE / 4 ==> spec_time_scale_after(
            spec_time_scale_after(scale, TimeScaleKey::Faster),
            TimeScaleKey::Slower,
        ) == scale,
{
}

} // verus!
