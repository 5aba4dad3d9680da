use vstd::prelude::*;

verus! {

/// The keys that steer the spaceship, and all others.
#[derive(Clone, Copy, PartialEq, Eq, Structural, Debug)]
pub enum ControlKey {
    KeyW,
    ArrowUp,
    KeyS,
    ArrowDown,
    KeyA,
    ArrowLeft,
    KeyD,
    ArrowRight,
    Space,
    ShiftLeft,
    Other,
}

/// The movement axes of the spaceship's controller.
#[derive(Clone, Copy, PartialEq, Eq, Structural, Debug)]
pub enum MovementAxis {
    Forward,
    Up,
    Right,
}

/// What a steering key drives: an axis, and whether it pushes that axis
/// backwards.
#[derive(Clone, Copy, PartialEq, Eq, Structural, Debug)]
pub struct MovementBinding {
    pub axis: MovementAxis,
    pub negative: bool,
}

/// The binding of each key.
pub open spec fn spec_key_binding(key: ControlKey) -> Option<MovementBinding> {
    match key {
        ControlKey::KeyW | ControlKey::ArrowUp => Some(
            MovementBinding { axis: MovementAxis::Forward, negative: false },
        ),
        ControlKey::KeyS | ControlKey::ArrowDown => Some(
            MovementBinding { axis: MovementAxis::Forward, negative: true },
        ),
        ControlKey::KeyA | ControlKey::ArrowLeft => Some(
            MovementBinding { axis: MovementAxis::Right, negative: true },
        ),
        ControlKey::KeyD | ControlKey::ArrowRight => Some(
            MovementBinding { axis: MovementAxis::Right, negative: false },
        ),
        ControlKey::Space => Some(MovementBinding { axis: MovementAxis::Up, negative: false }),
        ControlKey::ShiftLeft => Some(MovementBinding { axis: MovementAxis::Up, negative: true }),
        ControlKey::Other => None,
    }
}

/// The axis a key drives: W and up arrow forwards, S and down arrow
/// backwards, D and right arrow to the right, A and left arrow to the left,
/// space up and left shift down. Other keys drive nothing and are not
/// handled.
pub fn key_binding(key: ControlKey) -> (r: Option<MovementBinding>)
    ensures
        r == spec_key_binding(key),
{
    match key {
        ControlKey::KeyW | ControlKey::ArrowUp => Some(
            MovementBinding { axis: MovementAxis::Forward, negative: false },
        ),
        ControlKey::KeyS | ControlKey::ArrowDown => Some(
            MovementBinding { axis: MovementAxis::Forward, negative: true },
        ),
        ControlKey::KeyA | ControlKey::ArrowLeft => Some(
            MovementBinding { axis: MovementAxis::Right, negative: true },
        ),
        ControlKey::KeyD | ControlKey::ArrowRight => Some(
            MovementBinding { axis: MovementAxis::Right, negative: false },
        ),
        ControlKey::Space => Some(MovementBinding { axis: MovementAxis::Up, negative: false }),
        ControlKey::ShiftLeft => Some(MovementBinding { axis: MovementAxis::Up, negative: true }),
        ControlKey::Other => None,
    }
}

/// Opposite keys drive the same axis in opposite directions.
pub proof fn lemma_opposite_keys()
    ensures
        spec_key_binding(ControlKey::KeyW).unwrap().axis == spec_key_binding(ControlKey::KeyS).unwrap().axis,
        spec_key_binding(ControlKey::KeyW).unwrap().negative != spec_key_binding(ControlKey::KeyS).unwrap().negative,
        spec_key_binding(ControlKey::KeyA).unwrap().axis == spec_key_binding(ControlKey::KeyD).unwrap().axis,
        spec_key_binding(ControlKey::KeyA).unwrap().negative != spec_key_binding(ControlKey::KeyD).unwrap().negative,
        spec_key_binding(ControlKey::Space).unwrap().axis == spec_key_binding(ControlKey::ShiftLeft).unwrap().axis,
        spec_key_binding(ControlKey::Space).unwrap().negative != spec_key_binding(ControlKey::ShiftLeft).unwrap().negative,
{
}

/// Each arrow key steers as its letter key does (up as W, down as S, left
/// as A, right as D); W, D and space push forward, right and up, and every
/// other key steers nothing.
pub proof fn lemma_arrows_match_letters(key: ControlKey)
    ensures
        spec_key_binding(ControlKey::ArrowUp) == spec_key_binding(ControlKey::KeyW),
        spec_key_binding(ControlKey::ArrowDown) == spec_key_binding(ControlKey::KeyS),
        spec_key_binding(ControlKey::ArrowLeft) == spec_key_binding(ControlKey::KeyA),
        spec_key_binding(ControlKey::ArrowRight) == spec_key_binding(ControlKey::KeyD),
        spec_key_binding(ControlKey::KeyW) == Some(MovementBinding { axis: MovementAxis::Forward, negative: false }),
        spec_key_binding(ControlKey::KeyD) == Some(MovementBinding { axis: MovementAxis::Right, negative: false }),
        spec_key_binding(ControlKey::Space) == Some(MovementBinding { axis: MovementAxis::Up, negative: false }),
        spec_key_binding(key) is None <==> key == ControlKey::Other,
{
}

} // verus!
