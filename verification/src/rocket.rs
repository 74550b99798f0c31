use vstd::prelude::*;
use crate::random::random_in_range;

verus! {

/// Smallest initial drift speed of the lunar module (20 units per second), in
/// thousandths of a unit.
pub const MIN_DRIFT: i64 = 20_000;

/// Spread of the initial drift speed: it is drawn from `MIN_DRIFT..=MIN_DRIFT + DRIFT_SPREAD`
/// (the top speed is reached where a fraction just below one, times the spread,
/// rounds up to the whole spread).
pub const DRIFT_SPREAD: i64 = 20_000;

/// A vector in thousandths of a world unit.
#[derive(Clone, Copy, Debug, PartialEq, Eq, Structural)]
pub struct MilliVec3 {
    pub x: i64,
    pub y: i64,
    pub z: i64,
}

/// The movement of the lunar module: its velocity.
pub struct LunarModuleMovement {
    pub velocity: MilliVec3,
}

/// Installs the lunar module's movement with a random sideways drift.
pub struct LunarModuleMovementPlugin;

impl LunarModuleMovementPlugin {
    /// The movement the plugin installs: a drift along `x` drawn at random from
    /// `MIN_DRIFT..=MIN_DRIFT + DRIFT_SPREAD`, and no vertical or depth speed.
    pub fn initial_movement(&self) -> (m: LunarModuleMovement)
        ensures
            MIN_DRIFT <= m.velocity.x <= MIN_DRIFT + DRIFT_SPREAD,
            m.velocity.y == 0,
            m.velocity.z == 0,
    {
        let offset: usize = random_in_range(0, DRIFT_SPREAD as usize + 1);
        LunarModuleMovement { velocity: MilliVec3 { x: MIN_DRIFT + offset as i64, y: 0, z: 0 } }
    }
}

/// The keys that steer the lunar module, as pressed this frame.
#[derive(Clone, Copy, Debug, PartialEq, Eq, Structural)]
pub struct PilotKeys {
    /// Rotate anticlockwise (left arrow).
    pub rotate_left: bool,
    /// Rotate clockwise (right arrow).
    pub rotate_right: bool,
    /// Fire the engine (`W`).
    pub thrust: bool,
    /// Slide left (`A`).
    pub slide_left: bool,
    /// Slide right (`D`).
    pub slide_right: bool,
}

/// What the lunar module does this frame.
#[derive(Clone, Copy, Debug, PartialEq, Eq, Structural)]
pub enum Control {
    /// Turn about the point under the module, anticlockwise.
    RotateLeft,
    /// Turn about the point under the module, clockwise.
    RotateRight,
    /// Push along the module's up direction and show the plume.
    Thrust,
    /// Move one unit to the left.
    SlideLeft,
    /// Move one unit to the right.
    SlideRight,
    /// Cut the engine and hide the plume.
    Coast,
}

/// The control that the pressed keys select: one key acts at a time, in the
/// order rotate left, rotate right, thrust, slide left, slide right; with none
/// of them pressed the module coasts.
pub open spec fn control_for(keys: PilotKeys) -> Control {
    if keys.rotate_left {
        Control::RotateLeft
    } else if keys.rotate_right {
        Control::RotateRight
    } else if keys.thrust {
        Control::Thrust
    } else if keys.slide_left {
        Control::SlideLeft
    } else if keys.slide_right {
        Control::SlideRight
    } else {
        Control::Coast
    }
}

/// Selects this frame's control from the pressed keys (see `control_for`).
pub fn choose_control(keys: PilotKeys) -> (c: Control)
    ensures
        c == control_for(keys),
        (c == Control::SlideLeft) <==> (!keys.rotate_left && !keys.rotate_right && !keys.thrust
            && keys.slide_left),
        (c == Control::SlideRight) <==> (!keys.rotate_left && !keys.rotate_right && !keys.thrust
            && !keys.slide_left && keys.slide_right),
        (c == Control::Coast) <==> (!keys.rotate_left && !keys.rotate_right && !keys.thrust
            && !keys.slide_left && !keys.slide_right),
{
    if keys.rotate_left {
        Control::RotateLeft
    } else if keys.rotate_right {
        Control::RotateRight
    } else if keys.thrust {
        Control::Thrust
    } else if keys.slide_left {
        Control::SlideLeft
    } else if keys.slide_right {
        Control::SlideRight
    } else {
        Control::Coast
    }
}

/// The engine fires exactly when thrust is pressed and neither rotation key is.
pub proof fn lemma_thrust_only_without_rotation(keys: PilotKeys)
    ensures
        (control_for(keys) == Control::Thrust) <==> (keys.thrust && !keys.rotate_left
            && !keys.rotate_right),
{
}

/// Each key selects its own control exactly when it is the first of rotate
/// left, rotate right, thrust, slide left, slide right that is pressed, and the
/// module coasts exactly when none of them is.
pub proof fn lemma_highest_pressed_key_acts(keys: PilotKeys)
    ensures
        (control_for(keys) == Control::RotateLeft) <==> keys.rotate_left,
        (control_for(keys) == Control::RotateRight) <==> (!keys.rotate_left && keys.rotate_right),
        (control_for(keys) == Control::Thrust) <==> (!keys.rotate_left && !keys.rotate_right
            && keys.thrust),
        (control_for(keys) == Control::SlideLeft) <==> (!keys.rotate_left && !keys.rotate_right
            && !keys.thrust && keys.slide_left),
        (control_for(keys) == Control::SlideRight) <==> (!keys.rotate_left && !keys.rotate_right
            && !keys.thrust && !keys.slide_left && keys.slide_right),
        (control_for(keys) == Control::Coast) <==> (!keys.rotate_left && !keys.rotate_right
            && !keys.thrust && !keys.slide_left && !keys.slide_right),
{
}

} // verus!
