//! The per-step snapshot of player-input signals that the core consumes.

use vstd::prelude::*;

verus! {

/// Plain per-frame input signals: the launch trigger edge, the two
/// power-magnitude adjustment signals, the four aim adjustment signals and
/// the reset edge.  The surrounding event loop fills one of these per fixed
/// step from whatever input backend it uses.
#[derive(Clone, Copy, PartialEq, Eq, Structural, Debug)]
pub struct InputState {
    /// Raise the launch power (held).
    pub power_up_held: bool,
    /// Lower the launch power (held).
    pub power_down_held: bool,
    /// Launch trigger (pressed edge).
    pub launch_pressed: bool,
    /// Reset the ball to its rest state (released edge).
    pub reset_released: bool,
    /// Aim pitch up (held).
    pub aim_up_held: bool,
    /// Aim pitch down (held).
    pub aim_down_held: bool,
    /// Aim yaw left (held).
    pub aim_left_held: bool,
    /// Aim yaw right (held).
    pub aim_right_held: bool,
}

impl InputState {
    /// A snapshot with no signal active.
    pub fn none() -> (r: InputState)
        ensures
            r == (InputState {
                power_up_held: false,
                power_down_held: false,
                launch_pressed: false,
                reset_released: false,
                aim_up_held: false,
                aim_down_held: false,
                aim_left_held: false,
                aim_right_held: false,
            }),
    {
        InputState {
            power_up_held: false,
            power_down_held: false,
            launch_pressed: false,
            reset_released: false,
            aim_up_held: false,
            aim_down_held: false,
            aim_left_held: false,
            aim_right_held: false,
        }
    }
}

} // verus!
