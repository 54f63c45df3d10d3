//! Player aim control: pitch and yaw adjusted by held input, clamped to a
//! fixed range, and written to the ball; a resting ball is held at the
//! caller-assigned rest position.

use vstd::prelude::*;
use crate::events::InputState;
use crate::fx::in_range;
use crate::shapes::Ball;
use crate::vec3::{Vec3, v3_zero};

verus! {

/// The angle `pi / 4` in fixed point; the pitch clamp bound and the
/// starting yaw.
pub const FRAC_PI_4: i64 = 47_124;

/// The angle `pi / 2` in fixed point; the yaw clamp bound.
pub const FRAC_PI_2: i64 = 94_248;

/// Aim step per held input step (`0.025`).
pub const AIM_STEP: i64 = 1500;

/// Clamping into `[lo, hi]`.
pub open spec fn clamp_spec(x: int, lo: int, hi: int) -> int {
    if x < lo {
        lo
    } else if x > hi {
        hi
    } else {
        x
    }
}

/// One step of aim adjustment: nudge by the held signals, then clamp pitch
/// to `[-FRAC_PI_4, FRAC_PI_4]` and yaw to `[0, FRAC_PI_2]`.
pub open spec fn aim_step(pitch: int, yaw: int, input: InputState) -> (int, int) {
    let p1 = if input.aim_up_held {
        pitch - AIM_STEP as int
    } else if input.aim_down_held {
        pitch + AIM_STEP as int
    } else {
        pitch
    };
    let y1 = if input.aim_left_held {
        yaw + AIM_STEP as int
    } else if input.aim_right_held {
        yaw - AIM_STEP as int
    } else {
        yaw
    };
    (
        clamp_spec(p1, -(FRAC_PI_4 as int), FRAC_PI_4 as int),
        clamp_spec(y1, 0, FRAC_PI_2 as int),
    )
}

/// The player's aim state: the clamped pitch and yaw, and the rest position
/// where a non-launched ball is held (the camera target, supplied by the
/// surrounding loop).
#[derive(Clone, Copy, PartialEq, Eq, Structural, Debug)]
pub struct CameraController {
    pub pitch: i64,
    pub yaw: i64,
    pub player_pos: Vec3,
}

impl CameraController {
    /// The reference starting aim: level pitch, yaw at `pi / 4`.
    pub fn new() -> (r: CameraController)
        ensures
            r.pitch == 0,
            r.yaw == FRAC_PI_4,
            r.player_pos@ == v3_zero(),
    {
        CameraController { pitch: 0, yaw: FRAC_PI_4, player_pos: Vec3::zero() }
    }

    /// One fixed step of aim control: adjust and clamp the angles, copy them
    /// to the ball, and hold a resting ball at the rest position.
    pub fn update(&mut self, input: &InputState, player: &mut Ball)
        requires
            in_range(old(self).pitch as int),
            in_range(old(self).yaw as int),
        ensures
            (final(self).pitch as int, final(self).yaw as int) == aim_step(
                old(self).pitch as int,
                old(self).yaw as int,
                *input,
            ),
            final(self).player_pos == old(self).player_pos,
            final(player).pitch == final(self).pitch,
            final(player).yaw == final(self).yaw,
            final(player).body.c == (if old(player).play {
                old(player).body.c
            } else {
                old(self).player_pos
            }),
            final(player).body.r == old(player).body.r,
            final(player).mass == old(player).mass,
            final(player).play == old(player).play,
    {
        if input.aim_up_held {
            self.pitch = self.pitch - AIM_STEP;
        } else if input.aim_down_held {
            self.pitch = self.pitch + AIM_STEP;
        }
        if input.aim_left_held {
            self.yaw = self.yaw + AIM_STEP;
        } else if input.aim_right_held {
            self.yaw = self.yaw - AIM_STEP;
        }
        if self.pitch < -FRAC_PI_4 {
            self.pitch = -FRAC_PI_4;
        } else if self.pitch > FRAC_PI_4 {
            self.pitch = FRAC_PI_4;
        }
        if self.yaw < 0 {
            self.yaw = 0;
        } else if self.yaw > FRAC_PI_2 {
            self.yaw = FRAC_PI_2;
        }
        player.pitch = self.pitch;
        player.yaw = self.yaw;
        if !player.play {
            player.body.c = self.player_pos;
        }
    }
}

} // verus!
