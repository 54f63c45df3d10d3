//! Motion state and the fixed-step motion integrator: gravity, the launch
//! impulse and position integration for every launched ball.

use vstd::prelude::*;
use crate::events::InputState;
use crate::fx::{fmul, sin_fx_spec, cos_fx_spec, sin_fx, cos_fx, smul_fx, sneg, SCALE};
use crate::geom::Sphere;
use crate::shapes::{Ball, BallM, ball_wf};
use crate::vec3::{Vec3, V3, v3_zero, v3_add, v3_scale_fx, v3_muldiv, v3_to_vec};

verus! {

/// Mathematical model of a body's motion state.
pub ghost struct PhysM {
    pub velocity: V3,
    pub momentum: V3,
    pub force: V3,
}

/// Per-body motion state: accumulated momentum, plus legacy velocity and
/// force scratch fields kept for future force accumulation.
#[derive(Clone, Copy, PartialEq, Eq, Structural, Debug)]
pub struct Physics {
    pub velocity: Vec3,
    pub momentum: Vec3,
    pub force: Vec3,
}

impl View for Physics {
    type V = PhysM;

    open spec fn view(&self) -> PhysM {
        PhysM { velocity: self.velocity@, momentum: self.momentum@, force: self.force@ }
    }
}

impl Physics {
    /// Add an impulse to the accumulated momentum.
    pub fn apply_impulse(&mut self, f: Vec3)
        ensures
            final(self).momentum@ == v3_add(old(self).momentum@, f@),
            final(self).velocity == old(self).velocity,
            final(self).force == old(self).force,
    {
        self.momentum = self.momentum.add(&f);
    }

    /// Return the motion state to rest: all components zero.
    pub fn reset(&mut self)
        ensures
            final(self).velocity@ == v3_zero(),
            final(self).momentum@ == v3_zero(),
            final(self).force@ == v3_zero(),
    {
        self.velocity = Vec3::zero();
        self.momentum = Vec3::zero();
        self.force = Vec3::zero();
    }
}

/// A constant force vector.
#[derive(Clone, Copy, PartialEq, Eq, Structural, Debug)]
pub struct Force {
    pub force: Vec3,
}

impl Force {
    pub fn new(f: Vec3) -> (r: Force)
        ensures
            r.force == f,
    {
        Force { force: f }
    }

    /// Accumulate another force.
    pub fn update_force(&mut self, f: Vec3)
        ensures
            final(self).force@ == v3_add(old(self).force@, f@),
    {
        self.force = self.force.add(&f);
    }

    /// Read the accumulated force.
    pub fn apply_force(self) -> (r: Vec3)
        ensures
            r == self.force,
    {
        self.force
    }
}

/// Largest launch power the player can charge (`40.0`).
pub const PLAYER_MAG_MAX: i64 = 2_400_000;

/// Power charged or discharged per held step (`2.0`).
pub const PLAYER_MAG_STEP: i64 = 120_000;

/// The charged power is always a whole number of steps in `[0, MAX]`.
pub open spec fn mag_wf(m: int) -> bool {
    0 <= m <= PLAYER_MAG_MAX as int && m % (PLAYER_MAG_STEP as int) == 0
}

/// How one step of held input adjusts the launch power.
pub open spec fn adjust_mag(mag: int, up_held: bool, down_held: bool) -> int {
    if up_held {
        if mag < PLAYER_MAG_MAX as int {
            mag + PLAYER_MAG_STEP as int
        } else {
            mag
        }
    } else if down_held {
        if mag > 0 {
            mag - PLAYER_MAG_STEP as int
        } else {
            mag
        }
    } else {
        mag
    }
}

/// The launch impulse direction and magnitude, from the charged power and
/// the ball's aim angles by spherical-to-Cartesian conversion.
pub open spec fn launch_vec(b: BallM, mag: int) -> V3 {
    V3 {
        x: fmul(fmul(mag, sin_fx_spec(b.yaw)), cos_fx_spec(-b.pitch)),
        y: fmul(fmul(mag, sin_fx_spec(b.yaw)), sin_fx_spec(-b.pitch)),
        z: fmul(mag, cos_fx_spec(b.yaw)),
    }
}

/// One fixed step of motion for one ball: an optional launch impulse, then,
/// if the ball is in play, a gravity impulse and position integration via
/// `momentum / mass`.
pub open spec fn integrate_ball(
    b: Ball,
    p: Physics,
    gravity: Vec3,
    mag: int,
    dt: int,
    launch: bool,
) -> (Ball, Physics) {
    let play1 = launch || b.play;
    let mom1 = if launch {
        v3_add(p.momentum@, v3_scale_fx(launch_vec(b@, mag), dt))
    } else {
        p.momentum@
    };
    if play1 {
        let mom2 = v3_add(mom1, v3_scale_fx(v3_scale_fx(gravity@, b.mass as int), dt));
        let vel = v3_muldiv(mom2, SCALE as int, b.mass as int);
        (
            Ball {
                body: Sphere {
                    c: v3_to_vec(v3_add(b.body.c@, v3_scale_fx(vel, dt))),
                    r: b.body.r,
                },
                play: play1,
                ..b
            },
            Physics { momentum: v3_to_vec(mom2), ..p },
        )
    } else {
        (b, p)
    }
}

/// One fixed step of motion for every ball.
pub open spec fn integrate_all(
    balls: Seq<Ball>,
    phys: Seq<Physics>,
    gravity: Vec3,
    mag: int,
    dt: int,
    launch: bool,
) -> (Seq<Ball>, Seq<Physics>)
    recommends
        balls.len() == phys.len(),
{
    (
        Seq::new(balls.len(), |i: int| integrate_ball(balls[i], phys[i], gravity, mag, dt, launch).0),
        Seq::new(balls.len(), |i: int| integrate_ball(balls[i], phys[i], gravity, mag, dt, launch).1),
    )
}

/// The motion integrator: gravity and the player-controlled launch.
#[derive(Clone, Copy, PartialEq, Eq, Structural, Debug)]
pub struct BallMovement {
    /// The constant gravity force vector.
    pub gravity: Force,
    /// The currently charged launch power.
    pub player_mag: i64,
    /// The fixed timestep.
    pub dt: i64,
}

impl BallMovement {
    /// The reference configuration: gravity `(0, -3, 0)`, no charged power,
    /// timestep `1/60`.
    pub fn new() -> (r: BallMovement)
        ensures
            r.gravity.force@ == (V3 { x: 0, y: -180_000, z: 0 }),
            r.player_mag == 0,
            r.dt as int == SCALE as int / 60,
    {
        BallMovement {
            gravity: Force::new(Vec3::new(0, -180_000, 0)),
            player_mag: 0,
            dt: SCALE / 60,
        }
    }

    /// One fixed step: adjust the charged power from the held signals, then
    /// integrate every ball (launch impulse on the trigger edge, gravity and
    /// position integration while in play).
    pub fn update(&mut self, input: &InputState, balls: &mut Vec<Ball>, physics: &mut Vec<Physics>)
        requires
            old(balls)@.len() == old(physics)@.len(),
            mag_wf(old(self).player_mag as int),
            forall|i: int| 0 <= i < old(balls)@.len() ==> ball_wf(#[trigger] old(balls)@[i]@),
        ensures
            final(self).gravity == old(self).gravity,
            final(self).dt == old(self).dt,
            final(self).player_mag as int == adjust_mag(
                old(self).player_mag as int,
                input.power_up_held,
                input.power_down_held,
            ),
            mag_wf(final(self).player_mag as int),
            final(balls)@.len() == old(balls)@.len(),
            final(physics)@.len() == old(physics)@.len(),
            ({
                let st = integrate_all(
                    old(balls)@,
                    old(physics)@,
                    old(self).gravity.force,
                    adjust_mag(
                        old(self).player_mag as int,
                        input.power_up_held,
                        input.power_down_held,
                    ),
                    old(self).dt as int,
                    input.launch_pressed,
                );
                final(balls)@ == st.0 && final(physics)@ == st.1
            }),
            forall|i: int| 0 <= i < old(balls)@.len() ==> ball_wf(#[trigger] final(balls)@[i]@),
    {
        if input.power_up_held {
            if self.player_mag < PLAYER_MAG_MAX {
                self.player_mag = self.player_mag + PLAYER_MAG_STEP;
            }
        } else if input.power_down_held {
            if self.player_mag > 0 {
                self.player_mag = self.player_mag - PLAYER_MAG_STEP;
            }
        }
        let mag = self.player_mag;
        let dt = self.dt;
        let gvec = self.gravity.force;
        let n = balls.len();
        let mut i: usize = 0;
        while i < n
            invariant
                n == old(balls)@.len(),
                balls@.len() == n,
                physics@.len() == n,
                old(physics)@.len() == n,
                i <= n,
                mag as int == adjust_mag(
                    old(self).player_mag as int,
                    input.power_up_held,
                    input.power_down_held,
                ),
                dt == old(self).dt,
                gvec == old(self).gravity.force,
                forall|j: int| 0 <= j < n ==> ball_wf(#[trigger] old(balls)@[j]@),
                forall|j: int|
                    i <= j < n ==> balls@[j] == old(balls)@[j] && physics@[j] == old(physics)@[j],
                forall|j: int|
                    0 <= j < i ==> #[trigger] balls@[j] == integrate_ball(
                        old(balls)@[j],
                        old(physics)@[j],
                        old(self).gravity.force,
                        mag as int,
                        dt as int,
                        input.launch_pressed,
                    ).0,
                forall|j: int|
                    0 <= j < i ==> #[trigger] physics@[j] == integrate_ball(
                        old(balls)@[j],
                        old(physics)@[j],
                        old(self).gravity.force,
                        mag as int,
                        dt as int,
                        input.launch_pressed,
                    ).1,
                forall|j: int| 0 <= j < i ==> ball_wf(#[trigger] balls@[j]@),
            decreases n - i,
        {
            proof {
                assert(balls@[i as int] == old(balls)@[i as int]);
                assert(ball_wf(old(balls)@[i as int]@));
            }
            let mut bb = balls[i];
            let mut pp = physics[i];
            if input.launch_pressed {
                bb.play = true;
                let sy = sin_fx(bb.yaw);
                let np = sneg(bb.pitch);
                let x = smul_fx(smul_fx(mag, sy), cos_fx(np));
                let y = smul_fx(smul_fx(mag, sy), sin_fx(np));
                let z = smul_fx(mag, cos_fx(bb.yaw));
                let lv = Vec3::new(x, y, z);
                pp.momentum = pp.momentum.add(&lv.scale_fx(dt));
            }
            if bb.play {
                pp.momentum = pp.momentum.add(&gvec.scale_fx(bb.mass).scale_fx(dt));
                let vel = pp.momentum.muldiv(SCALE, bb.mass);
                bb.body.c = bb.body.c.add(&vel.scale_fx(dt));
            }
            proof {
                assert(ball_wf(bb@));
            }
            balls[i] = bb;
            physics[i] = pp;
            i = i + 1;
        }
        proof {
            let st = integrate_all(
                old(balls)@,
                old(physics)@,
                old(self).gravity.force,
                mag as int,
                dt as int,
                input.launch_pressed,
            );
            assert(balls@ =~= st.0);
            assert(physics@ =~= st.1);
        }
    }
}

} // verus!
