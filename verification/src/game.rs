//! The per-step gameplay wiring: the game's component state, and the system
//! pass that integrates motion, gathers and resolves contacts, and reacts
//! to the frame's `CollisionEffect`.

use vstd::prelude::*;
use crate::camera_control::CameraController;
use crate::collision::{CollisionDetection, CollisionEffect, effect_spec, resolve_all, sort_spec,
    wm_contacts, mm_contacts};
use crate::events::InputState;
use crate::fx::in_range;
use crate::geom::{Sphere, Plane, BoxShape};
use crate::physics::{BallMovement, Physics, adjust_mag, integrate_all, mag_wf};
use crate::shapes::{Ball, Static, Goal, ball_wf, static_wf, goal_wf};
use crate::vec3::Vec3;

verus! {

/// The game's mutable world: one ball, the static colliders, the goal, the
/// per-ball motion state, the score, the player's aim and the flag arming
/// the collision sound.
#[derive(Debug)]
pub struct Components {
    pub balls: Vec<Ball>,
    pub statics: Vec<Static>,
    pub goal: Goal,
    pub physics: Vec<Physics>,
    pub score: usize,
    pub sound_armed: bool,
    pub camera: CameraController,
}

/// The world invariant: index-aligned balls and motion states, well-formed
/// bodies, representable aim angles.
pub open spec fn components_wf(c: Components) -> bool {
    &&& c.balls@.len() == c.physics@.len()
    &&& forall|i: int| 0 <= i < c.balls@.len() ==> ball_wf(#[trigger] c.balls@[i]@)
    &&& forall|i: int| 0 <= i < c.statics@.len() ==> static_wf(#[trigger] c.statics@[i]@)
    &&& goal_wf(c.goal@)
    &&& in_range(c.camera.pitch as int)
    &&& in_range(c.camera.yaw as int)
}

impl Components {
    /// The reference round-start world: the ball at its spawn with the
    /// reference radius and mass, the floor and two walls, the goal box at
    /// its first location, zero momentum, zero score.
    pub fn new() -> (r: Components)
        ensures
            r.balls@.len() == 1,
            r.balls@[0] == (Ball {
                body: Sphere { c: Vec3 { x: -1_200_000i64, y: 300_000, z: -1_200_000i64 }, r: 6000 },
                pitch: 0,
                yaw: 0,
                mass: 6782,
                play: false,
            }),
            r.statics@.len() == 3,
            r.statics@[0] == (Static {
                body: Plane { n: Vec3 { x: 0, y: 60_000, z: 0 }, d: 120_000 },
                position: Vec3 { x: 0, y: -1500i64, z: 0 },
            }),
            r.statics@[1] == (Static {
                body: Plane { n: Vec3 { x: 0, y: 0, z: -60_000i64 }, d: 120_000 },
                position: Vec3 { x: 0, y: -1500i64, z: 0 },
            }),
            r.statics@[2] == (Static {
                body: Plane { n: Vec3 { x: -60_000i64, y: 0, z: 0 }, d: 120_000 },
                position: Vec3 { x: 0, y: -1500i64, z: 0 },
            }),
            r.goal == (Goal {
                body: BoxShape {
                    c: Vec3 { x: -120_000i64, y: 90_000, z: -180_000i64 },
                    r: Vec3 { x: 30_000, y: 30_000, z: 30_000 },
                },
            }),
            r.physics@.len() == 1,
            r.physics@[0] == (Physics {
                velocity: Vec3 { x: 0, y: 0, z: 0 },
                momentum: Vec3 { x: 0, y: 0, z: 0 },
                force: Vec3 { x: 0, y: 0, z: 0 },
            }),
            r.score == 0,
            r.sound_armed == true,
            r.camera.pitch == 0,
            r.camera.yaw == crate::camera_control::FRAC_PI_4,
            components_wf(r),
    {
        let balls = vec![
            Ball {
                body: Sphere { c: Vec3::new(-1_200_000, 300_000, -1_200_000), r: 6000 },
                pitch: 0,
                yaw: 0,
                mass: 6782,
                play: false,
            },
        ];
        let statics = vec![
            Static {
                body: Plane { n: Vec3::new(0, 60_000, 0), d: 120_000 },
                position: Vec3::new(0, -1500, 0),
            },
            Static {
                body: Plane { n: Vec3::new(0, 0, -60_000), d: 120_000 },
                position: Vec3::new(0, -1500, 0),
            },
            Static {
                body: Plane { n: Vec3::new(-60_000, 0, 0), d: 120_000 },
                position: Vec3::new(0, -1500, 0),
            },
        ];
        let goal = Goal {
            body: BoxShape {
                c: Vec3::new(-120_000, 90_000, -180_000),
                r: Vec3::new(30_000, 30_000, 30_000),
            },
        };
        let physics = vec![
            Physics { velocity: Vec3::zero(), momentum: Vec3::zero(), force: Vec3::zero() },
        ];
        let r = Components {
            balls,
            statics,
            goal,
            physics,
            score: 0,
            sound_armed: true,
            camera: CameraController::new(),
        };
        proof {
            assert(ball_wf(r.balls@[0]@));
            assert(static_wf(r.statics@[0]@));
            assert(static_wf(r.statics@[1]@));
            assert(static_wf(r.statics@[2]@));
        }
        r
    }
}

/// What one fixed step hands back to the surrounding loop: the frame's
/// classification, and the position at which to play the collision sound,
/// if any.
#[derive(Clone, Copy, Debug)]
pub struct StepOutput {
    pub effect: CollisionEffect,
    pub sound: Option<Vec3>,
}

/// The game's systems: the motion integrator and the collision system.
#[derive(Debug)]
pub struct Systems {
    pub ball_movement: BallMovement,
    pub collision_detection: CollisionDetection,
}

impl Systems {
    pub fn new() -> (r: Systems)
        ensures
            r.ball_movement.player_mag == 0,
            r.ball_movement.gravity.force == (Vec3 { x: 0, y: -180_000i64, z: 0 }),
            r.ball_movement.dt as int == crate::fx::SCALE as int / 60,
            r.collision_detection.coeff_r as int == crate::fx::SCALE as int / 2,
            r.collision_detection.dt as int == crate::fx::SCALE as int / 60,
            r.collision_detection.contacts.wm@.len() == 0,
            r.collision_detection.contacts.mm@.len() == 0,
    {
        Systems { ball_movement: BallMovement::new(), collision_detection: CollisionDetection::new() }
    }

    /// One fixed step: integrate motion, gather and resolve contacts, then
    /// react to the frame's effect — a score increments the counter, rests
    /// the ball, zeroes its momentum and relocates the goal; a wall
    /// collision requests the collision sound once until re-armed; a reset
    /// edge rests the ball unconditionally.
    pub fn process(&mut self, input: &InputState, c: &mut Components) -> (r: StepOutput)
        requires
            components_wf(*old(c)),
            old(c).balls@.len() >= 1,
            old(c).score < usize::MAX,
            mag_wf(old(self).ball_movement.player_mag as int),
        ensures
            components_wf(*final(c)),
            final(c).balls@.len() == old(c).balls@.len(),
            final(c).physics@.len() == old(c).physics@.len(),
            final(c).statics@ == old(c).statics@,
            final(c).camera == old(c).camera,
            mag_wf(final(self).ball_movement.player_mag as int),
            final(self).ball_movement.gravity == old(self).ball_movement.gravity,
            final(self).ball_movement.dt == old(self).ball_movement.dt,
            final(self).collision_detection.coeff_r == old(self).collision_detection.coeff_r,
            final(self).collision_detection.dt == old(self).collision_detection.dt,
            ({
                let mag1 = adjust_mag(
                    old(self).ball_movement.player_mag as int,
                    input.power_up_held,
                    input.power_down_held,
                );
                let st1 = integrate_all(
                    old(c).balls@,
                    old(c).physics@,
                    old(self).ball_movement.gravity.force,
                    mag1,
                    old(self).ball_movement.dt as int,
                    input.launch_pressed,
                );
                let eff = effect_spec(st1.0, old(c).statics@, old(c).goal@);
                let st2 = resolve_all(
                    st1.0,
                    st1.1,
                    old(c).statics@,
                    sort_spec(wm_contacts(st1.0, old(c).statics@)),
                    sort_spec(mm_contacts(st1.0)),
                    old(self).collision_detection.coeff_r as int,
                    old(self).collision_detection.dt as int,
                );
                let scored = eff is Score;
                let reset = input.reset_released;
                &&& r.effect == eff
                &&& r.sound == (if eff is WallCollision && old(c).sound_armed {
                    Some(st2.0[0].body.c)
                } else {
                    Option::<Vec3>::None
                })
                &&& final(c).score == old(c).score + (if scored {
                    1int
                } else {
                    0int
                })
                &&& final(self).ball_movement.player_mag as int == (if scored || reset {
                    0int
                } else {
                    mag1
                })
                &&& final(c).balls@ == (if scored || reset {
                    st2.0.update(0, Ball { play: false, ..st2.0[0] })
                } else {
                    st2.0
                })
                &&& final(c).physics@ == (if scored || reset {
                    st2.1.update(
                        0,
                        Physics {
                            velocity: Vec3 { x: 0, y: 0, z: 0 },
                            momentum: Vec3 { x: 0, y: 0, z: 0 },
                            force: Vec3 { x: 0, y: 0, z: 0 },
                        },
                    )
                } else {
                    st2.1
                })
                &&& (scored ==> final(c).goal.body.r == old(c).goal.body.r
                    && -750_000 <= final(c).goal@.body.c.x < -30_000
                    && 30_000 <= final(c).goal@.body.c.y < 420_000
                    && -750_000 <= final(c).goal@.body.c.z < -30_000)
                &&& (!scored ==> final(c).goal == old(c).goal)
                &&& final(c).sound_armed == (if reset || scored {
                    true
                } else if eff is WallCollision && old(c).sound_armed {
                    false
                } else {
                    old(c).sound_armed
                })
            }),
    {
        self.ball_movement.update(input, &mut c.balls, &mut c.physics);
        let effect = self.collision_detection.update(
            &c.statics,
            &mut c.balls,
            &c.goal,
            &mut c.physics,
        );
        let mut sound: Option<Vec3> = None;
        match effect {
            CollisionEffect::Score => {
                c.score = c.score + 1;
                let mut b0 = c.balls[0];
                b0.play = false;
                proof {
                    assert(ball_wf(c.balls@[0]@));
                    assert(ball_wf(b0@));
                }
                c.balls[0] = b0;
                self.ball_movement.player_mag = 0;
                let mut p0 = c.physics[0];
                p0.reset();
                c.physics[0] = p0;
                c.goal.gen_new_loc();
                c.sound_armed = true;
            },
            CollisionEffect::WallCollision => {
                if c.sound_armed {
                    sound = Some(c.balls[0].body.c);
                    c.sound_armed = false;
                }
            },
            _ => {},
        }
        if input.reset_released {
            let mut b0 = c.balls[0];
            b0.play = false;
            proof {
                assert(ball_wf(c.balls@[0]@));
                assert(ball_wf(b0@));
            }
            c.balls[0] = b0;
            self.ball_movement.player_mag = 0;
            let mut p0 = c.physics[0];
            p0.reset();
            c.physics[0] = p0;
            c.sound_armed = true;
        }
        StepOutput { effect, sound }
    }
}

} // verus!
