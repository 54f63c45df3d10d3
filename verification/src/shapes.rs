//! The game's bodies: the dynamic ball, the static wall/floor colliders and
//! the goal volume.

use vstd::prelude::*;
use rand::Rng;
use crate::fx::{in_range, FX_MAX};
use crate::geom::{Sphere, Plane, BoxShape, SphereM, PlaneM, BoxM, sphere_wf, plane_wf, box_wf};
use crate::vec3::{Vec3, V3};

verus! {

/// Mathematical model of a dynamic ball.
pub ghost struct BallM {
    pub body: SphereM,
    pub pitch: int,
    pub yaw: int,
    pub mass: int,
    pub play: bool,
}

/// A dynamic body: collision sphere, aim angles, mass, and the `play` flag
/// that gates integration and gravity.
#[derive(Clone, Copy, PartialEq, Eq, Structural, Debug)]
pub struct Ball {
    pub body: Sphere,
    pub pitch: i64,
    pub yaw: i64,
    pub mass: i64,
    pub play: bool,
}

impl View for Ball {
    type V = BallM;

    open spec fn view(&self) -> BallM {
        BallM {
            body: self.body@,
            pitch: self.pitch as int,
            yaw: self.yaw as int,
            mass: self.mass as int,
            play: self.play,
        }
    }
}

/// Well-formed ball: well-formed collision sphere, representable aim
/// angles, positive representable mass.
pub open spec fn ball_wf(b: BallM) -> bool {
    sphere_wf(b.body) && in_range(b.pitch) && in_range(b.yaw) && 0 < b.mass <= FX_MAX as int
}

/// Mathematical model of a static collider.
pub ghost struct StaticM {
    pub body: PlaneM,
    pub position: V3,
}

/// A static collider: a plane, plus a decorative anchor position that only
/// a renderer consumes.
#[derive(Clone, Copy, PartialEq, Eq, Structural, Debug)]
pub struct Static {
    pub body: Plane,
    pub position: Vec3,
}

impl View for Static {
    type V = StaticM;

    open spec fn view(&self) -> StaticM {
        StaticM { body: self.body@, position: self.position@ }
    }
}

/// Well-formed static collider.
pub open spec fn static_wf(s: StaticM) -> bool {
    plane_wf(s.body)
}

/// Mathematical model of the goal.
pub ghost struct GoalM {
    pub body: BoxM,
}

/// The goal volume: an axis-aligned box relocated between rounds.
#[derive(Clone, Copy, PartialEq, Eq, Structural, Debug)]
pub struct Goal {
    pub body: BoxShape,
}

impl View for Goal {
    type V = GoalM;

    open spec fn view(&self) -> GoalM {
        GoalM { body: self.body@ }
    }
}

/// Well-formed goal.
pub open spec fn goal_wf(g: GoalM) -> bool {
    box_wf(g.body)
}

/// Relies on rand::Rng::gen_range over `low..high` (through thread_rng):
/// returns a uniformly sampled value in `[low, high)`; it panics only on an
/// empty range, which the precondition rules out.
#[verifier::external_body]
fn rand_range_i64(low: i64, high: i64) -> (r: i64)
    requires
        low < high,
    ensures
        low <= r < high,
{
    rand::thread_rng().gen_range(low..high)
}

impl Goal {
    /// Move the goal to a fresh random location inside the fixed spawn
    /// region, keeping its half-extents.
    pub fn gen_new_loc(&mut self)
        requires
            box_wf(old(self)@.body),
        ensures
            box_wf(final(self)@.body),
            final(self).body.r == old(self).body.r,
            -750_000 <= final(self)@.body.c.x < -30_000,
            30_000 <= final(self)@.body.c.y < 420_000,
            -750_000 <= final(self)@.body.c.z < -30_000,
    {
        let new_x = rand_range_i64(-750_000, -30_000);
        let new_y = rand_range_i64(30_000, 420_000);
        let new_z = rand_range_i64(-750_000, -30_000);
        self.body.c = Vec3::new(new_x, new_y, new_z);
    }
}

} // verus!
