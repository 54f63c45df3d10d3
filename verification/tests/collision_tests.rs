use game3d_engine::collision::{Contact, Contacts, CollisionDetection, CollisionEffect};
use game3d_engine::fx::SCALE;
use game3d_engine::geom::{Sphere, Plane, BoxShape};
use game3d_engine::physics::Physics;
use game3d_engine::shapes::{Ball, Static, Goal};
use game3d_engine::vec3::Vec3;

fn ball_at(x: i64, y: i64, z: i64, r: i64, mass: i64) -> Ball {
    Ball { body: Sphere { c: Vec3::new(x, y, z), r }, pitch: 0, yaw: 0, mass, play: true }
}

fn zero_physics() -> Physics {
    Physics { velocity: Vec3::zero(), momentum: Vec3::zero(), force: Vec3::zero() }
}

fn physics_with_momentum(x: i64, y: i64, z: i64) -> Physics {
    Physics { velocity: Vec3::zero(), momentum: Vec3::new(x, y, z), force: Vec3::zero() }
}

fn far_goal() -> Goal {
    Goal {
        body: BoxShape {
            c: Vec3::new(600 * SCALE, 600 * SCALE, 600 * SCALE),
            r: Vec3::new(SCALE / 2, SCALE / 2, SCALE / 2),
        },
    }
}

fn contact_with_depth(a: usize, b: usize, depth: i64) -> Contact {
    Contact { a, b, mtv: Vec3::new(depth, 0, 0) }
}

#[test]
fn contacts_sort_descending_by_penetration() {
    // depths 1.0, 5.0, 2.0 are processed in order 5.0, 2.0, 1.0
    let mut cs = Contacts::new();
    cs.wm.push(contact_with_depth(0, 1, SCALE));
    cs.wm.push(contact_with_depth(1, 2, 5 * SCALE));
    cs.wm.push(contact_with_depth(0, 2, 2 * SCALE));
    cs.mm.push(contact_with_depth(0, 1, SCALE));
    cs.mm.push(contact_with_depth(1, 2, 5 * SCALE));
    cs.mm.push(contact_with_depth(0, 2, 2 * SCALE));
    cs.sort();
    let wm_depths: Vec<i64> = cs.wm.iter().map(|c| c.mtv.x).collect();
    assert_eq!(wm_depths, vec![5 * SCALE, 2 * SCALE, SCALE]);
    let mm_depths: Vec<i64> = cs.mm.iter().map(|c| c.mtv.x).collect();
    assert_eq!(mm_depths, vec![5 * SCALE, 2 * SCALE, SCALE]);
}

#[test]
fn gather_classifies_ball_collision() {
    let mut cd = CollisionDetection::new();
    let statics: Vec<Static> = vec![];
    let balls = vec![ball_at(0, 0, 0, SCALE, SCALE), ball_at(90_000, 0, 0, SCALE, SCALE)];
    let effect = cd.gather_contacts(&statics, &balls, &far_goal());
    assert_eq!(effect, CollisionEffect::BallCollision);
    assert_eq!(cd.contacts.mm.len(), 1);
    let c = cd.contacts.mm[0];
    assert_eq!((c.a, c.b), (0, 1));
    assert_eq!((c.mtv.x, c.mtv.y, c.mtv.z), (30_000, 0, 0));
}

#[test]
fn gather_wall_takes_precedence_over_ball() {
    // the wall scan runs after the pair scan and overwrites the effect
    let mut cd = CollisionDetection::new();
    let statics = vec![Static {
        body: Plane { n: Vec3::new(0, SCALE, 0), d: 0 },
        position: Vec3::zero(),
    }];
    let balls = vec![ball_at(0, 30_000, 0, SCALE, SCALE), ball_at(90_000, 30_000, 0, SCALE, SCALE)];
    let effect = cd.gather_contacts(&statics, &balls, &far_goal());
    assert_eq!(effect, CollisionEffect::WallCollision);
    assert_eq!(cd.contacts.mm.len(), 1);
    assert_eq!(cd.contacts.wm.len(), 2);
}

#[test]
fn gather_score_takes_precedence_over_everything() {
    let mut cd = CollisionDetection::new();
    let statics = vec![Static {
        body: Plane { n: Vec3::new(0, SCALE, 0), d: 0 },
        position: Vec3::zero(),
    }];
    let goal = Goal {
        body: BoxShape { c: Vec3::new(0, 0, 0), r: Vec3::new(SCALE, SCALE, SCALE) },
    };
    let balls = vec![ball_at(0, 30_000, 0, SCALE, SCALE), ball_at(90_000, 30_000, 0, SCALE, SCALE)];
    let effect = cd.gather_contacts(&statics, &balls, &goal);
    assert_eq!(effect, CollisionEffect::Score);
}

#[test]
fn gather_none_when_nothing_overlaps() {
    let mut cd = CollisionDetection::new();
    let statics = vec![Static {
        body: Plane { n: Vec3::new(0, SCALE, 0), d: 0 },
        position: Vec3::zero(),
    }];
    let balls = vec![ball_at(0, 10 * SCALE, 0, SCALE, SCALE)];
    let effect = cd.gather_contacts(&statics, &balls, &far_goal());
    assert_eq!(effect, CollisionEffect::NoEffect);
    assert!(cd.contacts.wm.is_empty());
    assert!(cd.contacts.mm.is_empty());
}

#[test]
fn resolution_idempotent_at_rest() {
    // a ball resting exactly tangent to the floor with zero momentum is
    // left untouched by a full update pass
    let mut cd = CollisionDetection::new();
    let statics = vec![Static {
        body: Plane { n: Vec3::new(0, SCALE, 0), d: 0 },
        position: Vec3::zero(),
    }];
    let mut balls = vec![ball_at(0, SCALE, 0, SCALE, SCALE)];
    let mut physics = vec![zero_physics()];
    let effect = cd.update(&statics, &mut balls, &far_goal(), &mut physics);
    assert_eq!(effect, CollisionEffect::WallCollision);
    let c = balls[0].body.c;
    assert_eq!((c.x, c.y, c.z), (0, SCALE, 0));
    let m = physics[0].momentum;
    assert_eq!((m.x, m.y, m.z), (0, 0, 0));
}

#[test]
fn static_resolution_pushes_out_and_adds_impulse() {
    // ball one half-unit deep in the floor: pushed up by 0.5, impulse
    // (disp * mass * coeff) * dt with mass 1.0, coeff 0.5, dt 1/60
    let mut cd = CollisionDetection::new();
    let statics = vec![Static {
        body: Plane { n: Vec3::new(0, SCALE, 0), d: 0 },
        position: Vec3::zero(),
    }];
    let mut balls = vec![ball_at(0, 30_000, 0, SCALE, SCALE)];
    let mut physics = vec![zero_physics()];
    let effect = cd.update(&statics, &mut balls, &far_goal(), &mut physics);
    assert_eq!(effect, CollisionEffect::WallCollision);
    let c = balls[0].body.c;
    assert_eq!((c.x, c.y, c.z), (0, SCALE, 0));
    let m = physics[0].momentum;
    // 0.5 * 1.0 * 0.5 * (1/60) = 1/240 = 250 raw units
    assert_eq!((m.x, m.y, m.z), (0, 250, 0));
}

#[test]
fn elastic_head_on_negates_momenta() {
    // equal unit masses, equal and opposite momenta, restitution 1.0
    let mut cd = CollisionDetection::new();
    cd.coeff_r = SCALE;
    let statics: Vec<Static> = vec![];
    let mut balls = vec![ball_at(0, 0, 0, SCALE, SCALE), ball_at(SCALE, 0, 0, SCALE, SCALE)];
    let mut physics = vec![
        physics_with_momentum(2 * SCALE, 0, 0),
        physics_with_momentum(-2 * SCALE, 0, 0),
    ];
    let effect = cd.update(&statics, &mut balls, &far_goal(), &mut physics);
    assert_eq!(effect, CollisionEffect::BallCollision);
    // momenta exactly negated
    assert_eq!(physics[0].momentum.x, -2 * SCALE);
    assert_eq!(physics[1].momentum.x, 2 * SCALE);
    // positions split the leftover radius evenly
    assert_eq!(balls[0].body.c.x, -30_000);
    assert_eq!(balls[1].body.c.x, SCALE + 30_000);
}

#[test]
fn update_resolves_deepest_contact_first() {
    // two balls each touching the floor; the deeper one is resolved first,
    // which a re-test of the shallower one still confirms
    let mut cd = CollisionDetection::new();
    let statics = vec![Static {
        body: Plane { n: Vec3::new(0, SCALE, 0), d: 0 },
        position: Vec3::zero(),
    }];
    let mut balls = vec![
        ball_at(0, 50_000, 0, SCALE, SCALE),
        ball_at(10 * SCALE, 10_000, 0, SCALE, SCALE),
    ];
    let mut physics = vec![zero_physics(), zero_physics()];
    let effect = cd.update(&statics, &mut balls, &far_goal(), &mut physics);
    assert_eq!(effect, CollisionEffect::WallCollision);
    // the sorted static list holds the deeper contact (ball 1) first
    assert_eq!(cd.contacts.wm.len(), 2);
    assert_eq!(cd.contacts.wm[0].a, 1);
    assert_eq!(cd.contacts.wm[1].a, 0);
    // both end exactly tangent
    assert_eq!(balls[0].body.c.y, SCALE);
    assert_eq!(balls[1].body.c.y, SCALE);
}
