use game3d_engine::camera_control::{CameraController, FRAC_PI_4, FRAC_PI_2};
use game3d_engine::collision::CollisionEffect;
use game3d_engine::events::InputState;
use game3d_engine::fx::SCALE;
use game3d_engine::game::{Components, Systems};
use game3d_engine::geom::{Sphere, Plane, BoxShape};
use game3d_engine::physics::{Force, Physics, PLAYER_MAG_MAX, PLAYER_MAG_STEP};
use game3d_engine::shapes::{Ball, Goal, Static};
use game3d_engine::vec3::Vec3;

fn launch_input() -> InputState {
    InputState { launch_pressed: true, ..InputState::none() }
}

/// A world with the ball resting at the origin, no walls, and the goal far
/// away.
fn open_world() -> Components {
    let mut c = Components::new();
    c.statics = vec![];
    c.balls[0].body.c = Vec3::zero();
    c.goal = Goal {
        body: BoxShape {
            c: Vec3::new(600 * SCALE, 600 * SCALE, 600 * SCALE),
            r: Vec3::new(SCALE / 2, SCALE / 2, SCALE / 2),
        },
    };
    c
}

#[test]
fn resting_ball_is_untouched_by_gravity() {
    let mut c = open_world();
    let mut sys = Systems::new();
    for _ in 0..10 {
        let out = sys.process(&InputState::none(), &mut c);
        assert_eq!(out.effect, CollisionEffect::NoEffect);
    }
    let pos = c.balls[0].body.c;
    assert_eq!((pos.x, pos.y, pos.z), (0, 0, 0));
    let m = c.physics[0].momentum;
    assert_eq!((m.x, m.y, m.z), (0, 0, 0));
}

#[test]
fn launch_step_moves_ball_along_aim() {
    // aim pitch 0, yaw 0, magnitude 10, one step of 1/60
    let mut c = open_world();
    let mut sys = Systems::new();
    sys.ball_movement.player_mag = 10 * SCALE;
    let out = sys.process(&launch_input(), &mut c);
    assert_eq!(out.effect, CollisionEffect::NoEffect);
    assert!(c.balls[0].play);
    let m = c.physics[0].momentum;
    // launch impulse 10.0 along +z scaled by dt, gravity scaled by mass and dt
    assert_eq!((m.x, m.y, m.z), (0, -339, 10_000));
    let pos = c.balls[0].body.c;
    // position moved by (momentum / mass) * dt from the origin
    assert_eq!((pos.x, pos.y, pos.z), (0, -49, 1474));
}

#[test]
fn launched_ball_keeps_accumulating_gravity() {
    let mut c = open_world();
    let mut sys = Systems::new();
    sys.ball_movement.player_mag = 10 * SCALE;
    sys.process(&launch_input(), &mut c);
    let m1 = c.physics[0].momentum.y;
    sys.process(&InputState::none(), &mut c);
    let m2 = c.physics[0].momentum.y;
    assert_eq!(m2, m1 - 339);
    assert_eq!(c.physics[0].momentum.z, 10_000);
}

#[test]
fn score_resets_ball_and_relocates_goal() {
    let mut c = open_world();
    // the goal sits right where the ball is
    c.goal = Goal {
        body: BoxShape { c: Vec3::zero(), r: Vec3::new(SCALE / 2, SCALE / 2, SCALE / 2) },
    };
    let mut sys = Systems::new();
    sys.ball_movement.player_mag = 10 * SCALE;
    let out = sys.process(&launch_input(), &mut c);
    assert_eq!(out.effect, CollisionEffect::Score);
    assert_eq!(c.score, 1);
    assert!(!c.balls[0].play);
    assert_eq!(sys.ball_movement.player_mag, 0);
    let m = c.physics[0].momentum;
    assert_eq!((m.x, m.y, m.z), (0, 0, 0));
    // the goal moved into the spawn region, keeping its half-extents
    let g = c.goal.body.c;
    assert!((-750_000..-30_000).contains(&g.x));
    assert!((30_000..420_000).contains(&g.y));
    assert!((-750_000..-30_000).contains(&g.z));
    assert_eq!(c.goal.body.r.x, SCALE / 2);
}

#[test]
fn goal_relocation_leaves_previous_spot() {
    let mut g = Goal {
        body: BoxShape {
            c: Vec3::new(600 * SCALE, 600 * SCALE, 600 * SCALE),
            r: Vec3::new(SCALE, SCALE, SCALE),
        },
    };
    g.gen_new_loc();
    let c = g.body.c;
    assert!((-750_000..-30_000).contains(&c.x));
    assert!((30_000..420_000).contains(&c.y));
    assert!((-750_000..-30_000).contains(&c.z));
    assert_eq!(g.body.r.x, SCALE);
}

#[test]
fn reset_edge_rests_the_ball() {
    let mut c = open_world();
    let mut sys = Systems::new();
    sys.ball_movement.player_mag = 10 * SCALE;
    sys.process(&launch_input(), &mut c);
    assert!(c.balls[0].play);
    let input = InputState { reset_released: true, ..InputState::none() };
    sys.process(&input, &mut c);
    assert!(!c.balls[0].play);
    assert_eq!(sys.ball_movement.player_mag, 0);
    let m = c.physics[0].momentum;
    assert_eq!((m.x, m.y, m.z), (0, 0, 0));
    assert!(c.sound_armed);
}

#[test]
fn wall_collision_requests_sound_once() {
    let mut c = open_world();
    c.statics = vec![Static {
        body: Plane { n: Vec3::new(0, SCALE, 0), d: 0 },
        position: Vec3::zero(),
    }];
    // resting tangent on the floor: a wall collision every step
    c.balls[0] = Ball {
        body: Sphere { c: Vec3::new(0, SCALE, 0), r: SCALE },
        pitch: 0,
        yaw: 0,
        mass: SCALE,
        play: false,
    };
    let mut sys = Systems::new();
    let out1 = sys.process(&InputState::none(), &mut c);
    assert_eq!(out1.effect, CollisionEffect::WallCollision);
    let pos = out1.sound.expect("first wall hit plays the sound");
    assert_eq!((pos.x, pos.y, pos.z), (0, SCALE, 0));
    assert!(!c.sound_armed);
    let out2 = sys.process(&InputState::none(), &mut c);
    assert_eq!(out2.effect, CollisionEffect::WallCollision);
    assert!(out2.sound.is_none());
}

#[test]
fn power_meter_charges_and_clamps() {
    let mut c = open_world();
    let mut sys = Systems::new();
    let up = InputState { power_up_held: true, ..InputState::none() };
    for _ in 0..25 {
        sys.process(&up, &mut c);
    }
    assert_eq!(sys.ball_movement.player_mag, PLAYER_MAG_MAX);
    let down = InputState { power_down_held: true, ..InputState::none() };
    for _ in 0..25 {
        sys.process(&down, &mut c);
    }
    assert_eq!(sys.ball_movement.player_mag, 0);
    sys.process(&up, &mut c);
    assert_eq!(sys.ball_movement.player_mag, PLAYER_MAG_STEP);
}

#[test]
fn aim_control_clamps_and_holds_resting_ball() {
    let mut cam = CameraController::new();
    assert_eq!(cam.yaw, FRAC_PI_4);
    cam.player_pos = Vec3::new(100, 200, 300);
    let mut ball = Ball {
        body: Sphere { c: Vec3::zero(), r: SCALE },
        pitch: 0,
        yaw: 0,
        mass: SCALE,
        play: false,
    };
    let up = InputState { aim_up_held: true, ..InputState::none() };
    for _ in 0..100 {
        cam.update(&up, &mut ball);
    }
    assert_eq!(cam.pitch, -FRAC_PI_4);
    assert_eq!(ball.pitch, -FRAC_PI_4);
    // the resting ball is held at the rest position
    assert_eq!((ball.body.c.x, ball.body.c.y, ball.body.c.z), (100, 200, 300));
    let left = InputState { aim_left_held: true, ..InputState::none() };
    for _ in 0..100 {
        cam.update(&left, &mut ball);
    }
    assert_eq!(cam.yaw, FRAC_PI_2);
    let right = InputState { aim_right_held: true, ..InputState::none() };
    for _ in 0..200 {
        cam.update(&right, &mut ball);
    }
    assert_eq!(cam.yaw, 0);
}

#[test]
fn reference_world_shape() {
    let c = Components::new();
    assert_eq!(c.balls.len(), 1);
    assert_eq!(c.statics.len(), 3);
    assert_eq!(c.physics.len(), 1);
    assert_eq!(c.score, 0);
    assert!(c.sound_armed);
    let b = c.balls[0];
    assert_eq!((b.body.c.x, b.body.c.y, b.body.c.z), (-1_200_000, 300_000, -1_200_000));
    assert_eq!(b.body.r, 6000);
    assert_eq!(b.mass, 6782);
    assert!(!b.play);
    // the floor normal points up
    assert_eq!(c.statics[0].body.n.y, SCALE);
    let sys = Systems::new();
    assert_eq!(sys.ball_movement.dt, SCALE / 60);
    assert_eq!(sys.collision_detection.coeff_r, SCALE / 2);
}

#[test]
fn motion_state_impulses_and_reset() {
    let mut p = Physics { velocity: Vec3::zero(), momentum: Vec3::zero(), force: Vec3::zero() };
    p.apply_impulse(Vec3::new(10, -20, 30));
    p.apply_impulse(Vec3::new(1, 2, 3));
    let m = p.momentum;
    assert_eq!((m.x, m.y, m.z), (11, -18, 33));
    p.reset();
    let m = p.momentum;
    assert_eq!((m.x, m.y, m.z), (0, 0, 0));
}

#[test]
fn force_accumulates() {
    let mut f = Force::new(Vec3::new(0, -SCALE, 0));
    f.update_force(Vec3::new(SCALE, 0, 0));
    let v = f.apply_force();
    assert_eq!((v.x, v.y, v.z), (SCALE, -SCALE, 0));
}
