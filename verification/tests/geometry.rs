use game3d_engine::fx::{sadd, ssub, sneg, smul_fx, sdiv_fx, smuldiv, sin_fx, cos_fx, isqrt, FX_MAX,
    SCALE};
use game3d_engine::geom::{Sphere, Plane, BoxShape, touching_sphere_sphere, disp_sphere_sphere,
    touching_sphere_plane, disp_sphere_plane, sq_dist_point_box, touching_sphere_box};
use game3d_engine::vec3::Vec3;

fn sphere(x: i64, y: i64, z: i64, r: i64) -> Sphere {
    Sphere { c: Vec3::new(x, y, z), r }
}

#[test]
fn scalar_ops_exact_values() {
    // 2.0 * 0.5 == 1.0
    assert_eq!(smul_fx(2 * SCALE, SCALE / 2), SCALE);
    // 1.0 / 2.0 == 0.5
    assert_eq!(sdiv_fx(SCALE, 2 * SCALE), SCALE / 2);
    // truncation rounds toward zero on both signs
    assert_eq!(smuldiv(7, 1, 2), 3);
    assert_eq!(smuldiv(-7, 1, 2), -3);
    assert_eq!(sadd(3, 4), 7);
    assert_eq!(ssub(3, 4), -1);
    assert_eq!(sneg(-5), 5);
}

#[test]
fn scalar_ops_saturate() {
    assert_eq!(sadd(FX_MAX, FX_MAX), FX_MAX);
    assert_eq!(ssub(-FX_MAX, FX_MAX), -FX_MAX);
    assert_eq!(smul_fx(FX_MAX, FX_MAX), FX_MAX);
    assert_eq!(smul_fx(-FX_MAX, FX_MAX), -FX_MAX);
}

#[test]
fn isqrt_exact_values() {
    assert_eq!(isqrt(0), 0);
    assert_eq!(isqrt(3), 1);
    assert_eq!(isqrt(4), 2);
    assert_eq!(isqrt(3_600_000_000), 60_000);
    assert_eq!(isqrt(3_599_999_999), 59_999);
}

#[test]
fn trig_exact_at_zero() {
    assert_eq!(sin_fx(0), 0);
    assert_eq!(cos_fx(0), SCALE);
}

#[test]
fn sphere_sphere_overlap_head_on() {
    // radii 1.0 each, centers 1.5 apart along x: leftover is 0.5
    let s1 = sphere(0, 0, 0, SCALE);
    let s2 = sphere(90_000, 0, 0, SCALE);
    assert!(touching_sphere_sphere(&s1, &s2));
    let d = disp_sphere_sphere(&s1, &s2).expect("spheres overlap");
    assert_eq!((d.x, d.y, d.z), (30_000, 0, 0));
}

#[test]
fn sphere_sphere_half_displacement_touches_exactly() {
    let s1 = sphere(0, 0, 0, SCALE);
    let s2 = sphere(90_000, 0, 0, SCALE);
    let d = disp_sphere_sphere(&s1, &s2).expect("spheres overlap");
    let m1 = sphere(-d.x / 2, 0, 0, SCALE);
    let m2 = sphere(90_000 + d.x / 2, 0, 0, SCALE);
    // exactly touching: the boolean touch test holds, the strict overlap
    // used for displacement does not
    assert!(touching_sphere_sphere(&m1, &m2));
    assert!(disp_sphere_sphere(&m1, &m2).is_none());
}

#[test]
fn sphere_sphere_coincident_centers() {
    let s1 = sphere(5, 5, 5, SCALE);
    let s2 = sphere(5, 5, 5, SCALE / 2);
    let d = disp_sphere_sphere(&s1, &s2).expect("coincident centers overlap");
    // a fixed unit direction carries the whole radius sum
    assert_eq!((d.x, d.y, d.z), (90_000, 0, 0));
}

#[test]
fn sphere_sphere_disjoint() {
    let s1 = sphere(0, 0, 0, SCALE);
    let s2 = sphere(10 * SCALE, 0, 0, SCALE);
    assert!(!touching_sphere_sphere(&s1, &s2));
    assert!(disp_sphere_sphere(&s1, &s2).is_none());
}

#[test]
fn sphere_plane_displacement_tangent() {
    // floor with unit +y normal at height 1.0; sphere center at 1.5, radius 1.0
    let p = Plane { n: Vec3::new(0, SCALE, 0), d: SCALE };
    let s = sphere(0, 90_000, 0, SCALE);
    assert!(touching_sphere_plane(&s, &p));
    let d = disp_sphere_plane(&s, &p).expect("sphere touches plane");
    assert_eq!((d.x, d.y, d.z), (0, 30_000, 0));
    // displacing the center leaves the sphere exactly tangent
    let moved = sphere(0, 90_000 + d.y, 0, SCALE);
    let d2 = disp_sphere_plane(&moved, &p).expect("tangent still touches");
    assert_eq!((d2.x, d2.y, d2.z), (0, 0, 0));
}

#[test]
fn sphere_plane_apart() {
    let p = Plane { n: Vec3::new(0, SCALE, 0), d: 0 };
    let s = sphere(0, 10 * SCALE, 0, SCALE);
    assert!(!touching_sphere_plane(&s, &p));
    assert!(disp_sphere_plane(&s, &p).is_none());
}

#[test]
fn point_box_squared_distance() {
    let b = BoxShape { c: Vec3::new(120_000, 0, 0), r: Vec3::new(SCALE, SCALE, SCALE) };
    let p = Vec3::new(0, 0, 0);
    // one unit away from the nearest face along x: (1.0 * SCALE)^2
    assert_eq!(sq_dist_point_box(&p, &b), 3_600_000_000);
    let inside = Vec3::new(120_000, 30_000, -30_000);
    assert_eq!(sq_dist_point_box(&inside, &b), 0);
}

#[test]
fn sphere_box_touch_test() {
    let b = BoxShape { c: Vec3::new(120_000, 0, 0), r: Vec3::new(SCALE, SCALE, SCALE) };
    // radius exactly reaches the face
    assert!(touching_sphere_box(&sphere(0, 0, 0, SCALE), &b));
    // radius one raw unit short
    assert!(!touching_sphere_box(&sphere(0, 0, 0, SCALE - 1), &b));
}
