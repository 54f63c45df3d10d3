//! Geometric intersection primitives: sphere-sphere, sphere-plane and
//! sphere-box overlap tests and minimum translation vectors.
//!
//! All tests are pure; each executable function's result is pinned down
//! exactly by a spec function over the fixed-point model.

use vstd::prelude::*;
use crate::fx::{sat, tdiv, in_range, isqrt_spec, isqrt, clamp_i128, sadd, ssub, lemma_sq_bounds,
    lemma_isqrt_unique, lemma_tdiv_exact, SCALE, FX_MAX};
use crate::vec3::{Vec3, V3, v3_in_range, v3_add, v3_sub, v3_half, v3_muldiv, v3_scale_fx, v3_mag2,
    v3_dot_fx};

verus! {

/// Mathematical model of a sphere.
pub ghost struct SphereM {
    pub c: V3,
    pub r: int,
}

/// Mathematical model of a plane `dot(p, n) == d`.
pub ghost struct PlaneM {
    pub n: V3,
    pub d: int,
}

/// Mathematical model of an axis-aligned box.
pub ghost struct BoxM {
    pub c: V3,
    pub r: V3,
}

/// A sphere: center and radius.  Collision volume of every dynamic body.
#[derive(Clone, Copy, PartialEq, Eq, Structural, Debug)]
pub struct Sphere {
    pub c: Vec3,
    pub r: i64,
}

impl View for Sphere {
    type V = SphereM;

    open spec fn view(&self) -> SphereM {
        SphereM { c: self.c@, r: self.r as int }
    }
}

/// A plane with unit normal `n` and signed distance `d` from the origin;
/// the static walls and floor.
#[derive(Clone, Copy, PartialEq, Eq, Structural, Debug)]
pub struct Plane {
    pub n: Vec3,
    pub d: i64,
}

impl View for Plane {
    type V = PlaneM;

    open spec fn view(&self) -> PlaneM {
        PlaneM { n: self.n@, d: self.d as int }
    }
}

/// An axis-aligned box: center and per-axis half-extents; the goal volume.
#[derive(Clone, Copy, PartialEq, Eq, Structural, Debug)]
pub struct BoxShape {
    pub c: Vec3,
    pub r: Vec3,
}

impl View for BoxShape {
    type V = BoxM;

    open spec fn view(&self) -> BoxM {
        BoxM { c: self.c@, r: self.r@ }
    }
}

/// Well-formed sphere: representable center, positive representable radius.
pub open spec fn sphere_wf(s: SphereM) -> bool {
    v3_in_range(s.c) && 0 < s.r <= FX_MAX as int
}

/// Well-formed plane: representable normal and offset.
pub open spec fn plane_wf(p: PlaneM) -> bool {
    v3_in_range(p.n) && in_range(p.d)
}

/// Well-formed box: representable center, nonnegative representable
/// half-extents.
pub open spec fn box_wf(b: BoxM) -> bool {
    v3_in_range(b.c) && v3_in_range(b.r) && 0 <= b.r.x && 0 <= b.r.y && 0 <= b.r.z
}

/// Squared center distance of two spheres, in raw units.
pub open spec fn ss_mag2(s1: SphereM, s2: SphereM) -> int {
    v3_mag2(v3_sub(s2.c, s1.c))
}

/// Center distance of two spheres (integer square root of `ss_mag2`).
pub open spec fn ss_dist(s1: SphereM, s2: SphereM) -> int {
    isqrt_spec(ss_mag2(s1, s2))
}

/// The touch test: squared center distance at most the squared radius sum.
pub open spec fn ss_touching(s1: SphereM, s2: SphereM) -> bool {
    ss_mag2(s1, s2) <= sat(s1.r + s2.r) * sat(s1.r + s2.r)
}

/// The overlap test used for displacement: center distance strictly less
/// than the radius sum.
pub open spec fn ss_overlap(s1: SphereM, s2: SphereM) -> bool {
    ss_dist(s1, s2) < s1.r + s2.r
}

/// The displacement that pushes `s1` and `s2` apart: the center offset
/// scaled to magnitude `(r1 + r2) - dist`.  When the centers coincide the
/// direction is the fixed unit vector along the first axis.
pub open spec fn ss_disp(s1: SphereM, s2: SphereM) -> V3 {
    let off = v3_sub(s2.c, s1.c);
    let dist = isqrt_spec(v3_mag2(off));
    let dm = sat(s1.r + s2.r - dist);
    if dist == 0 {
        V3 { x: dm, y: 0, z: 0 }
    } else {
        v3_muldiv(off, dm, dist)
    }
}

/// Signed fixed-point distance of a sphere's center from a plane.
pub open spec fn sp_dist(s: SphereM, p: PlaneM) -> int {
    sat(v3_dot_fx(s.c, p.n) - p.d)
}

/// Sphere-plane touch test: `|dot(c, n) - d| <= r`.
pub open spec fn sp_touching(s: SphereM, p: PlaneM) -> bool {
    -s.r <= sp_dist(s, p) <= s.r
}

/// The displacement that pushes a sphere out of a plane: `n * (r - dist)`.
pub open spec fn sp_disp(s: SphereM, p: PlaneM) -> V3 {
    v3_scale_fx(p.n, sat(s.r - sp_dist(s, p)))
}

/// Per-axis contribution to the squared point-box distance.
pub open spec fn axis_sq_dist(v: int, c: int, r: int) -> int {
    let lo = sat(c - r);
    let hi = sat(c + r);
    (if v < lo {
        sat(lo - v) * sat(lo - v)
    } else {
        0
    }) + (if v > hi {
        sat(v - hi) * sat(v - hi)
    } else {
        0
    })
}

/// Squared distance from a point to an axis-aligned box, in raw units.
pub open spec fn sq_dist_point_box_spec(p: V3, b: BoxM) -> int {
    axis_sq_dist(p.x, b.c.x, b.r.x) + axis_sq_dist(p.y, b.c.y, b.r.y) + axis_sq_dist(
        p.z,
        b.c.z,
        b.r.z,
    )
}

/// Sphere-box touch test: squared point-box distance at most `r * r`.
pub open spec fn sb_touching(s: SphereM, b: BoxM) -> bool {
    sq_dist_point_box_spec(s.c, b) <= s.r * s.r
}

/// Are `s1` and `s2` touching?
pub fn touching_sphere_sphere(s1: &Sphere, s2: &Sphere) -> (r: bool)
    requires
        sphere_wf(s1@),
        sphere_wf(s2@),
    ensures
        r == ss_touching(s1@, s2@),
{
    let off = s2.c.sub(&s1.c);
    let m2 = off.mag2();
    let rsum = sadd(s1.r, s2.r);
    proof {
        lemma_sq_bounds(rsum as int, FX_MAX as int);
    }
    m2 <= (rsum as i128) * (rsum as i128)
}

/// The offset needed to push `s1` and `s2` out of each other, if they
/// overlap.
pub fn disp_sphere_sphere(s1: &Sphere, s2: &Sphere) -> (r: Option<Vec3>)
    requires
        sphere_wf(s1@),
        sphere_wf(s2@),
    ensures
        r matches Some(v) ==> ss_overlap(s1@, s2@) && v@ == ss_disp(s1@, s2@),
        r is None ==> !ss_overlap(s1@, s2@),
{
    let off = s2.c.sub(&s1.c);
    let m2 = off.mag2();
    let dist = isqrt(m2);
    if (dist as i128) < (s1.r as i128) + (s2.r as i128) {
        // How much combined radius is "left over"?
        let dm = clamp_i128((s1.r as i128) + (s2.r as i128) - (dist as i128));
        if dist == 0 {
            // Coincident centers: push along a fixed unit direction.
            Some(Vec3::new(dm, 0, 0))
        } else {
            // Normalize the offset and scale it to the leftover magnitude.
            Some(off.muldiv(dm, dist))
        }
    } else {
        None
    }
}

/// Is `s` touching the plane `p`?
pub fn touching_sphere_plane(s: &Sphere, p: &Plane) -> (r: bool)
    requires
        sphere_wf(s@),
        plane_wf(p@),
    ensures
        r == sp_touching(s@, p@),
{
    let dist = ssub(s.c.dot_fx(&p.n), p.d);
    -s.r <= dist && dist <= s.r
}

/// The offset needed to push `s` out of the plane `p`, if they touch.
pub fn disp_sphere_plane(s: &Sphere, p: &Plane) -> (r: Option<Vec3>)
    requires
        sphere_wf(s@),
        plane_wf(p@),
    ensures
        r matches Some(v) ==> sp_touching(s@, p@) && v@ == sp_disp(s@, p@),
        r is None ==> !sp_touching(s@, p@),
{
    // Find the distance of the sphere's center to the plane.
    let dist = ssub(s.c.dot_fx(&p.n), p.d);
    if -s.r <= dist && dist <= s.r {
        // Offsetting along the normal by `r - dist` lands exactly on the
        // surface of the allowed half-space.
        Some(p.n.scale_fx(ssub(s.r, dist)))
    } else {
        None
    }
}

/// Squared distance from the point `p` to the box `b`, in raw units.
pub fn sq_dist_point_box(p: &Vec3, b: &BoxShape) -> (r: i128)
    requires
        v3_in_range(p@),
        box_wf(b@),
    ensures
        r as int == sq_dist_point_box_spec(p@, b@),
        0 <= r,
{
    let mut sq: i128 = 0;
    let lox = ssub(b.c.x, b.r.x);
    let hix = sadd(b.c.x, b.r.x);
    proof {
        lemma_sq_bounds(sat(lox as int - p.x as int), FX_MAX as int);
        lemma_sq_bounds(sat(p.x as int - hix as int), FX_MAX as int);
    }
    if p.x < lox {
        let d = ssub(lox, p.x);
        sq = sq + (d as i128) * (d as i128);
    }
    if p.x > hix {
        let d = ssub(p.x, hix);
        sq = sq + (d as i128) * (d as i128);
    }
    let loy = ssub(b.c.y, b.r.y);
    let hiy = sadd(b.c.y, b.r.y);
    proof {
        lemma_sq_bounds(sat(loy as int - p.y as int), FX_MAX as int);
        lemma_sq_bounds(sat(p.y as int - hiy as int), FX_MAX as int);
    }
    if p.y < loy {
        let d = ssub(loy, p.y);
        sq = sq + (d as i128) * (d as i128);
    }
    if p.y > hiy {
        let d = ssub(p.y, hiy);
        sq = sq + (d as i128) * (d as i128);
    }
    let loz = ssub(b.c.z, b.r.z);
    let hiz = sadd(b.c.z, b.r.z);
    proof {
        lemma_sq_bounds(sat(loz as int - p.z as int), FX_MAX as int);
        lemma_sq_bounds(sat(p.z as int - hiz as int), FX_MAX as int);
    }
    if p.z < loz {
        let d = ssub(loz, p.z);
        sq = sq + (d as i128) * (d as i128);
    }
    if p.z > hiz {
        let d = ssub(p.z, hiz);
        sq = sq + (d as i128) * (d as i128);
    }
    sq
}

/// Is `s` touching the box `b`?  Used only as the goal-scoring touch test.
pub fn touching_sphere_box(s: &Sphere, b: &BoxShape) -> (r: bool)
    requires
        sphere_wf(s@),
        box_wf(b@),
    ensures
        r == sb_touching(s@, b@),
{
    let sq = sq_dist_point_box(&s.c, b);
    proof {
        lemma_sq_bounds(s.r as int, FX_MAX as int);
    }
    sq <= (s.r as i128) * (s.r as i128)
}

/// A normal that points exactly along one coordinate axis (the walls and
/// floor of the reference world all do).
pub open spec fn axis_unit(n: V3) -> bool {
    ||| ((n.x == SCALE as int || n.x == -(SCALE as int)) && n.y == 0 && n.z == 0)
    ||| ((n.y == SCALE as int || n.y == -(SCALE as int)) && n.x == 0 && n.z == 0)
    ||| ((n.z == SCALE as int || n.z == -(SCALE as int)) && n.x == 0 && n.y == 0)
}

/// Law: for a head-on overlapping pair (centers differing along one axis),
/// the sphere-sphere displacement has squared magnitude exactly
/// `((r1 + r2) - dist)^2`, and moving each center by half the displacement
/// makes the spheres exactly touching (`dist == r1 + r2`).  The halving is
/// exact when the leftover `r1 + r2 - dist` is even; the bounds keep every
/// intermediate inside the representable range.
pub proof fn lemma_sphere_separation(s1: SphereM, s2: SphereM)
    requires
        sphere_wf(s1),
        sphere_wf(s2),
        s1.c.y == s2.c.y,
        s1.c.z == s2.c.z,
        s1.c.x != s2.c.x,
        -(FX_MAX as int) <= s2.c.x - s1.c.x <= FX_MAX as int,
        s1.r + s2.r <= FX_MAX as int,
        ss_overlap(s1, s2),
        -(FX_MAX as int) <= s1.c.x - (s1.r + s2.r),
        s1.c.x + (s1.r + s2.r) <= FX_MAX as int,
        -(FX_MAX as int) <= s2.c.x - (s1.r + s2.r),
        s2.c.x + (s1.r + s2.r) <= FX_MAX as int,
        (s1.r + s2.r - ss_dist(s1, s2)) % 2 == 0,
    ensures
        v3_mag2(ss_disp(s1, s2)) == (s1.r + s2.r - ss_dist(s1, s2)) * (s1.r + s2.r - ss_dist(
            s1,
            s2,
        )),
        ({
            let h = v3_half(ss_disp(s1, s2));
            let c1m = v3_sub(s1.c, h);
            let c2m = v3_add(s2.c, h);
            isqrt_spec(v3_mag2(v3_sub(c2m, c1m))) == s1.r + s2.r
        }),
{
    let dx = s2.c.x - s1.c.x;
    let off = v3_sub(s2.c, s1.c);
    assert(off.x == dx && off.y == 0 && off.z == 0);
    let ad = if dx >= 0 { dx } else { -dx };
    assert(v3_mag2(off) == dx * dx) by (nonlinear_arith)
        requires
            off == (V3 { x: dx, y: 0, z: 0 }),
    ;
    assert(dx * dx == ad * ad) by (nonlinear_arith)
        requires
            ad == dx || ad == -dx,
    ;
    assert(ad * ad < (ad + 1) * (ad + 1)) by (nonlinear_arith)
        requires
            ad >= 0,
    ;
    lemma_isqrt_unique(ad * ad, ad);
    let dist = ss_dist(s1, s2);
    assert(dist == ad);
    assert(ad > 0);
    let dm = s1.r + s2.r - ad;
    assert(0 < dm <= FX_MAX as int);
    let disp = ss_disp(s1, s2);
    // The normalization divides exactly: the offset is +-dist on one axis.
    if dx >= 0 {
        lemma_tdiv_exact(dm, ad);
        assert(dx * dm == dm * ad) by (nonlinear_arith)
            requires
                dx == ad,
        ;
        assert(disp.x == dm);
    } else {
        lemma_tdiv_exact(-dm, ad);
        assert(dx * dm == (-dm) * ad) by (nonlinear_arith)
            requires
                dx == -ad,
        ;
        assert(disp.x == -dm);
    }
    lemma_tdiv_exact(0, ad);
    assert(0 * dm == 0 * ad) by (nonlinear_arith);
    assert(disp.y == 0 && disp.z == 0);
    assert(disp.x * disp.x == dm * dm) by (nonlinear_arith)
        requires
            disp.x == dm || disp.x == -dm,
    ;
    // Half of an even displacement is exact; the pushed centers are exactly
    // a radius sum apart.
    let q = dm / 2;
    assert(dm == 2 * q);
    let h = v3_half(disp);
    if dx >= 0 {
        assert(h.x == q);
    } else {
        assert(h.x == -q);
    }
    assert(h.y == 0 && h.z == 0);
    let c1m = v3_sub(s1.c, h);
    let c2m = v3_add(s2.c, h);
    let rsum = s1.r + s2.r;
    let offm = v3_sub(c2m, c1m);
    if dx >= 0 {
        assert(c1m.x == s1.c.x - q);
        assert(c2m.x == s2.c.x + q);
        assert(offm.x == rsum);
    } else {
        assert(c1m.x == s1.c.x + q);
        assert(c2m.x == s2.c.x - q);
        assert(offm.x == -rsum);
    }
    assert(offm.y == 0 && offm.z == 0);
    assert(v3_mag2(offm) == rsum * rsum) by (nonlinear_arith)
        requires
            (offm.x == rsum || offm.x == -rsum) && offm.y == 0 && offm.z == 0,
    ;
    assert(rsum * rsum < (rsum + 1) * (rsum + 1)) by (nonlinear_arith)
        requires
            rsum >= 0,
    ;
    lemma_isqrt_unique(rsum * rsum, rsum);
}

/// Law: for a sphere touching a plane with an axis-aligned unit normal,
/// displacing the center by the sphere-plane displacement leaves the sphere
/// exactly tangent: `dot(c', n) - d == r`.  The bounds keep the moved
/// center representable.
pub proof fn lemma_plane_displacement_tangent(s: SphereM, p: PlaneM)
    requires
        sphere_wf(s),
        plane_wf(p),
        axis_unit(p.n),
        sp_touching(s, p),
        s.r <= FX_MAX as int / 2,
        in_range(v3_dot_fx(s.c, p.n) - p.d),
        -(FX_MAX as int) <= s.c.x - 2 * s.r,
        s.c.x + 2 * s.r <= FX_MAX as int,
        -(FX_MAX as int) <= s.c.y - 2 * s.r,
        s.c.y + 2 * s.r <= FX_MAX as int,
        -(FX_MAX as int) <= s.c.z - 2 * s.r,
        s.c.z + 2 * s.r <= FX_MAX as int,
    ensures
        ({
            let c2 = v3_add(s.c, sp_disp(s, p));
            v3_dot_fx(c2, p.n) - p.d == s.r
        }),
        sp_dist(SphereM { c: v3_add(s.c, sp_disp(s, p)), r: s.r }, p) == s.r,
{
    let sc = SCALE as int;
    let dist = sp_dist(s, p);
    let rd = sat(s.r - dist);
    assert(-(2 * s.r) <= s.r - dist <= 2 * s.r);
    let disp = sp_disp(s, p);
    let c2 = v3_add(s.c, disp);
    lemma_tdiv_exact(0, sc);
    if p.n.x == sc || p.n.x == -sc {
        if p.n.x == sc {
            lemma_tdiv_exact(s.c.x, sc);
            assert(v3_dot_fx(s.c, p.n) == s.c.x);
            assert(dist == s.c.x - p.d);
            assert(rd == s.r - dist);
            lemma_tdiv_exact(rd, sc);
            assert(p.n.x * rd == rd * sc) by (nonlinear_arith)
                requires
                    p.n.x == sc,
            ;
            assert(p.n.y * rd == 0 * sc && p.n.z * rd == 0 * sc) by (nonlinear_arith)
                requires
                    p.n.y == 0 && p.n.z == 0,
            ;
            assert(disp.x == rd);
            assert(disp.y == 0);
            assert(disp.z == 0);
            assert(c2.x == s.c.x + rd && c2.y == s.c.y && c2.z == s.c.z);
            lemma_tdiv_exact(c2.x, sc);
            assert(c2.x * p.n.x == c2.x * sc);
            assert(v3_dot_fx(c2, p.n) == c2.x);
        } else {
            lemma_tdiv_exact(-s.c.x, sc);
            assert(s.c.x * p.n.x == (-s.c.x) * sc) by (nonlinear_arith)
                requires
                    p.n.x == -sc,
            ;
            assert(v3_dot_fx(s.c, p.n) == -s.c.x);
            assert(dist == -s.c.x - p.d);
            assert(rd == s.r - dist);
            lemma_tdiv_exact(-rd, sc);
            assert(p.n.x * rd == (-rd) * sc) by (nonlinear_arith)
                requires
                    p.n.x == -sc,
            ;
            assert(p.n.y * rd == 0 * sc && p.n.z * rd == 0 * sc) by (nonlinear_arith)
                requires
                    p.n.y == 0 && p.n.z == 0,
            ;
            assert(disp.x == -rd && disp.y == 0 && disp.z == 0);
            assert(c2.x == s.c.x - rd && c2.y == s.c.y && c2.z == s.c.z);
            lemma_tdiv_exact(-c2.x, sc);
            assert(c2.x * p.n.x == (-c2.x) * sc) by (nonlinear_arith)
                requires
                    p.n.x == -sc,
            ;
            assert(v3_dot_fx(c2, p.n) == -c2.x);
        }
    } else if p.n.y == sc || p.n.y == -sc {
        if p.n.y == sc {
            lemma_tdiv_exact(s.c.y, sc);
            assert(v3_dot_fx(s.c, p.n) == s.c.y);
            assert(dist == s.c.y - p.d);
            assert(rd == s.r - dist);
            lemma_tdiv_exact(rd, sc);
            assert(p.n.y * rd == rd * sc) by (nonlinear_arith)
                requires
                    p.n.y == sc,
            ;
            assert(p.n.x * rd == 0 * sc && p.n.z * rd == 0 * sc) by (nonlinear_arith)
                requires
                    p.n.x == 0 && p.n.z == 0,
            ;
            assert(disp.y == rd && disp.x == 0 && disp.z == 0);
            assert(c2.y == s.c.y + rd && c2.x == s.c.x && c2.z == s.c.z);
            lemma_tdiv_exact(c2.y, sc);
            assert(c2.y * p.n.y == c2.y * sc);
            assert(v3_dot_fx(c2, p.n) == c2.y);
        } else {
            lemma_tdiv_exact(-s.c.y, sc);
            assert(s.c.y * p.n.y == (-s.c.y) * sc) by (nonlinear_arith)
                requires
                    p.n.y == -sc,
            ;
            assert(v3_dot_fx(s.c, p.n) == -s.c.y);
            assert(dist == -s.c.y - p.d);
            assert(rd == s.r - dist);
            lemma_tdiv_exact(-rd, sc);
            assert(p.n.y * rd == (-rd) * sc) by (nonlinear_arith)
                requires
                    p.n.y == -sc,
            ;
            assert(p.n.x * rd == 0 * sc && p.n.z * rd == 0 * sc) by (nonlinear_arith)
                requires
                    p.n.x == 0 && p.n.z == 0,
            ;
            assert(disp.y == -rd && disp.x == 0 && disp.z == 0);
            assert(c2.y == s.c.y - rd && c2.x == s.c.x && c2.z == s.c.z);
            lemma_tdiv_exact(-c2.y, sc);
            assert(c2.y * p.n.y == (-c2.y) * sc) by (nonlinear_arith)
                requires
                    p.n.y == -sc,
            ;
            assert(v3_dot_fx(c2, p.n) == -c2.y);
        }
    } else {
        if p.n.z == sc {
            lemma_tdiv_exact(s.c.z, sc);
            assert(v3_dot_fx(s.c, p.n) == s.c.z);
            assert(dist == s.c.z - p.d);
            assert(rd == s.r - dist);
            lemma_tdiv_exact(rd, sc);
            assert(p.n.z * rd == rd * sc) by (nonlinear_arith)
                requires
                    p.n.z == sc,
            ;
            assert(p.n.x * rd == 0 * sc && p.n.y * rd == 0 * sc) by (nonlinear_arith)
                requires
                    p.n.x == 0 && p.n.y == 0,
            ;
            assert(disp.z == rd && disp.x == 0 && disp.y == 0);
            assert(c2.z == s.c.z + rd && c2.x == s.c.x && c2.y == s.c.y);
            lemma_tdiv_exact(c2.z, sc);
            assert(c2.z * p.n.z == c2.z * sc);
            assert(v3_dot_fx(c2, p.n) == c2.z);
        } else {
            lemma_tdiv_exact(-s.c.z, sc);
            assert(s.c.z * p.n.z == (-s.c.z) * sc) by (nonlinear_arith)
                requires
                    p.n.z == -sc,
            ;
            assert(v3_dot_fx(s.c, p.n) == -s.c.z);
            assert(dist == -s.c.z - p.d);
            assert(rd == s.r - dist);
            lemma_tdiv_exact(-rd, sc);
            assert(p.n.z * rd == (-rd) * sc) by (nonlinear_arith)
                requires
                    p.n.z == -sc,
            ;
            assert(p.n.x * rd == 0 * sc && p.n.y * rd == 0 * sc) by (nonlinear_arith)
                requires
                    p.n.x == 0 && p.n.y == 0,
            ;
            assert(disp.z == -rd && disp.x == 0 && disp.y == 0);
            assert(c2.z == s.c.z - rd && c2.x == s.c.x && c2.y == s.c.y);
            lemma_tdiv_exact(-c2.z, sc);
            assert(c2.z * p.n.z == (-c2.z) * sc) by (nonlinear_arith)
                requires
                    p.n.z == -sc,
            ;
            assert(v3_dot_fx(c2, p.n) == -c2.z);
        }
    }
}

} // verus!
