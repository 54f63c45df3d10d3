//! 3-component vectors of saturating fixed-point scalars, and their
//! mathematical model.

use vstd::prelude::*;
use crate::fx::{sat, tdiv, in_range, sadd, ssub, sneg, smuldiv, sdiv_i128, lemma_sq_bounds, SCALE,
    FX_MAX};

verus! {

/// Mathematical model of a vector: unbounded integer components.
pub ghost struct V3 {
    pub x: int,
    pub y: int,
    pub z: int,
}

/// A vector of three fixed-point scalars (a point or a direction).
#[derive(Clone, Copy, PartialEq, Eq, Structural, Debug)]
pub struct Vec3 {
    pub x: i64,
    pub y: i64,
    pub z: i64,
}

impl View for Vec3 {
    type V = V3;

    open spec fn view(&self) -> V3 {
        V3 { x: self.x as int, y: self.y as int, z: self.z as int }
    }
}

/// All three components lie in the representable scalar range.
pub open spec fn v3_in_range(v: V3) -> bool {
    in_range(v.x) && in_range(v.y) && in_range(v.z)
}

pub open spec fn v3_zero() -> V3 {
    V3 { x: 0, y: 0, z: 0 }
}

/// Componentwise saturating sum.
pub open spec fn v3_add(a: V3, b: V3) -> V3 {
    V3 { x: sat(a.x + b.x), y: sat(a.y + b.y), z: sat(a.z + b.z) }
}

/// Componentwise saturating difference.
pub open spec fn v3_sub(a: V3, b: V3) -> V3 {
    V3 { x: sat(a.x - b.x), y: sat(a.y - b.y), z: sat(a.z - b.z) }
}

/// Componentwise saturating negation.
pub open spec fn v3_neg(a: V3) -> V3 {
    V3 { x: sat(-a.x), y: sat(-a.y), z: sat(-a.z) }
}

/// Componentwise `sat(tdiv(component * m, d))`, for positive `d`.
pub open spec fn v3_muldiv(a: V3, m: int, d: int) -> V3
    recommends
        d > 0,
{
    V3 { x: sat(tdiv(a.x * m, d)), y: sat(tdiv(a.y * m, d)), z: sat(tdiv(a.z * m, d)) }
}

/// Scaling by a fixed-point factor: `v * m` in value terms.
pub open spec fn v3_scale_fx(a: V3, m: int) -> V3 {
    v3_muldiv(a, m, SCALE as int)
}

/// Componentwise truncating halving.
pub open spec fn v3_half(a: V3) -> V3 {
    V3 { x: tdiv(a.x, 2), y: tdiv(a.y, 2), z: tdiv(a.z, 2) }
}

/// Exact squared magnitude in raw units (scaled by `SCALE * SCALE`).
pub open spec fn v3_mag2(a: V3) -> int {
    a.x * a.x + a.y * a.y + a.z * a.z
}

/// Fixed-point dot product: `sat(tdiv(x1*x2 + y1*y2 + z1*z2, SCALE))`.
pub open spec fn v3_dot_fx(a: V3, b: V3) -> int {
    sat(tdiv(a.x * b.x + a.y * b.y + a.z * b.z, SCALE as int))
}

/// The executable vector holding a model vector's components; exact
/// whenever the components fit in `i64`, which every saturated value does.
pub open spec fn v3_to_vec(v: V3) -> Vec3 {
    Vec3 { x: v.x as i64, y: v.y as i64, z: v.z as i64 }
}

impl Vec3 {
    pub fn new(x: i64, y: i64, z: i64) -> (r: Vec3)
        ensures
            r@ == (V3 { x: x as int, y: y as int, z: z as int }),
    {
        Vec3 { x, y, z }
    }

    pub fn zero() -> (r: Vec3)
        ensures
            r@ == v3_zero(),
    {
        Vec3 { x: 0, y: 0, z: 0 }
    }

    pub fn add(&self, o: &Vec3) -> (r: Vec3)
        ensures
            r@ == v3_add(self@, o@),
    {
        Vec3 { x: sadd(self.x, o.x), y: sadd(self.y, o.y), z: sadd(self.z, o.z) }
    }

    pub fn sub(&self, o: &Vec3) -> (r: Vec3)
        ensures
            r@ == v3_sub(self@, o@),
    {
        Vec3 { x: ssub(self.x, o.x), y: ssub(self.y, o.y), z: ssub(self.z, o.z) }
    }

    pub fn neg(&self) -> (r: Vec3)
        ensures
            r@ == v3_neg(self@),
    {
        Vec3 { x: sneg(self.x), y: sneg(self.y), z: sneg(self.z) }
    }

    pub fn muldiv(&self, m: i64, d: i64) -> (r: Vec3)
        requires
            d > 0,
        ensures
            r@ == v3_muldiv(self@, m as int, d as int),
    {
        Vec3 {
            x: smuldiv(self.x, m, d),
            y: smuldiv(self.y, m, d),
            z: smuldiv(self.z, m, d),
        }
    }

    pub fn scale_fx(&self, m: i64) -> (r: Vec3)
        ensures
            r@ == v3_scale_fx(self@, m as int),
    {
        self.muldiv(m, SCALE)
    }

    pub fn half(&self) -> (r: Vec3)
        ensures
            r@ == v3_half(self@),
    {
        Vec3 { x: self.x / 2, y: self.y / 2, z: self.z / 2 }
    }

    /// Exact squared magnitude, in raw units.
    pub fn mag2(&self) -> (r: i128)
        requires
            v3_in_range(self@),
        ensures
            r as int == v3_mag2(self@),
            0 <= r <= 3_000_000_000_000_000_000_000_000_000_000,
    {
        proof {
            lemma_sq_bounds(self.x as int, FX_MAX as int);
            lemma_sq_bounds(self.y as int, FX_MAX as int);
            lemma_sq_bounds(self.z as int, FX_MAX as int);
        }
        (self.x as i128) * (self.x as i128) + (self.y as i128) * (self.y as i128)
            + (self.z as i128) * (self.z as i128)
    }

    /// Fixed-point dot product.
    pub fn dot_fx(&self, o: &Vec3) -> (r: i64)
        requires
            v3_in_range(self@),
            v3_in_range(o@),
        ensures
            r as int == v3_dot_fx(self@, o@),
    {
        proof {
            assert(-(1_000_000_000_000_000_000_000_000_000_000 as int) <= (self.x as int) * (
            o.x as int) <= 1_000_000_000_000_000_000_000_000_000_000 as int) by (nonlinear_arith)
                requires
                    -(FX_MAX as int) <= self.x as int <= FX_MAX as int,
                    -(FX_MAX as int) <= o.x as int <= FX_MAX as int,
                    FX_MAX == 1_000_000_000_000_000,
            ;
            assert(-(1_000_000_000_000_000_000_000_000_000_000 as int) <= (self.y as int) * (
            o.y as int) <= 1_000_000_000_000_000_000_000_000_000_000 as int) by (nonlinear_arith)
                requires
                    -(FX_MAX as int) <= self.y as int <= FX_MAX as int,
                    -(FX_MAX as int) <= o.y as int <= FX_MAX as int,
                    FX_MAX == 1_000_000_000_000_000,
            ;
            assert(-(1_000_000_000_000_000_000_000_000_000_000 as int) <= (self.z as int) * (
            o.z as int) <= 1_000_000_000_000_000_000_000_000_000_000 as int) by (nonlinear_arith)
                requires
                    -(FX_MAX as int) <= self.z as int <= FX_MAX as int,
                    -(FX_MAX as int) <= o.z as int <= FX_MAX as int,
                    FX_MAX == 1_000_000_000_000_000,
            ;
        }
        let p: i128 = (self.x as i128) * (o.x as i128) + (self.y as i128) * (o.y as i128) + (
        self.z as i128) * (o.z as i128);
        sdiv_i128(p, SCALE)
    }
}

} // verus!
