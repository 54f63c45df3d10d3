//! Saturating fixed-point scalars.
//!
//! A scalar is an `i64` counting raw units of `1/SCALE`.  Every arithmetic
//! step is computed exactly in `i128` and then clamped into
//! `[-FX_MAX, FX_MAX]`, so each executable operation here is total and its
//! result is pinned down exactly by a spec function.

use vstd::prelude::*;

verus! {

/// Number of raw units in one whole unit; all scalars of the crate are
/// integers counted in units of `1/SCALE`.  The value is divisible by 60 and
/// by 2, so the reference timestep `1/60` and the reference restitution
/// coefficient `1/2` are represented exactly.
pub const SCALE: i64 = 60000;

/// Every stored scalar is clamped into `[-FX_MAX, FX_MAX]` by each operation.
pub const FX_MAX: i64 = 1_000_000_000_000_000;

/// The clamp applied by every saturating operation.
pub open spec fn sat(x: int) -> int {
    if x < -(FX_MAX as int) {
        -(FX_MAX as int)
    } else if x > FX_MAX as int {
        FX_MAX as int
    } else {
        x
    }
}

/// A scalar that the saturating operations can produce.
pub open spec fn in_range(x: int) -> bool {
    -(FX_MAX as int) <= x <= FX_MAX as int
}

/// Truncating (round-toward-zero) division, the semantics of `/` on the
/// machine integers; defined for positive divisors via Euclidean division.
pub open spec fn tdiv(a: int, b: int) -> int
    recommends
        b > 0,
{
    if a >= 0 {
        a / b
    } else {
        -((-a) / b)
    }
}

/// The integer square root: the largest `r` with `r * r <= n` (and `0` for
/// negative `n`).
pub open spec fn isqrt_spec(n: int) -> int
    decreases n,
{
    if n <= 0 {
        0
    } else {
        let r = isqrt_spec(n - 1);
        if (r + 1) * (r + 1) <= n {
            r + 1
        } else {
            r
        }
    }
}

/// `isqrt_spec(n)` really is the integer square root of `n`.
pub proof fn lemma_isqrt_bounds(n: int)
    requires
        n >= 0,
    ensures
        0 <= isqrt_spec(n),
        isqrt_spec(n) * isqrt_spec(n) <= n,
        n < (isqrt_spec(n) + 1) * (isqrt_spec(n) + 1),
    decreases n,
{
    if n == 0 {
    } else {
        lemma_isqrt_bounds(n - 1);
        let r = isqrt_spec(n - 1);
        if (r + 1) * (r + 1) <= n {
            assert(n == (r + 1) * (r + 1));
            assert((r + 1) * (r + 1) < (r + 2) * (r + 2)) by (nonlinear_arith)
                requires
                    r >= 0,
            ;
        }
    }
}

/// Any `r` sandwiched between the squares `r * r <= n < (r + 1) * (r + 1)`
/// is the integer square root.
pub proof fn lemma_isqrt_unique(n: int, r: int)
    requires
        n >= 0,
        0 <= r,
        r * r <= n,
        n < (r + 1) * (r + 1),
    ensures
        r == isqrt_spec(n),
{
    lemma_isqrt_bounds(n);
    let q = isqrt_spec(n);
    if r < q {
        assert((r + 1) * (r + 1) <= q * q) by (nonlinear_arith)
            requires
                0 <= r < q,
        ;
        assert(false);
    }
    if q < r {
        assert((q + 1) * (q + 1) <= r * r) by (nonlinear_arith)
            requires
                0 <= q < r,
        ;
        assert(false);
    }
}

/// Clamp an exact `i128` intermediate into the scalar range.
pub(crate) fn clamp_i128(x: i128) -> (r: i64)
    ensures
        r as int == sat(x as int),
{
    if x < -(FX_MAX as i128) {
        -FX_MAX
    } else if x > FX_MAX as i128 {
        FX_MAX
    } else {
        x as i64
    }
}

/// Saturating addition: `sat(a + b)`.
pub fn sadd(a: i64, b: i64) -> (r: i64)
    ensures
        r as int == sat(a + b),
{
    clamp_i128(a as i128 + b as i128)
}

/// Saturating subtraction: `sat(a - b)`.
pub fn ssub(a: i64, b: i64) -> (r: i64)
    ensures
        r as int == sat(a - b),
{
    clamp_i128(a as i128 - b as i128)
}

/// Saturating negation: `sat(-a)`.
pub fn sneg(a: i64) -> (r: i64)
    ensures
        r as int == sat(-a),
{
    clamp_i128(-(a as i128))
}

/// Saturating multiply-then-divide: `sat(tdiv(a * b, c))` for a positive
/// divisor `c`.  The product is formed exactly in `i128`.
pub fn smuldiv(a: i64, b: i64, c: i64) -> (r: i64)
    requires
        c > 0,
    ensures
        r as int == sat(tdiv(a as int * b as int, c as int)),
{
    proof {
        assert(-(0x40000000000000000000000000000000 as int) <= (a as int) * (b as int)
            <= 0x40000000000000000000000000000000 as int) by (nonlinear_arith);
    }
    let p: i128 = (a as i128) * (b as i128);
    let q: i128 = p / (c as i128);
    proof {
        assert(q as int == tdiv(a as int * b as int, c as int));
    }
    clamp_i128(q)
}

/// Saturating fixed-point product: `a * b` in value terms, i.e.
/// `sat(tdiv(a * b, SCALE))` on the raw integers.
pub fn smul_fx(a: i64, b: i64) -> (r: i64)
    ensures
        r as int == sat(tdiv(a as int * b as int, SCALE as int)),
{
    smuldiv(a, b, SCALE)
}

/// Saturating fixed-point quotient: `a / b` in value terms, i.e.
/// `sat(tdiv(a * SCALE, b))` on the raw integers, for positive `b`.
pub fn sdiv_fx(a: i64, b: i64) -> (r: i64)
    requires
        b > 0,
    ensures
        r as int == sat(tdiv(a as int * SCALE as int, b as int)),
{
    smuldiv(a, SCALE, b)
}

/// Saturating division of an exact `i128` intermediate by a positive `i64`:
/// `sat(tdiv(p, c))`.
pub(crate) fn sdiv_i128(p: i128, c: i64) -> (r: i64)
    requires
        c > 0,
    ensures
        r as int == sat(tdiv(p as int, c as int)),
{
    clamp_i128(p / (c as i128))
}

/// Spec shorthand for the saturating fixed-point product.
pub open spec fn fmul(a: int, b: int) -> int {
    sat(tdiv(a * b, SCALE as int))
}

/// Spec shorthand for the saturating fixed-point quotient (positive `b`).
pub open spec fn fdiv(a: int, b: int) -> int
    recommends
        b > 0,
{
    sat(tdiv(a * SCALE, b))
}

/// Truncated Taylor series for the sine of a fixed-point angle:
/// `x - x^3/6 + x^5/120`, evaluated with the crate's saturating operations.
/// Close to the mathematical sine for the clamped aim range
/// `[-pi/2, pi/2]`, and exact at `0`.
pub open spec fn sin_fx_spec(x: int) -> int {
    let x2 = fmul(x, x);
    let x3 = fmul(x2, x);
    let x5 = fmul(x3, x2);
    sat(sat(x - tdiv(x3, 6)) + tdiv(x5, 120))
}

/// Truncated Taylor series for the cosine of a fixed-point angle:
/// `1 - x^2/2 + x^4/24`, evaluated with the crate's saturating operations.
/// Exact at `0`.
pub open spec fn cos_fx_spec(x: int) -> int {
    let x2 = fmul(x, x);
    let x4 = fmul(x2, x2);
    sat(sat(SCALE - tdiv(x2, 2)) + tdiv(x4, 24))
}

/// Fixed-point sine approximation (see `sin_fx_spec`).
pub fn sin_fx(x: i64) -> (r: i64)
    ensures
        r as int == sin_fx_spec(x as int),
{
    let x2 = smul_fx(x, x);
    let x3 = smul_fx(x2, x);
    let x5 = smul_fx(x3, x2);
    sadd(ssub(x, x3 / 6), x5 / 120)
}

/// Fixed-point cosine approximation (see `cos_fx_spec`).
pub fn cos_fx(x: i64) -> (r: i64)
    ensures
        r as int == cos_fx_spec(x as int),
{
    let x2 = smul_fx(x, x);
    let x4 = smul_fx(x2, x2);
    sadd(ssub(SCALE, x2 / 2), x4 / 24)
}

/// Truncating division is exact on whole multiples: `tdiv(k * d, d) == k`.
pub proof fn lemma_tdiv_exact(k: int, d: int)
    requires
        d > 0,
    ensures
        tdiv(k * d, d) == k,
{
    if k >= 0 {
        vstd::arithmetic::div_mod::lemma_div_by_multiple(k, d);
    } else {
        vstd::arithmetic::div_mod::lemma_div_by_multiple(-k, d);
        assert(k * d < 0) by (nonlinear_arith)
            requires
                k < 0 && d > 0,
        ;
        assert(-(k * d) == (-k) * d) by (nonlinear_arith);
    }
}

/// Squares of bounded scalars are bounded.
pub proof fn lemma_sq_bounds(x: int, b: int)
    by (nonlinear_arith)
    requires
        -b <= x <= b,
    ensures
        0 <= x * x <= b * b,
{
}

/// Executable integer square root by bisection.
pub fn isqrt(n: i128) -> (r: i64)
    requires
        0 <= n,
        n < 4_000_000_000_000_000_000_000_000_000_000,
    ensures
        r as int == isqrt_spec(n as int),
        0 <= r <= 2_000_000_000_000_000,
{
    let mut lo: i128 = 0;
    let mut hi: i128 = 2_000_000_000_000_000;
    while lo + 1 < hi
        invariant
            0 <= lo < hi <= 2_000_000_000_000_000,
            lo * lo <= n,
            n < hi * hi,
        decreases hi - lo,
    {
        let mid: i128 = lo + (hi - lo) / 2;
        proof {
            assert(mid * mid <= 4_000_000_000_000_000_000_000_000_000_000) by (nonlinear_arith)
                requires
                    0 <= mid <= 2_000_000_000_000_000,
            ;
        }
        if mid * mid <= n {
            lo = mid;
        } else {
            hi = mid;
        }
    }
    proof {
        lemma_isqrt_unique(n as int, lo as int);
    }
    lo as i64
}

} // verus!
