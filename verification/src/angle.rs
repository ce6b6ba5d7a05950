//! Fixed-point angles in thousandths of a radian, with a rational sine and
//! cosine that need no floating point.
//!
//! The sine of an angle `x` in the first half turn is taken as
//! `16 x (pi - x) / (5 pi^2 - 4 x (pi - x))`, which is exact at `0`, `pi / 2`
//! and `pi` and within three thousandths in between; the second half
//! turn mirrors the first.

use vstd::prelude::*;
use crate::fixed::{
    div_toward_zero, lemma_exact_quotient, lemma_mul_bounded, lemma_quotient_bounded, LIMIT, UNIT,
};
use crate::vector::{Vec2, Vector};

verus! {

/// Half a turn, in thousandths of a radian.
pub const PI: i64 = 3142;

/// A quarter turn.
pub const HALF_PI: i64 = 1571;

/// A full turn.
pub const TAU: i64 = 6284;

/// Sine of an angle `x` in `[0, PI]`, in thousandths.
pub open spec fn sin_arc(x: int) -> int {
    let p = x * (PI - x);
    (16 * p * UNIT) / (5 * PI * PI - 4 * p)
}

/// Sine of any angle, in thousandths.
pub open spec fn sin_spec(angle: int) -> int {
    let r = angle % (TAU as int);
    if r <= PI {
        sin_arc(r)
    } else {
        -sin_arc(r - PI)
    }
}

/// Cosine of any angle, in thousandths: the sine a quarter turn ahead.
pub open spec fn cos_spec(angle: int) -> int {
    sin_spec(angle + HALF_PI)
}

/// On the first half turn the sine lies between zero and one.
pub proof fn lemma_sin_arc_bounds(x: int)
    requires
        0 <= x <= PI,
    ensures
        0 <= sin_arc(x) <= UNIT,
{
    let p = x * (PI - x);
    assert(0 <= p && 4 * p <= PI * PI) by (nonlinear_arith)
        requires
            0 <= x <= PI,
            p == x * (PI - x),
            PI == 3142,
    ;
    let d = 5 * PI * PI - 4 * p;
    let n = 16 * p * UNIT;
    assert(0 <= n <= UNIT * d);
    assert(0 <= n / d <= UNIT) by (nonlinear_arith)
        requires
            0 <= n <= UNIT * d,
            d > 0,
    ;
}

/// Sine and cosine of every angle lie between minus one and one.
pub proof fn lemma_sin_cos_bounds(angle: int)
    ensures
        -UNIT <= sin_spec(angle) <= UNIT,
        -UNIT <= cos_spec(angle) <= UNIT,
{
    let r = angle % (TAU as int);
    if r <= PI {
        lemma_sin_arc_bounds(r);
    } else {
        lemma_sin_arc_bounds(r - PI);
    }
    let q = (angle + HALF_PI) % (TAU as int);
    if q <= PI {
        lemma_sin_arc_bounds(q);
    } else {
        lemma_sin_arc_bounds(q - PI);
    }
}

/// Sine and cosine are exact at every quarter turn.
pub proof fn lemma_sin_cos_at_quarter_turns()
    ensures
        sin_spec(0) == 0,
        cos_spec(0) == UNIT,
        sin_spec(HALF_PI as int) == UNIT,
        cos_spec(HALF_PI as int) == 0,
        sin_spec(PI as int) == 0,
        cos_spec(PI as int) == -UNIT,
        sin_spec(PI + HALF_PI) == -UNIT,
        cos_spec(PI + HALF_PI) == 0,
{
    assert(0 * (PI - 0) == 0);
    assert(3142 * (PI - 3142) == 0);
    assert(1571 * (PI - 1571) == 2468041);
    assert(sin_arc(0) == 0);
    assert(sin_arc(3142) == 0);
    assert(5 * PI * PI - 4 * 2468041 == 39488656);
    assert(16 * 2468041 * UNIT == 1000 * 39488656);
    assert((1000 * 39488656) / 39488656 == 1000int);
    assert(sin_arc(1571) == 1000);
}

/// Sine is odd, and sine and cosine repeat after a full turn.
pub proof fn lemma_sin_symmetry(angle: int)
    ensures
        sin_spec(-angle) == -sin_spec(angle),
        sin_spec(angle + TAU) == sin_spec(angle),
        cos_spec(angle + TAU) == cos_spec(angle),
{
    let t = TAU as int;
    let r = angle % t;
    let m = (-angle) % t;
    assert(m == (if r == 0 {
        0
    } else {
        t - r
    })) by (nonlinear_arith)
        requires
            t == 6284,
            r == angle % t,
            m == (-angle) % t,
    ;
    assert((angle + t) % t == r) by (nonlinear_arith)
        requires
            t == 6284,
            r == angle % t,
    ;
    assert((angle + HALF_PI + t) % t == (angle + HALF_PI) % t) by (nonlinear_arith)
        requires
            t == 6284,
    ;
    assert(angle + t + HALF_PI == angle + HALF_PI + t);
    // the arc is symmetric about the quarter turn
    if 0 < r <= PI {
        assert((PI - r) * (PI - (PI - r)) == r * (PI - r)) by (nonlinear_arith);
        assert(sin_arc(PI - r) == sin_arc(r));
    } else if r > PI {
        let q = r - PI;
        assert((PI - q) * (PI - (PI - q)) == q * (PI - q)) by (nonlinear_arith);
        assert(sin_arc(PI - q) == sin_arc(q));
    } else {
        assert(0 * (PI - 0) == 0);
        assert(sin_arc(0) == 0);
    }
    if r == PI {
        assert(3142 * (PI - 3142) == 0);
        assert(sin_arc(3142) == 0);
    }
}

/// Sine of an angle, in thousandths.
pub fn sin(angle: i64) -> (r: i64)
    ensures
        r == sin_spec(angle as int),
        -UNIT <= r <= UNIT,
{
    sin_wide(angle as i128)
}

/// Cosine of an angle, in thousandths.
pub fn cos(angle: i64) -> (r: i64)
    ensures
        r == cos_spec(angle as int),
        -UNIT <= r <= UNIT,
{
    sin_wide(angle as i128 + HALF_PI as i128)
}

fn sin_wide(angle: i128) -> (r: i64)
    requires
        -0x1_0000_0000_0000_0000 <= angle <= 0x1_0000_0000_0000_0000,
    ensures
        r == sin_spec(angle as int),
        -UNIT <= r <= UNIT,
{
    let t: i128 = angle % (TAU as i128);
    let r: i64 = if t < 0 {
        (t + TAU as i128) as i64
    } else {
        t as i64
    };
    assert(r == (angle as int) % (TAU as int));
    if r <= PI {
        sin_of_arc(r)
    } else {
        -sin_of_arc(r - PI)
    }
}

fn sin_of_arc(x: i64) -> (r: i64)
    requires
        0 <= x <= PI,
    ensures
        r == sin_arc(x as int),
        0 <= r <= UNIT,
{
    proof {
        lemma_sin_arc_bounds(x as int);
    }
    assert(0 <= x * (PI - x) && 4 * (x * (PI - x)) <= PI * PI) by (nonlinear_arith)
        requires
            0 <= x <= PI,
            PI == 3142,
    ;
    let p: i64 = x * (PI - x);
    (16 * p * UNIT) / (5 * PI * PI - 4 * p)
}

/// `v` turned by `angle` about the origin:
/// `(x cos - y sin, x sin + y cos)`, each component rounded toward zero.
pub open spec fn rotated(v: Vector, angle: int) -> Vector {
    let c = cos_spec(angle);
    let s = sin_spec(angle);
    Vector {
        x: div_toward_zero(c * v.x - s * v.y, UNIT as int),
        y: div_toward_zero(s * v.x + c * v.y, UNIT as int),
    }
}

/// Turning a vector at most doubles the larger of its components.
pub proof fn lemma_rotated_bounds(v: Vector, angle: int, bound: int)
    requires
        bound >= 0,
        v.within(bound),
    ensures
        rotated(v, angle).within(2 * bound),
{
    let c = cos_spec(angle);
    let s = sin_spec(angle);
    lemma_sin_cos_bounds(angle);
    lemma_mul_bounded(c, v.x, UNIT as int, bound);
    lemma_mul_bounded(s, v.y, UNIT as int, bound);
    lemma_mul_bounded(s, v.x, UNIT as int, bound);
    lemma_mul_bounded(c, v.y, UNIT as int, bound);
    assert(UNIT * bound + UNIT * bound == (2 * bound) * UNIT) by (nonlinear_arith);
    lemma_quotient_bounded(c * v.x - s * v.y, UNIT as int, 2 * bound);
    lemma_quotient_bounded(s * v.x + c * v.y, UNIT as int, 2 * bound);
}

/// Turning by nothing leaves a vector as it is, and turning by a quarter
/// turn takes `(x, y)` to `(-y, x)`, both without rounding.
pub proof fn lemma_rotated_by_quarter_turns(v: Vector)
    ensures
        rotated(v, 0) == v,
        rotated(v, HALF_PI as int) == (Vector { x: -v.y, y: v.x }),
        rotated(v, PI as int) == (Vector { x: -v.x, y: -v.y }),
{
    lemma_sin_cos_at_quarter_turns();
    let u = UNIT as int;
    assert(u * v.x - 0 * v.y == v.x * u) by (nonlinear_arith);
    assert(0 * v.x + u * v.y == v.y * u) by (nonlinear_arith);
    assert(0 * v.x - u * v.y == (-v.y) * u) by (nonlinear_arith);
    assert(u * v.x + 0 * v.y == v.x * u) by (nonlinear_arith);
    assert((-u) * v.x - 0 * v.y == (-v.x) * u) by (nonlinear_arith);
    assert(0 * v.x + (-u) * v.y == (-v.y) * u) by (nonlinear_arith);
    lemma_exact_quotient(v.x, u);
    lemma_exact_quotient(v.y, u);
    lemma_exact_quotient(-v.x, u);
    lemma_exact_quotient(-v.y, u);
}

/// `v` turned by `angle` about the origin.
pub fn rotate(v: Vec2, angle: i64) -> (r: Vec2)
    requires
        v.in_range(),
    ensures
        r@ == rotated(v@, angle as int),
        r@.within(2 * LIMIT),
{
    let c: i128 = cos(angle) as i128;
    let s: i128 = sin(angle) as i128;
    let x: i128 = v.x as i128;
    let y: i128 = v.y as i128;
    proof {
        lemma_rotated_bounds(v@, angle as int, LIMIT as int);
        lemma_mul_bounded(c as int, x as int, UNIT as int, LIMIT as int);
        lemma_mul_bounded(s as int, y as int, UNIT as int, LIMIT as int);
        lemma_mul_bounded(s as int, x as int, UNIT as int, LIMIT as int);
        lemma_mul_bounded(c as int, y as int, UNIT as int, LIMIT as int);
    }
    let rx: i128 = (c * x - s * y) / (UNIT as i128);
    let ry: i128 = (s * x + c * y) / (UNIT as i128);
    Vec2 { x: rx as i64, y: ry as i64 }
}

} // verus!
