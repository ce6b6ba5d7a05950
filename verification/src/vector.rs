//! Two-dimensional fixed-point vectors.
//!
//! [`Vec2`] is the value that the game stores; [`Vector`] is the mathematical
//! pair of integers that contracts speak of.

use vstd::prelude::*;
use crate::fixed::{
    abs, ceil_sqrt, div_toward_zero, is_ceil_sqrt, isqrt_ceil, lemma_ceil_sqrt_exists,
    lemma_ceil_sqrt_unique, lemma_div_toward_zero_bounds, lemma_exact_quotient,
    lemma_mul_bounded, lemma_quotient_bounded, lemma_root_bounded, LIMIT, UNIT, WIDE_LIMIT,
};

verus! {

/// A pair of mathematical integers: what a [`Vec2`] stands for.
pub struct Vector {
    pub x: int,
    pub y: int,
}

impl Vector {
    /// The vector of no length.
    pub open spec fn zero() -> Vector {
        Vector { x: 0, y: 0 }
    }

    /// Both components have magnitude at most `bound`.
    pub open spec fn within(self, bound: int) -> bool {
        -bound <= self.x <= bound && -bound <= self.y <= bound
    }

    /// Component-wise sum.
    pub open spec fn plus(self, other: Vector) -> Vector {
        Vector { x: self.x + other.x, y: self.y + other.y }
    }

    /// Component-wise difference.
    pub open spec fn minus(self, other: Vector) -> Vector {
        Vector { x: self.x - other.x, y: self.y - other.y }
    }

    /// Dot product, in millionths (the product of two thousandths).
    pub open spec fn dot(self, other: Vector) -> int {
        self.x * other.x + self.y * other.y
    }

    /// Squared length, in millionths.
    pub open spec fn norm_sq(self) -> int {
        self.x * self.x + self.y * self.y
    }

    /// The vector of length one (a thousand thousandths) along `self`, or
    /// nothing where `self` has no length.  Components are rounded toward
    /// zero, so the result is never longer than one.
    pub open spec fn normalized(self) -> Option<Vector> {
        if self.x == 0 && self.y == 0 {
            None
        } else {
            let len = ceil_sqrt(self.norm_sq() * (UNIT * UNIT));
            Some(
                Vector {
                    x: div_toward_zero(self.x * (UNIT * UNIT), len),
                    y: div_toward_zero(self.y * (UNIT * UNIT), len),
                },
            )
        }
    }

    /// `self` where it is no longer than `max`, else `self` shortened to
    /// `max` along its own direction, components rounded toward zero.
    pub open spec fn clamped(self, max: int) -> Vector {
        if self.norm_sq() <= max * max {
            self
        } else {
            let len = ceil_sqrt(self.norm_sq());
            Vector {
                x: div_toward_zero(self.x * max, len),
                y: div_toward_zero(self.y * max, len),
            }
        }
    }

    /// Signed length of `self` along the unit vector `axis`, in thousandths.
    pub open spec fn along(self, axis: Vector) -> int {
        div_toward_zero(self.dot(axis), UNIT as int)
    }

    /// The part of `self` that lies along the unit vector `normal`.
    pub open spec fn projected(self, normal: Vector) -> Vector {
        let d = self.dot(normal);
        Vector {
            x: div_toward_zero(d * normal.x, UNIT * UNIT),
            y: div_toward_zero(d * normal.y, UNIT * UNIT),
        }
    }

    /// `self` mirrored about the line whose unit normal is `normal`:
    /// `v - 2 (v . n) n`.
    pub open spec fn reflected(self, normal: Vector) -> Vector {
        let p = self.projected(normal);
        Vector { x: self.x - 2 * p.x, y: self.y - 2 * p.y }
    }
}

/// Scaling both components by `scale / len` and rounding toward zero gives a
/// vector no longer than `scale`, where `len` is at least the length of
/// `(x, y)`.
pub proof fn lemma_rescaled_length(x: int, y: int, scale: int, len: int)
    requires
        scale >= 0,
        len > 0,
        x * x + y * y <= len * len,
    ensures
        abs(div_toward_zero(x * scale, len)) <= scale,
        abs(div_toward_zero(y * scale, len)) <= scale,
        div_toward_zero(x * scale, len) * div_toward_zero(x * scale, len) + div_toward_zero(
            y * scale,
            len,
        ) * div_toward_zero(y * scale, len) <= scale * scale,
{
    let qx = div_toward_zero(x * scale, len);
    let qy = div_toward_zero(y * scale, len);
    let ax = abs(x);
    let ay = abs(y);
    lemma_div_toward_zero_bounds(x * scale, len);
    lemma_div_toward_zero_bounds(y * scale, len);
    assert(abs(x * scale) == ax * scale) by (nonlinear_arith)
        requires
            scale >= 0,
            ax == abs(x),
    ;
    assert(abs(y * scale) == ay * scale) by (nonlinear_arith)
        requires
            scale >= 0,
            ay == abs(y),
    ;
    assert(ax * ax == x * x) by (nonlinear_arith)
        requires
            ax == abs(x),
    ;
    assert(ay * ay == y * y) by (nonlinear_arith)
        requires
            ay == abs(y),
    ;
    assert(ax * ax <= len * len && ay * ay <= len * len) by (nonlinear_arith)
        requires
            ax * ax + ay * ay <= len * len,
    ;
    lemma_root_bounded(ax, len);
    lemma_root_bounded(ay, len);
    assert(ax * scale <= scale * len && ay * scale <= scale * len) by (nonlinear_arith)
        requires
            0 <= ax <= len,
            0 <= ay <= len,
            scale >= 0,
    ;
    lemma_quotient_bounded(x * scale, len, scale);
    lemma_quotient_bounded(y * scale, len, scale);
    let px = abs(qx);
    let py = abs(qy);
    assert(px * px == qx * qx && py * py == qy * qy) by (nonlinear_arith)
        requires
            px == abs(qx),
            py == abs(qy),
    ;
    // (px len)^2 <= (ax scale)^2 and likewise for y
    assert((px * len) * (px * len) <= (ax * scale) * (ax * scale)) by (nonlinear_arith)
        requires
            0 <= px * len <= ax * scale,
    ;
    assert((py * len) * (py * len) <= (ay * scale) * (ay * scale)) by (nonlinear_arith)
        requires
            0 <= py * len <= ay * scale,
    ;
    assert(0 <= px * len) by (nonlinear_arith)
        requires
            px >= 0,
            len > 0,
    ;
    assert(0 <= py * len) by (nonlinear_arith)
        requires
            py >= 0,
            len > 0,
    ;
    let s = px * px + py * py;
    let l2 = len * len;
    let n2 = ax * ax + ay * ay;
    let c2 = scale * scale;
    assert(s * l2 == (px * len) * (px * len) + (py * len) * (py * len)) by (nonlinear_arith)
        requires
            s == px * px + py * py,
            l2 == len * len,
    ;
    assert(n2 * c2 == (ax * scale) * (ax * scale) + (ay * scale) * (ay * scale))
        by (nonlinear_arith)
        requires
            n2 == ax * ax + ay * ay,
            c2 == scale * scale,
    ;
    assert(s * l2 <= n2 * c2);
    assert(n2 * c2 <= l2 * c2) by (nonlinear_arith)
        requires
            0 <= n2 <= l2,
            c2 >= 0,
    ;
    assert(c2 >= 0) by (nonlinear_arith)
        requires
            c2 == scale * scale,
    ;
    assert(l2 > 0 && s >= 0) by (nonlinear_arith)
        requires
            len > 0,
            l2 == len * len,
            s == px * px + py * py,
    ;
    assert(s <= c2) by (nonlinear_arith)
        requires
            s * l2 <= l2 * c2,
            l2 > 0,
            s >= 0,
            c2 >= 0,
    ;
}

/// Scaling both components by `scale / len` and rounding toward zero loses
/// little length, where `len` is the length of `(x, y)` rounded up and at
/// least `scale`: the squared length of the result is at least
/// `scale * scale - 5 * scale - 2`.
pub proof fn lemma_rescaled_length_lower(x: int, y: int, scale: int, len: int)
    requires
        0 <= scale <= len,
        len > 0,
        (len - 1) * (len - 1) < x * x + y * y <= len * len,
    ensures
        div_toward_zero(x * scale, len) * div_toward_zero(x * scale, len) + div_toward_zero(
            y * scale,
            len,
        ) * div_toward_zero(y * scale, len) >= scale * scale - 5 * scale - 2,
{
    let qx = div_toward_zero(x * scale, len);
    let qy = div_toward_zero(y * scale, len);
    let ax = abs(x);
    let ay = abs(y);
    let p = abs(qx);
    let r = abs(qy);
    let a = ax * scale;
    let b = ay * scale;
    lemma_rescaled_length(x, y, scale, len);
    assert(abs(x * scale) == a && abs(y * scale) == b) by (nonlinear_arith)
        requires
            scale >= 0,
            a == abs(x) * scale,
            b == abs(y) * scale,
    ;
    // rounding toward zero loses less than one divisor
    assert(a < (p + 1) * len) by (nonlinear_arith)
        requires
            len > 0,
            a == abs(x * scale),
            p == abs(div_toward_zero(x * scale, len)),
    ;
    assert(b < (r + 1) * len) by (nonlinear_arith)
        requires
            len > 0,
            b == abs(y * scale),
            r == abs(div_toward_zero(y * scale, len)),
    ;
    assert(a >= 0 && b >= 0) by (nonlinear_arith)
        requires
            a == ax * scale,
            b == ay * scale,
            ax >= 0,
            ay >= 0,
            scale >= 0,
    ;
    let s = (p + 1) * (p + 1) + (r + 1) * (r + 1);
    let l2 = len * len;
    let c2 = scale * scale;
    let n2 = x * x + y * y;
    assert(a * a + b * b == n2 * c2) by (nonlinear_arith)
        requires
            a == ax * scale,
            b == ay * scale,
            ax == abs(x),
            ay == abs(y),
            n2 == x * x + y * y,
            c2 == scale * scale,
    ;
    assert(a * a <= ((p + 1) * len) * ((p + 1) * len)) by (nonlinear_arith)
        requires
            0 <= a < (p + 1) * len,
    ;
    assert(b * b <= ((r + 1) * len) * ((r + 1) * len)) by (nonlinear_arith)
        requires
            0 <= b < (r + 1) * len,
    ;
    assert(((p + 1) * len) * ((p + 1) * len) + ((r + 1) * len) * ((r + 1) * len) == s * l2)
        by (nonlinear_arith)
        requires
            s == (p + 1) * (p + 1) + (r + 1) * (r + 1),
            l2 == len * len,
    ;
    assert(n2 * c2 <= s * l2);
    // (len - 1)^2 c^2 <= n2 c^2 <= s len^2, and len >= c
    let m2 = (len - 1) * (len - 1);
    assert(m2 * c2 <= n2 * c2) by (nonlinear_arith)
        requires
            m2 < n2,
            c2 >= 0,
    ;
    assert(c2 >= 0) by (nonlinear_arith)
        requires
            c2 == scale * scale,
    ;
    assert(m2 * c2 <= s * l2);
    assert((c2 - 2 * scale) * l2 <= m2 * c2) by (nonlinear_arith)
        requires
            0 <= scale <= len,
            len > 0,
            l2 == len * len,
            c2 == scale * scale,
            m2 == (len - 1) * (len - 1),
    ;
    assert(c2 - 2 * scale <= s) by (nonlinear_arith)
        requires
            (c2 - 2 * scale) * l2 <= s * l2,
            l2 > 0,
    ;
    // p + r is at most three halves of the scale
    let t = p * p + r * r;
    assert(t == qx * qx + qy * qy) by (nonlinear_arith)
        requires
            t == p * p + r * r,
            p == abs(qx),
            r == abs(qy),
    ;
    assert(t <= c2);
    assert(2 * (p + r) <= 3 * scale) by (nonlinear_arith)
        requires
            p >= 0,
            r >= 0,
            scale >= 0,
            p * p + r * r <= scale * scale,
    ;
    assert(s == t + 2 * (p + r) + 2) by (nonlinear_arith)
        requires
            s == (p + 1) * (p + 1) + (r + 1) * (r + 1),
            t == p * p + r * r,
    ;
}

/// A vector that lies along one of the two axes normalizes to exactly one
/// unit along that axis.
pub proof fn lemma_normalized_along_axis(k: int)
    requires
        k != 0,
    ensures
        (Vector { x: k, y: 0 }).normalized() == Some(
            Vector { x: if k > 0 {
                UNIT as int
            } else {
                -UNIT
            }, y: 0 },
        ),
        (Vector { x: 0, y: k }).normalized() == Some(
            Vector { x: 0, y: if k > 0 {
                UNIT as int
            } else {
                -UNIT
            } },
        ),
{
    let u = UNIT as int;
    let m = abs(k) * u;
    let n = (k * k) * (u * u);
    assert(m * m == n && m >= 1 && (m - 1) * (m - 1) < n) by (nonlinear_arith)
        requires
            m == abs(k) * u,
            n == (k * k) * (u * u),
            k != 0,
            u == 1000,
    ;
    lemma_ceil_sqrt_unique(n, m);
    assert(k * k + 0 * 0 == k * k && 0 * 0 + k * k == k * k);
    assert(0 * (u * u) == 0);
    assert(0int / m == 0) by (nonlinear_arith)
        requires
            m >= 1,
    ;
    assert(div_toward_zero(k * (u * u), m) == (if k > 0 {
        u
    } else {
        -u
    })) by (nonlinear_arith)
        requires
            m == abs(k) * u,
            k != 0,
            u == 1000,
    ;
}

/// The length of a vector along an axis of the window is its component on
/// that axis, with the sign of the axis.
pub proof fn lemma_along_axis(v: Vector)
    ensures
        v.along(Vector { x: UNIT as int, y: 0 }) == v.x,
        v.along(Vector { x: -UNIT, y: 0 }) == -v.x,
        v.along(Vector { x: 0, y: UNIT as int }) == v.y,
        v.along(Vector { x: 0, y: -UNIT }) == -v.y,
{
    let u = UNIT as int;
    assert(v.x * u + v.y * 0 == v.x * u);
    assert(v.x * (-u) + v.y * 0 == (-v.x) * u) by (nonlinear_arith);
    assert(v.x * 0 + v.y * u == v.y * u);
    assert(v.x * 0 + v.y * (-u) == (-v.y) * u) by (nonlinear_arith);
    lemma_exact_quotient(v.x, u);
    lemma_exact_quotient(-v.x, u);
    lemma_exact_quotient(v.y, u);
    lemma_exact_quotient(-v.y, u);
}

/// A normalized vector is never longer than one unit, and shorter by less
/// than three thousandths.
pub proof fn lemma_normalized_is_nearly_unit(v: Vector)
    ensures
        v.normalized() is None <==> v == Vector::zero(),
        v.normalized() matches Some(n) ==> {
            &&& n.within(UNIT as int)
            &&& (UNIT - 3) * (UNIT - 3) <= n.norm_sq() <= UNIT * UNIT
        },
{
    if !(v.x == 0 && v.y == 0) {
        let u = UNIT as int;
        let n = v.norm_sq() * (UNIT * UNIT);
        let len = ceil_sqrt(n);
        assert(v.norm_sq() >= 1) by (nonlinear_arith)
            requires
                !(v.x == 0 && v.y == 0),
                v.norm_sq() == v.x * v.x + v.y * v.y,
        ;
        lemma_ceil_sqrt_exists(n);
        assert(is_ceil_sqrt(n, len));
        assert((v.x * u) * (v.x * u) + (v.y * u) * (v.y * u) == n) by (nonlinear_arith)
            requires
                n == (v.x * v.x + v.y * v.y) * (u * u),
        ;
        assert(u * u <= len * len);
        lemma_root_bounded(u, len);
        lemma_rescaled_length(v.x * u, v.y * u, u, len);
        lemma_rescaled_length_lower(v.x * u, v.y * u, u, len);
        assert((v.x * u) * u == v.x * (u * u)) by (nonlinear_arith);
        assert((v.y * u) * u == v.y * (u * u)) by (nonlinear_arith);
    }
}

/// A clamped vector is never longer than the maximum it was clamped to; a
/// vector that had to be shortened ends within three thousandths of the
/// maximum; and no component grows or changes its sign.
pub proof fn lemma_clamped_at_most_max(v: Vector, max: int)
    requires
        max >= 0,
    ensures
        v.clamped(max).norm_sq() <= max * max,
        v.clamped(max).within(max),
        v.norm_sq() <= max * max ==> v.clamped(max) == v,
        v.norm_sq() > max * max ==> v.clamped(max).norm_sq() >= max * max - 5 * max - 2,
        abs(v.clamped(max).x) <= abs(v.x),
        abs(v.clamped(max).y) <= abs(v.y),
        v.x >= 0 ==> v.clamped(max).x >= 0,
        v.x <= 0 ==> v.clamped(max).x <= 0,
        v.y >= 0 ==> v.clamped(max).y >= 0,
        v.y <= 0 ==> v.clamped(max).y <= 0,
{
    if v.norm_sq() <= max * max {
        assert(v.x * v.x <= max * max && v.y * v.y <= max * max) by (nonlinear_arith)
            requires
                v.x * v.x + v.y * v.y <= max * max,
        ;
        assert(abs(v.x) * abs(v.x) == v.x * v.x) by (nonlinear_arith);
        assert(abs(v.y) * abs(v.y) == v.y * v.y) by (nonlinear_arith);
        lemma_root_bounded(abs(v.x), max);
        lemma_root_bounded(abs(v.y), max);
    } else {
        let n = v.norm_sq();
        assert(max * max >= 0) by (nonlinear_arith);
        lemma_ceil_sqrt_exists(n);
        let len = ceil_sqrt(n);
        assert(is_ceil_sqrt(n, len));
        lemma_root_bounded(max, len);
        lemma_rescaled_length(v.x, v.y, max, len);
        lemma_rescaled_length_lower(v.x, v.y, max, len);
        lemma_div_toward_zero_bounds(v.x * max, len);
        lemma_div_toward_zero_bounds(v.y * max, len);
        assert(abs(v.x * max) <= abs(v.x) * len && abs(v.y * max) <= abs(v.y) * len)
            by (nonlinear_arith)
            requires
                0 <= max <= len,
        ;
        lemma_quotient_bounded(v.x * max, len, abs(v.x));
        lemma_quotient_bounded(v.y * max, len, abs(v.y));
        assert(v.x >= 0 ==> v.x * max >= 0) by (nonlinear_arith)
            requires
                max >= 0,
        ;
        assert(v.x <= 0 ==> v.x * max <= 0) by (nonlinear_arith)
            requires
                max >= 0,
        ;
        assert(v.y >= 0 ==> v.y * max >= 0) by (nonlinear_arith)
            requires
                max >= 0,
        ;
        assert(v.y <= 0 ==> v.y * max <= 0) by (nonlinear_arith)
            requires
                max >= 0,
        ;
    }
}

/// A fixed-point vector: each component counts thousandths of a unit.
#[derive(Clone, Copy, Debug, PartialEq, Eq, Structural)]
pub struct Vec2 {
    pub x: i64,
    pub y: i64,
}

impl View for Vec2 {
    type V = Vector;

    open spec fn view(&self) -> Vector {
        Vector { x: self.x as int, y: self.y as int }
    }
}

impl Vec2 {
    /// Every component may be stored in the game state.
    pub open spec fn in_range(self) -> bool {
        self@.within(LIMIT as int)
    }

    /// Every component is small enough for the vector operations.
    pub open spec fn in_wide_range(self) -> bool {
        self@.within(WIDE_LIMIT as int)
    }

    /// Whether every component may be stored in the game state.
    pub fn is_in_range(&self) -> (ok: bool)
        ensures
            ok == self.in_range(),
    {
        -LIMIT <= self.x && self.x <= LIMIT && -LIMIT <= self.y && self.y <= LIMIT
    }

    /// The vector with the given components.
    pub fn new(x: i64, y: i64) -> (v: Vec2)
        ensures
            v.x == x,
            v.y == y,
    {
        Vec2 { x, y }
    }

    /// The vector of no length.
    pub fn zero() -> (v: Vec2)
        ensures
            v@ == Vector::zero(),
    {
        Vec2 { x: 0, y: 0 }
    }

    /// One unit along the first axis.
    pub fn x_axis() -> (v: Vec2)
        ensures
            v@ == (Vector { x: UNIT as int, y: 0 }),
    {
        Vec2 { x: UNIT, y: 0 }
    }

    /// One unit along the second axis (down the screen).
    pub fn y_axis() -> (v: Vec2)
        ensures
            v@ == (Vector { x: 0, y: UNIT as int }),
    {
        Vec2 { x: 0, y: UNIT }
    }

    /// One unit against the second axis (up the screen).
    pub fn neg_y_axis() -> (v: Vec2)
        ensures
            v@ == (Vector { x: 0, y: -UNIT }),
    {
        Vec2 { x: 0, y: -UNIT }
    }

    /// Component-wise sum.
    pub fn plus(self, other: Vec2) -> (v: Vec2)
        requires
            self.in_wide_range(),
            other.in_wide_range(),
        ensures
            v@ == self@.plus(other@),
    {
        Vec2 { x: self.x + other.x, y: self.y + other.y }
    }

    /// Component-wise difference.
    pub fn minus(self, other: Vec2) -> (v: Vec2)
        requires
            self.in_wide_range(),
            other.in_wide_range(),
        ensures
            v@ == self@.minus(other@),
    {
        Vec2 { x: self.x - other.x, y: self.y - other.y }
    }

    /// Dot product.
    pub fn dot(self, other: Vec2) -> (d: i128)
        requires
            self.in_wide_range(),
            other.in_wide_range(),
        ensures
            d == self@.dot(other@),
    {
        proof {
            lemma_mul_bounded(self.x as int, other.x as int, WIDE_LIMIT as int, WIDE_LIMIT as int);
            lemma_mul_bounded(self.y as int, other.y as int, WIDE_LIMIT as int, WIDE_LIMIT as int);
        }
        (self.x as i128) * (other.x as i128) + (self.y as i128) * (other.y as i128)
    }

    /// Squared length.
    pub fn length_squared(self) -> (n: u128)
        requires
            self.in_wide_range(),
        ensures
            n == self@.norm_sq(),
            n <= 2 * (WIDE_LIMIT * WIDE_LIMIT),
    {
        proof {
            lemma_mul_bounded(self.x as int, self.x as int, WIDE_LIMIT as int, WIDE_LIMIT as int);
            lemma_mul_bounded(self.y as int, self.y as int, WIDE_LIMIT as int, WIDE_LIMIT as int);
            assert(self.x * self.x >= 0) by (nonlinear_arith);
            assert(self.y * self.y >= 0) by (nonlinear_arith);
        }
        let d: i128 = (self.x as i128) * (self.x as i128) + (self.y as i128) * (self.y as i128);
        d as u128
    }

    /// The unit vector along `self`, or nothing where `self` has no length.
    pub fn normalize(self) -> (r: Option<Vec2>)
        requires
            self.in_wide_range(),
        ensures
            r is None <==> self@ == Vector::zero(),
            match r {
                Some(n) => self@.normalized() == Some(n@),
                None => self@.normalized() is None,
            },
            r matches Some(n) ==> {
                &&& n@.within(UNIT as int)
                &&& (UNIT - 3) * (UNIT - 3) <= n@.norm_sq() <= UNIT * UNIT
            },
    {
        if self.x == 0 && self.y == 0 {
            return None;
        }
        let nsq: u128 = self.length_squared();
        assert(nsq >= 1) by (nonlinear_arith)
            requires
                !(self.x == 0 && self.y == 0),
                nsq == self.x * self.x + self.y * self.y,
        ;
        let scaled: u128 = nsq * 1_000_000;
        let len: u128 = isqrt_ceil(scaled);
        proof {
            lemma_normalized_is_nearly_unit(self@);
            lemma_ceil_sqrt_exists(scaled as int);
            lemma_mul_bounded(self.x as int, 1_000_000, WIDE_LIMIT as int, 1_000_000);
            lemma_mul_bounded(self.y as int, 1_000_000, WIDE_LIMIT as int, 1_000_000);
        }
        let len: i128 = len as i128;
        let x: i128 = (self.x as i128 * 1_000_000) / len;
        let y: i128 = (self.y as i128 * 1_000_000) / len;
        Some(Vec2 { x: x as i64, y: y as i64 })
    }

    /// `self`, shortened to length `max` where it is longer.
    pub fn clamp_length_max(self, max: i64) -> (r: Vec2)
        requires
            self.in_wide_range(),
            0 <= max <= WIDE_LIMIT,
        ensures
            r@ == self@.clamped(max as int),
            r@.norm_sq() <= max * max,
            r@.within(max as int),
    {
        proof {
            lemma_clamped_at_most_max(self@, max as int);
            lemma_mul_bounded(max as int, max as int, WIDE_LIMIT as int, WIDE_LIMIT as int);
            lemma_mul_bounded(self.x as int, max as int, WIDE_LIMIT as int, WIDE_LIMIT as int);
            lemma_mul_bounded(self.y as int, max as int, WIDE_LIMIT as int, WIDE_LIMIT as int);
        }
        let nsq: u128 = self.length_squared();
        let max_sq: i128 = (max as i128) * (max as i128);
        if nsq <= max_sq as u128 {
            return self;
        }
        let len: u128 = isqrt_ceil(nsq);
        proof {
            lemma_ceil_sqrt_exists(nsq as int);
        }
        let len: i128 = len as i128;
        let x: i128 = (self.x as i128 * max as i128) / len;
        let y: i128 = (self.y as i128 * max as i128) / len;
        Vec2 { x: x as i64, y: y as i64 }
    }

    /// Signed length of `self` along the unit vector `axis`.
    pub fn project_length(self, axis: Vec2) -> (r: i64)
        requires
            self.in_wide_range(),
            axis@.within(UNIT as int),
        ensures
            r == self@.along(axis@),
            -2 * WIDE_LIMIT <= r <= 2 * WIDE_LIMIT,
    {
        proof {
            lemma_mul_bounded(self.x as int, axis.x as int, WIDE_LIMIT as int, UNIT as int);
            lemma_mul_bounded(self.y as int, axis.y as int, WIDE_LIMIT as int, UNIT as int);
            lemma_quotient_bounded(self@.dot(axis@), UNIT as int, 2 * WIDE_LIMIT);
        }
        let d: i128 = (self.x as i128) * (axis.x as i128) + (self.y as i128) * (axis.y as i128);
        (d / (UNIT as i128)) as i64
    }

    /// The part of `self` that lies along the unit vector `normal`.
    pub fn project_onto_normalized(self, normal: Vec2) -> (r: Vec2)
        requires
            self.in_range(),
            normal@.within(UNIT as int),
        ensures
            r@ == self@.projected(normal@),
            r@.within(2 * LIMIT),
    {
        proof {
            lemma_mul_bounded(self.x as int, normal.x as int, LIMIT as int, UNIT as int);
            lemma_mul_bounded(self.y as int, normal.y as int, LIMIT as int, UNIT as int);
            let d = self@.dot(normal@);
            lemma_mul_bounded(d, normal.x as int, 2 * LIMIT * UNIT, UNIT as int);
            lemma_mul_bounded(d, normal.y as int, 2 * LIMIT * UNIT, UNIT as int);
            lemma_quotient_bounded(d * normal.x, UNIT * UNIT, 2 * LIMIT);
            lemma_quotient_bounded(d * normal.y, UNIT * UNIT, 2 * LIMIT);
        }
        let d: i128 = (self.x as i128) * (normal.x as i128) + (self.y as i128) * (normal.y as i128);
        let x: i128 = (d * (normal.x as i128)) / 1_000_000;
        let y: i128 = (d * (normal.y as i128)) / 1_000_000;
        Vec2 { x: x as i64, y: y as i64 }
    }

    /// `self` mirrored about the line whose unit normal is `normal`.
    pub fn reflect(self, normal: Vec2) -> (r: Vec2)
        requires
            self.in_range(),
            normal@.within(UNIT as int),
        ensures
            r@ == self@.reflected(normal@),
            r@.within(5 * LIMIT),
            r.in_wide_range(),
    {
        let p: Vec2 = self.project_onto_normalized(normal);
        Vec2 { x: self.x - 2 * p.x, y: self.y - 2 * p.y }
    }
}

} // verus!
