//! Fixed-point scalars: the unit, the range a stored value may take,
//! rounding division, saturation and integer square roots.

use vstd::prelude::*;

verus! {

/// Number of fixed-point steps in one whole unit.
pub const UNIT: i64 = 1000;

/// Largest magnitude of a scalar held in the game state.
pub const LIMIT: i64 = 100_000_000_000_000;

/// Largest magnitude of a vector component that the vector operations accept.
/// Every intermediate vector built from in-range state stays below it.
pub const WIDE_LIMIT: i64 = 1_000_000_000_000_000;

/// `x` may be stored in the game state.
pub open spec fn in_range(x: int) -> bool {
    -LIMIT <= x <= LIMIT
}

/// Absolute value.
pub open spec fn abs(x: int) -> int {
    if x < 0 {
        -x
    } else {
        x
    }
}

/// Quotient of `a` by `b` rounded toward zero, for a nonzero `b`: what `/`
/// computes on machine integers.
pub open spec fn div_toward_zero(a: int, b: int) -> int {
    if a >= 0 {
        a / b
    } else {
        -((-a) / b)
    }
}

/// Fixed-point product: `a * b` taken back to thousandths, rounded toward zero.
pub open spec fn mul_fixed(a: int, b: int) -> int {
    div_toward_zero(a * b, UNIT as int)
}

/// `x` forced into `[lo, hi]`; where the interval is empty the bound that `x`
/// violates first wins (`lo` if `x < lo`, else `hi`).
pub open spec fn clamp(x: int, lo: int, hi: int) -> int {
    if x < lo {
        lo
    } else if x > hi {
        hi
    } else {
        x
    }
}

/// `x` forced into the storable range.
pub open spec fn saturate(x: int) -> int {
    clamp(x, -LIMIT, LIMIT as int)
}

/// Executable [`clamp`].
pub fn clamp_to(x: i128, lo: i64, hi: i64) -> (r: i64)
    ensures
        r == clamp(x as int, lo as int, hi as int),
{
    if x < lo as i128 {
        lo
    } else if x > hi as i128 {
        hi
    } else {
        x as i64
    }
}

/// Executable [`saturate`].
pub fn saturate_to(x: i128) -> (r: i64)
    ensures
        r == saturate(x as int),
        in_range(r as int),
{
    clamp_to(x, -LIMIT, LIMIT)
}

/// Executable [`mul_fixed`]: exact for every pair of `i64`, and small
/// enough to be added to any `i64` without overflow.
pub fn mul_fixed_wide(a: i64, b: i64) -> (r: i128)
    ensures
        r == mul_fixed(a as int, b as int),
        abs(r as int) <= abs(a * b),
        abs(r as int) <= 0x4000_0000_0000_0000_0000_0000_0000_0000,
{
    proof {
        lemma_mul_bounded(
            a as int,
            b as int,
            0x8000_0000_0000_0000,
            0x8000_0000_0000_0000,
        );
        lemma_div_toward_zero_bounds(a * b, UNIT as int);
    }
    let p: i128 = (a as i128) * (b as i128);
    p / (UNIT as i128)
}

/// The product of two bounded integers is bounded by the product of the bounds.
pub proof fn lemma_mul_bounded(a: int, b: int, ma: int, mb: int)
    by (nonlinear_arith)
    requires
        -ma <= a <= ma,
        -mb <= b <= mb,
    ensures
        -(ma * mb) <= a * b <= ma * mb,
{
}

/// Rounding toward zero never increases the magnitude and keeps the sign.
pub proof fn lemma_div_toward_zero_bounds(a: int, b: int)
    by (nonlinear_arith)
    requires
        b > 0,
    ensures
        a >= 0 ==> 0 <= div_toward_zero(a, b) && div_toward_zero(a, b) * b <= a,
        a <= 0 ==> div_toward_zero(a, b) <= 0 && a <= div_toward_zero(a, b) * b,
        abs(div_toward_zero(a, b)) <= abs(a),
        abs(div_toward_zero(a, b)) * b <= abs(a),
        div_toward_zero(-a, b) == -div_toward_zero(a, b),
{
}

/// A quotient rounded toward zero is bounded by `bound` when the dividend is
/// bounded by `bound` times the divisor.
pub proof fn lemma_quotient_bounded(a: int, b: int, bound: int)
    requires
        b > 0,
        bound >= 0,
        abs(a) <= bound * b,
    ensures
        abs(div_toward_zero(a, b)) <= bound,
{
    lemma_div_toward_zero_bounds(a, b);
    let q = abs(div_toward_zero(a, b));
    assert(q <= bound) by (nonlinear_arith)
        requires
            b > 0,
            q >= 0,
            bound >= 0,
            q * b <= bound * b,
    ;
}

/// A multiple of a positive divisor divides without rounding.
pub proof fn lemma_exact_quotient(a: int, b: int)
    by (nonlinear_arith)
    requires
        b > 0,
    ensures
        div_toward_zero(a * b, b) == a,
{
}

/// `r` is the integer square root of `n` rounded down.
pub open spec fn is_floor_sqrt(n: int, r: int) -> bool {
    0 <= r && r * r <= n < (r + 1) * (r + 1)
}

/// `r` is the integer square root of `n` rounded up: the least `r >= 0` with
/// `n <= r * r`.
pub open spec fn is_ceil_sqrt(n: int, r: int) -> bool {
    0 <= r && n <= r * r && (r > 0 ==> (r - 1) * (r - 1) < n)
}

/// The integer square root of `n` rounded down.
pub open spec fn floor_sqrt(n: int) -> int {
    choose|r: int| is_floor_sqrt(n, r)
}

/// The integer square root of `n` rounded up.
pub open spec fn ceil_sqrt(n: int) -> int {
    choose|r: int| is_ceil_sqrt(n, r)
}

/// Squaring is strictly monotone on the non-negative integers.
pub proof fn lemma_square_monotone(a: int, b: int)
    by (nonlinear_arith)
    requires
        0 <= a < b,
    ensures
        a * a < b * b,
        (a + 1) * (a + 1) <= b * b,
{
}

/// A non-negative number whose square does not exceed the square of a
/// positive `len` does not exceed `len`.
pub proof fn lemma_root_bounded(a: int, len: int)
    requires
        0 <= a,
        0 <= len,
        a * a <= len * len,
    ensures
        a <= len,
{
    if len < a {
        lemma_square_monotone(len, a);
    }
}

/// A number has one rounded-down square root.
pub proof fn lemma_floor_sqrt_unique(n: int, r: int)
    requires
        is_floor_sqrt(n, r),
    ensures
        floor_sqrt(n) == r,
{
    let c = floor_sqrt(n);
    assert(is_floor_sqrt(n, c));
    if c < r {
        lemma_square_monotone(c, r);
    } else if r < c {
        lemma_square_monotone(r, c);
    }
}

/// A number has one rounded-up square root.
pub proof fn lemma_ceil_sqrt_unique(n: int, r: int)
    requires
        is_ceil_sqrt(n, r),
    ensures
        ceil_sqrt(n) == r,
{
    let c = ceil_sqrt(n);
    assert(is_ceil_sqrt(n, c));
    if c < r {
        lemma_square_monotone(c, r - 1);
    } else if r < c {
        lemma_square_monotone(r, c - 1);
    }
}

/// Every non-negative number has a rounded-up square root.
pub proof fn lemma_ceil_sqrt_exists(n: int)
    requires
        n >= 0,
    ensures
        is_ceil_sqrt(n, ceil_sqrt(n)),
        n > 0 ==> ceil_sqrt(n) > 0,
    decreases n,
{
    if n == 0 {
        assert(is_ceil_sqrt(0, 0));
    } else {
        lemma_ceil_sqrt_exists(n - 1);
        let r = ceil_sqrt(n - 1);
        if n <= r * r {
            assert((r - 1) * (r - 1) < n) by (nonlinear_arith)
                requires
                    r > 0 ==> (r - 1) * (r - 1) < n - 1,
                    0 < n <= r * r,
                    r >= 0,
            ;
            assert(is_ceil_sqrt(n, r));
        } else {
            assert(n <= (r + 1) * (r + 1)) by (nonlinear_arith)
                requires
                    n - 1 <= r * r,
                    r >= 0,
            ;
            assert(is_ceil_sqrt(n, r + 1));
        }
        let c = ceil_sqrt(n);
        assert(c != 0) by {
            assert(0 * 0 == 0int);
        }
    }
}

/// Integer square root rounded down.
pub fn isqrt(n: u128) -> (r: u64)
    ensures
        is_floor_sqrt(n as int, r as int),
        r == floor_sqrt(n as int),
{
    let mut lo: u128 = 0;
    let mut hi: u128 = 0x1_0000_0000_0000_0000;
    assert(hi * hi > n) by (nonlinear_arith)
        requires
            hi == 0x1_0000_0000_0000_0000,
            n <= 0xffff_ffff_ffff_ffff_ffff_ffff_ffff_ffff,
    ;
    while hi - lo > 1
        invariant
            lo < hi <= 0x1_0000_0000_0000_0000,
            lo * lo <= n < hi * hi,
        decreases hi - lo,
    {
        let mid: u128 = lo + (hi - lo) / 2;
        assert(mid * mid <= 0xffff_ffff_ffff_ffff_ffff_ffff_ffff_ffff) by (nonlinear_arith)
            requires
                0 <= mid < 0x1_0000_0000_0000_0000,
        ;
        if mid * mid <= n {
            lo = mid;
        } else {
            hi = mid;
        }
    }
    proof {
        lemma_floor_sqrt_unique(n as int, lo as int);
    }
    lo as u64
}

/// Integer square root rounded up.
pub fn isqrt_ceil(n: u128) -> (r: u128)
    ensures
        is_ceil_sqrt(n as int, r as int),
        r == ceil_sqrt(n as int),
        r <= 0x1_0000_0000_0000_0000,
{
    let f: u64 = isqrt(n);
    let f: u128 = f as u128;
    assert(f * f <= 0xffff_ffff_ffff_ffff_ffff_ffff_ffff_ffff) by (nonlinear_arith)
        requires
            0 <= f < 0x1_0000_0000_0000_0000,
    ;
    let r: u128 = if f * f == n {
        f
    } else {
        f + 1
    };
    proof {
        if f * f == n && f > 0 {
            lemma_square_monotone(f - 1, f as int);
        }
        assert((f + 1) - 1 == f);
        lemma_ceil_sqrt_unique(n as int, r as int);
    }
    r
}

/// A quotient rounded toward zero is no larger in magnitude than the
/// dividend, whatever the sign of the divisor.
pub proof fn lemma_quotient_magnitude(a: int, b: int)
    requires
        b != 0,
    ensures
        -abs(a) <= div_toward_zero(a, b) <= abs(a),
{
    let m = abs(a);
    assert(-m <= m / b <= m) by (nonlinear_arith)
        requires
            m >= 0,
            b != 0,
    ;
}

} // verus!
