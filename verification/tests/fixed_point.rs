use pongers::angle::{cos, rotate, sin, HALF_PI, PI, TAU};
use pongers::fixed::{clamp_to, isqrt, isqrt_ceil, mul_fixed_wide, saturate_to, LIMIT, UNIT};
use pongers::vector::Vec2;

#[test]
fn unit_is_a_thousand_steps() {
    assert_eq!(UNIT, 1000);
    assert_eq!(LIMIT, 100_000_000_000_000);
}

#[test]
fn isqrt_rounds_down() {
    assert_eq!(isqrt(0), 0);
    assert_eq!(isqrt(1), 1);
    assert_eq!(isqrt(2), 1);
    assert_eq!(isqrt(15), 3);
    assert_eq!(isqrt(16), 4);
    assert_eq!(isqrt(17), 4);
    assert_eq!(isqrt(25_000_000), 5000);
    assert_eq!(isqrt(999_999_999_999), 999_999);
}

#[test]
fn isqrt_of_the_largest_number() {
    assert_eq!(isqrt(u128::MAX), u64::MAX);
    assert_eq!(isqrt(u128::MAX - 1), u64::MAX);
    let root = u64::MAX as u128;
    assert_eq!(isqrt(root * root), u64::MAX);
    assert_eq!(isqrt(root * root - 1), u64::MAX - 1);
}

#[test]
fn isqrt_ceil_rounds_up() {
    assert_eq!(isqrt_ceil(0), 0);
    assert_eq!(isqrt_ceil(1), 1);
    assert_eq!(isqrt_ceil(2), 2);
    assert_eq!(isqrt_ceil(16), 4);
    assert_eq!(isqrt_ceil(17), 5);
    assert_eq!(isqrt_ceil(40_100_000_000), 200_250);
    assert_eq!(isqrt_ceil(u128::MAX), 1u128 << 64);
}

#[test]
fn isqrt_brackets_every_small_number() {
    let mut n: u128 = 0;
    while n < 5000 {
        let floor = isqrt(n) as u128;
        assert!(floor * floor <= n);
        assert!((floor + 1) * (floor + 1) > n);
        let ceil = isqrt_ceil(n);
        assert!(ceil * ceil >= n);
        assert!(ceil == 0 || (ceil - 1) * (ceil - 1) < n);
        n += 1;
    }
}

#[test]
fn clamp_to_keeps_a_value_inside() {
    assert_eq!(clamp_to(5, 0, 10), 5);
    assert_eq!(clamp_to(-3, 0, 10), 0);
    assert_eq!(clamp_to(12, 0, 10), 10);
    assert_eq!(clamp_to(0, 0, 10), 0);
    assert_eq!(clamp_to(10, 0, 10), 10);
    assert_eq!(clamp_to(i128::MAX, -7, 7), 7);
    assert_eq!(clamp_to(i128::MIN, -7, 7), -7);
}

#[test]
fn clamp_to_on_an_empty_interval() {
    // below the lower bound: the lower bound; otherwise the upper bound
    assert_eq!(clamp_to(5, 10, 0), 10);
    assert_eq!(clamp_to(20, 10, 0), 0);
    assert_eq!(clamp_to(10, 10, 0), 0);
}

#[test]
fn saturate_to_holds_the_storable_range() {
    assert_eq!(saturate_to(0), 0);
    assert_eq!(saturate_to(123_456), 123_456);
    assert_eq!(saturate_to(LIMIT as i128), LIMIT);
    assert_eq!(saturate_to(LIMIT as i128 + 1), LIMIT);
    assert_eq!(saturate_to(200_000_000_000_000), LIMIT);
    assert_eq!(saturate_to(-1_000_000_000_000_000), -LIMIT);
}

#[test]
fn mul_fixed_rounds_toward_zero() {
    assert_eq!(mul_fixed_wide(1500, 2000), 3000);
    assert_eq!(mul_fixed_wide(-200_000, 16), -3200);
    assert_eq!(mul_fixed_wide(10_000, 16), 160);
    assert_eq!(mul_fixed_wide(1, 999), 0);
    assert_eq!(mul_fixed_wide(-1, 999), 0);
    assert_eq!(mul_fixed_wide(-1999, 1), -1);
    assert_eq!(mul_fixed_wide(1999, 1), 1);
    assert_eq!(mul_fixed_wide(-1999, -1), 1);
    assert_eq!(mul_fixed_wide(12345, 0), 0);
}

#[test]
fn mul_fixed_of_the_largest_factors() {
    let expected = (i64::MIN as i128) * (i64::MIN as i128) / 1000;
    assert_eq!(mul_fixed_wide(i64::MIN, i64::MIN), expected);
    let expected = (i64::MIN as i128) * (i64::MAX as i128) / 1000;
    assert_eq!(mul_fixed_wide(i64::MIN, i64::MAX), expected);
}

#[test]
fn sine_is_exact_at_the_quarter_turns() {
    assert_eq!(sin(0), 0);
    assert_eq!(sin(HALF_PI), 1000);
    assert_eq!(sin(PI), 0);
    assert_eq!(sin(PI + HALF_PI), -1000);
    assert_eq!(sin(TAU), 0);
    assert_eq!(sin(-HALF_PI), -1000);
    assert_eq!(sin(TAU + HALF_PI), 1000);
    assert_eq!(sin(-TAU), 0);
}

#[test]
fn cosine_is_exact_at_the_quarter_turns() {
    assert_eq!(cos(0), 1000);
    assert_eq!(cos(HALF_PI), 0);
    assert_eq!(cos(PI), -1000);
    assert_eq!(cos(PI + HALF_PI), 0);
    assert_eq!(cos(-HALF_PI), 0);
    assert_eq!(cos(TAU), 1000);
}

#[test]
fn sine_between_the_quarter_turns() {
    // 16 x (pi - x) / (5 pi^2 - 4 x (pi - x)) at x = 0.524, 0.785, 1.047, 0.1
    assert_eq!(sin(524), 500);
    assert_eq!(sin(785), 705);
    assert_eq!(sin(1047), 864);
    assert_eq!(sin(100), 101);
    assert_eq!(sin(-524), -500);
    assert_eq!(sin(PI + 524), -500);
    assert_eq!(cos(1047), sin(1047 + HALF_PI));
}

#[test]
fn sine_is_close_to_the_true_sine() {
    let mut angle: i64 = -7000;
    while angle <= 7000 {
        let approx = sin(angle) as f64 / 1000.0;
        let reduced = (angle.rem_euclid(TAU) as f64) * std::f64::consts::PI / 3142.0;
        assert!((approx - reduced.sin()).abs() < 0.004, "angle {}", angle);
        angle += 7;
    }
}

#[test]
fn sine_and_cosine_stay_within_one() {
    let mut angle: i64 = -20_000;
    while angle <= 20_000 {
        let s = sin(angle);
        let c = cos(angle);
        assert!((-1000..=1000).contains(&s));
        assert!((-1000..=1000).contains(&c));
        angle += 13;
    }
    assert!((-1000..=1000).contains(&sin(i64::MAX)));
    assert!((-1000..=1000).contains(&cos(i64::MAX)));
    assert!((-1000..=1000).contains(&sin(i64::MIN)));
    assert!((-1000..=1000).contains(&cos(i64::MIN)));
}

#[test]
fn rotate_by_nothing_changes_nothing() {
    assert_eq!(rotate(Vec2::new(1000, 0), 0), Vec2::new(1000, 0));
    assert_eq!(rotate(Vec2::new(-10_000, 50_000), 0), Vec2::new(-10_000, 50_000));
    assert_eq!(rotate(Vec2::new(7, -3), TAU), Vec2::new(7, -3));
}

#[test]
fn rotate_by_a_quarter_turn() {
    assert_eq!(rotate(Vec2::new(1000, 0), HALF_PI), Vec2::new(0, 1000));
    assert_eq!(rotate(Vec2::new(0, 1000), HALF_PI), Vec2::new(-1000, 0));
    assert_eq!(rotate(Vec2::new(-10_000, -50_000), HALF_PI), Vec2::new(50_000, -10_000));
    assert_eq!(rotate(Vec2::new(1000, 0), PI), Vec2::new(-1000, 0));
    assert_eq!(rotate(Vec2::new(1000, 0), -HALF_PI), Vec2::new(0, -1000));
}

#[test]
fn rotate_by_a_sixth_of_a_half_turn() {
    // cos 0.524 = sin(0.524 + 1.571) = sin 2.095, and 2.095 mirrors 1.047
    assert_eq!(cos(524), 864);
    assert_eq!(rotate(Vec2::new(1000, 0), 524), Vec2::new(864, 500));
    assert_eq!(rotate(Vec2::new(0, 2000), 524), Vec2::new(-1000, 1728));
}

#[test]
fn sine_is_odd_and_periodic() {
    let mut angle: i64 = -13_000;
    while angle <= 13_000 {
        assert_eq!(sin(-angle), -sin(angle), "angle {}", angle);
        assert_eq!(sin(angle + TAU), sin(angle), "angle {}", angle);
        assert_eq!(cos(angle + TAU), cos(angle), "angle {}", angle);
        assert_eq!(cos(angle), sin(angle + HALF_PI), "angle {}", angle);
        angle += 11;
    }
}

#[test]
fn rotate_by_a_quarter_turn_is_exact() {
    let mut x: i64 = -700;
    while x <= 700 {
        let v = Vec2::new(x * 31, 9_999 - x * 17);
        assert_eq!(rotate(v, 0), v);
        assert_eq!(rotate(v, HALF_PI), Vec2::new(-v.y, v.x));
        assert_eq!(rotate(v, PI), Vec2::new(-v.x, -v.y));
        x += 13;
    }
}
