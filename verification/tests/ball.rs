use pongers::ball::{Ball, BallRaw};
use pongers::collision::calculate_wall_reflection;
use pongers::fixed::LIMIT;
use pongers::vector::Vec2;

fn ball_at(x: i64, y: i64, vx: i64, vy: i64) -> Ball {
    Ball { position: Vec2::new(x, y), radius: 10_000, velocity: Vec2::new(vx, vy) }
}

#[test]
fn new_ball_has_the_starting_velocity() {
    let ball = Ball::new(Vec2::new(400_000, 300_000), 10_000);
    assert_eq!(ball.position, Vec2::new(400_000, 300_000));
    assert_eq!(ball.radius, 10_000);
    assert_eq!(ball.velocity, Vec2::new(-200_000, 10_000));
}

#[test]
fn ball_moves_along_its_velocity() {
    // ball at (100, 100), velocity (-200, 10), 0.016 s later: (96.8, 100.16)
    let mut ball = Ball::new(Vec2::new(100_000, 100_000), 10_000);
    ball.update(16);
    assert_eq!(ball.position, Vec2::new(96_800, 100_160));
    assert_eq!(ball.velocity, Vec2::new(-200_000, 10_000));
    assert_eq!(ball.radius, 10_000);
    assert!((ball.position.x as f64 / 1000.0 - 96.8).abs() < 1e-9);
    assert!((ball.position.y as f64 / 1000.0 - 100.16).abs() < 1e-9);
}

#[test]
fn ball_update_over_no_time_changes_nothing() {
    let mut ball = ball_at(12_345, -6789, 200_000, -10_000);
    let before = ball;
    ball.update(0);
    assert_eq!(ball, before);
}

#[test]
fn ball_update_rounds_the_step_toward_zero() {
    let mut ball = ball_at(0, 0, 1999, -1999);
    ball.update(1);
    assert_eq!(ball.position, Vec2::new(1, -1));
    let mut ball = ball_at(0, 0, 999, -999);
    ball.update(1);
    assert_eq!(ball.position, Vec2::new(0, 0));
}

#[test]
fn ball_update_backwards_in_time() {
    let mut ball = ball_at(96_800, 100_160, -200_000, 10_000);
    ball.update(-16);
    assert_eq!(ball.position, Vec2::new(100_000, 100_000));
}

#[test]
fn ball_position_saturates_at_the_limit() {
    let mut ball = ball_at(LIMIT - 5, -LIMIT + 5, 1_000_000, -1_000_000);
    ball.update(1000);
    assert_eq!(ball.position, Vec2::new(LIMIT, -LIMIT));
    let mut ball = ball_at(0, 0, LIMIT, -LIMIT);
    ball.update(i64::MAX);
    assert_eq!(ball.position, Vec2::new(LIMIT, -LIMIT));
    ball.update(i64::MIN);
    assert_eq!(ball.position, Vec2::new(-LIMIT, LIMIT));
}

#[test]
fn ball_tangent_to_the_top_wall_does_not_bounce() {
    // position.y - radius == 0: the boundary is a strict inequality
    let mut ball = ball_at(100_000, 10_000, -200_000, -50_000);
    ball.bounce_off_walls(200);
    assert_eq!(ball.velocity, Vec2::new(-200_000, -50_000));
    assert_eq!(ball.position, Vec2::new(100_000, 10_000));
}

#[test]
fn ball_over_the_top_wall_bounces() {
    let mut ball = ball_at(100_000, 9_999, -200_000, -50_000);
    ball.bounce_off_walls(200);
    assert_eq!(ball.velocity, Vec2::new(-200_000, 50_000));
    assert_eq!(ball.position, Vec2::new(100_000, 9_999));
    assert_eq!(ball.radius, 10_000);
}

#[test]
fn ball_tangent_to_the_bottom_wall_does_not_bounce() {
    let mut ball = ball_at(100_000, 190_000, 30_000, 50_000);
    ball.bounce_off_walls(200);
    assert_eq!(ball.velocity, Vec2::new(30_000, 50_000));
}

#[test]
fn ball_under_the_bottom_wall_bounces() {
    let mut ball = ball_at(100_000, 190_001, 30_000, 50_000);
    ball.bounce_off_walls(200);
    assert_eq!(ball.velocity, Vec2::new(30_000, -50_000));
}

#[test]
fn ball_between_the_walls_keeps_its_velocity() {
    let mut ball = ball_at(100_000, 100_000, 30_000, 50_000);
    ball.bounce_off_walls(200);
    assert_eq!(ball.velocity, Vec2::new(30_000, 50_000));
}

#[test]
fn ball_past_both_walls_is_turned_twice() {
    // a window lower than the ball: both checks fire, and the two
    // reflections cancel
    let mut ball = ball_at(100_000, 5_000, 30_000, 50_000);
    ball.bounce_off_walls(10);
    assert_eq!(ball.velocity, Vec2::new(30_000, 50_000));
}

#[test]
fn wall_bounce_flips_the_normal_component_only() {
    let mut vx: i64 = -300_000;
    while vx <= 300_000 {
        let mut vy: i64 = -300_000;
        while vy <= 300_000 {
            let ball = ball_at(0, 0, vx, vy);
            let top = calculate_wall_reflection(&ball, Vec2::y_axis());
            assert_eq!(top, Vec2::new(vx, -vy));
            let bottom = calculate_wall_reflection(&ball, Vec2::neg_y_axis());
            assert_eq!(bottom, Vec2::new(vx, -vy));
            let side = calculate_wall_reflection(&ball, Vec2::x_axis());
            assert_eq!(side, Vec2::new(-vx, vy));
            vy += 37_501;
        }
        vx += 41_113;
    }
}

#[test]
fn wall_reflection_about_a_slanted_normal() {
    let ball = ball_at(0, 0, 1000, 0);
    assert_eq!(calculate_wall_reflection(&ball, Vec2::new(600, 800)), Vec2::new(280, -960));
}

#[test]
fn ball_reset_restores_the_starting_velocity() {
    let mut ball = ball_at(1, 2, 77_000, -3);
    ball.reset(Vec2::new(400_000, 300_000), 500_000);
    assert_eq!(ball.position, Vec2::new(400_000, 300_000));
    assert_eq!(ball.velocity, Vec2::new(-200_000, 10_000));
    assert_eq!(ball.radius, 10_000);
}

#[test]
fn ball_reset_clamps_the_starting_velocity() {
    // |(-200, 10)| = 200.2498..., rounded up to 200.250
    let mut ball = ball_at(1, 2, 77_000, -3);
    ball.reset(Vec2::new(0, 0), 100_000);
    assert_eq!(ball.velocity, Vec2::new(-99_875, 4993));
    ball.reset(Vec2::new(0, 0), 0);
    assert_eq!(ball.velocity, Vec2::zero());
}

#[test]
fn ball_to_raw_shows_centre_and_radius() {
    let ball = ball_at(96_800, 100_160, -200_000, 10_000);
    assert_eq!(ball.to_raw(), BallRaw { position: Vec2::new(96_800, 100_160), radius: 10_000 });
}
