use std::collections::HashSet;

use pongers::angle::HALF_PI;
use pongers::config::{Config, KEY_E, KEY_Q, KEY_S, KEY_W};
use pongers::fixed::LIMIT;
use pongers::paddle::{Paddle, PaddleRaw};
use pongers::vector::Vec2;

fn paddle_on_the_left() -> Paddle {
    Paddle::new(Vec2::new(50_000, 100_000), KEY_W, KEY_S, 20_000, 100_000, true, 0)
}

fn keys(held: &[u32]) -> HashSet<u32> {
    let mut set = HashSet::new();
    for key in held {
        set.insert(*key);
    }
    set
}

#[test]
fn new_paddle_holds_what_it_was_given() {
    let paddle = paddle_on_the_left();
    assert_eq!(paddle.position, Vec2::new(50_000, 100_000));
    assert_eq!(paddle.up, KEY_W);
    assert_eq!(paddle.down, KEY_S);
    assert_eq!(paddle.width, 20_000);
    assert_eq!(paddle.height, 100_000);
    assert!(paddle.active);
    assert_eq!(paddle.rotation, 0);
    assert_eq!(paddle.direction, Vec2::zero());
    assert_eq!(paddle.rotate_plus, None);
    assert_eq!(paddle.rotate_minus, None);
}

#[test]
fn default_paddle_is_an_empty_slot() {
    let paddle = Paddle::default();
    assert!(!paddle.active);
    assert_eq!(paddle.position, Vec2::zero());
    assert_eq!(paddle.direction, Vec2::zero());
    assert_eq!(paddle.rotation, 0);
    assert_eq!(paddle.width, 0);
    assert_eq!(paddle.height, 0);
    assert_eq!(paddle.rotate_plus, None);
    assert_eq!(paddle.rotate_minus, None);
}

#[test]
fn with_rotation_keys_binds_both_keys() {
    let paddle = paddle_on_the_left().with_rotation_keys(KEY_Q, KEY_E);
    assert_eq!(paddle.rotate_plus, Some(KEY_Q));
    assert_eq!(paddle.rotate_minus, Some(KEY_E));
    assert_eq!(paddle.position, Vec2::new(50_000, 100_000));
    assert_eq!(paddle.width, 20_000);
    assert!(paddle.active);
}

#[test]
fn direction_follows_the_held_keys() {
    let paddle = paddle_on_the_left();
    assert_eq!(paddle.direction_from_keys(&keys(&[KEY_W])), Vec2::new(0, -1000));
    assert_eq!(paddle.direction_from_keys(&keys(&[KEY_S])), Vec2::new(0, 1000));
    assert_eq!(paddle.direction_from_keys(&keys(&[KEY_W, KEY_S])), Vec2::zero());
    assert_eq!(paddle.direction_from_keys(&keys(&[])), Vec2::zero());
    assert_eq!(paddle.direction_from_keys(&keys(&[KEY_Q, 9999])), Vec2::zero());
}

#[test]
fn turn_follows_the_held_keys() {
    let paddle = paddle_on_the_left().with_rotation_keys(KEY_Q, KEY_E);
    assert_eq!(paddle.turn_from_keys(&keys(&[KEY_Q])), 1);
    assert_eq!(paddle.turn_from_keys(&keys(&[KEY_E])), -1);
    assert_eq!(paddle.turn_from_keys(&keys(&[KEY_Q, KEY_E])), 0);
    assert_eq!(paddle.turn_from_keys(&keys(&[KEY_W])), 0);
    // without bindings no key turns the paddle
    assert_eq!(paddle_on_the_left().turn_from_keys(&keys(&[KEY_Q, 0])), 0);
}

#[test]
fn paddle_moves_up_while_the_up_key_is_held() {
    // 400 units a second for 0.016 s: 6.4 units
    let mut paddle = paddle_on_the_left();
    paddle.update(16, &keys(&[KEY_W]), 200, &Config::new());
    assert_eq!(paddle.position, Vec2::new(50_000, 93_600));
    assert_eq!(paddle.direction, Vec2::new(0, -1000));
    assert_eq!(paddle.rotation, 0);
}

#[test]
fn paddle_moves_down_while_the_down_key_is_held() {
    let mut paddle = paddle_on_the_left();
    paddle.update(16, &keys(&[KEY_S]), 200, &Config::new());
    assert_eq!(paddle.position, Vec2::new(50_000, 106_400));
    assert_eq!(paddle.direction, Vec2::new(0, 1000));
}

#[test]
fn paddle_rests_with_both_keys_or_none() {
    let mut paddle = paddle_on_the_left();
    paddle.update(16, &keys(&[KEY_W, KEY_S]), 200, &Config::new());
    assert_eq!(paddle.position, Vec2::new(50_000, 100_000));
    assert_eq!(paddle.direction, Vec2::zero());
    paddle.update(16, &keys(&[]), 200, &Config::new());
    assert_eq!(paddle.position, Vec2::new(50_000, 100_000));
}

#[test]
fn paddle_direction_is_taken_afresh_each_frame() {
    let mut paddle = paddle_on_the_left();
    paddle.update(16, &keys(&[KEY_W]), 200, &Config::new());
    assert_eq!(paddle.direction, Vec2::new(0, -1000));
    paddle.update(16, &keys(&[]), 200, &Config::new());
    assert_eq!(paddle.direction, Vec2::zero());
    assert_eq!(paddle.position, Vec2::new(50_000, 93_600));
}

#[test]
fn paddle_stops_at_the_top_wall() {
    let mut paddle = paddle_on_the_left();
    paddle.position = Vec2::new(50_000, 52_000);
    paddle.update(16, &keys(&[KEY_W]), 200, &Config::new());
    assert_eq!(paddle.position, Vec2::new(50_000, 50_000));
}

#[test]
fn paddle_stops_at_the_bottom_wall() {
    let mut paddle = paddle_on_the_left();
    paddle.position = Vec2::new(50_000, 148_000);
    paddle.update(16, &keys(&[KEY_S]), 200, &Config::new());
    assert_eq!(paddle.position, Vec2::new(50_000, 150_000));
}

#[test]
fn paddle_outside_the_walls_is_brought_back() {
    let mut paddle = paddle_on_the_left();
    paddle.position = Vec2::new(50_000, -700_000);
    paddle.update(0, &keys(&[]), 200, &Config::new());
    assert_eq!(paddle.position, Vec2::new(50_000, 50_000));
    paddle.position = Vec2::new(50_000, 700_000);
    paddle.update(0, &keys(&[]), 200, &Config::new());
    assert_eq!(paddle.position, Vec2::new(50_000, 150_000));
}

#[test]
fn paddle_in_a_window_too_low_for_it() {
    // window 50 high, paddle 100 high: the bounds are [50, 0]
    let mut paddle = paddle_on_the_left();
    paddle.position = Vec2::new(50_000, 20_000);
    paddle.update(0, &keys(&[]), 50, &Config::new());
    assert_eq!(paddle.position, Vec2::new(50_000, 50_000));
    paddle.update(0, &keys(&[]), 50, &Config::new());
    assert_eq!(paddle.position, Vec2::new(50_000, 0));
}

#[test]
fn paddle_stays_between_the_walls_whatever_is_pressed() {
    let config = Config::new();
    let mut paddle = paddle_on_the_left();
    let presses: [&[u32]; 6] =
        [&[KEY_W], &[KEY_W], &[KEY_S], &[], &[KEY_W, KEY_S], &[KEY_S]];
    let mut frame: usize = 0;
    while frame < 600 {
        let held = keys(presses[(frame / 7) % 6]);
        let delta = ((frame * 37) % 200) as i64;
        paddle.update(delta, &held, 200, &config);
        assert!(paddle.position.y >= 50_000, "frame {}", frame);
        assert!(paddle.position.y <= 150_000, "frame {}", frame);
        assert_eq!(paddle.position.x, 50_000);
        frame += 1;
    }
}

#[test]
fn paddle_update_over_no_time_changes_no_position() {
    let mut paddle = paddle_on_the_left().with_rotation_keys(KEY_Q, KEY_E);
    paddle.rotation = 300;
    paddle.update(0, &keys(&[KEY_W, KEY_Q]), 200, &Config::new());
    assert_eq!(paddle.position, Vec2::new(50_000, 100_000));
    assert_eq!(paddle.rotation, 300);
}

#[test]
fn paddle_turns_while_a_rotation_key_is_held() {
    // 4 radians a second for 0.1 s: 0.4 radians
    let mut paddle = paddle_on_the_left().with_rotation_keys(KEY_Q, KEY_E);
    paddle.update(100, &keys(&[KEY_Q]), 200, &Config::new());
    assert_eq!(paddle.rotation, 400);
    paddle.update(50, &keys(&[KEY_E]), 200, &Config::new());
    assert_eq!(paddle.rotation, 200);
    paddle.update(50, &keys(&[KEY_E, KEY_Q]), 200, &Config::new());
    assert_eq!(paddle.rotation, 200);
    assert_eq!(paddle.position, Vec2::new(50_000, 100_000));
}

#[test]
fn paddle_without_rotation_keys_does_not_turn() {
    let mut paddle = paddle_on_the_left();
    paddle.update(100, &keys(&[KEY_Q, KEY_E, 0]), 200, &Config::new());
    assert_eq!(paddle.rotation, 0);
}

#[test]
fn angular_speed_is_held_under_its_ceiling() {
    let mut config = Config::new();
    config.max_angular_speed = Some(1000);
    assert_eq!(config.angular_speed_in_effect(), 1000);
    let mut paddle = paddle_on_the_left().with_rotation_keys(KEY_Q, KEY_E);
    paddle.update(100, &keys(&[KEY_Q]), 200, &config);
    assert_eq!(paddle.rotation, 100);
    config.max_angular_speed = None;
    assert_eq!(config.angular_speed_in_effect(), 4000);
    config.max_angular_speed = Some(4000);
    assert_eq!(config.angular_speed_in_effect(), 4000);
}

#[test]
fn paddle_rotation_saturates_at_the_limit() {
    let mut paddle = paddle_on_the_left().with_rotation_keys(KEY_Q, KEY_E);
    paddle.rotation = LIMIT - 1;
    paddle.update(1000, &keys(&[KEY_Q]), 200, &Config::new());
    assert_eq!(paddle.rotation, LIMIT);
}

#[test]
fn corners_of_an_upright_paddle() {
    let corners = paddle_on_the_left().corners();
    assert_eq!(corners[0], Vec2::new(40_000, 50_000));
    assert_eq!(corners[1], Vec2::new(60_000, 50_000));
    assert_eq!(corners[2], Vec2::new(60_000, 150_000));
    assert_eq!(corners[3], Vec2::new(40_000, 150_000));
}

#[test]
fn corners_of_a_paddle_turned_a_quarter() {
    let mut paddle = paddle_on_the_left();
    paddle.rotation = HALF_PI;
    let corners = paddle.corners();
    assert_eq!(corners[0], Vec2::new(100_000, 90_000));
    assert_eq!(corners[1], Vec2::new(100_000, 110_000));
    assert_eq!(corners[2], Vec2::new(0, 110_000));
    assert_eq!(corners[3], Vec2::new(0, 90_000));
}

#[test]
fn corners_of_a_paddle_turned_a_little() {
    // cos 0.524 = 0.864, sin 0.524 = 0.500
    let mut paddle = Paddle::new(Vec2::new(0, 0), KEY_W, KEY_S, 2000, 4000, true, 524);
    let corners = paddle.corners();
    assert_eq!(corners[0], Vec2::new(136, -2228));
    assert_eq!(corners[1], Vec2::new(1864, -1228));
    assert_eq!(corners[2], Vec2::new(-136, 2228));
    assert_eq!(corners[3], Vec2::new(-1864, 1228));
    paddle.position = Vec2::new(10_000, 20_000);
    assert_eq!(paddle.corners()[0], Vec2::new(10_136, 17_772));
}

#[test]
fn corners_of_an_odd_sized_paddle_use_half_sizes_rounded_down() {
    let paddle = Paddle::new(Vec2::new(0, 0), KEY_W, KEY_S, 5, 7, true, 0);
    let corners = paddle.corners();
    assert_eq!(corners[0], Vec2::new(-2, -3));
    assert_eq!(corners[2], Vec2::new(2, 3));
}

#[test]
fn paddle_to_raw_shows_corners_and_flag() {
    let raw = paddle_on_the_left().to_raw();
    assert_eq!(
        raw,
        PaddleRaw {
            a: Vec2::new(40_000, 50_000),
            b: Vec2::new(60_000, 50_000),
            c: Vec2::new(60_000, 150_000),
            d: Vec2::new(40_000, 150_000),
            active: 1,
        }
    );
    let raw = Paddle::default().to_raw();
    assert_eq!(
        raw,
        PaddleRaw {
            a: Vec2::zero(),
            b: Vec2::zero(),
            c: Vec2::zero(),
            d: Vec2::zero(),
            active: 0,
        }
    );
}
