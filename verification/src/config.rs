//! Tuning constants of the simulation, and the key identifiers that the
//! default bindings use.

use vstd::prelude::*;
use crate::fixed::LIMIT;

verus! {

/// Identifier of the key that moves the first paddle up.
pub const KEY_W: u32 = 87;

/// Identifier of the key that moves the first paddle down.
pub const KEY_S: u32 = 83;

/// Identifier of the key that turns the first paddle counter-clockwise.
pub const KEY_Q: u32 = 81;

/// Identifier of the key that turns the first paddle clockwise.
pub const KEY_E: u32 = 69;

/// Identifier of the key that resets the game.
pub const KEY_SPACE: u32 = 32;

/// Number of slots in the paddle roster.
pub const PADDLE_SLOTS: usize = 8;

/// Radius of the ball at start and after a reset.
pub const DEFAULT_BALL_RADIUS: i64 = 10_000;

/// First component of the ball's velocity at start and after a reset.
pub const DEFAULT_BALL_VELOCITY_X: i64 = -200_000;

/// Second component of the ball's velocity at start and after a reset.
pub const DEFAULT_BALL_VELOCITY_Y: i64 = 10_000;

/// Distance of the first paddle's centre from the left edge.
pub const DEFAULT_PADDLE_X: i64 = 50_000;

/// Width of the first paddle.
pub const DEFAULT_PADDLE_WIDTH: i64 = 20_000;

/// Height of the first paddle.
pub const DEFAULT_PADDLE_HEIGHT: i64 = 100_000;

/// Which axes the collision test tries.
#[derive(Clone, Copy, Debug, PartialEq, Eq, Structural)]
pub enum CollisionMode {
    /// Both edge directions of the rectangle and the axis from the ball's
    /// centre to the nearest corner.
    CornerInclusive,
    /// The two edge directions only: cheaper, and blind to a ball that
    /// passes a corner diagonally.
    EdgeAxesOnly,
}

/// The coefficients that the simulation treats as configuration.
#[derive(Clone, Copy, Debug, PartialEq, Eq)]
pub struct Config {
    /// Ceiling on the ball's speed after it bounces off a paddle.
    pub max_speed: i64,
    /// Vertical speed given to a ball that strikes a paddle one half-height
    /// away from its centre.
    pub spin_factor: i64,
    /// Speed of a paddle while one of its keys is held.
    pub paddle_speed: i64,
    /// Angular speed of a paddle while one of its rotation keys is held.
    pub angular_speed: i64,
    /// Ceiling on the angular speed, if there is one.
    pub max_angular_speed: Option<i64>,
    /// Which axes the collision test tries.
    pub mode: CollisionMode,
    /// The key that resets the game.
    pub reset_key: u32,
}

impl Config {
    /// Every coefficient is non-negative and storable.
    pub open spec fn wf(self) -> bool {
        &&& 0 <= self.max_speed <= LIMIT
        &&& 0 <= self.spin_factor <= LIMIT
        &&& 0 <= self.paddle_speed <= LIMIT
        &&& 0 <= self.angular_speed <= LIMIT
        &&& self.max_angular_speed matches Some(m) ==> 0 <= m <= LIMIT
    }

    /// The angular speed that a held rotation key gives: `angular_speed`,
    /// cut down to the ceiling where there is one.
    pub open spec fn effective_angular_speed(self) -> int {
        match self.max_angular_speed {
            Some(m) => if self.angular_speed > m {
                m as int
            } else {
                self.angular_speed as int
            },
            None => self.angular_speed as int,
        }
    }

    /// The configuration that a new game starts with.
    pub open spec fn default_spec() -> Config {
        Config {
            max_speed: 500_000,
            spin_factor: 100_000,
            paddle_speed: 400_000,
            angular_speed: 4_000,
            max_angular_speed: Some(100_000i64),
            mode: CollisionMode::CornerInclusive,
            reset_key: KEY_SPACE,
        }
    }

    /// The configuration that a new game starts with: ball speed at most
    /// 500 units a second, spin factor 100, paddles at 400 units and 4
    /// radians a second, corner-inclusive collision test, reset on the space
    /// key.
    pub fn new() -> (c: Config)
        ensures
            c == Config::default_spec(),
            c.wf(),
    {
        Config {
            max_speed: 500_000,
            spin_factor: 100_000,
            paddle_speed: 400_000,
            angular_speed: 4_000,
            max_angular_speed: Some(100_000),
            mode: CollisionMode::CornerInclusive,
            reset_key: KEY_SPACE,
        }
    }

    /// Whether the configuration is well formed.
    pub fn is_valid(&self) -> (ok: bool)
        ensures
            ok == self.wf(),
    {
        let ceiling_ok: bool = match self.max_angular_speed {
            Some(m) => 0 <= m && m <= LIMIT,
            None => true,
        };
        0 <= self.max_speed && self.max_speed <= LIMIT && 0 <= self.spin_factor
            && self.spin_factor <= LIMIT && 0 <= self.paddle_speed && self.paddle_speed <= LIMIT
            && 0 <= self.angular_speed && self.angular_speed <= LIMIT && ceiling_ok
    }

    /// Executable [`Config::effective_angular_speed`].
    pub fn angular_speed_in_effect(&self) -> (w: i64)
        ensures
            w == self.effective_angular_speed(),
    {
        match self.max_angular_speed {
            Some(m) => if self.angular_speed > m {
                m
            } else {
                self.angular_speed
            },
            None => self.angular_speed,
        }
    }
}

} // verus!
