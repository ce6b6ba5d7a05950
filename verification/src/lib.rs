//! Deterministic fixed-point core of a Pong-style game: a ball, a roster of
//! paddles, the collision test between an oriented rectangle and a circle,
//! and the per-frame update that ties them together.
//!
//! Every scalar is an `i64` counting thousandths of a unit (see
//! [`fixed::UNIT`]): a pixel for lengths, a second for time, a radian for
//! angles.  All arithmetic is exact integer arithmetic with rounding toward
//! zero, so a frame computed twice gives the same state twice.
//!
//! * [`fixed`]: the unit, the storable range, rounding division, square roots.
//! * [`angle`]: sine, cosine and rotation without floating point.
//! * [`vector`]: two-dimensional vectors: dot product, normalization,
//!   clamping, projection, reflection.
//! * [`config`]: the tuning constants and the default key identifiers.
//! * [`ball`]: the ball, its flight and the wall check.
//! * [`paddle`]: the paddles, their motion under held keys, their corners.
//! * [`collision`]: the separating-axis test and the bounce off a paddle.
//! * [`game_state`]: the game, its frame, its reset and its snapshot.
//!
//! Every executable function is verified against a contract over the
//! mathematical integers; the laws that hold of the game as a whole (the
//! speed limit, the paddle bounds, the frame of no duration, the meaning of
//! "no collision") are proof functions next to the definitions they speak of.

pub mod angle;
pub mod ball;
pub mod collision;
pub mod config;
pub mod fixed;
pub mod game_state;
pub mod paddle;
pub mod vector;
