//! Paddles: oriented rectangles that the players slide up and down, and
//! optionally turn, with held keys.

use std::collections::HashSet;
use vstd::prelude::*;
use crate::angle::{lemma_rotated_bounds, lemma_rotated_by_quarter_turns, rotate, rotated};
use crate::config::Config;
use crate::fixed::{
    clamp, clamp_to, lemma_mul_bounded, lemma_quotient_bounded, mul_fixed, mul_fixed_wide,
    saturate, saturate_to, LIMIT, UNIT,
};
use crate::vector::{Vec2, Vector};

verus! {

/// A key binding is held: it is bound, and its key is among the pressed.
pub open spec fn held(key: Option<u32>, pressed: Set<u32>) -> bool {
    key matches Some(k) && pressed.contains(k)
}

/// The direction that the up and down keys ask for: up the screen for up
/// alone, down the screen for down alone, none for both or neither.
pub open spec fn direction_for(up_held: bool, down_held: bool) -> Vector {
    if up_held && !down_held {
        Vector { x: 0, y: -UNIT }
    } else if down_held && !up_held {
        Vector { x: 0, y: UNIT as int }
    } else {
        Vector::zero()
    }
}

/// The turn that the rotation keys ask for: `1` for plus alone, `-1` for
/// minus alone, `0` for both or neither.
pub open spec fn turn_for(plus_held: bool, minus_held: bool) -> int {
    if plus_held && !minus_held {
        1
    } else if minus_held && !plus_held {
        -1
    } else {
        0
    }
}

/// What a [`Paddle`] stands for.
pub struct PaddleView {
    pub position: Vector,
    pub rotation: int,
    pub width: int,
    pub height: int,
    pub active: bool,
    pub direction: Vector,
    pub up: u32,
    pub down: u32,
    pub rotate_plus: Option<u32>,
    pub rotate_minus: Option<u32>,
}

impl PaddleView {
    /// Every scalar is storable, and an active paddle has a positive width
    /// and height.
    pub open spec fn wf(self) -> bool {
        &&& self.position.within(LIMIT as int)
        &&& -LIMIT <= self.rotation <= LIMIT
        &&& 0 <= self.width <= LIMIT
        &&& 0 <= self.height <= LIMIT
        &&& self.active ==> self.width > 0 && self.height > 0
        &&& self.direction.within(UNIT as int)
    }

    /// The least height at which the paddle's centre may stand: half the
    /// paddle's height below the top wall.
    pub open spec fn lowest(self) -> int {
        self.height / 2
    }

    /// The greatest height at which the paddle's centre may stand in a
    /// window `window_height` whole units high.
    pub open spec fn highest(self, window_height: int) -> int {
        window_height * UNIT - self.height / 2
    }

    /// The paddle's centre stands between the walls.
    pub open spec fn within_bounds(self, window_height: int) -> bool {
        self.lowest() <= self.position.y <= self.highest(window_height)
    }

    /// The paddle after `delta_time` with the keys in `pressed` held.
    ///
    /// The direction is taken afresh from the keys; the position moves by
    /// `direction * speed * delta_time` and its second component is then
    /// clamped between the walls; the rotation moves by the effective
    /// angular speed in the direction that the rotation keys give.
    pub open spec fn updated(
        self,
        delta_time: int,
        pressed: Set<u32>,
        window_height: int,
        config: Config,
    ) -> PaddleView {
        let direction = direction_for(pressed.contains(self.up), pressed.contains(self.down));
        let velocity = Vector {
            x: mul_fixed(direction.x, config.paddle_speed as int),
            y: mul_fixed(direction.y, config.paddle_speed as int),
        };
        let turn = turn_for(held(self.rotate_plus, pressed), held(self.rotate_minus, pressed));
        PaddleView {
            position: Vector {
                x: saturate(self.position.x + mul_fixed(velocity.x, delta_time)),
                y: clamp(
                    self.position.y + mul_fixed(velocity.y, delta_time),
                    self.lowest(),
                    self.highest(window_height),
                ),
            },
            rotation: saturate(
                self.rotation + mul_fixed(turn * config.effective_angular_speed(), delta_time),
            ),
            direction,
            ..self
        }
    }

    /// Corner `k` of the rectangle before it is turned and moved: upper
    /// left, upper right, lower right, lower left for `k` from 0 to 3.
    pub open spec fn local_corner(self, k: int) -> Vector {
        let hw = self.width / 2;
        let hh = self.height / 2;
        if k == 0 {
            Vector { x: -hw, y: -hh }
        } else if k == 1 {
            Vector { x: hw, y: -hh }
        } else if k == 2 {
            Vector { x: hw, y: hh }
        } else {
            Vector { x: -hw, y: hh }
        }
    }

    /// Corner `k` of the paddle in the window:
    /// `position + rotation matrix * local corner`.
    pub open spec fn corner(self, k: int) -> Vector {
        self.position.plus(rotated(self.local_corner(k), self.rotation))
    }

    /// The four corners in order.
    pub open spec fn corners(self) -> Seq<Vector> {
        seq![self.corner(0), self.corner(1), self.corner(2), self.corner(3)]
    }
}

/// The corners of a paddle that is not turned stand half a width and half a
/// height from its centre, without any rounding.
pub proof fn lemma_upright_corners(paddle: PaddleView)
    requires
        paddle.rotation == 0,
    ensures
        paddle.corner(0) == (Vector {
            x: paddle.position.x - paddle.width / 2,
            y: paddle.position.y - paddle.height / 2,
        }),
        paddle.corner(1) == (Vector {
            x: paddle.position.x + paddle.width / 2,
            y: paddle.position.y - paddle.height / 2,
        }),
        paddle.corner(2) == (Vector {
            x: paddle.position.x + paddle.width / 2,
            y: paddle.position.y + paddle.height / 2,
        }),
        paddle.corner(3) == (Vector {
            x: paddle.position.x - paddle.width / 2,
            y: paddle.position.y + paddle.height / 2,
        }),
{
    lemma_rotated_by_quarter_turns(paddle.local_corner(0));
    lemma_rotated_by_quarter_turns(paddle.local_corner(1));
    lemma_rotated_by_quarter_turns(paddle.local_corner(2));
    lemma_rotated_by_quarter_turns(paddle.local_corner(3));
}

/// After an update the paddle stands between the walls, provided the window
/// is high enough to hold it.
pub proof fn lemma_updated_within_bounds(
    paddle: PaddleView,
    delta_time: int,
    pressed: Set<u32>,
    window_height: int,
    config: Config,
)
    requires
        paddle.lowest() <= paddle.highest(window_height),
    ensures
        paddle.updated(delta_time, pressed, window_height, config).within_bounds(window_height),
{
}

/// An update never moves a paddle sideways: the keys ask for a direction up
/// or down the screen only.
pub proof fn lemma_updated_keeps_column(
    paddle: PaddleView,
    delta_time: int,
    pressed: Set<u32>,
    window_height: int,
    config: Config,
)
    requires
        paddle.wf(),
    ensures
        paddle.updated(delta_time, pressed, window_height, config).position.x
            == paddle.position.x,
{
    assert(0 * config.paddle_speed == 0);
    assert(0 * delta_time == 0);
}

/// An update over no time leaves a paddle that stands between the walls
/// where it is and as it is turned.
pub proof fn lemma_updated_zero_delta(
    paddle: PaddleView,
    pressed: Set<u32>,
    window_height: int,
    config: Config,
)
    requires
        paddle.wf(),
        paddle.within_bounds(window_height),
    ensures
        paddle.updated(0, pressed, window_height, config).position == paddle.position,
        paddle.updated(0, pressed, window_height, config).rotation == paddle.rotation,
{
    let direction = direction_for(pressed.contains(paddle.up), pressed.contains(paddle.down));
    let turn = turn_for(held(paddle.rotate_plus, pressed), held(paddle.rotate_minus, pressed));
    let vx = mul_fixed(direction.x, config.paddle_speed as int);
    let vy = mul_fixed(direction.y, config.paddle_speed as int);
    let w = turn * config.effective_angular_speed();
    assert(vx * 0 == 0 && vy * 0 == 0 && w * 0 == 0) by (nonlinear_arith);
}

/// A paddle as the game stores it.
#[derive(Clone, Copy, Debug, PartialEq, Eq)]
pub struct Paddle {
    /// Centre of the rectangle.
    pub position: Vec2,
    /// Angle by which the rectangle is turned, in thousandths of a radian.
    pub rotation: i64,
    pub width: i64,
    pub height: i64,
    /// An inactive slot takes no part in the game.
    pub active: bool,
    /// Direction asked for by the keys at the last update.
    pub direction: Vec2,
    /// Key that moves the paddle up the screen.
    pub up: u32,
    /// Key that moves the paddle down the screen.
    pub down: u32,
    /// Key that turns the paddle toward greater angles, if any.
    pub rotate_plus: Option<u32>,
    /// Key that turns the paddle toward smaller angles, if any.
    pub rotate_minus: Option<u32>,
}

impl View for Paddle {
    type V = PaddleView;

    open spec fn view(&self) -> PaddleView {
        PaddleView {
            position: self.position@,
            rotation: self.rotation as int,
            width: self.width as int,
            height: self.height as int,
            active: self.active,
            direction: self.direction@,
            up: self.up,
            down: self.down,
            rotate_plus: self.rotate_plus,
            rotate_minus: self.rotate_minus,
        }
    }
}

/// A paddle as the renderer receives it: its four corners in order and
/// whether it is active (1) or not (0).
#[derive(Clone, Copy, Debug, PartialEq, Eq, Structural)]
pub struct PaddleRaw {
    pub a: Vec2,
    pub b: Vec2,
    pub c: Vec2,
    pub d: Vec2,
    pub active: i32,
}

impl PaddleRaw {
    /// `self` shows `paddle`: its four corners in order, and 1 where it is
    /// active, 0 where it is not.
    pub open spec fn shows(self, paddle: PaddleView) -> bool {
        &&& self.a@ == paddle.corner(0)
        &&& self.b@ == paddle.corner(1)
        &&& self.c@ == paddle.corner(2)
        &&& self.d@ == paddle.corner(3)
        &&& self.active == (if paddle.active {
            1i32
        } else {
            0i32
        })
    }
}

impl Default for Paddle {
    /// The paddle of an empty slot: inactive, every scalar zero, no key that
    /// turns it.
    fn default() -> (paddle: Paddle)
        ensures
            !paddle.active,
            paddle.position@ == Vector::zero(),
            paddle.direction@ == Vector::zero(),
            paddle.rotation == 0,
            paddle.width == 0,
            paddle.height == 0,
            paddle.up == 0,
            paddle.down == 0,
            paddle.rotate_plus is None,
            paddle.rotate_minus is None,
            paddle.wf(),
    {
        Paddle {
            position: Vec2 { x: 0, y: 0 },
            rotation: 0,
            width: 0,
            height: 0,
            active: false,
            direction: Vec2 { x: 0, y: 0 },
            up: 0,
            down: 0,
            rotate_plus: None,
            rotate_minus: None,
        }
    }
}

impl Paddle {
    /// See [`PaddleView::wf`].
    pub open spec fn wf(self) -> bool {
        self@.wf()
    }

    /// Whether the paddle is well formed.
    pub fn is_valid(&self) -> (ok: bool)
        ensures
            ok == self.wf(),
    {
        self.position.is_in_range() && -LIMIT <= self.rotation && self.rotation <= LIMIT && 0
            <= self.width && self.width <= LIMIT && 0 <= self.height && self.height <= LIMIT && (
        !self.active || (self.width > 0 && self.height > 0)) && -UNIT <= self.direction.x
            && self.direction.x <= UNIT && -UNIT <= self.direction.y && self.direction.y <= UNIT
    }

    /// A paddle centred at `position`, moved by the keys `up` and `down`,
    /// with no key that turns it.
    pub fn new(
        position: Vec2,
        up: u32,
        down: u32,
        width: i64,
        height: i64,
        active: bool,
        rotation: i64,
    ) -> (paddle: Paddle)
        requires
            position.in_range(),
            0 < width <= LIMIT,
            0 < height <= LIMIT,
            -LIMIT <= rotation <= LIMIT,
        ensures
            paddle.position == position,
            paddle.up == up,
            paddle.down == down,
            paddle.width == width,
            paddle.height == height,
            paddle.active == active,
            paddle.rotation == rotation,
            paddle.direction@ == Vector::zero(),
            paddle.rotate_plus is None,
            paddle.rotate_minus is None,
            paddle.wf(),
    {
        Paddle {
            position,
            rotation,
            width,
            height,
            active,
            direction: Vec2 { x: 0, y: 0 },
            up,
            down,
            rotate_plus: None,
            rotate_minus: None,
        }
    }

    /// The same paddle, turned by the keys `plus` and `minus`.
    pub fn with_rotation_keys(self, plus: u32, minus: u32) -> (paddle: Paddle)
        ensures
            paddle@ == (PaddleView {
                rotate_plus: Some(plus),
                rotate_minus: Some(minus),
                ..self@
            }),
    {
        Paddle { rotate_plus: Some(plus), rotate_minus: Some(minus), ..self }
    }

    /// The direction that the held keys ask of this paddle.
    pub fn direction_from_keys(&self, pressed_keys: &HashSet<u32>) -> (direction: Vec2)
        ensures
            direction@ == direction_for(
                pressed_keys@.contains(self.up),
                pressed_keys@.contains(self.down),
            ),
            direction@.within(UNIT as int),
    {
        let up_held: bool = pressed_keys.contains(&self.up);
        let down_held: bool = pressed_keys.contains(&self.down);
        if up_held && !down_held {
            Vec2 { x: 0, y: -UNIT }
        } else if down_held && !up_held {
            Vec2 { x: 0, y: UNIT }
        } else {
            Vec2 { x: 0, y: 0 }
        }
    }

    /// The turn that the held keys ask of this paddle: `1`, `-1` or `0`.
    pub fn turn_from_keys(&self, pressed_keys: &HashSet<u32>) -> (turn: i64)
        ensures
            turn == turn_for(
                held(self.rotate_plus, pressed_keys@),
                held(self.rotate_minus, pressed_keys@),
            ),
    {
        let plus_held: bool = match self.rotate_plus {
            Some(k) => pressed_keys.contains(&k),
            None => false,
        };
        let minus_held: bool = match self.rotate_minus {
            Some(k) => pressed_keys.contains(&k),
            None => false,
        };
        if plus_held && !minus_held {
            1
        } else if minus_held && !plus_held {
            -1
        } else {
            0
        }
    }

    /// Moves and turns the paddle as the held keys ask, for `delta_time`, and
    /// keeps it between the top wall and the bottom wall of a window
    /// `window_height` whole units high.
    pub fn update(
        &mut self,
        delta_time: i64,
        pressed_keys: &HashSet<u32>,
        window_height: u32,
        config: &Config,
    )
        requires
            old(self).wf(),
            config.wf(),
        ensures
            final(self)@ == old(self)@.updated(
                delta_time as int,
                pressed_keys@,
                window_height as int,
                *config,
            ),
            final(self).wf(),
            old(self)@.lowest() <= old(self)@.highest(window_height as int)
                ==> final(self)@.within_bounds(window_height as int),
            final(self).position.x == old(self).position.x,
    {
        let direction: Vec2 = self.direction_from_keys(pressed_keys);
        proof {
            lemma_updated_keeps_column(
                self@,
                delta_time as int,
                pressed_keys@,
                window_height as int,
                *config,
            );
            lemma_mul_bounded(
                direction.x as int,
                config.paddle_speed as int,
                UNIT as int,
                LIMIT as int,
            );
            lemma_mul_bounded(
                direction.y as int,
                config.paddle_speed as int,
                UNIT as int,
                LIMIT as int,
            );
            lemma_quotient_bounded(direction.x * config.paddle_speed, UNIT as int, LIMIT as int);
            lemma_quotient_bounded(direction.y * config.paddle_speed, UNIT as int, LIMIT as int);
        }
        let vx: i128 = mul_fixed_wide(direction.x, config.paddle_speed);
        let vy: i128 = mul_fixed_wide(direction.y, config.paddle_speed);
        let dx: i128 = mul_fixed_wide(vx as i64, delta_time);
        let dy: i128 = mul_fixed_wide(vy as i64, delta_time);
        let lowest: i64 = self.height / 2;
        let highest: i64 = (window_height as i64) * UNIT - lowest;
        let x: i64 = saturate_to(self.position.x as i128 + dx);
        let y: i64 = clamp_to(self.position.y as i128 + dy, lowest, highest);
        let turn: i64 = self.turn_from_keys(pressed_keys);
        let speed: i64 = config.angular_speed_in_effect();
        proof {
            lemma_mul_bounded(turn as int, speed as int, 1, LIMIT as int);
        }
        let dr: i128 = mul_fixed_wide(turn * speed, delta_time);
        self.rotation = saturate_to(self.rotation as i128 + dr);
        self.position = Vec2 { x, y };
        self.direction = direction;
    }

    /// The four corners of the paddle in the window, in order: upper left,
    /// upper right, lower right, lower left of the rectangle before it is
    /// turned.
    pub fn corners(&self) -> (corners: [Vec2; 4])
        requires
            self.wf(),
        ensures
            forall|k: int| 0 <= k < 4 ==> (#[trigger] corners[k])@ == self@.corner(k),
            forall|k: int| 0 <= k < 4 ==> (#[trigger] corners[k])@.within(3 * LIMIT),
    {
        let hw: i64 = self.width / 2;
        let hh: i64 = self.height / 2;
        proof {
            lemma_rotated_bounds(self@.local_corner(0), self.rotation as int, LIMIT as int);
            lemma_rotated_bounds(self@.local_corner(1), self.rotation as int, LIMIT as int);
            lemma_rotated_bounds(self@.local_corner(2), self.rotation as int, LIMIT as int);
            lemma_rotated_bounds(self@.local_corner(3), self.rotation as int, LIMIT as int);
        }
        let a: Vec2 = rotate(Vec2 { x: -hw, y: -hh }, self.rotation);
        let b: Vec2 = rotate(Vec2 { x: hw, y: -hh }, self.rotation);
        let c: Vec2 = rotate(Vec2 { x: hw, y: hh }, self.rotation);
        let d: Vec2 = rotate(Vec2 { x: -hw, y: hh }, self.rotation);
        [
            self.position.plus(a),
            self.position.plus(b),
            self.position.plus(c),
            self.position.plus(d),
        ]
    }

    /// The paddle's corners and its active flag, for the renderer.
    pub fn to_raw(&self) -> (raw: PaddleRaw)
        requires
            self.wf(),
        ensures
            raw.shows(self@),
    {
        let corners: [Vec2; 4] = self.corners();
        PaddleRaw {
            a: corners[0],
            b: corners[1],
            c: corners[2],
            d: corners[3],
            active: if self.active {
                1
            } else {
                0
            },
        }
    }
}

} // verus!
