//! The ball: a circle that moves in a straight line until something turns it.

use vstd::prelude::*;
use crate::config::{DEFAULT_BALL_VELOCITY_X, DEFAULT_BALL_VELOCITY_Y};
use crate::collision::{calculate_wall_reflection, lemma_wall_reflection_flips_normal_component};
use crate::fixed::{mul_fixed, mul_fixed_wide, saturate, saturate_to, LIMIT, UNIT};
use crate::vector::{Vec2, Vector};

verus! {

/// What a [`Ball`] stands for: a centre, a radius and a velocity over the
/// mathematical integers.
pub struct BallView {
    pub position: Vector,
    pub radius: int,
    pub velocity: Vector,
}

impl BallView {
    /// The radius is positive and every scalar is storable.
    pub open spec fn wf(self) -> bool {
        &&& self.position.within(LIMIT as int)
        &&& 0 < self.radius <= LIMIT
        &&& self.velocity.within(LIMIT as int)
    }

    /// The ball after `delta_time` of straight flight:
    /// `position + velocity * delta_time`, each component held within the
    /// storable range.
    pub open spec fn moved(self, delta_time: int) -> BallView {
        BallView {
            position: Vector {
                x: saturate(self.position.x + mul_fixed(self.velocity.x, delta_time)),
                y: saturate(self.position.y + mul_fixed(self.velocity.y, delta_time)),
            },
            ..self
        }
    }

    /// The ball reaches over the top wall.  A ball that only touches the
    /// wall does not.
    pub open spec fn above_top(self) -> bool {
        self.position.y - self.radius < 0
    }

    /// The ball reaches under the bottom wall of a window `window_height`
    /// whole units high.  A ball that only touches the wall does not.
    pub open spec fn below_bottom(self, window_height: int) -> bool {
        self.position.y + self.radius > window_height * UNIT
    }

    /// The ball after the wall check: its velocity mirrored about the top
    /// wall if it reaches over it, then about the bottom wall if it reaches
    /// under it.
    pub open spec fn bounced(self, window_height: int) -> BallView {
        let after_top = if self.above_top() {
            self.velocity.reflected(Vector { x: 0, y: UNIT as int })
        } else {
            self.velocity
        };
        let after_bottom = if self.below_bottom(window_height) {
            after_top.reflected(Vector { x: 0, y: -UNIT })
        } else {
            after_top
        };
        BallView { velocity: after_bottom, ..self }
    }

    /// The ball is no faster than `max`.
    pub open spec fn speed_within(self, max: int) -> bool {
        self.velocity.norm_sq() <= max * max
    }
}

/// The wall check turns the ball's vertical velocity around where the ball
/// reaches past exactly one wall, and leaves the velocity alone otherwise; it
/// never changes the horizontal velocity or the speed.
pub proof fn lemma_bounced(ball: BallView, window_height: int)
    ensures
        ball.bounced(window_height).velocity.x == ball.velocity.x,
        ball.bounced(window_height).velocity.y == (if ball.above_top() != ball.below_bottom(
            window_height,
        ) {
            -ball.velocity.y
        } else {
            ball.velocity.y
        }),
        ball.bounced(window_height).velocity.norm_sq() == ball.velocity.norm_sq(),
        ball.bounced(window_height).position == ball.position,
        ball.bounced(window_height).radius == ball.radius,
{
    let v = ball.velocity;
    lemma_wall_reflection_flips_normal_component(v);
    lemma_wall_reflection_flips_normal_component(Vector { x: v.x, y: -v.y });
    assert((-v.y) * (-v.y) == v.y * v.y) by (nonlinear_arith);
}

/// The ball as the game stores it.
#[derive(Clone, Copy, Debug, PartialEq, Eq, Structural)]
pub struct Ball {
    pub position: Vec2,
    pub radius: i64,
    pub velocity: Vec2,
}

impl View for Ball {
    type V = BallView;

    open spec fn view(&self) -> BallView {
        BallView {
            position: self.position@,
            radius: self.radius as int,
            velocity: self.velocity@,
        }
    }
}

/// The ball as the renderer receives it.
#[derive(Clone, Copy, Debug, PartialEq, Eq, Structural)]
pub struct BallRaw {
    pub position: Vec2,
    pub radius: i64,
}

impl Ball {
    /// See [`BallView::wf`].
    pub open spec fn wf(self) -> bool {
        self@.wf()
    }

    /// Whether the ball is well formed.
    pub fn is_valid(&self) -> (ok: bool)
        ensures
            ok == self.wf(),
    {
        self.position.is_in_range() && 0 < self.radius && self.radius <= LIMIT
            && self.velocity.is_in_range()
    }

    /// A ball at `position` with the starting velocity.
    pub fn new(position: Vec2, radius: i64) -> (ball: Ball)
        requires
            position.in_range(),
            0 < radius <= LIMIT,
        ensures
            ball.position == position,
            ball.radius == radius,
            ball.velocity.x == DEFAULT_BALL_VELOCITY_X,
            ball.velocity.y == DEFAULT_BALL_VELOCITY_Y,
            ball.wf(),
    {
        Ball {
            position,
            radius,
            velocity: Vec2 { x: DEFAULT_BALL_VELOCITY_X, y: DEFAULT_BALL_VELOCITY_Y },
        }
    }

    /// Moves the ball along its velocity for `delta_time`.
    pub fn update(&mut self, delta_time: i64)
        requires
            old(self).wf(),
        ensures
            final(self)@ == old(self)@.moved(delta_time as int),
            final(self).wf(),
    {
        let dx: i128 = mul_fixed_wide(self.velocity.x, delta_time);
        let dy: i128 = mul_fixed_wide(self.velocity.y, delta_time);
        let x: i64 = saturate_to(self.position.x as i128 + dx);
        let y: i64 = saturate_to(self.position.y as i128 + dy);
        self.position = Vec2 { x, y };
    }

    /// The wall check: turns the ball around where it reaches over the top
    /// wall or under the bottom wall of a window `window_height` whole units
    /// high.
    pub fn bounce_off_walls(&mut self, window_height: u32)
        requires
            old(self).wf(),
        ensures
            final(self)@ == old(self)@.bounced(window_height as int),
            final(self).wf(),
            final(self).position == old(self).position,
            final(self).radius == old(self).radius,
            final(self).velocity.x == old(self).velocity.x,
            final(self).velocity.y == (if old(self)@.above_top() != old(self)@.below_bottom(
                window_height as int,
            ) {
                -old(self).velocity.y
            } else {
                old(self).velocity.y as int
            }),
    {
        proof {
            lemma_bounced(self@, window_height as int);
            lemma_wall_reflection_flips_normal_component(self@.velocity);
        }
        if self.position.y - self.radius < 0 {
            let v: Vec2 = calculate_wall_reflection(self, Vec2::y_axis());
            self.velocity = v;
        }
        if self.position.y + self.radius > (window_height as i64) * UNIT {
            let v: Vec2 = calculate_wall_reflection(self, Vec2::neg_y_axis());
            self.velocity = v;
        }
    }

    /// Puts the ball back at `position` with the starting velocity, no
    /// faster than `max_speed`.
    pub fn reset(&mut self, position: Vec2, max_speed: i64)
        requires
            old(self).wf(),
            position.in_range(),
            0 <= max_speed <= LIMIT,
        ensures
            final(self).position == position,
            final(self).radius == old(self).radius,
            final(self).velocity@ == (Vector {
                x: DEFAULT_BALL_VELOCITY_X as int,
                y: DEFAULT_BALL_VELOCITY_Y as int,
            }).clamped(max_speed as int),
            final(self)@.speed_within(max_speed as int),
            final(self).wf(),
    {
        let v: Vec2 = Vec2 { x: DEFAULT_BALL_VELOCITY_X, y: DEFAULT_BALL_VELOCITY_Y };
        self.position = position;
        self.velocity = v.clamp_length_max(max_speed);
    }

    /// The ball's centre and radius, for the renderer.
    pub fn to_raw(&self) -> (raw: BallRaw)
        ensures
            raw.position == self.position,
            raw.radius == self.radius,
    {
        BallRaw { position: self.position, radius: self.radius }
    }
}

} // verus!
