//! The game: one ball, a roster of paddles, the keys that are held, the
//! window and the clock, advanced one frame at a time.
//!
//! A frame runs in a fixed order: every active paddle moves; every active
//! paddle is tested against the ball, and where it is struck the ball's
//! velocity is replaced (a later paddle overwrites an earlier one); the ball
//! is tested against the top and the bottom wall; the ball moves.

use std::collections::HashSet;
use vstd::prelude::*;
use crate::ball::{lemma_bounced, Ball, BallRaw, BallView};
use crate::collision::{
    calculate_reflection, collision_normal, lemma_reflection_within_max_speed,
    reflection_velocity,
};
use crate::config::{
    Config, DEFAULT_BALL_RADIUS, DEFAULT_BALL_VELOCITY_X, DEFAULT_BALL_VELOCITY_Y,
    DEFAULT_PADDLE_HEIGHT, DEFAULT_PADDLE_WIDTH, DEFAULT_PADDLE_X, KEY_S, KEY_W, PADDLE_SLOTS,
};
use crate::fixed::UNIT;
use crate::paddle::{
    lemma_updated_keeps_column, lemma_updated_zero_delta, Paddle, PaddleRaw, PaddleView,
};
use crate::vector::{Vec2, Vector};

verus! {

/// Width and height of the window in whole units.
#[derive(Clone, Copy, Debug, PartialEq, Eq, Structural)]
pub struct WindowSize {
    pub width: u32,
    pub height: u32,
}

/// A key going down or coming up.
#[derive(Clone, Copy, Debug, PartialEq, Eq, Structural)]
pub enum KeyEvent {
    Pressed(u32),
    Released(u32),
}

/// What the renderer receives after a frame.
#[derive(Clone, Copy, Debug, PartialEq, Eq)]
pub struct Snapshot {
    pub ball: BallRaw,
    pub paddles: [PaddleRaw; 8],
}

/// What a [`GameState`] stands for.
pub struct GameStateView {
    pub start_time: int,
    pub last_update: int,
    pub pressed_keys: Set<u32>,
    pub paddles: Seq<PaddleView>,
    pub ball: BallView,
    pub window_size: WindowSize,
    pub config: Config,
}

/// The ball's velocity after the first `count` paddles of the roster have
/// been tested against it in order.  An inactive paddle and a paddle that
/// the ball does not touch leave the velocity as it is; a paddle that the
/// ball strikes replaces it.
pub open spec fn velocity_after_paddles(
    paddles: Seq<PaddleView>,
    ball: BallView,
    config: Config,
    count: int,
) -> Vector
    decreases count,
{
    if count <= 0 {
        ball.velocity
    } else {
        let before = velocity_after_paddles(paddles, ball, config, count - 1);
        let paddle = paddles[count - 1];
        if paddle.active {
            match collision_normal(paddle.corners(), ball.position, ball.radius, config.mode) {
                Some(normal) => reflection_velocity(
                    normal,
                    BallView { velocity: before, ..ball },
                    paddle,
                    config,
                ),
                None => before,
            }
        } else {
            before
        }
    }
}

/// Time from `last` to `now` as a frame's duration: nothing where the clock
/// ran backwards, and no more than the largest duration that can be stored.
pub open spec fn elapsed(last: u64, now: u64) -> int {
    if now <= last {
        0
    } else if now - last > i64::MAX {
        i64::MAX as int
    } else {
        now - last
    }
}

impl GameStateView {
    /// The roster is full, and the ball, every paddle and the configuration
    /// are well formed.
    pub open spec fn wf(self) -> bool {
        &&& self.paddles.len() == PADDLE_SLOTS
        &&& forall|i: int| 0 <= i < self.paddles.len() ==> (#[trigger] self.paddles[i]).wf()
        &&& self.ball.wf()
        &&& self.config.wf()
        &&& 0 <= self.start_time <= u64::MAX
        &&& 0 <= self.last_update <= u64::MAX
    }

    /// The state in which a game starts in a window of the given size: the
    /// ball in the middle of the window with the starting velocity, no faster
    /// than the configured maximum; one active paddle near the left edge,
    /// half-way down; the other slots empty; no key held.
    pub open spec fn initial(window_size: WindowSize, config: Config, now: int) -> GameStateView {
        GameStateView {
            start_time: now,
            last_update: now,
            pressed_keys: Set::empty(),
            paddles: Seq::new(
                PADDLE_SLOTS as nat,
                |i: int|
                    if i == 0 {
                        PaddleView {
                            position: Vector {
                                x: DEFAULT_PADDLE_X as int,
                                y: window_size.height * UNIT / 2,
                            },
                            rotation: 0,
                            width: DEFAULT_PADDLE_WIDTH as int,
                            height: DEFAULT_PADDLE_HEIGHT as int,
                            active: true,
                            direction: Vector::zero(),
                            up: KEY_W,
                            down: KEY_S,
                            rotate_plus: None,
                            rotate_minus: None,
                        }
                    } else {
                        PaddleView {
                            position: Vector::zero(),
                            rotation: 0,
                            width: 0,
                            height: 0,
                            active: false,
                            direction: Vector::zero(),
                            up: 0,
                            down: 0,
                            rotate_plus: None,
                            rotate_minus: None,
                        }
                    },
            ),
            ball: BallView {
                position: Vector {
                    x: window_size.width * UNIT / 2,
                    y: window_size.height * UNIT / 2,
                },
                radius: DEFAULT_BALL_RADIUS as int,
                velocity: (Vector {
                    x: DEFAULT_BALL_VELOCITY_X as int,
                    y: DEFAULT_BALL_VELOCITY_Y as int,
                }).clamped(config.max_speed as int),
            },
            window_size,
            config,
        }
    }

    /// The roster after every active paddle has moved for `delta_time`.
    pub open spec fn paddles_updated(self, delta_time: int) -> Seq<PaddleView> {
        Seq::new(
            self.paddles.len(),
            |i: int|
                if self.paddles[i].active {
                    self.paddles[i].updated(
                        delta_time,
                        self.pressed_keys,
                        self.window_size.height as int,
                        self.config,
                    )
                } else {
                    self.paddles[i]
                },
        )
    }

    /// The state one frame of `delta_time` later.
    pub open spec fn stepped(self, delta_time: int) -> GameStateView {
        let paddles = self.paddles_updated(delta_time);
        let struck = BallView {
            velocity: velocity_after_paddles(
                paddles,
                self.ball,
                self.config,
                paddles.len() as int,
            ),
            ..self.ball
        };
        GameStateView {
            paddles,
            ball: struck.bounced(self.window_size.height as int).moved(delta_time),
            ..self
        }
    }

    /// No active paddle touches the ball, and the ball reaches past neither
    /// wall.
    pub open spec fn ball_is_free(self) -> bool {
        &&& forall|i: int|
            0 <= i < self.paddles.len() && (#[trigger] self.paddles[i]).active
                ==> collision_normal(
                self.paddles[i].corners(),
                self.ball.position,
                self.ball.radius,
                self.config.mode,
            ) is None
        &&& !self.ball.above_top()
        &&& !self.ball.below_bottom(self.window_size.height as int)
    }

    /// Every active paddle stands between the walls.
    pub open spec fn paddles_within_bounds(self) -> bool {
        forall|i: int|
            0 <= i < self.paddles.len() && (#[trigger] self.paddles[i]).active
                ==> self.paddles[i].within_bounds(self.window_size.height as int)
    }
}

/// However many paddles are struck, a ball that was no faster than the
/// configured maximum before is no faster after.
pub proof fn lemma_velocity_after_paddles_within_max_speed(
    paddles: Seq<PaddleView>,
    ball: BallView,
    config: Config,
    count: int,
)
    requires
        config.max_speed >= 0,
        ball.speed_within(config.max_speed as int),
    ensures
        velocity_after_paddles(paddles, ball, config, count).norm_sq() <= config.max_speed
            * config.max_speed,
    decreases count,
{
    if count > 0 {
        lemma_velocity_after_paddles_within_max_speed(paddles, ball, config, count - 1);
        let before = velocity_after_paddles(paddles, ball, config, count - 1);
        let paddle = paddles[count - 1];
        match collision_normal(paddle.corners(), ball.position, ball.radius, config.mode) {
            Some(normal) => {
                lemma_reflection_within_max_speed(
                    normal,
                    BallView { velocity: before, ..ball },
                    paddle,
                    config,
                );
            },
            None => {},
        }
    }
}

/// Where no active paddle among the first `count` touches the ball, the
/// ball's velocity is not changed by them.
pub proof fn lemma_velocity_after_paddles_untouched(
    paddles: Seq<PaddleView>,
    ball: BallView,
    config: Config,
    count: int,
)
    requires
        forall|i: int|
            0 <= i < count && (#[trigger] paddles[i]).active ==> collision_normal(
                paddles[i].corners(),
                ball.position,
                ball.radius,
                config.mode,
            ) is None,
    ensures
        velocity_after_paddles(paddles, ball, config, count) == ball.velocity,
    decreases count,
{
    if count > 0 {
        lemma_velocity_after_paddles_untouched(paddles, ball, config, count - 1);
        assert(paddles[count - 1].active ==> collision_normal(
            paddles[count - 1].corners(),
            ball.position,
            ball.radius,
            config.mode,
        ) is None);
    }
}

/// A ball that is no faster than the configured maximum stays so through
/// every frame, whatever the frame's duration and whatever it strikes.
pub proof fn lemma_stepped_keeps_speed_limit(state: GameStateView, delta_time: int)
    requires
        state.config.max_speed >= 0,
        state.ball.speed_within(state.config.max_speed as int),
    ensures
        state.stepped(delta_time).ball.speed_within(state.config.max_speed as int),
{
    let paddles = state.paddles_updated(delta_time);
    lemma_velocity_after_paddles_within_max_speed(
        paddles,
        state.ball,
        state.config,
        paddles.len() as int,
    );
    let struck = BallView {
        velocity: velocity_after_paddles(paddles, state.ball, state.config, paddles.len() as int),
        ..state.ball
    };
    lemma_bounced(struck, state.window_size.height as int);
}

/// After a frame every active paddle that the window is high enough to hold
/// stands between the walls, wherever it stood before and whatever keys are
/// held.
pub proof fn lemma_stepped_paddles_within_bounds(state: GameStateView, delta_time: int)
    ensures
        forall|i: int|
            0 <= i < state.paddles.len() && (#[trigger] state.paddles[i]).active
                && state.paddles[i].lowest() <= state.paddles[i].highest(
                state.window_size.height as int,
            ) ==> state.stepped(delta_time).paddles[i].within_bounds(
                state.window_size.height as int,
            ),
{
}

/// A frame touches nothing but the ball and the active paddles: the empty
/// slots, the held keys, the window, the configuration and the clock stay as
/// they are, and so do the ball's radius and every paddle's size, bindings
/// and column.
pub proof fn lemma_stepped_leaves_the_rest(state: GameStateView, delta_time: int)
    requires
        state.wf(),
    ensures
        state.stepped(delta_time).pressed_keys == state.pressed_keys,
        state.stepped(delta_time).window_size == state.window_size,
        state.stepped(delta_time).config == state.config,
        state.stepped(delta_time).start_time == state.start_time,
        state.stepped(delta_time).last_update == state.last_update,
        state.stepped(delta_time).ball.radius == state.ball.radius,
        state.stepped(delta_time).paddles.len() == state.paddles.len(),
        forall|i: int|
            0 <= i < state.paddles.len() && !(#[trigger] state.paddles[i]).active
                ==> state.stepped(delta_time).paddles[i] == state.paddles[i],
        forall|i: int|
            0 <= i < state.paddles.len() ==> {
                let before = #[trigger] state.paddles[i];
                let after = state.stepped(delta_time).paddles[i];
                &&& after.active == before.active
                &&& after.width == before.width
                &&& after.height == before.height
                &&& after.up == before.up
                &&& after.down == before.down
                &&& after.rotate_plus == before.rotate_plus
                &&& after.rotate_minus == before.rotate_minus
                &&& after.position.x == before.position.x
            },
{
    assert forall|i: int| 0 <= i < state.paddles.len() implies state.stepped(
        delta_time,
    ).paddles[i].position.x == (#[trigger] state.paddles[i]).position.x by {
        if state.paddles[i].active {
            lemma_updated_keeps_column(
                state.paddles[i],
                delta_time,
                state.pressed_keys,
                state.window_size.height as int,
                state.config,
            );
        }
    }
}

/// A frame of no duration moves neither the ball nor a paddle that stands
/// between the walls, and where the ball is free (touched by no active
/// paddle, past neither wall) it leaves the ball's velocity alone as well.
pub proof fn lemma_zero_delta_changes_nothing(state: GameStateView)
    requires
        state.wf(),
    ensures
        state.stepped(0).ball.position == state.ball.position,
        state.stepped(0).ball.radius == state.ball.radius,
        forall|i: int|
            0 <= i < state.paddles.len() && (!(#[trigger] state.paddles[i]).active
                || state.paddles[i].within_bounds(state.window_size.height as int)) ==> {
                &&& state.stepped(0).paddles[i].position == state.paddles[i].position
                &&& state.stepped(0).paddles[i].rotation == state.paddles[i].rotation
            },
        state.paddles_within_bounds() && state.ball_is_free() ==> state.stepped(0).ball
            == state.ball,
{
    let paddles = state.paddles_updated(0);
    let height = state.window_size.height as int;
    let struck = BallView {
        velocity: velocity_after_paddles(paddles, state.ball, state.config, paddles.len() as int),
        ..state.ball
    };
    lemma_bounced(struck, height);
    let bounced = struck.bounced(height);
    assert(bounced.velocity.x * 0 == 0 && bounced.velocity.y * 0 == 0) by (nonlinear_arith);
    assert forall|i: int|
        0 <= i < state.paddles.len() && (!(#[trigger] state.paddles[i]).active
            || state.paddles[i].within_bounds(height)) implies {
        &&& paddles[i].position == state.paddles[i].position
        &&& paddles[i].rotation == state.paddles[i].rotation
    } by {
        if state.paddles[i].active {
            lemma_updated_zero_delta(state.paddles[i], state.pressed_keys, height, state.config);
        }
    }
    if state.paddles_within_bounds() && state.ball_is_free() {
        assert forall|i: int|
            0 <= i < paddles.len() && (#[trigger] paddles[i]).active implies collision_normal(
            paddles[i].corners(),
            state.ball.position,
            state.ball.radius,
            state.config.mode,
        ) is None by {
            assert(state.paddles[i].active);
            assert(paddles[i].corners() =~= state.paddles[i].corners());
        }
        lemma_velocity_after_paddles_untouched(
            paddles,
            state.ball,
            state.config,
            paddles.len() as int,
        );
    }
}

/// The game as it is stored.
pub struct GameState {
    /// When the game started or was last reset, in thousandths of a second.
    pub start_time: u64,
    /// When the last frame was computed, in thousandths of a second.
    pub last_update: u64,
    /// The keys that are held.
    pub pressed_keys: HashSet<u32>,
    /// The roster: active paddles and empty slots.
    pub paddles: [Paddle; 8],
    pub ball: Ball,
    pub window_size: WindowSize,
    pub config: Config,
}

impl View for GameState {
    type V = GameStateView;

    open spec fn view(&self) -> GameStateView {
        GameStateView {
            start_time: self.start_time as int,
            last_update: self.last_update as int,
            pressed_keys: self.pressed_keys@,
            paddles: Seq::new(PADDLE_SLOTS as nat, |i: int| self.paddles[i]@),
            ball: self.ball@,
            window_size: self.window_size,
            config: self.config,
        }
    }
}

impl GameState {
    /// See [`GameStateView::wf`].
    pub open spec fn wf(&self) -> bool {
        self@.wf()
    }

    /// Whether the state is well formed.  Every function of the game keeps a
    /// well-formed state well formed; only a write to a field can break it.
    pub fn is_valid(&self) -> (ok: bool)
        ensures
            ok == self.wf(),
    {
        if !self.ball.is_valid() || !self.config.is_valid() {
            return false;
        }
        let mut i: usize = 0;
        while i < PADDLE_SLOTS
            invariant
                0 <= i <= PADDLE_SLOTS,
                self.ball.wf(),
                self.config.wf(),
                forall|j: int| 0 <= j < i ==> (#[trigger] self@.paddles[j]).wf(),
            decreases PADDLE_SLOTS - i,
        {
            if !self.paddles[i].is_valid() {
                assert(!self@.paddles[i as int].wf());
                return false;
            }
            assert(self@.paddles[i as int].wf());
            i += 1;
        }
        true
    }

    /// A game in a window of the given size, with the starting
    /// configuration and the clock at zero.
    pub fn new(window_width: u32, window_height: u32) -> (state: GameState)
        ensures
            state@ == GameStateView::initial(
                WindowSize { width: window_width, height: window_height },
                Config::default_spec(),
                0,
            ),
            state.wf(),
            state@.ball.speed_within(state.config.max_speed as int),
    {
        GameState::with_config(
            WindowSize { width: window_width, height: window_height },
            Config::new(),
            0,
        )
    }

    /// A game in a window of the given size, with the given configuration,
    /// started at the time `now`.
    pub fn with_config(window_size: WindowSize, config: Config, now: u64) -> (state: GameState)
        requires
            config.wf(),
        ensures
            state@ == GameStateView::initial(window_size, config, now as int),
            state.wf(),
            state@.ball.speed_within(config.max_speed as int),
    {
        let center_x: i64 = (window_size.width as i64) * UNIT / 2;
        let center_y: i64 = (window_size.height as i64) * UNIT / 2;
        let mut ball: Ball = Ball::new(Vec2 { x: center_x, y: center_y }, DEFAULT_BALL_RADIUS);
        ball.velocity = ball.velocity.clamp_length_max(config.max_speed);
        let first: Paddle = Paddle::new(
            Vec2 { x: DEFAULT_PADDLE_X, y: center_y },
            KEY_W,
            KEY_S,
            DEFAULT_PADDLE_WIDTH,
            DEFAULT_PADDLE_HEIGHT,
            true,
            0,
        );
        let paddles: [Paddle; 8] = [
            first,
            Paddle::default(),
            Paddle::default(),
            Paddle::default(),
            Paddle::default(),
            Paddle::default(),
            Paddle::default(),
            Paddle::default(),
        ];
        let state = GameState {
            start_time: now,
            last_update: now,
            pressed_keys: HashSet::new(),
            paddles,
            ball,
            window_size,
            config,
        };
        proof {
            let expected = GameStateView::initial(window_size, config, now as int);
            assert(state@.paddles =~= expected.paddles);
            assert(state@.pressed_keys =~= expected.pressed_keys);
        }
        state
    }

    /// Records a key going down or coming up.  A key that no paddle is bound
    /// to is recorded like any other, and moves nothing.
    pub fn apply_input(&mut self, event: KeyEvent)
        ensures
            final(self)@ == (GameStateView {
                pressed_keys: match event {
                    KeyEvent::Pressed(key) => old(self)@.pressed_keys.insert(key),
                    KeyEvent::Released(key) => old(self)@.pressed_keys.remove(key),
                },
                ..old(self)@
            }),
    {
        match event {
            KeyEvent::Pressed(key) => {
                self.pressed_keys.insert(key);
            },
            KeyEvent::Released(key) => {
                self.pressed_keys.remove(&key);
            },
        }
    }

    /// Takes over a new window size.  A size with a zero side, as a
    /// minimized window reports it, is ignored.
    pub fn resize(&mut self, width: u32, height: u32)
        ensures
            final(self)@ == (GameStateView {
                window_size: if width > 0 && height > 0 {
                    WindowSize { width, height }
                } else {
                    old(self).window_size
                },
                ..old(self)@
            }),
    {
        if width > 0 && height > 0 {
            self.window_size = WindowSize { width, height };
        }
    }

    /// Whether the reset key is held.
    pub fn reset_requested(&self) -> (requested: bool)
        ensures
            requested == self@.pressed_keys.contains(self.config.reset_key),
    {
        self.pressed_keys.contains(&self.config.reset_key)
    }

    /// Throws the state away and starts again in the same window, with the
    /// same configuration, at the time of the last frame.
    pub fn reset(&mut self)
        requires
            old(self).config.wf(),
        ensures
            final(self)@ == GameStateView::initial(
                old(self).window_size,
                old(self).config,
                old(self).last_update as int,
            ),
            final(self).wf(),
            final(self)@.ball.speed_within(final(self).config.max_speed as int),
    {
        *self = GameState::with_config(self.window_size, self.config, self.last_update);
    }

    /// Resets the game if the reset key is held, and says whether it did.
    pub fn handle_reset(&mut self) -> (did_reset: bool)
        requires
            old(self).config.wf(),
        ensures
            did_reset == old(self)@.pressed_keys.contains(old(self).config.reset_key),
            did_reset ==> final(self)@ == GameStateView::initial(
                old(self).window_size,
                old(self).config,
                old(self).last_update as int,
            ),
            !did_reset ==> final(self)@ == old(self)@,
            old(self).wf() ==> final(self).wf(),
    {
        if self.reset_requested() {
            self.reset();
            true
        } else {
            false
        }
    }

    /// First step of a frame: moves every active paddle for `delta_time`.
    pub fn update_paddles(&mut self, delta_time: i64)
        requires
            old(self).wf(),
        ensures
            final(self)@ == (GameStateView {
                paddles: old(self)@.paddles_updated(delta_time as int),
                ..old(self)@
            }),
            final(self).wf(),
    {
        let ghost before = self@;
        let ghost target = self@.paddles_updated(delta_time as int);
        assert forall|j: int| 0 <= j < PADDLE_SLOTS implies (#[trigger] self.paddles[j]).wf() by {
            assert(before.paddles[j].wf());
        }
        let mut i: usize = 0;
        while i < PADDLE_SLOTS
            invariant
                0 <= i <= PADDLE_SLOTS,
                before.wf(),
                before == old(self)@,
                target == before.paddles_updated(delta_time as int),
                self@.pressed_keys == before.pressed_keys,
                self.window_size == before.window_size,
                self.config == before.config,
                self.ball == old(self).ball,
                self.start_time == old(self).start_time,
                self.last_update == old(self).last_update,
                forall|j: int| 0 <= j < i ==> (#[trigger] self.paddles[j])@ == target[j],
                forall|j: int|
                    i <= j < PADDLE_SLOTS ==> (#[trigger] self.paddles[j])@ == before.paddles[j],
                forall|j: int| 0 <= j < PADDLE_SLOTS ==> (#[trigger] self.paddles[j]).wf(),
            decreases PADDLE_SLOTS - i,
        {
            let mut paddle: Paddle = self.paddles[i];
            assert(paddle@ == before.paddles[i as int]);
            if paddle.active {
                paddle.update(
                    delta_time,
                    &self.pressed_keys,
                    self.window_size.height,
                    &self.config,
                );
                self.paddles[i] = paddle;
            }
            i += 1;
        }
        assert(self@.paddles =~= target);
    }

    /// Second step of a frame: tests every active paddle against the ball,
    /// in roster order, and replaces the ball's velocity wherever a paddle
    /// is struck.
    pub fn collide_with_paddles(&mut self)
        requires
            old(self).wf(),
        ensures
            final(self)@ == (GameStateView {
                ball: BallView {
                    velocity: velocity_after_paddles(
                        old(self)@.paddles,
                        old(self)@.ball,
                        old(self).config,
                        PADDLE_SLOTS as int,
                    ),
                    ..old(self)@.ball
                },
                ..old(self)@
            }),
            final(self).wf(),
    {
        let ghost before = self@;
        let mut i: usize = 0;
        while i < PADDLE_SLOTS
            invariant
                0 <= i <= PADDLE_SLOTS,
                before.wf(),
                before == old(self)@,
                self.wf(),
                self@ == (GameStateView {
                    ball: BallView {
                        velocity: velocity_after_paddles(
                            before.paddles,
                            before.ball,
                            before.config,
                            i as int,
                        ),
                        ..before.ball
                    },
                    ..before
                }),
            decreases PADDLE_SLOTS - i,
        {
            let paddle: Paddle = self.paddles[i];
            assert(paddle@ == before.paddles[i as int]);
            if paddle.active {
                match paddle.check_intersection(&self.ball, self.config.mode) {
                    Some(normal) => {
                        let v: Vec2 = calculate_reflection(
                            normal,
                            &self.ball,
                            &paddle,
                            &self.config,
                        );
                        self.ball.velocity = v;
                    },
                    None => {},
                }
            }
            i += 1;
        }
    }

    /// Advances the game by one frame of `delta_time`.
    ///
    /// Besides the new state this promises what holds of every frame: the
    /// active paddles end between the walls, a ball within the speed limit
    /// stays within it, and a frame of no duration moves nothing.
    pub fn update(&mut self, delta_time: i64)
        requires
            old(self).wf(),
        ensures
            final(self)@ == old(self)@.stepped(delta_time as int),
            final(self).wf(),
            forall|i: int|
                0 <= i < PADDLE_SLOTS && (#[trigger] old(self)@.paddles[i]).active
                    && old(self)@.paddles[i].lowest() <= old(self)@.paddles[i].highest(
                    old(self).window_size.height as int,
                ) ==> final(self)@.paddles[i].within_bounds(old(self).window_size.height as int),
            old(self)@.ball.speed_within(old(self).config.max_speed as int)
                ==> final(self)@.ball.speed_within(old(self).config.max_speed as int),
            delta_time == 0 ==> final(self)@.ball.position == old(self)@.ball.position,
            delta_time == 0 && old(self)@.paddles_within_bounds() && old(self)@.ball_is_free()
                ==> final(self)@.ball == old(self)@.ball && forall|i: int|
                0 <= i < PADDLE_SLOTS ==> (#[trigger] final(self)@.paddles[i]).position
                    == old(self)@.paddles[i].position && final(self)@.paddles[i].rotation
                    == old(self)@.paddles[i].rotation,
    {
        proof {
            let before = self@;
            lemma_stepped_paddles_within_bounds(before, delta_time as int);
            if before.ball.speed_within(self.config.max_speed as int) {
                lemma_stepped_keeps_speed_limit(before, delta_time as int);
            }
            if delta_time == 0 {
                lemma_zero_delta_changes_nothing(before);
            }
        }
        self.update_paddles(delta_time);
        self.collide_with_paddles();
        self.ball.bounce_off_walls(self.window_size.height);
        self.ball.update(delta_time);
    }

    /// One whole frame: advances the game by `delta_time` and reports what
    /// the renderer is to draw.
    pub fn advance(&mut self, delta_time: i64) -> (snapshot: Snapshot)
        requires
            old(self).wf(),
        ensures
            final(self)@ == old(self)@.stepped(delta_time as int),
            final(self).wf(),
            snapshot.ball.position == final(self).ball.position,
            snapshot.ball.radius == final(self).ball.radius,
            forall|i: int|
                0 <= i < PADDLE_SLOTS ==> (#[trigger] snapshot.paddles[i]).shows(
                    final(self)@.paddles[i],
                ),
    {
        self.update(delta_time);
        self.snapshot()
    }

    /// Advances the game to the time `now`: one frame as long as the time
    /// since the last one.  A clock that ran backwards gives a frame of no
    /// duration.
    pub fn tick(&mut self, now: u64)
        requires
            old(self).wf(),
        ensures
            final(self)@ == (GameStateView {
                last_update: now as int,
                ..old(self)@.stepped(elapsed(old(self).last_update, now))
            }),
            final(self).wf(),
    {
        let delta_time: i64 = if now <= self.last_update {
            0
        } else if now - self.last_update > i64::MAX as u64 {
            i64::MAX
        } else {
            (now - self.last_update) as i64
        };
        self.update(delta_time);
        self.last_update = now;
    }

    /// What the renderer is to draw: the ball, and every slot of the roster
    /// with its corners and its active flag.
    pub fn snapshot(&self) -> (snapshot: Snapshot)
        requires
            self.wf(),
        ensures
            snapshot.ball.position == self.ball.position,
            snapshot.ball.radius == self.ball.radius,
            forall|i: int|
                0 <= i < PADDLE_SLOTS ==> (#[trigger] snapshot.paddles[i]).shows(
                    self@.paddles[i],
                ),
    {
        let blank: PaddleRaw = PaddleRaw {
            a: Vec2 { x: 0, y: 0 },
            b: Vec2 { x: 0, y: 0 },
            c: Vec2 { x: 0, y: 0 },
            d: Vec2 { x: 0, y: 0 },
            active: 0,
        };
        let mut paddles: [PaddleRaw; 8] = [blank; 8];
        let mut i: usize = 0;
        while i < PADDLE_SLOTS
            invariant
                0 <= i <= PADDLE_SLOTS,
                self.wf(),
                forall|j: int| 0 <= j < i ==> (#[trigger] paddles[j]).shows(self@.paddles[j]),
            decreases PADDLE_SLOTS - i,
        {
            assert(self@.paddles[i as int].wf());
            let raw: PaddleRaw = self.paddles[i].to_raw();
            paddles[i] = raw;
            i += 1;
        }
        Snapshot { ball: self.ball.to_raw(), paddles }
    }
}

} // verus!
