//! The collision resolver: a separating-axis test between an oriented
//! rectangle and a circle, and the velocity that a ball leaves a paddle or a
//! wall with.
//!
//! The test tries the two edge directions of the rectangle and, in the
//! corner-inclusive mode, the axis from the ball's centre to the nearest
//! corner.  An axis of no length cannot be normalized and is skipped.  If the
//! shapes' shadows on some tried axis do not overlap, the shapes are apart;
//! otherwise the tried axis on which the shadows overlap least gives the
//! collision normal.

use vstd::math::{max, min};
use vstd::prelude::*;
use crate::ball::{Ball, BallView};
use crate::config::{CollisionMode, Config};
use crate::fixed::{
    div_toward_zero, lemma_mul_bounded, lemma_quotient_magnitude, mul_fixed, saturate,
    saturate_to, LIMIT, UNIT,
};
use crate::paddle::{lemma_upright_corners, Paddle, PaddleView};
use crate::vector::{
    lemma_along_axis, lemma_clamped_at_most_max, lemma_normalized_along_axis,
    lemma_normalized_is_nearly_unit, Vec2, Vector,
};

verus! {

/// First edge direction of the rectangle: from corner 0 to corner 1.
pub open spec fn first_edge_axis(corners: Seq<Vector>) -> Vector {
    corners[1].minus(corners[0])
}

/// Second edge direction of the rectangle: from corner 0 to corner 3.
pub open spec fn second_edge_axis(corners: Seq<Vector>) -> Vector {
    corners[3].minus(corners[0])
}

/// Squared distance between two points.
pub open spec fn distance_sq(a: Vector, b: Vector) -> int {
    a.minus(b).norm_sq()
}

/// Index of the corner nearest to `center`; among equally near corners, the
/// first.
pub open spec fn nearest_corner(corners: Seq<Vector>, center: Vector) -> int {
    let first = if distance_sq(corners[1], center) < distance_sq(corners[0], center) {
        1int
    } else {
        0int
    };
    let second = if distance_sq(corners[2], center) < distance_sq(corners[first], center) {
        2int
    } else {
        first
    };
    if distance_sq(corners[3], center) < distance_sq(corners[second], center) {
        3int
    } else {
        second
    }
}

/// The nearest corner is a corner, no corner is nearer, and every corner
/// before it is farther.
pub proof fn lemma_nearest_corner(corners: Seq<Vector>, center: Vector)
    ensures
        0 <= nearest_corner(corners, center) < 4,
        forall|j: int|
            0 <= j < 4 ==> distance_sq(corners[nearest_corner(corners, center)], center)
                <= distance_sq(#[trigger] corners[j], center),
        forall|j: int|
            0 <= j < nearest_corner(corners, center) ==> distance_sq(
                corners[nearest_corner(corners, center)],
                center,
            ) < distance_sq(#[trigger] corners[j], center),
{
}

/// The axis from the ball's centre to the nearest corner.
pub open spec fn corner_axis(corners: Seq<Vector>, center: Vector) -> Vector {
    corners[nearest_corner(corners, center)].minus(center)
}

/// The axes that the test tries, in the order in which it tries them.
pub open spec fn candidate_axes(corners: Seq<Vector>, center: Vector, mode: CollisionMode) -> Seq<
    Vector,
> {
    match mode {
        CollisionMode::CornerInclusive => seq![
            first_edge_axis(corners),
            second_edge_axis(corners),
            corner_axis(corners, center),
        ],
        CollisionMode::EdgeAxesOnly => seq![first_edge_axis(corners), second_edge_axis(corners)],
    }
}

/// Low end of the rectangle's shadow on the unit axis `n`.
pub open spec fn rect_min(corners: Seq<Vector>, n: Vector) -> int {
    min(
        min(corners[0].along(n), corners[1].along(n)),
        min(corners[2].along(n), corners[3].along(n)),
    )
}

/// High end of the rectangle's shadow on the unit axis `n`.
pub open spec fn rect_max(corners: Seq<Vector>, n: Vector) -> int {
    max(
        max(corners[0].along(n), corners[1].along(n)),
        max(corners[2].along(n), corners[3].along(n)),
    )
}

/// Low end of the circle's shadow on the unit axis `n`.
pub open spec fn circle_min(center: Vector, radius: int, n: Vector) -> int {
    center.along(n) - radius
}

/// High end of the circle's shadow on the unit axis `n`.
pub open spec fn circle_max(center: Vector, radius: int, n: Vector) -> int {
    center.along(n) + radius
}

/// The shadows of rectangle and circle on the unit axis `n` do not overlap.
/// Shadows that only touch do not overlap.
pub open spec fn separated_along(
    corners: Seq<Vector>,
    center: Vector,
    radius: int,
    n: Vector,
) -> bool {
    rect_min(corners, n) >= circle_max(center, radius, n) || circle_min(center, radius, n)
        >= rect_max(corners, n)
}

/// How far the shadows on the unit axis `n` overlap.
pub open spec fn penetration_along(
    corners: Seq<Vector>,
    center: Vector,
    radius: int,
    n: Vector,
) -> int {
    min(
        circle_max(center, radius, n) - rect_min(corners, n),
        rect_max(corners, n) - circle_min(center, radius, n),
    )
}

/// What the test finds on one axis.
pub enum AxisTest {
    /// The axis has no length and was not tried.
    Skipped,
    /// The shadows on the axis do not overlap.
    Separating,
    /// The shadows overlap by `depth` on the unit axis `normal`.
    Overlapping { normal: Vec2, depth: i64 },
}

/// What the test finds on one axis, over the mathematical integers.
pub enum AxisOutcome {
    Skipped,
    Separating,
    Overlapping { normal: Vector, depth: int },
}

impl View for AxisTest {
    type V = AxisOutcome;

    open spec fn view(&self) -> AxisOutcome {
        match *self {
            AxisTest::Skipped => AxisOutcome::Skipped,
            AxisTest::Separating => AxisOutcome::Separating,
            AxisTest::Overlapping { normal, depth } => AxisOutcome::Overlapping {
                normal: normal@,
                depth: depth as int,
            },
        }
    }
}

/// The outcome of trying `axis`.
pub open spec fn axis_outcome(
    corners: Seq<Vector>,
    center: Vector,
    radius: int,
    axis: Vector,
) -> AxisOutcome {
    match axis.normalized() {
        None => AxisOutcome::Skipped,
        Some(n) => if separated_along(corners, center, radius, n) {
            AxisOutcome::Separating
        } else {
            AxisOutcome::Overlapping {
                normal: n,
                depth: penetration_along(corners, center, radius, n),
            }
        },
    }
}

/// Index of the axis of least overlap among the first `count` axes: the
/// first of them, where several overlap equally little; nothing where
/// none of them overlaps.
pub open spec fn least_penetrating(
    axes: Seq<Vector>,
    corners: Seq<Vector>,
    center: Vector,
    radius: int,
    count: int,
) -> Option<int>
    decreases count,
{
    if count <= 0 {
        None
    } else {
        let earlier = least_penetrating(axes, corners, center, radius, count - 1);
        match axis_outcome(corners, center, radius, axes[count - 1]) {
            AxisOutcome::Overlapping { normal, depth } => match earlier {
                None => Some(count - 1),
                Some(k) => if depth < axis_outcome(
                    corners,
                    center,
                    radius,
                    axes[k],
                )->Overlapping_depth {
                    Some(count - 1)
                } else {
                    earlier
                },
            },
            _ => earlier,
        }
    }
}

/// One of the first `count` axes separates the shapes.
pub open spec fn any_separating(
    axes: Seq<Vector>,
    corners: Seq<Vector>,
    center: Vector,
    radius: int,
    count: int,
) -> bool {
    exists|i: int|
        0 <= i < count && #[trigger] axis_outcome(corners, center, radius, axes[i])
            is Separating
}

/// The collision normal between the rectangle with the given corners and
/// the circle, or nothing where they do not collide.
///
/// There is no collision where a tried axis separates the shapes, nor where
/// no axis could be tried.  Otherwise the normal is the unit vector of the
/// tried axis on which the shapes overlap least.
pub open spec fn collision_normal(
    corners: Seq<Vector>,
    center: Vector,
    radius: int,
    mode: CollisionMode,
) -> Option<Vector> {
    let axes = candidate_axes(corners, center, mode);
    if any_separating(axes, corners, center, radius, axes.len() as int) {
        None
    } else {
        match least_penetrating(axes, corners, center, radius, axes.len() as int) {
            None => None,
            Some(k) => Some(axis_outcome(corners, center, radius, axes[k])->Overlapping_normal),
        }
    }
}

/// Trying one axis more finds a separating axis exactly if one was found
/// before or the new axis separates.
proof fn lemma_any_separating_step(
    axes: Seq<Vector>,
    corners: Seq<Vector>,
    center: Vector,
    radius: int,
    count: int,
)
    requires
        0 <= count,
    ensures
        any_separating(axes, corners, center, radius, count + 1) <==> any_separating(
            axes,
            corners,
            center,
            radius,
            count,
        ) || axis_outcome(corners, center, radius, axes[count]) is Separating,
{
    if any_separating(axes, corners, center, radius, count + 1) {
        let i = choose|i: int|
            0 <= i < count + 1 && #[trigger] axis_outcome(corners, center, radius, axes[i])
                is Separating;
        if i < count {
            assert(any_separating(axes, corners, center, radius, count));
        }
    }
    if any_separating(axes, corners, center, radius, count) {
        let i = choose|i: int|
            0 <= i < count && #[trigger] axis_outcome(corners, center, radius, axes[i])
                is Separating;
        assert(0 <= i < count + 1);
    }
    if axis_outcome(corners, center, radius, axes[count]) is Separating {
        assert(0 <= count < count + 1);
    }
}

/// What the executable test holds after `count` axes, none of which
/// separated: nothing where none overlapped, else the unit axis of least
/// overlap and its depth.
spec fn tracks_least(
    best: Option<(Vec2, i64)>,
    axes: Seq<Vector>,
    corners: Seq<Vector>,
    center: Vector,
    radius: int,
    count: int,
) -> bool {
    match best {
        None => least_penetrating(axes, corners, center, radius, count) is None,
        Some((n, d)) => {
            &&& n@.within(UNIT as int)
            &&& least_penetrating(axes, corners, center, radius, count) matches Some(k)
            &&& 0 <= k < count
            &&& axis_outcome(corners, center, radius, axes[k]) == (AxisOutcome::Overlapping {
                normal: n@,
                depth: d as int,
            })
        },
    }
}

/// What the executable test holds after one more axis, from what it held
/// before and the outcome on the new axis.
spec fn keep_least_spec(best: Option<(Vec2, i64)>, outcome: AxisTest) -> Option<
    (Vec2, i64),
> {
    match outcome {
        AxisTest::Overlapping { normal, depth } => match best {
            None => Some((normal, depth)),
            Some((_, least)) => if depth < least {
                Some((normal, depth))
            } else {
                best
            },
        },
        _ => best,
    }
}

proof fn lemma_tracks_least_step(
    best: Option<(Vec2, i64)>,
    outcome: AxisTest,
    axes: Seq<Vector>,
    corners: Seq<Vector>,
    center: Vector,
    radius: int,
    count: int,
)
    requires
        0 <= count,
        tracks_least(best, axes, corners, center, radius, count),
        outcome@ == axis_outcome(corners, center, radius, axes[count]),
        outcome matches AxisTest::Overlapping { normal, depth } ==> normal@.within(UNIT as int),
    ensures
        tracks_least(keep_least_spec(best, outcome), axes, corners, center, radius, count + 1),
{
    assert(least_penetrating(axes, corners, center, radius, count + 1) == {
        let earlier = least_penetrating(axes, corners, center, radius, count);
        match axis_outcome(corners, center, radius, axes[count]) {
            AxisOutcome::Overlapping { normal, depth } => match earlier {
                None => Some(count),
                Some(k) => if depth < axis_outcome(
                    corners,
                    center,
                    radius,
                    axes[k],
                )->Overlapping_depth {
                    Some(count)
                } else {
                    earlier
                },
            },
            _ => earlier,
        }
    });
}

/// The axis of least overlap is one of the axes on which the shapes
/// overlap, none of them overlaps less, every one before it overlaps more,
/// and it is missing exactly if the shapes overlap on none.
pub proof fn lemma_least_penetrating(
    axes: Seq<Vector>,
    corners: Seq<Vector>,
    center: Vector,
    radius: int,
    count: int,
)
    requires
        0 <= count,
    ensures
        match least_penetrating(axes, corners, center, radius, count) {
            None => forall|j: int|
                0 <= j < count ==> !(#[trigger] axis_outcome(corners, center, radius, axes[j])
                    is Overlapping),
            Some(k) => {
                &&& 0 <= k < count
                &&& axis_outcome(corners, center, radius, axes[k]) is Overlapping
                &&& forall|j: int|
                    0 <= j < count && #[trigger] axis_outcome(corners, center, radius, axes[j])
                        is Overlapping ==> axis_outcome(
                        corners,
                        center,
                        radius,
                        axes[k],
                    )->Overlapping_depth <= axis_outcome(
                        corners,
                        center,
                        radius,
                        axes[j],
                    )->Overlapping_depth
                &&& forall|j: int|
                    0 <= j < k && #[trigger] axis_outcome(corners, center, radius, axes[j])
                        is Overlapping ==> axis_outcome(
                        corners,
                        center,
                        radius,
                        axes[k],
                    )->Overlapping_depth < axis_outcome(
                        corners,
                        center,
                        radius,
                        axes[j],
                    )->Overlapping_depth
            },
        },
    decreases count,
{
    if count > 0 {
        lemma_least_penetrating(axes, corners, center, radius, count - 1);
    }
}

/// There is an axis to try: a candidate that has a length.  A rectangle with
/// two distinct first corners always has one.
pub open spec fn some_axis_tried(
    corners: Seq<Vector>,
    center: Vector,
    mode: CollisionMode,
) -> bool {
    let axes = candidate_axes(corners, center, mode);
    exists|i: int| 0 <= i < axes.len() && #[trigger] axes[i] != Vector::zero()
}

/// Where there is an axis to try, the test reports no collision exactly if
/// one of the tried axes separates the shapes.  Where there is none, because
/// the rectangle has shrunk to a point on which the ball is centred, the test
/// reports no collision.
pub proof fn lemma_no_collision_iff_separated(
    corners: Seq<Vector>,
    center: Vector,
    radius: int,
    mode: CollisionMode,
)
    ensures
        some_axis_tried(corners, center, mode) ==> (collision_normal(
            corners,
            center,
            radius,
            mode,
        ) is None <==> any_separating(
            candidate_axes(corners, center, mode),
            corners,
            center,
            radius,
            candidate_axes(corners, center, mode).len() as int,
        )),
        !some_axis_tried(corners, center, mode) ==> collision_normal(
            corners,
            center,
            radius,
            mode,
        ) is None,
        first_edge_axis(corners) != Vector::zero() ==> some_axis_tried(corners, center, mode),
{
    let axes = candidate_axes(corners, center, mode);
    let count = axes.len() as int;
    lemma_least_penetrating(axes, corners, center, radius, count);
    assert forall|i: int| 0 <= i < count implies (axis_outcome(corners, center, radius, axes[i])
        is Skipped <==> #[trigger] axes[i] == Vector::zero()) by {
        lemma_normalized_is_nearly_unit(axes[i]);
    }
    if some_axis_tried(corners, center, mode) && !any_separating(
        axes,
        corners,
        center,
        radius,
        count,
    ) {
        let i = choose|i: int| 0 <= i < axes.len() && #[trigger] axes[i] != Vector::zero();
        assert(!(axis_outcome(corners, center, radius, axes[i]) is Skipped));
        assert(!(axis_outcome(corners, center, radius, axes[i]) is Separating));
        assert(axis_outcome(corners, center, radius, axes[i]) is Overlapping);
    }
    if !some_axis_tried(corners, center, mode) {
        assert forall|i: int| 0 <= i < count implies !(#[trigger] axis_outcome(
            corners,
            center,
            radius,
            axes[i],
        ) is Overlapping) && !(axis_outcome(corners, center, radius, axes[i]) is Separating) by {
            assert(axes[i] == Vector::zero());
        }
    }
    if first_edge_axis(corners) != Vector::zero() {
        assert(axes[0] == first_edge_axis(corners));
    }
}

/// A rectangle's edge that separates the shapes rules out a collision in
/// either mode: the corner-inclusive test only ever reports fewer collisions
/// than the test on the edge axes alone.
pub proof fn lemma_separating_edge_in_either_mode(
    corners: Seq<Vector>,
    center: Vector,
    radius: int,
    mode: CollisionMode,
)
    requires
        axis_outcome(corners, center, radius, first_edge_axis(corners)) is Separating
            || axis_outcome(corners, center, radius, second_edge_axis(corners)) is Separating,
    ensures
        collision_normal(corners, center, radius, mode) is None,
{
    let axes = candidate_axes(corners, center, mode);
    assert(axes[0] == first_edge_axis(corners));
    assert(axes[1] == second_edge_axis(corners));
    if axis_outcome(corners, center, radius, axes[0]) is Separating {
        assert(any_separating(axes, corners, center, radius, axes.len() as int));
    } else {
        assert(axis_outcome(corners, center, radius, axes[1]) is Separating);
        assert(any_separating(axes, corners, center, radius, axes.len() as int));
    }
}

/// The bounding box of the ball overlaps the rectangle of an upright paddle.
pub open spec fn boxes_overlap(paddle: PaddleView, ball: BallView) -> bool {
    let half_width = paddle.width / 2;
    let half_height = paddle.height / 2;
    &&& paddle.position.x - half_width < ball.position.x + ball.radius
    &&& ball.position.x - ball.radius < paddle.position.x + half_width
    &&& paddle.position.y - half_height < ball.position.y + ball.radius
    &&& ball.position.y - ball.radius < paddle.position.y + half_height
}

/// Against an upright paddle the test on the edge axes alone is the plain
/// box test, without any rounding: it reports a collision exactly if the
/// ball's bounding box overlaps the paddle's rectangle.  The corner-inclusive
/// test reports a collision only where the box test does.
pub proof fn lemma_upright_paddle_box_test(paddle: PaddleView, ball: BallView)
    requires
        paddle.rotation == 0,
        paddle.width >= 2,
        paddle.height >= 2,
    ensures
        collision_normal(
            paddle.corners(),
            ball.position,
            ball.radius,
            CollisionMode::EdgeAxesOnly,
        ) is Some <==> boxes_overlap(paddle, ball),
        collision_normal(
            paddle.corners(),
            ball.position,
            ball.radius,
            CollisionMode::CornerInclusive,
        ) is Some ==> boxes_overlap(paddle, ball),
{
    let corners = paddle.corners();
    let center = ball.position;
    let radius = ball.radius;
    let hw = paddle.width / 2;
    let hh = paddle.height / 2;
    let px = paddle.position.x;
    let py = paddle.position.y;
    lemma_upright_corners(paddle);
    assert(corners[0] == Vector { x: px - hw, y: py - hh });
    assert(corners[1] == Vector { x: px + hw, y: py - hh });
    assert(corners[2] == Vector { x: px + hw, y: py + hh });
    assert(corners[3] == Vector { x: px - hw, y: py + hh });
    let across = Vector { x: UNIT as int, y: 0 };
    let down = Vector { x: 0, y: UNIT as int };
    assert(first_edge_axis(corners) == Vector { x: 2 * hw, y: 0 });
    assert(second_edge_axis(corners) == Vector { x: 0, y: 2 * hh });
    lemma_normalized_along_axis(2 * hw);
    lemma_normalized_along_axis(2 * hh);
    lemma_along_axis(corners[0]);
    lemma_along_axis(corners[1]);
    lemma_along_axis(corners[2]);
    lemma_along_axis(corners[3]);
    lemma_along_axis(center);
    assert(rect_min(corners, across) == px - hw && rect_max(corners, across) == px + hw);
    assert(rect_min(corners, down) == py - hh && rect_max(corners, down) == py + hh);
    let first = axis_outcome(corners, center, radius, first_edge_axis(corners));
    let second = axis_outcome(corners, center, radius, second_edge_axis(corners));
    assert(first is Separating <==> !(px - hw < center.x + radius && center.x - radius < px
        + hw));
    assert(second is Separating <==> !(py - hh < center.y + radius && center.y - radius < py
        + hh));
    assert(!(first is Skipped) && !(second is Skipped));

    let edges = candidate_axes(corners, center, CollisionMode::EdgeAxesOnly);
    assert(edges[0] == first_edge_axis(corners) && edges[1] == second_edge_axis(corners));
    lemma_no_collision_iff_separated(corners, center, radius, CollisionMode::EdgeAxesOnly);
    if any_separating(edges, corners, center, radius, 2) {
        let i = choose|i: int|
            0 <= i < 2 && #[trigger] axis_outcome(corners, center, radius, edges[i])
                is Separating;
        assert(i == 0 || i == 1);
    }
    if first is Separating {
        assert(axis_outcome(corners, center, radius, edges[0]) is Separating);
    }
    if second is Separating {
        assert(axis_outcome(corners, center, radius, edges[1]) is Separating);
    }
    if !boxes_overlap(paddle, ball) {
        lemma_separating_edge_in_either_mode(
            corners,
            center,
            radius,
            CollisionMode::CornerInclusive,
        );
    }
}

/// A reported normal is the unit vector of a tried axis on which the shapes
/// overlap, and on no tried axis do they overlap less.
pub proof fn lemma_normal_has_least_penetration(
    corners: Seq<Vector>,
    center: Vector,
    radius: int,
    mode: CollisionMode,
)
    ensures
        ({
            let axes = candidate_axes(corners, center, mode);
            collision_normal(corners, center, radius, mode) matches Some(n) ==> exists|k: int|
                {
                    &&& 0 <= k < axes.len()
                    &&& #[trigger] axes[k].normalized() == Some(n)
                    &&& !separated_along(corners, center, radius, n)
                    &&& forall|j: int|
                        0 <= j < axes.len() && #[trigger] axis_outcome(
                            corners,
                            center,
                            radius,
                            axes[j],
                        ) is Overlapping ==> penetration_along(corners, center, radius, n)
                            <= axis_outcome(corners, center, radius, axes[j])->Overlapping_depth
                }
        }),
{
    let axes = candidate_axes(corners, center, mode);
    let count = axes.len() as int;
    lemma_least_penetrating(axes, corners, center, radius, count);
    if collision_normal(corners, center, radius, mode) is Some {
        let k = least_penetrating(axes, corners, center, radius, count)->Some_0;
        assert(axes[k].normalized() == Some(collision_normal(corners, center, radius, mode)->Some_0));
    }
}

/// The corners of a rectangle as the contracts see them.
pub open spec fn corner_views(corners: [Vec2; 4]) -> Seq<Vector> {
    seq![corners[0]@, corners[1]@, corners[2]@, corners[3]@]
}

/// Every corner is small enough for the test.
pub open spec fn corners_in_range(corners: [Vec2; 4]) -> bool {
    forall|k: int| 0 <= k < 4 ==> (#[trigger] corners[k])@.within(3 * LIMIT)
}

/// Squared distance between two points.
fn distance_squared(a: Vec2, b: Vec2) -> (d: u128)
    requires
        a@.within(3 * LIMIT),
        b.in_range(),
    ensures
        d == distance_sq(a@, b@),
{
    a.minus(b).length_squared()
}

/// Index of the corner nearest to `center`.
pub fn nearest_corner_index(corners: &[Vec2; 4], center: Vec2) -> (k: usize)
    requires
        corners_in_range(*corners),
        center.in_range(),
    ensures
        k == nearest_corner(corner_views(*corners), center@),
        k < 4,
        forall|j: int|
            0 <= j < 4 ==> distance_sq(corners[k as int]@, center@) <= distance_sq(
                (#[trigger] corners[j])@,
                center@,
            ),
{
    proof {
        lemma_nearest_corner(corner_views(*corners), center@);
        assert forall|j: int| 0 <= j < 4 implies distance_sq(
            corner_views(*corners)[nearest_corner(corner_views(*corners), center@)],
            center@,
        ) <= distance_sq((#[trigger] corners[j])@, center@) by {
            assert(corner_views(*corners)[j] == corners[j]@);
        }
    }
    let mut best: usize = 0;
    let mut best_distance: u128 = distance_squared(corners[0], center);
    let d1: u128 = distance_squared(corners[1], center);
    if d1 < best_distance {
        best = 1;
        best_distance = d1;
    }
    let d2: u128 = distance_squared(corners[2], center);
    if d2 < best_distance {
        best = 2;
        best_distance = d2;
    }
    let d3: u128 = distance_squared(corners[3], center);
    if d3 < best_distance {
        best = 3;
    }
    best
}

/// Tries one axis: normalizes it, casts both shadows on it, and says whether
/// they overlap and by how much.
pub fn test_axis(corners: &[Vec2; 4], center: Vec2, radius: i64, axis: Vec2) -> (outcome: AxisTest)
    requires
        corners_in_range(*corners),
        center.in_range(),
        0 < radius <= LIMIT,
        axis.in_wide_range(),
    ensures
        outcome@ == axis_outcome(corner_views(*corners), center@, radius as int, axis@),
        outcome matches AxisTest::Overlapping { normal, depth } ==> normal@.within(UNIT as int),
{
    let n: Vec2 = match axis.normalize() {
        None => {
            return AxisTest::Skipped;
        },
        Some(n) => n,
    };
    let at_a: i64 = corners[0].project_length(n);
    let at_b: i64 = corners[1].project_length(n);
    let at_c: i64 = corners[2].project_length(n);
    let at_d: i64 = corners[3].project_length(n);
    let low_ab: i64 = if at_a <= at_b {
        at_a
    } else {
        at_b
    };
    let low_cd: i64 = if at_c <= at_d {
        at_c
    } else {
        at_d
    };
    let rect_low: i64 = if low_ab <= low_cd {
        low_ab
    } else {
        low_cd
    };
    let high_ab: i64 = if at_a >= at_b {
        at_a
    } else {
        at_b
    };
    let high_cd: i64 = if at_c >= at_d {
        at_c
    } else {
        at_d
    };
    let rect_high: i64 = if high_ab >= high_cd {
        high_ab
    } else {
        high_cd
    };
    let c: i64 = center.project_length(n);
    let circle_low: i64 = c - radius;
    let circle_high: i64 = c + radius;
    if rect_low >= circle_high || circle_low >= rect_high {
        return AxisTest::Separating;
    }
    let from_low: i64 = circle_high - rect_low;
    let from_high: i64 = rect_high - circle_low;
    let depth: i64 = if from_low <= from_high {
        from_low
    } else {
        from_high
    };
    AxisTest::Overlapping { normal: n, depth }
}

/// The separating-axis test between the rectangle with the given corners
/// and the circle at `center`: the collision normal, or nothing where the
/// shapes do not collide.
pub fn check_intersection(
    corners: &[Vec2; 4],
    center: Vec2,
    radius: i64,
    mode: CollisionMode,
) -> (normal: Option<Vec2>)
    requires
        corners_in_range(*corners),
        center.in_range(),
        0 < radius <= LIMIT,
    ensures
        match normal {
            Some(n) => collision_normal(corner_views(*corners), center@, radius as int, mode)
                == Some(n@),
            None => collision_normal(corner_views(*corners), center@, radius as int, mode)
                is None,
        },
        normal matches Some(n) ==> n@.within(UNIT as int),
        normal is None <==> !some_axis_tried(corner_views(*corners), center@, mode)
            || any_separating(
            candidate_axes(corner_views(*corners), center@, mode),
            corner_views(*corners),
            center@,
            radius as int,
            candidate_axes(corner_views(*corners), center@, mode).len() as int,
        ),
{
    proof {
        lemma_no_collision_iff_separated(corner_views(*corners), center@, radius as int, mode);
    }
    let ghost views = corner_views(*corners);
    let ghost spec_axes = candidate_axes(views, center@, mode);
    let nearest: usize = nearest_corner_index(corners, center);
    let axes: [Vec2; 3] = [
        corners[1].minus(corners[0]),
        corners[3].minus(corners[0]),
        corners[nearest].minus(center),
    ];
    let count: usize = match mode {
        CollisionMode::CornerInclusive => 3,
        CollisionMode::EdgeAxesOnly => 2,
    };
    let mut best: Option<(Vec2, i64)> = None;
    let mut i: usize = 0;
    while i < count
        invariant
            0 <= i <= count <= 3,
            count == spec_axes.len(),
            views == corner_views(*corners),
            spec_axes == candidate_axes(views, center@, mode),
            corners_in_range(*corners),
            center.in_range(),
            0 < radius <= LIMIT,
            forall|j: int| 0 <= j < count ==> (#[trigger] axes[j])@ == spec_axes[j],
            forall|j: int| 0 <= j < 3 ==> (#[trigger] axes[j]).in_wide_range(),
            !any_separating(spec_axes, views, center@, radius as int, i as int),
            tracks_least(best, spec_axes, views, center@, radius as int, i as int),
        decreases count - i,
    {
        let outcome: AxisTest = test_axis(corners, center, radius, axes[i]);
        proof {
            lemma_any_separating_step(spec_axes, views, center@, radius as int, i as int);
            lemma_tracks_least_step(
                best,
                outcome,
                spec_axes,
                views,
                center@,
                radius as int,
                i as int,
            );
        }
        match outcome {
            AxisTest::Skipped => {},
            AxisTest::Separating => {
                proof {
                    assert(0 <= i < spec_axes.len());
                    assert(any_separating(
                        spec_axes,
                        views,
                        center@,
                        radius as int,
                        spec_axes.len() as int,
                    ));
                }
                return None;
            },
            AxisTest::Overlapping { normal, depth } => {
                match best {
                    None => {
                        best = Some((normal, depth));
                    },
                    Some((_, least)) => {
                        if depth < least {
                            best = Some((normal, depth));
                        }
                    },
                }
            },
        }
        i += 1;
    }
    match best {
        Some((n, _)) => Some(n),
        None => None,
    }
}

impl Paddle {
    /// The collision normal between this paddle and `ball`, or nothing where
    /// they do not collide.
    pub fn check_intersection(&self, ball: &Ball, mode: CollisionMode) -> (normal: Option<Vec2>)
        requires
            self.wf(),
            ball.wf(),
        ensures
            match normal {
                Some(n) => collision_normal(
                    self@.corners(),
                    ball@.position,
                    ball@.radius,
                    mode,
                ) == Some(n@),
                None => collision_normal(self@.corners(), ball@.position, ball@.radius, mode)
                    is None,
            },
            normal matches Some(n) ==> n@.within(UNIT as int),
    {
        let corners: [Vec2; 4] = self.corners();
        assert(corner_views(corners) =~= self@.corners());
        check_intersection(&corners, ball.position, ball.radius, mode)
    }
}

/// Vertical speed that a paddle gives to a ball that strikes it: the
/// ball's height over the paddle's centre, as a share of
/// `(paddle height - ball radius) / 2`, times `spin_factor`.  Where that
/// divisor is zero there is no spin.
pub open spec fn spin_velocity(ball: BallView, paddle: PaddleView, spin_factor: int) -> int {
    let half = div_toward_zero(paddle.height - ball.radius, 2);
    if half == 0 {
        0
    } else {
        let offset = div_toward_zero((ball.position.y - paddle.position.y) * UNIT, half);
        saturate(mul_fixed(offset, spin_factor))
    }
}

/// Velocity with which a ball leaves a paddle that it struck along `normal`:
/// the ball's velocity mirrored about the normal, its second component
/// replaced by the spin, the whole no faster than the configured maximum.
pub open spec fn reflection_velocity(
    normal: Vector,
    ball: BallView,
    paddle: PaddleView,
    config: Config,
) -> Vector {
    let mirrored = ball.velocity.reflected(normal);
    (Vector {
        x: mirrored.x,
        y: spin_velocity(ball, paddle, config.spin_factor as int),
    }).clamped(config.max_speed as int)
}

/// Whatever the normal, the ball and the paddle, the velocity after a paddle
/// bounce is no faster than the configured maximum.
pub proof fn lemma_reflection_within_max_speed(
    normal: Vector,
    ball: BallView,
    paddle: PaddleView,
    config: Config,
)
    requires
        config.max_speed >= 0,
    ensures
        reflection_velocity(normal, ball, paddle, config).norm_sq() <= config.max_speed
            * config.max_speed,
        reflection_velocity(normal, ball, paddle, config).within(config.max_speed as int),
{
    let mirrored = ball.velocity.reflected(normal);
    let spun = Vector {
        x: mirrored.x,
        y: spin_velocity(ball, paddle, config.spin_factor as int),
    };
    lemma_clamped_at_most_max(spun, config.max_speed as int);
}

/// Mirroring a velocity about a wall whose normal runs along an axis flips
/// the sign of the component along the normal and leaves the other component
/// as it was.
pub proof fn lemma_wall_reflection_flips_normal_component(v: Vector)
    ensures
        v.reflected(Vector { x: 0, y: UNIT as int }) == (Vector { x: v.x, y: -v.y }),
        v.reflected(Vector { x: 0, y: -UNIT }) == (Vector { x: v.x, y: -v.y }),
        v.reflected(Vector { x: UNIT as int, y: 0 }) == (Vector { x: -v.x, y: v.y }),
        v.reflected(Vector { x: -UNIT, y: 0 }) == (Vector { x: -v.x, y: v.y }),
{
    let u = UNIT as int;
    assert((v.x * 0 + v.y * u) * u == v.y * (u * u)) by (nonlinear_arith);
    assert((v.x * 0 + v.y * (-u)) * (-u) == v.y * (u * u)) by (nonlinear_arith);
    assert((v.x * u + v.y * 0) * u == v.x * (u * u)) by (nonlinear_arith);
    assert((v.x * (-u) + v.y * 0) * (-u) == v.x * (u * u)) by (nonlinear_arith);
    assert((v.x * 0 + v.y * u) * 0 == 0) by (nonlinear_arith);
    assert((v.x * 0 + v.y * (-u)) * 0 == 0) by (nonlinear_arith);
    assert((v.x * u + v.y * 0) * 0 == 0) by (nonlinear_arith);
    assert((v.x * (-u) + v.y * 0) * 0 == 0) by (nonlinear_arith);
    assert(div_toward_zero(v.x * (u * u), u * u) == v.x) by (nonlinear_arith)
        requires
            u == 1000,
    ;
    assert(div_toward_zero(v.y * (u * u), u * u) == v.y) by (nonlinear_arith)
        requires
            u == 1000,
    ;
}

/// Velocity with which `ball` leaves `paddle` after striking it along
/// `normal`.
pub fn calculate_reflection(normal: Vec2, ball: &Ball, paddle: &Paddle, config: &Config) -> (v:
    Vec2)
    requires
        normal@.within(UNIT as int),
        ball.wf(),
        paddle.wf(),
        config.wf(),
    ensures
        v@ == reflection_velocity(normal@, ball@, paddle@, *config),
        v@.norm_sq() <= config.max_speed * config.max_speed,
        v.in_range(),
{
    let mirrored: Vec2 = ball.velocity.reflect(normal);
    let half: i64 = (paddle.height - ball.radius) / 2;
    let spin: i64 = if half == 0 {
        0
    } else {
        let above: i128 = ball.position.y as i128 - paddle.position.y as i128;
        proof {
            lemma_mul_bounded(above as int, UNIT as int, 2 * LIMIT, UNIT as int);
        }
        let dy: i128 = above * (UNIT as i128);
        proof {
            lemma_quotient_magnitude(dy as int, half as int);
        }
        let offset: i128 = dy / (half as i128);
        proof {
            lemma_mul_bounded(
                offset as int,
                config.spin_factor as int,
                2 * LIMIT * UNIT,
                LIMIT as int,
            );
        }
        saturate_to((offset * (config.spin_factor as i128)) / (UNIT as i128))
    };
    let spun: Vec2 = Vec2 { x: mirrored.x, y: spin };
    spun.clamp_length_max(config.max_speed)
}

/// Velocity with which `ball` leaves a wall whose unit normal is `normal`:
/// the ball's velocity mirrored about the normal.
pub fn calculate_wall_reflection(ball: &Ball, normal: Vec2) -> (v: Vec2)
    requires
        ball.wf(),
        normal@.within(UNIT as int),
    ensures
        v@ == ball@.velocity.reflected(normal@),
        v.in_wide_range(),
        normal@ == (Vector { x: 0, y: UNIT as int }) || normal@ == (Vector { x: 0, y: -UNIT })
            ==> v@ == (Vector { x: ball@.velocity.x, y: -ball@.velocity.y }),
        normal@ == (Vector { x: UNIT as int, y: 0 }) || normal@ == (Vector { x: -UNIT, y: 0 })
            ==> v@ == (Vector { x: -ball@.velocity.x, y: ball@.velocity.y }),
{
    proof {
        lemma_wall_reflection_flips_normal_component(ball@.velocity);
    }
    ball.velocity.reflect(normal)
}

} // verus!
