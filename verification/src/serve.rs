//! The serve: the heading that the ball gets when play starts over.
//!
//! A serve turns the upward axis by an angle between an eighth and three
//! eighths of a half turn, then mirrors the result in either axis. Sine and
//! cosine are evaluated as truncated power series in integer arithmetic.

use crate::fixed::{floor_sqrt, lemma_floor_sqrt_at_least, lemma_floor_sqrt_bounds, ONE};
use crate::heading::{normalized, unit_length, Direction};
use vstd::prelude::*;

verus! {

/// The smallest serve angle, in millionths of a radian.
pub const SERVE_ANGLE_MIN: i64 = 392_700;

/// The largest serve angle, in millionths of a radian.
pub const SERVE_ANGLE_MAX: i64 = 1_178_097;

/// The magnitude that each component of a serve heading reaches at least.
pub const SERVE_SLANT: i64 = 290_000;

/// What chance decides of one serve.
#[derive(Clone, Copy, Debug, PartialEq, Eq, Structural)]
pub struct ServeDraw {
    /// The angle by which the upward axis is turned, in millionths of a radian.
    pub angle: i64,
    /// Whether the horizontal component is mirrored.
    pub flip_x: bool,
    /// Whether the vertical component is mirrored.
    pub flip_y: bool,
}

/// One level of a power series in nested form: `1 - q * t / c`, in millionths.
pub open spec fn series_step(q: int, t: int, c: int) -> int {
    ONE - (q * t / (ONE as int)) / c
}

/// The sine of `angle`, both in millionths: the series up to the ninth power.
pub open spec fn sine(angle: int) -> int {
    let q = angle * angle / (ONE as int);
    let t4 = series_step(q, ONE as int, 72);
    let t3 = series_step(q, t4, 42);
    let t2 = series_step(q, t3, 20);
    let t1 = series_step(q, t2, 6);
    angle * t1 / (ONE as int)
}

/// The cosine of `angle`, both in millionths: the series up to the tenth power.
pub open spec fn cosine(angle: int) -> int {
    let q = angle * angle / (ONE as int);
    let u5 = series_step(q, ONE as int, 90);
    let u4 = series_step(q, u5, 56);
    let u3 = series_step(q, u4, 30);
    let u2 = series_step(q, u3, 12);
    series_step(q, u2, 2)
}

/// The heading of a serve: the upward axis turned by the angle, scaled to
/// unit length, then mirrored as the draw says.
pub open spec fn serve_direction(draw: ServeDraw) -> (int, int) {
    let turned = normalized(-sine(draw.angle as int), cosine(draw.angle as int));
    (
        if draw.flip_x {
            -turned.0
        } else {
            turned.0
        },
        if draw.flip_y {
            -turned.1
        } else {
            turned.1
        },
    )
}

/// A level of the series lies between the bounds that the bounds of its
/// arguments give.
proof fn lemma_series_step_between(q: int, t: int, c: int, qa: int, qb: int, ta: int, tb: int)
    requires
        0 <= qa <= q <= qb,
        0 <= ta <= t <= tb,
        c > 0,
    ensures
        ONE - (qb * tb / (ONE as int)) / c <= series_step(q, t, c) <= ONE - (qa * ta / (ONE as int))
            / c,
{
    assert(qa * ta <= q * t <= qb * tb) by (nonlinear_arith)
        requires
            0 <= qa <= q <= qb,
            0 <= ta <= t <= tb,
    ;
    let lo = qa * ta / 1_000_000;
    let mid = q * t / 1_000_000;
    let hi = qb * tb / 1_000_000;
    assert(lo <= mid <= hi);
    assert(lo / c <= mid / c <= hi / c) by (nonlinear_arith)
        requires
            lo <= mid <= hi,
            c > 0,
    ;
}

/// One level of the series, computed.
fn series(q: i64, t: i64, c: i64) -> (r: i64)
    requires
        0 <= q <= 1_440_000,
        0 <= t <= ONE,
        2 <= c <= 100,
    ensures
        r == series_step(q as int, t as int, c as int),
        0 <= r <= ONE,
{
    proof {
        lemma_series_step_between(q as int, t as int, c as int, 0, 1_440_000, 0, ONE as int);
        assert(0int * 0int / 1_000_000 == 0);
        assert(1_440_000int * 1_000_000int / 1_000_000 == 1_440_000);
        assert((0int / (c as int)) == 0) by (nonlinear_arith)
            requires
                c > 0,
        ;
        assert(1_440_000int / (c as int) <= 720_000) by (nonlinear_arith)
            requires
                c >= 2,
        ;
        assert(0 <= q * t <= 1_440_000 * 1_000_000) by (nonlinear_arith)
            requires
                0 <= q <= 1_440_000,
                0 <= t <= 1_000_000,
        ;
    }
    ONE - (q * t / ONE) / c
}

/// Over the serve angles the square of the angle stays in a known range.
proof fn lemma_square_range(angle: int)
    requires
        SERVE_ANGLE_MIN <= angle <= SERVE_ANGLE_MAX,
    ensures
        154_213 <= angle * angle / (ONE as int) <= 1_387_912,
        angle <= 500_000 ==> angle * angle / (ONE as int) <= 250_000,
{
    assert(392_700 * 392_700 <= angle * angle <= 1_178_097 * 1_178_097) by (nonlinear_arith)
        requires
            392_700 <= angle <= 1_178_097,
    ;
    if angle <= 500_000 {
        assert(angle * angle <= 500_000 * 500_000) by (nonlinear_arith)
            requires
                0 <= angle <= 500_000,
        ;
    }
}

/// Over the serve angles the sine is at least 0.36 and at most the angle.
pub proof fn lemma_sine_range(angle: int)
    requires
        SERVE_ANGLE_MIN <= angle <= SERVE_ANGLE_MAX,
    ensures
        360_000 <= sine(angle) <= angle,
{
    lemma_square_range(angle);
    let q = angle * angle / (ONE as int);
    let t4 = series_step(q, ONE as int, 72);
    lemma_series_step_between(q, ONE as int, 72, 0, 1_440_000, 0, ONE as int);
    let t3 = series_step(q, t4, 42);
    lemma_series_step_between(q, t4, 42, 0, 1_440_000, 0, ONE as int);
    let t2 = series_step(q, t3, 20);
    lemma_series_step_between(q, t3, 20, 0, 1_440_000, 0, ONE as int);
    let t1 = series_step(q, t2, 6);
    assert(0 <= t2 <= ONE);
    if angle <= 500_000 {
        lemma_series_step_between(q, t2, 6, 0, 250_000, 0, ONE as int);
        assert(958_334 <= t1 <= ONE);
        assert(392_700 * 958_334 <= angle * t1 <= angle * 1_000_000) by (nonlinear_arith)
            requires
                392_700 <= angle,
                958_334 <= t1 <= 1_000_000,
        ;
    } else {
        lemma_series_step_between(q, t2, 6, 0, 1_387_912, 0, ONE as int);
        assert(768_682 <= t1 <= ONE);
        assert(500_000 * 768_682 <= angle * t1 <= angle * 1_000_000) by (nonlinear_arith)
            requires
                500_000 <= angle,
                768_682 <= t1 <= 1_000_000,
        ;
    }
}

/// Over the serve angles the cosine is at least 0.36 and at most one.
pub proof fn lemma_cosine_range(angle: int)
    requires
        SERVE_ANGLE_MIN <= angle <= SERVE_ANGLE_MAX,
    ensures
        360_000 <= cosine(angle) <= ONE,
{
    lemma_square_range(angle);
    let q = angle * angle / (ONE as int);
    let u5 = series_step(q, ONE as int, 90);
    lemma_series_step_between(q, ONE as int, 90, 0, 1_440_000, 0, ONE as int);
    let u4 = series_step(q, u5, 56);
    lemma_series_step_between(q, u5, 56, 0, 1_440_000, 0, ONE as int);
    let u3 = series_step(q, u4, 30);
    lemma_series_step_between(q, u4, 30, 0, 1_387_912, 0, ONE as int);
    assert(953_737 <= u3 <= ONE);
    let u2 = series_step(q, u3, 12);
    if q <= 1_200_000 {
        lemma_series_step_between(q, u3, 12, 0, 1_200_000, 0, ONE as int);
        assert(0 <= u2 <= ONE);
        lemma_series_step_between(q, u2, 2, 0, 1_200_000, 0, ONE as int);
    } else {
        lemma_series_step_between(q, u3, 12, 1_200_000, 1_387_912, 953_737, ONE as int);
        assert(0 <= u2 <= 904_627);
        lemma_series_step_between(q, u2, 2, 0, 1_387_912, 0, 904_627);
    }
}

/// The sine of `angle`, both in millionths.
fn sin_millionths(angle: i64) -> (r: i64)
    requires
        SERVE_ANGLE_MIN <= angle <= SERVE_ANGLE_MAX,
    ensures
        r == sine(angle as int),
{
    proof {
        lemma_square_range(angle as int);
        assert(0 <= angle * angle <= 1_178_097 * 1_178_097) by (nonlinear_arith)
            requires
                0 <= angle <= 1_178_097,
        ;
    }
    let q: i64 = angle * angle / ONE;
    let t4 = series(q, ONE, 72);
    let t3 = series(q, t4, 42);
    let t2 = series(q, t3, 20);
    let t1 = series(q, t2, 6);
    assert(0 <= angle * t1 <= 1_178_097 * 1_000_000) by (nonlinear_arith)
        requires
            0 <= angle <= 1_178_097,
            0 <= t1 <= 1_000_000,
    ;
    angle * t1 / ONE
}

/// The cosine of `angle`, both in millionths.
fn cos_millionths(angle: i64) -> (r: i64)
    requires
        SERVE_ANGLE_MIN <= angle <= SERVE_ANGLE_MAX,
    ensures
        r == cosine(angle as int),
{
    proof {
        lemma_square_range(angle as int);
        assert(0 <= angle * angle <= 1_178_097 * 1_178_097) by (nonlinear_arith)
            requires
                0 <= angle <= 1_178_097,
        ;
    }
    let q: i64 = angle * angle / ONE;
    let u5 = series(q, ONE, 90);
    let u4 = series(q, u5, 56);
    let u3 = series(q, u4, 30);
    let u2 = series(q, u3, 12);
    series(q, u2, 2)
}

/// The turned axis is at least half as long as `ONE`, so scaling it gives
/// unit length.
pub proof fn lemma_turned_axis_length(angle: int)
    requires
        SERVE_ANGLE_MIN <= angle <= SERVE_ANGLE_MAX,
    ensures
        2 * floor_sqrt(((-sine(angle)) * (-sine(angle)) + cosine(angle) * cosine(angle)) as nat)
            >= ONE,
{
    lemma_sine_range(angle);
    lemma_cosine_range(angle);
    let a = -sine(angle);
    let b = cosine(angle);
    assert(a * a + b * b >= 500_000 * 500_000) by (nonlinear_arith)
        requires
            a <= -360_000,
            b >= 360_000,
    ;
    lemma_floor_sqrt_at_least((a * a + b * b) as nat, 500_000);
}

/// Mirroring a vector in either axis keeps its length.
pub proof fn lemma_mirrored_unit(x: int, y: int, flip_x: bool, flip_y: bool)
    requires
        unit_length(x, y),
    ensures
        unit_length(
            if flip_x {
                -x
            } else {
                x
            },
            if flip_y {
                -y
            } else {
                y
            },
        ),
{
    assert((-x) * (-x) == x * x && (-y) * (-y) == y * y) by (nonlinear_arith);
}

/// Every serve heading has unit length.
pub proof fn lemma_serve_direction_unit(draw: ServeDraw)
    requires
        draw.wf(),
    ensures
        unit_length(serve_direction(draw).0, serve_direction(draw).1),
{
    let angle = draw.angle as int;
    lemma_turned_axis_length(angle);
    crate::heading::lemma_normalized_unit(-sine(angle), cosine(angle));
    let turned = normalized(-sine(angle), cosine(angle));
    lemma_mirrored_unit(turned.0, turned.1, draw.flip_x, draw.flip_y);
}

/// Every serve heading is slanted: neither component is shorter than
/// `SERVE_SLANT`, so the ball is served neither straight up or down nor
/// straight at a wall.
pub proof fn lemma_serve_direction_slanted(draw: ServeDraw)
    requires
        draw.wf(),
    ensures
        serve_direction(draw).0 <= -SERVE_SLANT || serve_direction(draw).0 >= SERVE_SLANT,
        serve_direction(draw).1 <= -SERVE_SLANT || serve_direction(draw).1 >= SERVE_SLANT,
{
    let angle = draw.angle as int;
    lemma_sine_range(angle);
    lemma_cosine_range(angle);
    let a = sine(angle);
    let b = cosine(angle);
    let s = (-a) * (-a) + b * b;
    assert(s == a * a + b * b && s >= 500_000 * 500_000) by (nonlinear_arith)
        requires
            360_000 <= a,
            360_000 <= b,
            s == (-a) * (-a) + b * b,
    ;
    lemma_floor_sqrt_bounds(s as nat);
    lemma_floor_sqrt_at_least(s as nat, 500_000);
    let n = floor_sqrt(s as nat) as int;
    lemma_scaled_component_bound(a, b, n);
    lemma_scaled_component_bound(b, a, n);
    assert(-(a * ONE) == (-a) * ONE);
}

/// A component of at least 0.36 keeps at least `SERVE_SLANT` of its length
/// when the vector is scaled to unit length, as long as the other component
/// is no longer than the largest serve angle.
proof fn lemma_scaled_component_bound(c: int, other: int, n: int)
    requires
        360_000 <= c,
        0 <= other <= 1_178_097,
        0 < n,
        n * n <= c * c + other * other,
    ensures
        (c * 1_000_000) / n >= 290_000,
{
    let k: int = 1_000_000;
    let l: int = 290_000;
    assert(other * other <= 1_178_097 * 1_178_097) by (nonlinear_arith)
        requires
            0 <= other <= 1_178_097,
    ;
    assert(c * c >= 360_000 * 360_000) by (nonlinear_arith)
        requires
            c >= 360_000,
    ;
    // l * l * (c * c + other * other) <= k * k * (c * c)
    assert(l * l * (c * c + other * other) <= k * k * (c * c)) by (nonlinear_arith)
        requires
            c * c >= 360_000 * 360_000,
            0 <= other * other <= 1_178_097 * 1_178_097,
            k == 1_000_000,
            l == 290_000,
    ;
    assert(l * l * (n * n) <= l * l * (c * c + other * other)) by (nonlinear_arith)
        requires
            n * n <= c * c + other * other,
            l == 290_000,
    ;
    assert((l * n) * (l * n) == l * l * (n * n) && (c * k) * (c * k) == k * k * (c * c))
        by (nonlinear_arith);
    assert(l * n <= c * k) by (nonlinear_arith)
        requires
            (l * n) * (l * n) <= (c * k) * (c * k),
            l * n >= 0,
            c * k >= 0,
    ;
    assert((c * k) / n >= l) by (nonlinear_arith)
        requires
            l * n <= c * k,
            n > 0,
    ;
}

impl ServeDraw {
    /// Whether the angle is one that a serve may use.
    pub open spec fn wf(&self) -> bool {
        SERVE_ANGLE_MIN <= self.angle <= SERVE_ANGLE_MAX
    }

    /// Tells whether the angle is one that a serve may use.
    pub fn check(&self) -> (ok: bool)
        ensures
            ok == self.wf(),
    {
        SERVE_ANGLE_MIN <= self.angle && self.angle <= SERVE_ANGLE_MAX
    }

    /// The heading that this draw gives the ball.
    pub fn direction(&self) -> (d: Direction)
        requires
            self.wf(),
        ensures
            d@ == serve_direction(*self),
            d.is_unit(),
    {
        proof {
            lemma_sine_range(self.angle as int);
            lemma_cosine_range(self.angle as int);
            lemma_turned_axis_length(self.angle as int);
        }
        let s = sin_millionths(self.angle);
        let c = cos_millionths(self.angle);
        let turned = Direction::normalize(-s, c);
        let flipped = if self.flip_x {
            turned.reflect_x()
        } else {
            turned
        };
        if self.flip_y {
            flipped.reflect_y()
        } else {
            flipped
        }
    }
}

} // verus!
