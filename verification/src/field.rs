//! The playfield and the bands in which paddles and ball may lie.
//!
//! The origin is the centre of the window, `y` grows upwards, and a strip at
//! the top of the window is kept for the score bar.

use crate::fixed::MAX_EXTENT;
use vstd::prelude::*;

verus! {

/// The width of a paddle.
pub const PADDLE_WIDTH: i64 = 17_000;

/// The height of a paddle.
pub const PADDLE_HEIGHT: i64 = 120_000;

/// The radius of the ball.
pub const BALL_RADIUS: i64 = 15_000;

/// The height of the score bar of the standard window.
pub const SCOREBAR_HEIGHT: i64 = 47_000;

/// The width of the standard window.
pub const WINDOW_WIDTH: i64 = 802_000;

/// The height of the standard window.
pub const WINDOW_HEIGHT: i64 = 455_000;

/// The dimensions of the window in which the game is played.
#[derive(Clone, Copy, Debug, PartialEq, Eq, Structural)]
pub struct Playfield {
    pub width: i64,
    pub height: i64,
    pub scorebar: i64,
}

/// The limits that a playfield sets, computed once.
#[derive(Clone, Copy, Debug, PartialEq, Eq, Structural)]
pub struct Bounds {
    pub left_wall: i64,
    pub right_wall: i64,
    pub floor: i64,
    pub ceiling: i64,
    pub left_guard: i64,
    pub right_guard: i64,
    pub paddle_floor: i64,
    pub paddle_ceiling: i64,
    pub start_y: i64,
}

/// Whether the three dimensions leave room for the paddles and the ball.
pub open spec fn dimensions_fit(width: int, height: int, scorebar: int) -> bool {
    &&& 0 < width <= MAX_EXTENT
    &&& 0 < height <= MAX_EXTENT
    &&& 0 <= scorebar <= MAX_EXTENT
    &&& 2 * (height / 2) >= PADDLE_HEIGHT + scorebar
    &&& 2 * (width / 2) >= 2 * BALL_RADIUS + 4 * PADDLE_WIDTH
}

impl Playfield {
    /// The smallest `x` at which the centre of the ball is still in play.
    pub open spec fn left_wall(&self) -> int {
        -(self.width as int / 2) + BALL_RADIUS
    }

    /// The largest `x` at which the centre of the ball is still in play.
    pub open spec fn right_wall(&self) -> int {
        self.width as int / 2 - BALL_RADIUS
    }

    /// The smallest `y` that the centre of the ball may have.
    pub open spec fn floor(&self) -> int {
        -(self.height as int / 2) + BALL_RADIUS
    }

    /// The largest `y` that the centre of the ball may have.
    pub open spec fn ceiling(&self) -> int {
        self.height as int / 2 - BALL_RADIUS - self.scorebar
    }

    /// The `x` below which the ball is in the column of the left paddle.
    pub open spec fn left_guard(&self) -> int {
        self.left_wall() + 2 * PADDLE_WIDTH
    }

    /// The `x` above which the ball is in the column of the right paddle.
    pub open spec fn right_guard(&self) -> int {
        self.right_wall() - 2 * PADDLE_WIDTH
    }

    /// The smallest `y` that the centre of a paddle may have.
    pub open spec fn paddle_floor(&self) -> int {
        -(self.height as int / 2) + PADDLE_HEIGHT / 2
    }

    /// The largest `y` that the centre of a paddle may have.
    pub open spec fn paddle_ceiling(&self) -> int {
        self.height as int / 2 - PADDLE_HEIGHT / 2 - self.scorebar
    }

    /// The height at which ball and paddles start: the middle of the part of
    /// the window below the score bar.
    pub open spec fn start_y(&self) -> int {
        -(self.scorebar as int / 2)
    }

    /// Whether the playfield leaves room for the paddles and the ball.
    pub open spec fn valid(&self) -> bool {
        dimensions_fit(self.width as int, self.height as int, self.scorebar as int)
    }

    /// A playfield of the given dimensions, if paddles and ball fit into it.
    pub fn new(width: i64, height: i64, scorebar: i64) -> (field: Option<Playfield>)
        ensures
            field.is_some() == dimensions_fit(width as int, height as int, scorebar as int),
            field.is_some() ==> field.unwrap() == (Playfield { width, height, scorebar }),
    {
        let candidate = Playfield { width, height, scorebar };
        if candidate.check() {
            Some(candidate)
        } else {
            None
        }
    }

    /// The standard window.
    pub fn standard() -> (field: Playfield)
        ensures
            field == (Playfield {
                width: WINDOW_WIDTH,
                height: WINDOW_HEIGHT,
                scorebar: SCOREBAR_HEIGHT,
            }),
            field.valid(),
    {
        Playfield { width: WINDOW_WIDTH, height: WINDOW_HEIGHT, scorebar: SCOREBAR_HEIGHT }
    }

    /// Tells whether the playfield leaves room for the paddles and the ball.
    pub fn check(&self) -> (ok: bool)
        ensures
            ok == self.valid(),
    {
        0 < self.width && self.width <= MAX_EXTENT && 0 < self.height && self.height <= MAX_EXTENT
            && 0 <= self.scorebar && self.scorebar <= MAX_EXTENT && 2 * (self.height / 2)
            >= PADDLE_HEIGHT + self.scorebar && 2 * (self.width / 2) >= 2 * BALL_RADIUS + 4
            * PADDLE_WIDTH
    }

    /// The limits of the playfield.
    pub fn bounds(&self) -> (b: Bounds)
        requires
            self.valid(),
        ensures
            b.left_wall == self.left_wall(),
            b.right_wall == self.right_wall(),
            b.floor == self.floor(),
            b.ceiling == self.ceiling(),
            b.left_guard == self.left_guard(),
            b.right_guard == self.right_guard(),
            b.paddle_floor == self.paddle_floor(),
            b.paddle_ceiling == self.paddle_ceiling(),
            b.start_y == self.start_y(),
    {
        let half_width: i64 = self.width / 2;
        let half_height: i64 = self.height / 2;
        Bounds {
            left_wall: -half_width + BALL_RADIUS,
            right_wall: half_width - BALL_RADIUS,
            floor: -half_height + BALL_RADIUS,
            ceiling: half_height - BALL_RADIUS - self.scorebar,
            left_guard: -half_width + BALL_RADIUS + 2 * PADDLE_WIDTH,
            right_guard: half_width - BALL_RADIUS - 2 * PADDLE_WIDTH,
            paddle_floor: -half_height + PADDLE_HEIGHT / 2,
            paddle_ceiling: half_height - PADDLE_HEIGHT / 2 - self.scorebar,
            start_y: -(self.scorebar / 2),
        }
    }
}

/// In a valid playfield every band holds the point at which play starts.
pub proof fn lemma_bands_hold_start(field: Playfield)
    requires
        field.valid(),
    ensures
        field.paddle_floor() <= field.start_y() <= field.paddle_ceiling(),
        field.floor() <= field.start_y() <= field.ceiling(),
        field.left_wall() <= field.left_guard() <= 0 <= field.right_guard() <= field.right_wall(),
        -MAX_EXTENT <= field.left_wall(),
        field.right_wall() <= MAX_EXTENT,
        -MAX_EXTENT <= field.floor(),
        field.ceiling() <= MAX_EXTENT,
{
}

/// In a valid playfield the bands of paddles and ball lie inside the window,
/// below the score bar.
pub proof fn lemma_bands_lie_in_window(field: Playfield)
    requires
        field.valid(),
    ensures
        -(field.height as int / 2) <= field.paddle_floor(),
        field.paddle_ceiling() <= field.height as int / 2 - field.scorebar,
        -(field.height as int / 2) <= field.floor() <= field.paddle_floor(),
        field.paddle_ceiling() <= field.ceiling() <= field.height as int / 2 - field.scorebar,
        -(field.width as int / 2) <= field.left_wall(),
        field.right_wall() <= field.width as int / 2,
{
}

} // verus!
