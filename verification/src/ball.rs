//! The ball: how it flies, bounces, leaves the playfield and is served.

use crate::field::{lemma_bands_hold_start, Playfield, PADDLE_HEIGHT};
use crate::fixed::{clamp, clamped, quot, MAX_EXTENT, ONE, SECOND};
use crate::heading::{
    lemma_jittered_length, lemma_normalized_unit, lemma_unit_component_bound, normalized,
    unit_length, Direction, JITTER,
};
use crate::paddle::{Paddle, Player};
use crate::random::{draw_jitter, draw_serve};
use crate::score::Score;
use crate::serve::{
    lemma_mirrored_unit, lemma_serve_direction_unit, serve_direction, ServeDraw, SERVE_ANGLE_MIN,
};
use vstd::prelude::*;

verus! {

/// The speed of the ball right after a serve, in length units per second.
pub const BALL_SPEED: i64 = 500_000;

/// By how much the speed of the ball grows in one second of flight.
pub const BALL_ACCELERATION: i64 = 10_000;

/// The largest speed that the ball can have.
pub const MAX_SPEED: i64 = 1_000_000_000_000;

/// The ball: the place of its centre, its speed and its heading.
#[derive(Clone, Copy, Debug, PartialEq, Eq, Structural)]
pub struct Ball {
    pub x: i64,
    pub y: i64,
    pub velocity: i64,
    pub direction: Direction,
}

/// The ball as plain numbers.
pub struct BallView {
    pub x: int,
    pub y: int,
    pub velocity: int,
    pub heading: (int, int),
}

/// What chance decides of one step: the offsets that the heading gets, and
/// the serve for the case that a point is scored.
#[derive(Clone, Copy, Debug, PartialEq, Eq, Structural)]
pub struct StepDraws {
    pub jitter_x: i64,
    pub jitter_y: i64,
    pub serve: ServeDraw,
}

/// How one step of the ball ended.
#[derive(Clone, Copy, Debug, PartialEq, Eq, Structural)]
pub enum Outcome {
    /// The ball is still in play.
    InPlay,
    /// The ball left the playfield and the named player scored.
    Point(Player),
}

/// The ball after jitter, acceleration and an unhindered move.
pub struct Flight {
    pub heading: (int, int),
    pub velocity: int,
    pub x: int,
    pub y: int,
}

/// By how much the speed grows in `dt` microseconds.
pub open spec fn speed_gain(dt: int) -> int {
    BALL_ACCELERATION * dt / (SECOND as int)
}

/// The distance covered along one axis in `dt` microseconds, for a heading
/// with the given component on that axis.
pub open spec fn travel(component: int, velocity: int, dt: int) -> int {
    quot(component * velocity * dt, ONE * SECOND)
}

/// Whether a paddle centred at `paddle_y` covers the height `y`.
pub open spec fn covers(paddle_y: int, y: int) -> bool {
    paddle_y - PADDLE_HEIGHT / 2 <= y <= paddle_y + PADDLE_HEIGHT / 2
}

/// The ball after jitter, acceleration and an unhindered move.
pub open spec fn flight(ball: Ball, dt: int, jitter_x: int, jitter_y: int) -> Flight {
    let heading = normalized(ball.direction.x + jitter_x, ball.direction.y + jitter_y);
    let velocity = ball.velocity + speed_gain(dt);
    Flight {
        heading,
        velocity,
        x: ball.x + travel(heading.0, velocity, dt),
        y: ball.y + travel(heading.1, velocity, dt),
    }
}

/// Whether the flight ends behind one of the two walls, and who scores then.
/// The left wall is looked at first.
pub open spec fn verdict(field: Playfield, f: Flight) -> Outcome {
    if f.x < field.left_wall() {
        Outcome::Point(Player::Player2)
    } else if f.x > field.right_wall() {
        Outcome::Point(Player::Player1)
    } else {
        Outcome::InPlay
    }
}

/// The ball that stays in play after the flight `f` from `origin_x`: held
/// between floor and ceiling, turned back by a paddle that covers its height
/// where it would enter the paddle's column, and held between the walls.
pub open spec fn deflected(
    field: Playfield,
    left_y: int,
    right_y: int,
    origin_x: int,
    dt: int,
    f: Flight,
) -> BallView {
    let y = clamped(f.y, field.floor(), field.ceiling());
    let heading_y = if y != f.y {
        -f.heading.1
    } else {
        f.heading.1
    };
    let hit_left = f.x < field.left_guard() && covers(left_y, y);
    let heading_left = if hit_left {
        -f.heading.0
    } else {
        f.heading.0
    };
    let x_left = if hit_left {
        origin_x + travel(heading_left, f.velocity, dt)
    } else {
        f.x
    };
    let hit_right = x_left > field.right_guard() && covers(right_y, y);
    let heading_x = if hit_right {
        -heading_left
    } else {
        heading_left
    };
    let x_right = if hit_right {
        origin_x + travel(heading_x, f.velocity, dt)
    } else {
        x_left
    };
    BallView {
        x: clamped(x_right, field.left_wall(), field.right_wall()),
        y,
        velocity: f.velocity,
        heading: (heading_x, heading_y),
    }
}

/// The ball right after the serve that `draw` describes.
pub open spec fn served(field: Playfield, draw: ServeDraw) -> BallView {
    BallView { x: 0, y: field.start_y(), velocity: BALL_SPEED as int, heading: serve_direction(draw) }
}

/// Ball, score and outcome after one step.
pub struct Stepped {
    pub ball: BallView,
    pub score: (int, int),
    pub outcome: Outcome,
}

/// One step of the ball: a flight that ends behind a wall gives the other
/// side a point and a fresh serve, any other flight is deflected.
pub open spec fn stepped(
    ball: Ball,
    score: Score,
    field: Playfield,
    left_y: int,
    right_y: int,
    dt: int,
    draws: StepDraws,
) -> Stepped {
    let f = flight(ball, dt, draws.jitter_x as int, draws.jitter_y as int);
    match verdict(field, f) {
        Outcome::Point(player) => Stepped {
            ball: served(field, draws.serve),
            score: score.credited(player),
            outcome: Outcome::Point(player),
        },
        Outcome::InPlay => Stepped {
            ball: deflected(field, left_y, right_y, ball.x as int, dt, f),
            score: score@,
            outcome: Outcome::InPlay,
        },
    }
}

/// After a step the heading has unit length, whatever the step did.
pub proof fn lemma_step_keeps_unit_heading(
    ball: Ball,
    score: Score,
    field: Playfield,
    left_y: int,
    right_y: int,
    dt: int,
    draws: StepDraws,
)
    requires
        ball.wf(),
        draws.wf(),
    ensures
        unit_length(
            stepped(ball, score, field, left_y, right_y, dt, draws).ball.heading.0,
            stepped(ball, score, field, left_y, right_y, dt, draws).ball.heading.1,
        ),
{
    let jx = draws.jitter_x as int;
    let jy = draws.jitter_y as int;
    let f = flight(ball, dt, jx, jy);
    lemma_serve_direction_unit(draws.serve);
    lemma_jittered_length(ball.direction.x as int, ball.direction.y as int, jx, jy);
    lemma_normalized_unit(ball.direction.x + jx, ball.direction.y + jy);
    let after = deflected(field, left_y, right_y, ball.x as int, dt, f);
    lemma_mirrored_unit(f.heading.0, f.heading.1, after.heading.0 != f.heading.0, after.heading.1
        != f.heading.1);
}

/// The speed never drops while the ball stays in play, and it is the base
/// speed right after a point.
pub proof fn lemma_speed_grows_until_point(
    ball: Ball,
    score: Score,
    field: Playfield,
    left_y: int,
    right_y: int,
    dt: int,
    draws: StepDraws,
)
    requires
        dt >= 0,
    ensures
        ({
            let after = stepped(ball, score, field, left_y, right_y, dt, draws);
            if after.outcome == Outcome::InPlay {
                after.ball.velocity == ball.velocity + speed_gain(dt) && after.ball.velocity
                    >= ball.velocity
            } else {
                after.ball.velocity == BALL_SPEED
            }
        }),
{
    assert(speed_gain(dt) >= 0) by (nonlinear_arith)
        requires
            dt >= 0,
            speed_gain(dt) == 10_000 * dt / 1_000_000,
    ;
}

/// A ball whose flight ends behind the left wall gives the second player
/// exactly one point and is served from the start.
pub proof fn lemma_left_exit_scores(
    ball: Ball,
    score: Score,
    field: Playfield,
    left_y: int,
    right_y: int,
    dt: int,
    draws: StepDraws,
)
    requires
        flight(ball, dt, draws.jitter_x as int, draws.jitter_y as int).x < field.left_wall(),
    ensures
        ({
            let after = stepped(ball, score, field, left_y, right_y, dt, draws);
            &&& after.outcome == Outcome::Point(Player::Player2)
            &&& after.score == (score.player1 as int, score.player2 + 1)
            &&& after.ball == served(field, draws.serve)
            &&& after.ball.x == 0
            &&& after.ball.y == field.start_y()
            &&& after.ball.velocity == BALL_SPEED
            &&& after.ball.heading == serve_direction(draws.serve)
        }),
{
}

/// A ball whose flight ends behind the right wall gives the first player
/// exactly one point and is served from the start.
pub proof fn lemma_right_exit_scores(
    ball: Ball,
    score: Score,
    field: Playfield,
    left_y: int,
    right_y: int,
    dt: int,
    draws: StepDraws,
)
    requires
        field.valid(),
        flight(ball, dt, draws.jitter_x as int, draws.jitter_y as int).x > field.right_wall(),
    ensures
        ({
            let after = stepped(ball, score, field, left_y, right_y, dt, draws);
            &&& after.outcome == Outcome::Point(Player::Player1)
            &&& after.score == (score.player1 + 1, score.player2 as int)
            &&& after.ball == served(field, draws.serve)
            &&& after.ball.x == 0
            &&& after.ball.y == field.start_y()
            &&& after.ball.velocity == BALL_SPEED
            &&& after.ball.heading == serve_direction(draws.serve)
        }),
{
    lemma_bands_hold_start(field);
}

/// A point is scored only by a flight that ends behind a wall, and a ball
/// that stays in play leaves the score as it is.
pub proof fn lemma_score_changes_only_at_walls(
    ball: Ball,
    score: Score,
    field: Playfield,
    left_y: int,
    right_y: int,
    dt: int,
    draws: StepDraws,
)
    ensures
        ({
            let f = flight(ball, dt, draws.jitter_x as int, draws.jitter_y as int);
            let after = stepped(ball, score, field, left_y, right_y, dt, draws);
            field.left_wall() <= f.x <= field.right_wall() ==> after.outcome == Outcome::InPlay
                && after.score == score@
        }),
{
}

/// No step takes a point away from either player.
pub proof fn lemma_score_never_drops(
    ball: Ball,
    score: Score,
    field: Playfield,
    left_y: int,
    right_y: int,
    dt: int,
    draws: StepDraws,
)
    ensures
        ({
            let after = stepped(ball, score, field, left_y, right_y, dt, draws);
            &&& score.player1 <= after.score.0 <= score.player1 + 1
            &&& score.player2 <= after.score.1 <= score.player2 + 1
            &&& after.score.0 + after.score.1 <= score.player1 + score.player2 + 1
        }),
{
}

/// A ball that stays in play ends between the walls, the floor and the
/// ceiling.
pub proof fn lemma_ball_stays_in_field(
    ball: Ball,
    score: Score,
    field: Playfield,
    left_y: int,
    right_y: int,
    dt: int,
    draws: StepDraws,
)
    requires
        field.valid(),
    ensures
        ({
            let after = stepped(ball, score, field, left_y, right_y, dt, draws);
            &&& field.left_wall() <= after.ball.x <= field.right_wall()
            &&& field.floor() <= after.ball.y <= field.ceiling()
        }),
{
    lemma_bands_hold_start(field);
}

/// The distance covered along an axis has the sign of the heading's
/// component on that axis.
pub proof fn lemma_travel_sign(component: int, velocity: int, dt: int)
    requires
        velocity >= 0,
        dt >= 0,
    ensures
        component >= 0 ==> travel(component, velocity, dt) >= 0,
        component <= 0 ==> travel(component, velocity, dt) <= 0,
        travel(-component, velocity, dt) == -travel(component, velocity, dt),
{
    let p = component * velocity * dt;
    assert((component >= 0 ==> p >= 0) && (component <= 0 ==> p <= 0) && (component == 0 ==> p
        == 0) && (-component) * velocity * dt == -p) by (nonlinear_arith)
        requires
            velocity >= 0,
            dt >= 0,
            p == component * velocity * dt,
    ;
}

/// A ball that flies to the left from outside the left paddle's column, and
/// would enter it at a height that the paddle covers, is turned back: its
/// horizontal heading changes its sign and it ends outside the column.
pub proof fn lemma_left_paddle_turns_ball(
    field: Playfield,
    left_y: int,
    right_y: int,
    origin_x: int,
    dt: int,
    f: Flight,
)
    requires
        field.valid(),
        dt >= 0,
        f.velocity >= 0,
        f.heading.0 <= 0,
        field.left_guard() <= origin_x,
        f.x == origin_x + travel(f.heading.0, f.velocity, dt),
        field.left_wall() <= f.x < field.left_guard(),
        covers(left_y, clamped(f.y, field.floor(), field.ceiling())),
        origin_x + travel(-f.heading.0, f.velocity, dt) <= field.right_guard(),
    ensures
        deflected(field, left_y, right_y, origin_x, dt, f).heading.0 == -f.heading.0,
        deflected(field, left_y, right_y, origin_x, dt, f).x == origin_x + (origin_x - f.x),
        deflected(field, left_y, right_y, origin_x, dt, f).x >= field.left_guard(),
{
    lemma_bands_hold_start(field);
    lemma_travel_sign(f.heading.0, f.velocity, dt);
}

/// The same for the right paddle and a ball that flies to the right.
pub proof fn lemma_right_paddle_turns_ball(
    field: Playfield,
    left_y: int,
    right_y: int,
    origin_x: int,
    dt: int,
    f: Flight,
)
    requires
        field.valid(),
        dt >= 0,
        f.velocity >= 0,
        f.heading.0 >= 0,
        origin_x <= field.right_guard(),
        f.x == origin_x + travel(f.heading.0, f.velocity, dt),
        field.right_guard() < f.x <= field.right_wall(),
        covers(right_y, clamped(f.y, field.floor(), field.ceiling())),
        field.left_wall() <= origin_x + travel(-f.heading.0, f.velocity, dt),
    ensures
        deflected(field, left_y, right_y, origin_x, dt, f).heading.0 == -f.heading.0,
        deflected(field, left_y, right_y, origin_x, dt, f).x == origin_x - (f.x - origin_x),
        deflected(field, left_y, right_y, origin_x, dt, f).x <= field.right_guard(),
{
    lemma_bands_hold_start(field);
    lemma_travel_sign(f.heading.0, f.velocity, dt);
}

impl View for Ball {
    type V = BallView;

    open spec fn view(&self) -> BallView {
        BallView {
            x: self.x as int,
            y: self.y as int,
            velocity: self.velocity as int,
            heading: self.direction@,
        }
    }
}

impl StepDraws {
    /// Whether the offsets and the serve angle are within their ranges.
    pub open spec fn wf(&self) -> bool {
        &&& -JITTER <= self.jitter_x <= JITTER
        &&& -JITTER <= self.jitter_y <= JITTER
        &&& self.serve.wf()
    }

    /// Tells whether the offsets and the serve angle are within their ranges.
    pub fn check(&self) -> (ok: bool)
        ensures
            ok == self.wf(),
    {
        -JITTER <= self.jitter_x && self.jitter_x <= JITTER && -JITTER <= self.jitter_y
            && self.jitter_y <= JITTER && self.serve.check()
    }
}

/// By how much the speed grows in `dt` microseconds.
fn gain(dt: u64) -> (g: i128)
    ensures
        g == speed_gain(dt as int),
        0 <= g,
{
    assert(0 <= BALL_ACCELERATION * dt <= 10_000 * 0xffff_ffff_ffff_ffff) by (nonlinear_arith)
        requires
            0 <= dt <= 0xffff_ffff_ffff_ffff,
    ;
    (BALL_ACCELERATION as i128) * (dt as i128) / (SECOND as i128)
}

/// The distance covered along one axis.
fn travel_of(component: i64, velocity: i64, dt: u64) -> (d: i128)
    requires
        -1_000_002 <= component <= 1_000_002,
        0 <= velocity <= MAX_SPEED,
    ensures
        d == travel(component as int, velocity as int, dt as int),
        -0x4000_0000_0000_0000_0000_0000 <= d <= 0x4000_0000_0000_0000_0000_0000,
{
    assert(-1_000_002 * 1_000_000_000_000 <= component * velocity <= 1_000_002
        * 1_000_000_000_000) by (nonlinear_arith)
        requires
            -1_000_002 <= component <= 1_000_002,
            0 <= velocity <= 1_000_000_000_000,
    ;
    let cv: i128 = (component as i128) * (velocity as i128);
    assert(-1_000_002_000_000_000_000 * 0xffff_ffff_ffff_ffff <= cv * dt
        <= 1_000_002_000_000_000_000 * 0xffff_ffff_ffff_ffff) by (nonlinear_arith)
        requires
            -1_000_002_000_000_000_000 <= cv <= 1_000_002_000_000_000_000,
            0 <= dt <= 0xffff_ffff_ffff_ffff,
    ;
    let product: i128 = cv * (dt as i128);
    product / 1_000_000_000_000
}

/// Tells whether a paddle centred at `paddle_y` covers the height `y`.
fn covered(paddle_y: i64, y: i64) -> (c: bool)
    ensures
        c == covers(paddle_y as int, y as int),
{
    let half: i128 = (PADDLE_HEIGHT / 2) as i128;
    (paddle_y as i128) - half <= (y as i128) && (y as i128) <= (paddle_y as i128) + half
}

impl Ball {
    /// Whether heading, speed and place are such that the ball can fly on.
    pub open spec fn wf(&self) -> bool {
        &&& self.direction.is_unit()
        &&& BALL_SPEED <= self.velocity <= MAX_SPEED
        &&& -MAX_EXTENT <= self.x <= MAX_EXTENT
        &&& -MAX_EXTENT <= self.y <= MAX_EXTENT
    }

    /// Whether the centre of the ball lies between the walls, the floor and
    /// the ceiling of `field`.
    pub open spec fn within(&self, field: Playfield) -> bool {
        &&& field.left_wall() <= self.x <= field.right_wall()
        &&& field.floor() <= self.y <= field.ceiling()
    }

    /// Whether the speed can take the growth of `dt` microseconds.
    pub open spec fn can_fly(&self, dt: int) -> bool {
        self.velocity + speed_gain(dt) <= MAX_SPEED
    }

    /// Tells whether heading, speed and place are such that the ball can fly on.
    pub fn check(&self) -> (ok: bool)
        ensures
            ok == self.wf(),
    {
        self.direction.check_unit() && BALL_SPEED <= self.velocity && self.velocity <= MAX_SPEED
            && -MAX_EXTENT <= self.x && self.x <= MAX_EXTENT && -MAX_EXTENT <= self.y && self.y
            <= MAX_EXTENT
    }

    /// Tells whether the speed can take the growth of `dt` microseconds.
    pub fn check_flight(&self, dt: u64) -> (ok: bool)
        ensures
            ok == self.can_fly(dt as int),
    {
        (self.velocity as i128) + gain(dt) <= MAX_SPEED as i128
    }

    /// The ball right after the serve that `draw` describes.
    pub fn new(field: &Playfield, draw: &ServeDraw) -> (ball: Ball)
        requires
            field.valid(),
            draw.wf(),
        ensures
            ball@ == served(*field, *draw),
            ball.wf(),
            ball.within(*field),
    {
        proof {
            lemma_bands_hold_start(*field);
        }
        Ball { x: 0, y: field.bounds().start_y, velocity: BALL_SPEED, direction: draw.direction() }
    }

    /// Serves: puts the ball back to the start with base speed and the
    /// heading that `draw` describes.
    pub fn serve_with(&mut self, field: &Playfield, draw: &ServeDraw)
        requires
            field.valid(),
            draw.wf(),
        ensures
            final(self)@ == served(*field, *draw),
            final(self).wf(),
            final(self).within(*field),
    {
        *self = Ball::new(field, draw);
    }

    /// The part of a step that chance has no say in after the jitter: the
    /// flight, and either the deflected ball or the point. After a point the
    /// ball itself is left as it was, to be served.
    fn advance(
        &mut self,
        score: &mut Score,
        field: &Playfield,
        left: &Paddle,
        right: &Paddle,
        dt: u64,
        jitter_x: i64,
        jitter_y: i64,
    ) -> (outcome: Outcome)
        requires
            old(self).wf(),
            old(self).can_fly(dt as int),
            old(score).has_room(),
            field.valid(),
            -JITTER <= jitter_x <= JITTER,
            -JITTER <= jitter_y <= JITTER,
        ensures
            outcome == verdict(*field, flight(*old(self), dt as int, jitter_x as int, jitter_y as int)),
            outcome == Outcome::InPlay ==> {
                &&& final(self)@ == deflected(
                    *field,
                    left.y as int,
                    right.y as int,
                    old(self).x as int,
                    dt as int,
                    flight(*old(self), dt as int, jitter_x as int, jitter_y as int),
                )
                &&& final(score)@ == old(score)@
                &&& final(self).wf()
                &&& final(self).within(*field)
            },
            outcome matches Outcome::Point(player) ==> {
                &&& *final(self) == *old(self)
                &&& final(score)@ == old(score).credited(player)
            },
    {
        let bounds = field.bounds();
        proof {
            lemma_bands_hold_start(*field);
        }
        let heading = self.direction.jittered(jitter_x, jitter_y);
        proof {
            lemma_unit_component_bound(heading.x as int, heading.y as int);
        }
        let velocity: i64 = ((self.velocity as i128) + gain(dt)) as i64;
        let tx: i128 = (self.x as i128) + travel_of(heading.x, velocity, dt);
        let ty: i128 = (self.y as i128) + travel_of(heading.y, velocity, dt);
        if tx < bounds.left_wall as i128 {
            score.award(Player::Player2);
            return Outcome::Point(Player::Player2);
        }
        if tx > bounds.right_wall as i128 {
            score.award(Player::Player1);
            return Outcome::Point(Player::Player1);
        }
        let y = clamp(ty, bounds.floor, bounds.ceiling);
        let mut heading = if (y as i128) != ty {
            heading.reflect_y()
        } else {
            heading
        };
        let mut x: i128 = tx;
        if x < bounds.left_guard as i128 && covered(left.y, y) {
            heading = heading.reflect_x();
            proof {
                lemma_unit_component_bound(heading.x as int, heading.y as int);
            }
            x = (self.x as i128) + travel_of(heading.x, velocity, dt);
        }
        if x > bounds.right_guard as i128 && covered(right.y, y) {
            heading = heading.reflect_x();
            proof {
                lemma_unit_component_bound(heading.x as int, heading.y as int);
            }
            x = (self.x as i128) + travel_of(heading.x, velocity, dt);
        }
        self.x = clamp(x, bounds.left_wall, bounds.right_wall);
        self.y = y;
        self.velocity = velocity;
        self.direction = heading;
        Outcome::InPlay
    }

    /// Advances the ball by `dt` microseconds with the given draws: the
    /// heading is jittered, the speed grows, and the move ends in a bounce, a
    /// deflection by a paddle, or a point and a serve.
    pub fn step_with(
        &mut self,
        score: &mut Score,
        field: &Playfield,
        left: &Paddle,
        right: &Paddle,
        dt: u64,
        draws: &StepDraws,
    ) -> (outcome: Outcome)
        requires
            old(self).wf(),
            old(self).can_fly(dt as int),
            old(score).has_room(),
            field.valid(),
            draws.wf(),
        ensures
            (Stepped { ball: final(self)@, score: final(score)@, outcome }) == stepped(
                *old(self),
                *old(score),
                *field,
                left.y as int,
                right.y as int,
                dt as int,
                *draws,
            ),
            final(self).wf(),
            final(self).within(*field),
            outcome == Outcome::InPlay ==> final(self).velocity >= old(self).velocity,
            outcome != Outcome::InPlay ==> final(self).velocity == BALL_SPEED,
    {
        proof {
            lemma_speed_grows_until_point(
                *old(self),
                *old(score),
                *field,
                left.y as int,
                right.y as int,
                dt as int,
                *draws,
            );
        }
        let outcome = self.advance(score, field, left, right, dt, draws.jitter_x, draws.jitter_y);
        match outcome {
            Outcome::InPlay => {},
            Outcome::Point(_) => {
                self.serve_with(field, &draws.serve);
            },
        }
        outcome
    }

    /// Advances the ball by `dt` microseconds, with jitter and, after a
    /// point, a serve drawn from the thread's random number generator.
    pub fn step(
        &mut self,
        score: &mut Score,
        field: &Playfield,
        left: &Paddle,
        right: &Paddle,
        dt: u64,
    ) -> (outcome: Outcome)
        requires
            old(self).wf(),
            old(self).can_fly(dt as int),
            old(score).has_room(),
            field.valid(),
        ensures
            exists|draws: StepDraws|
                draws.wf() && (Stepped { ball: final(self)@, score: final(score)@, outcome })
                    == #[trigger] stepped(
                    *old(self),
                    *old(score),
                    *field,
                    left.y as int,
                    right.y as int,
                    dt as int,
                    draws,
                ),
            final(self).wf(),
            final(self).within(*field),
            outcome == Outcome::InPlay ==> final(self).velocity >= old(self).velocity,
            outcome != Outcome::InPlay ==> final(self).velocity == BALL_SPEED,
    {
        let jitter_x = draw_jitter();
        let jitter_y = draw_jitter();
        let outcome = self.advance(score, field, left, right, dt, jitter_x, jitter_y);
        match outcome {
            Outcome::InPlay => {
                proof {
                    let draws = StepDraws {
                        jitter_x,
                        jitter_y,
                        serve: ServeDraw { angle: SERVE_ANGLE_MIN, flip_x: false, flip_y: false },
                    };
                    assert(draws.wf());
                    lemma_speed_grows_until_point(
                        *old(self),
                        *old(score),
                        *field,
                        left.y as int,
                        right.y as int,
                        dt as int,
                        draws,
                    );
                    assert((Stepped { ball: self@, score: score@, outcome }) == stepped(
                        *old(self),
                        *old(score),
                        *field,
                        left.y as int,
                        right.y as int,
                        dt as int,
                        draws,
                    ));
                }
            },
            Outcome::Point(_) => {
                let serve = draw_serve();
                self.serve_with(field, &serve);
                proof {
                    let draws = StepDraws { jitter_x, jitter_y, serve };
                    assert(draws.wf());
                    assert((Stepped { ball: self@, score: score@, outcome }) == stepped(
                        *old(self),
                        *old(score),
                        *field,
                        left.y as int,
                        right.y as int,
                        dt as int,
                        draws,
                    ));
                }
            },
        }
        outcome
    }

    /// Serves with an angle and mirrorings drawn from the thread's random
    /// number generator.
    pub fn serve(&mut self, field: &Playfield)
        requires
            field.valid(),
        ensures
            exists|draw: ServeDraw| draw.wf() && final(self)@ == #[trigger] served(*field, draw),
            final(self).wf(),
            final(self).within(*field),
    {
        let draw = draw_serve();
        self.serve_with(field, &draw);
        assert(draw.wf() && self@ == served(*field, draw));
    }
}

} // verus!
