//! The game as a whole: mode, playfield, paddles, ball and score, advanced
//! one frame at a time.

use crate::ball::{stepped, Ball, Outcome, StepDraws, Stepped};
use crate::field::{dimensions_fit, Playfield};
use crate::paddle::{paddle_target, Keys, Paddle, Player};
use crate::random::draw_serve;
use crate::score::Score;
use crate::serve::ServeDraw;
use crate::state::{AppState, MenuControl};
use vstd::prelude::*;

verus! {

/// All that a session holds.
#[derive(Clone, Copy, Debug, PartialEq, Eq, Structural)]
pub struct Game {
    pub state: AppState,
    pub field: Playfield,
    pub player1: Paddle,
    pub player2: Paddle,
    pub ball: Ball,
    pub score: Score,
}

/// The paddles after the held keys have steered them for `dt` microseconds.
pub open spec fn steered(game: Game, keys: Keys, dt: int) -> (int, int) {
    (
        paddle_target(game.field, game.player1.y as int, keys.steer(Player::Player1), dt),
        paddle_target(game.field, game.player2.y as int, keys.steer(Player::Player2), dt),
    )
}

/// Ball, score and outcome after one frame of a game in progress: the ball
/// meets the paddles where the frame has moved them.
pub open spec fn played(game: Game, keys: Keys, dt: int, draws: StepDraws) -> Stepped {
    stepped(
        game.ball,
        game.score,
        game.field,
        steered(game, keys, dt).0,
        steered(game, keys, dt).1,
        dt,
        draws,
    )
}

impl Game {
    /// Whether the parts of the game fit together: a valid playfield, a ball
    /// that can fly on, and each paddle with its owner.
    pub open spec fn wf(&self) -> bool {
        &&& self.field.valid()
        &&& self.ball.wf()
        &&& self.player1.owner == Player::Player1
        &&& self.player2.owner == Player::Player2
    }

    /// Whether a frame of `dt` microseconds can be played: in a game in
    /// progress the speed and the score must have room to grow.
    pub open spec fn can_step(&self, dt: int) -> bool {
        &&& self.wf()
        &&& self.state.runs() ==> self.ball.can_fly(dt) && self.score.has_room()
    }

    /// Tells whether the parts of the game fit together.
    pub fn check(&self) -> (ok: bool)
        ensures
            ok == self.wf(),
    {
        let owner1 = match self.player1.owner {
            Player::Player1 => true,
            Player::Player2 => false,
        };
        let owner2 = match self.player2.owner {
            Player::Player1 => false,
            Player::Player2 => true,
        };
        self.field.check() && self.ball.check() && owner1 && owner2
    }

    /// Tells whether a frame of `dt` microseconds can be played.
    pub fn check_step(&self, dt: u64) -> (ok: bool)
        ensures
            ok == self.can_step(dt as int),
    {
        if !self.check() {
            return false;
        }
        if self.state.is_running() {
            self.ball.check_flight(dt) && self.score.check_room()
        } else {
            true
        }
    }

    /// A session at its start, with the first serve as `draw` describes it:
    /// a game in progress, no points, paddles and ball at the start height.
    pub fn new_with(field: Playfield, draw: &ServeDraw) -> (game: Game)
        requires
            field.valid(),
            draw.wf(),
        ensures
            game.wf(),
            game.state == AppState::InGame,
            game.field == field,
            game.score@ == (0int, 0int),
            game.player1.y == field.start_y(),
            game.player2.y == field.start_y(),
            game.player1.within(field),
            game.player2.within(field),
            game.ball@ == crate::ball::served(field, *draw),
            game.ball.within(field),
    {
        Game {
            state: AppState::default(),
            field,
            player1: Paddle::new(Player::Player1, &field),
            player2: Paddle::new(Player::Player2, &field),
            ball: Ball::new(&field, draw),
            score: Score::new(),
        }
    }

    /// A session at its start, with the first serve drawn from the thread's
    /// random number generator.
    pub fn new(field: Playfield) -> (game: Game)
        requires
            field.valid(),
        ensures
            game.wf(),
            game.state == AppState::InGame,
            game.field == field,
            game.score@ == (0int, 0int),
            game.player1.y == field.start_y(),
            game.player2.y == field.start_y(),
            exists|draw: ServeDraw|
                draw.wf() && game.ball@ == #[trigger] crate::ball::served(field, draw),
            game.ball.within(field),
    {
        let draw = draw_serve();
        let game = Game::new_with(field, &draw);
        assert(draw.wf() && game.ball@ == crate::ball::served(field, draw));
        game
    }

    /// Takes over new window dimensions if paddles and ball fit into them,
    /// and says whether it did.
    pub fn resize(&mut self, width: i64, height: i64, scorebar: i64) -> (done: bool)
        ensures
            done == dimensions_fit(width as int, height as int, scorebar as int),
            done ==> *final(self) == (Game {
                field: Playfield { width, height, scorebar },
                ..*old(self)
            }),
            !done ==> *final(self) == *old(self),
            old(self).wf() ==> final(self).wf(),
    {
        match Playfield::new(width, height, scorebar) {
            Some(field) => {
                self.field = field;
                true
            },
            None => false,
        }
    }

    /// Handles a pressed control of the menu, and says whether the
    /// application is asked to end.
    pub fn press(&mut self, control: MenuControl) -> (exit: bool)
        ensures
            final(self).state == old(self).state.after(control).next,
            exit == old(self).state.after(control).exit,
            *final(self) == (Game { state: final(self).state, ..*old(self) }),
    {
        let transition = self.state.press(control);
        self.state = transition.next;
        transition.exit
    }

    /// Plays one frame of `dt` microseconds with the given draws. In the
    /// menu nothing moves. In a game in progress the paddles move first, then
    /// the ball.
    pub fn step_with(&mut self, dt: u64, keys: &Keys, draws: &StepDraws) -> (outcome: Option<
        Outcome,
    >)
        requires
            old(self).can_step(dt as int),
            draws.wf(),
        ensures
            !old(self).state.runs() ==> outcome.is_none() && *final(self) == *old(self),
            old(self).state.runs() ==> {
                &&& outcome.is_some()
                &&& final(self).state == old(self).state
                &&& final(self).field == old(self).field
                &&& final(self).player1.owner == Player::Player1
                &&& final(self).player2.owner == Player::Player2
                &&& (final(self).player1.y as int, final(self).player2.y as int) == steered(
                    *old(self),
                    *keys,
                    dt as int,
                )
                &&& (Stepped {
                    ball: final(self).ball@,
                    score: final(self).score@,
                    outcome: outcome.unwrap(),
                }) == played(*old(self), *keys, dt as int, *draws)
                &&& final(self).player1.within(final(self).field)
                &&& final(self).player2.within(final(self).field)
                &&& final(self).ball.within(final(self).field)
            },
            final(self).wf(),
    {
        if !self.state.is_running() {
            return None;
        }
        self.player1.step(&self.field, keys, dt);
        self.player2.step(&self.field, keys, dt);
        let outcome = self.ball.step_with(
            &mut self.score,
            &self.field,
            &self.player1,
            &self.player2,
            dt,
            draws,
        );
        Some(outcome)
    }

    /// Plays one frame of `dt` microseconds, with the draws taken from the
    /// thread's random number generator.
    pub fn step(&mut self, dt: u64, keys: &Keys) -> (outcome: Option<Outcome>)
        requires
            old(self).can_step(dt as int),
        ensures
            !old(self).state.runs() ==> outcome.is_none() && *final(self) == *old(self),
            old(self).state.runs() ==> {
                &&& outcome.is_some()
                &&& final(self).state == old(self).state
                &&& final(self).field == old(self).field
                &&& final(self).player1.owner == Player::Player1
                &&& final(self).player2.owner == Player::Player2
                &&& (final(self).player1.y as int, final(self).player2.y as int) == steered(
                    *old(self),
                    *keys,
                    dt as int,
                )
                &&& exists|draws: StepDraws|
                    draws.wf() && (Stepped {
                        ball: final(self).ball@,
                        score: final(self).score@,
                        outcome: outcome.unwrap(),
                    }) == #[trigger] played(*old(self), *keys, dt as int, draws)
                &&& final(self).player1.within(final(self).field)
                &&& final(self).player2.within(final(self).field)
                &&& final(self).ball.within(final(self).field)
            },
            final(self).wf(),
    {
        if !self.state.is_running() {
            return None;
        }
        self.player1.step(&self.field, keys, dt);
        self.player2.step(&self.field, keys, dt);
        let ghost before_ball = self.ball;
        let ghost before_score = self.score;
        let outcome = self.ball.step(
            &mut self.score,
            &self.field,
            &self.player1,
            &self.player2,
            dt,
        );
        proof {
            let draws = choose|draws: StepDraws|
                draws.wf() && (Stepped { ball: self.ball@, score: self.score@, outcome })
                    == #[trigger] stepped(
                    before_ball,
                    before_score,
                    self.field,
                    self.player1.y as int,
                    self.player2.y as int,
                    dt as int,
                    draws,
                );
            assert((Stepped { ball: self.ball@, score: self.score@, outcome }) == played(
                *old(self),
                *keys,
                dt as int,
                draws,
            ));
        }
        Some(outcome)
    }
}

} // verus!
