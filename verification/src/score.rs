//! The score: one counter for each player.

use crate::paddle::Player;
use vstd::prelude::*;

verus! {

/// The points of the two players.
#[derive(Clone, Copy, Debug, PartialEq, Eq, Structural)]
pub struct Score {
    pub player1: u32,
    pub player2: u32,
}

impl View for Score {
    type V = (int, int);

    open spec fn view(&self) -> (int, int) {
        (self.player1 as int, self.player2 as int)
    }
}

impl Score {
    /// The score with one more point for `player`.
    pub open spec fn credited(self, player: Player) -> (int, int) {
        match player {
            Player::Player1 => (self.player1 + 1, self.player2 as int),
            Player::Player2 => (self.player1 as int, self.player2 + 1),
        }
    }

    /// The points of `player`.
    pub open spec fn of(self, player: Player) -> int {
        match player {
            Player::Player1 => self.player1 as int,
            Player::Player2 => self.player2 as int,
        }
    }

    /// Whether each counter can still take a point.
    pub open spec fn has_room(self) -> bool {
        self.player1 < u32::MAX && self.player2 < u32::MAX
    }

    /// The score at the start of a session.
    pub fn new() -> (score: Score)
        ensures
            score.player1 == 0,
            score.player2 == 0,
    {
        Score { player1: 0, player2: 0 }
    }

    /// Tells whether each counter can still take a point.
    pub fn check_room(&self) -> (ok: bool)
        ensures
            ok == self.has_room(),
    {
        self.player1 < u32::MAX && self.player2 < u32::MAX
    }

    /// The points of `player`.
    pub fn points(&self, player: Player) -> (n: u32)
        ensures
            n == self.of(player),
    {
        match player {
            Player::Player1 => self.player1,
            Player::Player2 => self.player2,
        }
    }

    /// Gives `player` one point.
    pub fn award(&mut self, player: Player)
        requires
            old(self).of(player) < u32::MAX,
        ensures
            final(self)@ == old(self).credited(player),
    {
        match player {
            Player::Player1 => {
                self.player1 = self.player1 + 1;
            },
            Player::Player2 => {
                self.player2 = self.player2 + 1;
            },
        }
    }
}

} // verus!
