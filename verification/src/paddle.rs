//! The paddles and the keys that steer them.

use crate::field::Playfield;
use crate::fixed::{clamp, clamped, MAX_EXTENT, SECOND};
use vstd::prelude::*;

verus! {

/// The speed of a paddle, in length units per second.
pub const SPEED: i64 = 500_000;

/// One of the two players.
#[derive(Clone, Copy, Debug, PartialEq, Eq, Structural)]
pub enum Player {
    Player1,
    Player2,
}

/// A key that steers a paddle.
#[derive(Clone, Copy, Debug, PartialEq, Eq, Structural)]
pub enum Key {
    W,
    S,
    Up,
    Down,
}

/// The steering keys that are held down at one moment.
#[derive(Clone, Copy, Debug, PartialEq, Eq, Structural)]
pub struct Keys {
    pub w: bool,
    pub s: bool,
    pub up: bool,
    pub down: bool,
}

/// A paddle: its owner and the height of its centre.
#[derive(Clone, Copy, Debug, PartialEq, Eq, Structural)]
pub struct Paddle {
    pub owner: Player,
    pub y: i64,
}

impl Player {
    /// The keys that move this player's paddle up and down, in that order.
    pub open spec fn keys(self) -> (Key, Key) {
        match self {
            Player::Player1 => (Key::W, Key::S),
            Player::Player2 => (Key::Up, Key::Down),
        }
    }

    /// The keys that move this player's paddle up and down, in that order.
    pub fn get_keys(&self) -> (keys: (Key, Key))
        ensures
            keys == self.keys(),
    {
        match self {
            Player::Player1 => (Key::W, Key::S),
            Player::Player2 => (Key::Up, Key::Down),
        }
    }
}

impl Keys {
    /// Whether `key` is held down.
    pub open spec fn holds(self, key: Key) -> bool {
        match key {
            Key::W => self.w,
            Key::S => self.s,
            Key::Up => self.up,
            Key::Down => self.down,
        }
    }

    /// The way in which the held keys steer the paddle of `player`: 1 for up,
    /// -1 for down, 0 for rest. The up key wins over the down key.
    pub open spec fn steer(self, player: Player) -> int {
        if self.holds(player.keys().0) {
            1
        } else if self.holds(player.keys().1) {
            -1
        } else {
            0
        }
    }

    /// No key held down.
    pub fn none() -> (keys: Keys)
        ensures
            keys == (Keys { w: false, s: false, up: false, down: false }),
    {
        Keys { w: false, s: false, up: false, down: false }
    }

    /// Tells whether `key` is held down.
    pub fn pressed(&self, key: Key) -> (held: bool)
        ensures
            held == self.holds(key),
    {
        match key {
            Key::W => self.w,
            Key::S => self.s,
            Key::Up => self.up,
            Key::Down => self.down,
        }
    }
}

/// The distance that a paddle covers in `dt` microseconds.
pub open spec fn paddle_travel(dt: int) -> int {
    dt * SPEED / (SECOND as int)
}

/// The height of a paddle that was at `y`, after `dt` microseconds of
/// steering in the way `steer`.
pub open spec fn paddle_target(field: Playfield, y: int, steer: int, dt: int) -> int {
    clamped(y + steer * paddle_travel(dt), field.paddle_floor(), field.paddle_ceiling())
}

/// However long a paddle is steered, and from wherever, it ends within its
/// band.
pub proof fn lemma_paddle_stays_in_band(field: Playfield, y: int, steer: int, dt: int)
    requires
        field.valid(),
    ensures
        field.paddle_floor() <= paddle_target(field, y, steer, dt) <= field.paddle_ceiling(),
{
}

/// A paddle at the top of its band that is steered upwards stays where it
/// is, and so does one at the bottom that is steered downwards.
pub proof fn lemma_paddle_stops_at_band_edge(field: Playfield, dt: int)
    requires
        field.valid(),
        dt >= 0,
    ensures
        paddle_target(field, field.paddle_ceiling(), 1, dt) == field.paddle_ceiling(),
        paddle_target(field, field.paddle_floor(), -1, dt) == field.paddle_floor(),
{
    assert(paddle_travel(dt) >= 0) by (nonlinear_arith)
        requires
            dt >= 0,
            paddle_travel(dt) == dt * 500_000 / 1_000_000,
    ;
}

impl Paddle {
    /// Whether the paddle lies within the band of `field`.
    pub open spec fn within(&self, field: Playfield) -> bool {
        field.paddle_floor() <= self.y <= field.paddle_ceiling()
    }

    /// The paddle of `owner` at the height at which play starts.
    pub fn new(owner: Player, field: &Playfield) -> (paddle: Paddle)
        requires
            field.valid(),
        ensures
            paddle.owner == owner,
            paddle.y == field.start_y(),
            paddle.within(*field),
    {
        Paddle { owner, y: field.bounds().start_y }
    }

    /// Moves the paddle as the held keys say, for `dt` microseconds, and
    /// keeps it within its band.
    pub fn step(&mut self, field: &Playfield, keys: &Keys, dt: u64)
        requires
            field.valid(),
        ensures
            final(self).owner == old(self).owner,
            final(self).y == paddle_target(
                *field,
                old(self).y as int,
                keys.steer(old(self).owner),
                dt as int,
            ),
            final(self).within(*field),
    {
        let (up, down) = self.owner.get_keys();
        let steer: i128 = if keys.pressed(up) {
            1
        } else if keys.pressed(down) {
            -1
        } else {
            0
        };
        assert(0 <= dt * SPEED <= 0xffff_ffff_ffff_ffff * 500_000) by (nonlinear_arith)
            requires
                0 <= dt <= 0xffff_ffff_ffff_ffff,
        ;
        let travel: i128 = (dt as i128) * (SPEED as i128) / (SECOND as i128);
        let bounds = field.bounds();
        let target: i128 = (self.y as i128) + steer * travel;
        self.y = clamp(target, bounds.paddle_floor, bounds.paddle_ceiling);
    }
}

} // verus!
