//! The simulation at the heart of a game of pong for two players: paddles
//! steered by keys, a ball that speeds up, bounces and is served at random,
//! the score, and the switch between menu and game.
//!
//! Everything is counted in integers: lengths in thousandths of a pixel, time
//! in microseconds, headings in millionths. Chance enters either as explicit
//! draws handed to the `*_with` functions, or from the thread's random number
//! generator.

pub mod ball;
pub mod field;
pub mod fixed;
pub mod game;
pub mod heading;
pub mod paddle;
pub mod random;
pub mod score;
pub mod serve;
pub mod state;
