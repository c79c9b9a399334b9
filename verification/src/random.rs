//! Chance: the draws that a step and a serve take from the thread's random
//! number generator.

use crate::ball::StepDraws;
use crate::heading::JITTER;
use crate::serve::{ServeDraw, SERVE_ANGLE_MAX, SERVE_ANGLE_MIN};
use rand::Rng;
use vstd::prelude::*;

verus! {

/// A number from `lo` to `hi`, both included, from `rand::Rng::gen_range` on
/// the generator that `rand::thread_rng` hands out. The contract claims only
/// that the number lies in the range, for which the range must not be empty.
#[verifier::external_body]
fn uniform(lo: i64, hi: i64) -> (r: i64)
    requires
        lo <= hi,
    ensures
        lo <= r <= hi,
{
    rand::thread_rng().gen_range(lo..=hi)
}

/// A fair coin, from `rand::Rng::gen_ratio` with the ratio one in two on the
/// generator that `rand::thread_rng` hands out. Nothing is claimed of the
/// result.
#[verifier::external_body]
fn coin() -> (heads: bool) {
    rand::thread_rng().gen_ratio(1, 2)
}

/// Draws the offset of one component of the heading.
pub fn draw_jitter() -> (jitter: i64)
    ensures
        -JITTER <= jitter <= JITTER,
{
    uniform(-JITTER, JITTER)
}

/// Draws a serve: an angle from the serve range and two fair coins for the
/// mirrorings.
pub fn draw_serve() -> (draw: ServeDraw)
    ensures
        draw.wf(),
{
    let angle = uniform(SERVE_ANGLE_MIN, SERVE_ANGLE_MAX);
    let flip_x = coin();
    let flip_y = coin();
    ServeDraw { angle, flip_x, flip_y }
}

/// Draws all that one step may need.
pub fn draw_step() -> (draws: StepDraws)
    ensures
        draws.wf(),
{
    let jitter_x = draw_jitter();
    let jitter_y = draw_jitter();
    let serve = draw_serve();
    StepDraws { jitter_x, jitter_y, serve }
}

} // verus!
