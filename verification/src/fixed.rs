//! Integer arithmetic shared by the whole simulation.
//!
//! Lengths are counted in thousandths of a pixel, time in microseconds and
//! the components of a heading in millionths, so every quantity of the game
//! is an integer and every rounding is spelled out.

use vstd::prelude::*;

verus! {

/// Length units in one pixel.
pub const PIXEL: i64 = 1_000;

/// Microseconds in one second.
pub const SECOND: u64 = 1_000_000;

/// The length of a heading: its components are counted in millionths.
pub const ONE: i64 = 1_000_000;

/// The largest distance from the origin that a coordinate or a playfield
/// dimension may have.
pub const MAX_EXTENT: i64 = 1_000_000_000_000;

/// The value `v` held inside the closed interval from `lo` to `hi`.
pub open spec fn clamped(v: int, lo: int, hi: int) -> int {
    if v < lo {
        lo
    } else if v > hi {
        hi
    } else {
        v
    }
}

/// The quotient of `n` by a positive `d`, rounded towards zero.
pub open spec fn quot(n: int, d: int) -> int {
    if n >= 0 {
        n / d
    } else {
        -((-n) / d)
    }
}

/// The largest natural number whose square does not exceed `s`.
pub open spec fn floor_sqrt(s: nat) -> nat
    decreases s,
{
    if s == 0 {
        0
    } else {
        let r = floor_sqrt((s - 1) as nat);
        if (r + 1) * (r + 1) <= s {
            r + 1
        } else {
            r
        }
    }
}

/// `floor_sqrt(s)` squared does not exceed `s`, and the next square does.
pub proof fn lemma_floor_sqrt_bounds(s: nat)
    ensures
        floor_sqrt(s) * floor_sqrt(s) <= s,
        s < (floor_sqrt(s) + 1) * (floor_sqrt(s) + 1),
    decreases s,
{
    let n = floor_sqrt(s);
    if s > 0 {
        lemma_floor_sqrt_bounds((s - 1) as nat);
        let r = floor_sqrt((s - 1) as nat);
        if (r + 1) * (r + 1) <= s {
            assert(n == r + 1);
            assert(n * n <= s && s < (n + 1) * (n + 1)) by (nonlinear_arith)
                requires
                    n == r + 1,
                    (r + 1) * (r + 1) <= s,
                    s - 1 < (r + 1) * (r + 1),
            ;
        } else {
            assert(n == r);
            assert(n * n <= s && s < (n + 1) * (n + 1)) by (nonlinear_arith)
                requires
                    n == r,
                    r * r <= s - 1,
                    s < (r + 1) * (r + 1),
            ;
        }
    } else {
        assert(n == 0);
        assert(n * n <= s && s < (n + 1) * (n + 1)) by (nonlinear_arith)
            requires
                n == 0,
                s == 0,
        ;
    }
}

/// Only one natural number lies between the square roots of `s` and `s + 1`.
pub proof fn lemma_floor_sqrt_unique(s: nat, n: nat)
    requires
        n * n <= s,
        s < (n + 1) * (n + 1),
    ensures
        n == floor_sqrt(s),
{
    lemma_floor_sqrt_bounds(s);
    let r = floor_sqrt(s);
    assert(n == r) by (nonlinear_arith)
        requires
            n * n <= s,
            s < (n + 1) * (n + 1),
            r * r <= s,
            s < (r + 1) * (r + 1),
    ;
}

/// A square root of at least `k` is the same as a radicand of at least `k * k`.
pub proof fn lemma_floor_sqrt_at_least(s: nat, k: nat)
    requires
        k * k <= s,
    ensures
        k <= floor_sqrt(s),
{
    lemma_floor_sqrt_bounds(s);
    let r = floor_sqrt(s);
    assert(k <= r) by (nonlinear_arith)
        requires
            k * k <= s,
            s < (r + 1) * (r + 1),
    ;
}

/// The integer square root of `s`, rounded down.
pub fn isqrt(s: u64) -> (n: u64)
    ensures
        n == floor_sqrt(s as nat),
{
    let mut lo: u64 = 0;
    let mut hi: u64 = 0x1_0000_0000;
    while hi - lo > 1
        invariant
            lo < hi <= 0x1_0000_0000,
            lo * lo <= s,
            s < hi * hi,
        decreases hi - lo,
    {
        let mid: u64 = lo + (hi - lo) / 2;
        assert(mid * mid <= 0xffff_ffff * 0xffff_ffff) by (nonlinear_arith)
            requires
                mid <= 0xffff_ffff,
        ;
        if mid * mid <= s {
            lo = mid;
        } else {
            hi = mid;
        }
    }
    proof {
        lemma_floor_sqrt_unique(s as nat, lo as nat);
    }
    lo
}

/// Holds `v` inside the closed interval from `lo` to `hi`.
pub fn clamp(v: i128, lo: i64, hi: i64) -> (r: i64)
    requires
        lo <= hi,
    ensures
        r == clamped(v as int, lo as int, hi as int),
{
    if v < lo as i128 {
        lo
    } else if v > hi as i128 {
        hi
    } else {
        v as i64
    }
}

} // verus!
