//! Headings: the direction in which the ball travels.
//!
//! A heading is a vector of two integers counted in millionths. It stands for
//! a unit vector, so its length stays within `SLACK` millionths of `ONE`.

use crate::fixed::{floor_sqrt, isqrt, lemma_floor_sqrt_at_least, lemma_floor_sqrt_bounds, quot, ONE};
use vstd::prelude::*;

verus! {

/// How far the length of a heading may differ from `ONE`, in millionths.
pub const SLACK: i64 = 2;

/// The largest offset that one step adds to a component of the heading.
pub const JITTER: i64 = 10_000;

/// The largest component that `Direction::normalize` accepts.
pub const MAX_COMPONENT: i64 = 2_000_000_000;

/// A heading, in millionths.
#[derive(Clone, Copy, Debug, PartialEq, Eq, Structural)]
pub struct Direction {
    pub x: i64,
    pub y: i64,
}

/// The vector `(a, b)` scaled to length `ONE`, each component rounded
/// towards zero.
pub open spec fn normalized(a: int, b: int) -> (int, int) {
    let n = floor_sqrt((a * a + b * b) as nat) as int;
    (quot(a * ONE, n), quot(b * ONE, n))
}

/// Whether the vector `(x, y)` has a length within `SLACK` of `ONE`.
pub open spec fn unit_length(x: int, y: int) -> bool {
    (ONE - SLACK) * (ONE - SLACK) <= x * x + y * y <= (ONE + SLACK) * (ONE + SLACK)
}

/// A component of a vector of unit length is at most `ONE + SLACK` long.
pub proof fn lemma_unit_component_bound(x: int, y: int)
    requires
        unit_length(x, y),
    ensures
        -(ONE + SLACK) <= x <= ONE + SLACK,
        -(ONE + SLACK) <= y <= ONE + SLACK,
{
    assert(-1_000_002 <= x <= 1_000_002 && -1_000_002 <= y <= 1_000_002) by (nonlinear_arith)
        requires
            x * x + y * y <= 1_000_002 * 1_000_002,
    ;
}

/// Scaling a vector whose length is at least half of `ONE` gives a vector
/// of unit length.
pub proof fn lemma_normalized_unit(a: int, b: int)
    requires
        2 * floor_sqrt((a * a + b * b) as nat) >= ONE,
    ensures
        unit_length(normalized(a, b).0, normalized(a, b).1),
{
    let aa: int = if a >= 0 { a } else { -a };
    let bb: int = if b >= 0 { b } else { -b };
    assert(aa * aa == a * a && bb * bb == b * b) by (nonlinear_arith)
        requires
            aa == a || aa == -a,
            bb == b || bb == -b,
    ;
    let s = aa * aa + bb * bb;
    assert(s >= 0) by (nonlinear_arith)
        requires
            s == aa * aa + bb * bb,
    ;
    let n = floor_sqrt(s as nat) as int;
    lemma_floor_sqrt_bounds(s as nat);
    let xx = (aa * ONE) / n;
    let yy = (bb * ONE) / n;
    let (x, y) = normalized(a, b);
    assert(x == xx || x == -xx);
    assert(y == yy || y == -yy);
    assert(x * x == xx * xx && y * y == yy * yy) by (nonlinear_arith)
        requires
            x == xx || x == -xx,
            y == yy || y == -yy,
    ;
    lemma_scaled_pair_unit(aa, bb, n, xx, yy);
}

/// The square of a product is the product of the squares.
proof fn lemma_square_of_product(u: int, v: int)
    ensures
        (u * v) * (u * v) == v * v * (u * u),
{
    assert((u * v) * (u * v) == v * v * (u * u)) by (nonlinear_arith);
}

/// The arithmetic behind `lemma_normalized_unit`, over non-negative numbers.
proof fn lemma_scaled_pair_unit(a: int, b: int, n: int, x: int, y: int)
    requires
        a >= 0,
        b >= 0,
        2 * n >= 1_000_000,
        n * n <= a * a + b * b,
        a * a + b * b < (n + 1) * (n + 1),
        x == (a * 1_000_000) / n,
        y == (b * 1_000_000) / n,
    ensures
        999_998 * 999_998 <= x * x + y * y <= 1_000_002 * 1_000_002,
{
    let k: int = 1_000_000;
    assert(x >= 0 && x * n <= a * k && a * k < (x + 1) * n) by (nonlinear_arith)
        requires
            a >= 0,
            n > 0,
            k > 0,
            x == (a * k) / n,
    ;
    assert(y >= 0 && y * n <= b * k && b * k < (y + 1) * n) by (nonlinear_arith)
        requires
            b >= 0,
            n > 0,
            k > 0,
            y == (b * k) / n,
    ;
    let s = a * a + b * b;
    let m = x * x + y * y;
    // Upper bound: n * n * m <= k * k * s < (k * (n + 1))^2.
    assert((x * n) * (x * n) <= (a * k) * (a * k)) by (nonlinear_arith)
        requires
            0 <= x * n <= a * k,
    ;
    assert((y * n) * (y * n) <= (b * k) * (b * k)) by (nonlinear_arith)
        requires
            0 <= y * n <= b * k,
            y >= 0,
            n > 0,
    ;
    assert(0 <= x * n && 0 <= y * n) by (nonlinear_arith)
        requires
            x >= 0,
            y >= 0,
            n > 0,
    ;
    lemma_square_of_product(x, n);
    lemma_square_of_product(y, n);
    lemma_square_of_product(a, k);
    lemma_square_of_product(b, k);
    assert(n * n * m == n * n * (x * x) + n * n * (y * y)) by (nonlinear_arith)
        requires
            m == x * x + y * y,
    ;
    assert(k * k * s == k * k * (a * a) + k * k * (b * b)) by (nonlinear_arith)
        requires
            s == a * a + b * b,
    ;
    assert(n * n * m <= k * k * s);
    assert(m <= (k + 2) * (k + 2)) by (nonlinear_arith)
        requires
            n * n * m <= k * k * s,
            s < (n + 1) * (n + 1),
            2 * n >= k,
            k == 1_000_000,
            m >= 0,
            n > 0,
    ;
    // Lower bound: (x + 1)^2 + (y + 1)^2 > k * k.
    assert(((x + 1) * n) * ((x + 1) * n) >= (a * k) * (a * k)) by (nonlinear_arith)
        requires
            0 <= a * k < (x + 1) * n,
    ;
    assert(((y + 1) * n) * ((y + 1) * n) >= (b * k) * (b * k)) by (nonlinear_arith)
        requires
            0 <= b * k < (y + 1) * n,
    ;
    assert(0 <= a * k && 0 <= b * k) by (nonlinear_arith)
        requires
            a >= 0,
            b >= 0,
            k > 0,
    ;
    let w = (x + 1) * (x + 1) + (y + 1) * (y + 1);
    lemma_square_of_product(x + 1, n);
    lemma_square_of_product(y + 1, n);
    assert(n * n * w == n * n * ((x + 1) * (x + 1)) + n * n * ((y + 1) * (y + 1)))
        by (nonlinear_arith)
        requires
            w == (x + 1) * (x + 1) + (y + 1) * (y + 1),
    ;
    assert(n * n * w >= k * k * s);
    assert(w >= k * k) by (nonlinear_arith)
        requires
            n * n * w >= k * k * s,
            s >= n * n,
            n > 0,
    ;
    assert(2 * (x + y) < 3 * k) by (nonlinear_arith)
        requires
            x >= 0,
            y >= 0,
            x * x + y * y <= (k + 2) * (k + 2),
            k == 1_000_000,
    ;
    assert(m >= (k - 2) * (k - 2)) by (nonlinear_arith)
        requires
            w >= k * k,
            w == (x + 1) * (x + 1) + (y + 1) * (y + 1),
            m == x * x + y * y,
            2 * (x + y) < 3 * k,
            k == 1_000_000,
    ;
}

/// An offset of at most `JITTER` on each component leaves a vector of unit
/// length at least half as long as `ONE`.
pub proof fn lemma_jittered_length(x: int, y: int, jx: int, jy: int)
    requires
        unit_length(x, y),
        -JITTER <= jx <= JITTER,
        -JITTER <= jy <= JITTER,
    ensures
        2 * floor_sqrt(((x + jx) * (x + jx) + (y + jy) * (y + jy)) as nat) >= ONE,
{
    let a = x + jx;
    let b = y + jy;
    assert(x <= -700_000 || x >= 700_000 || y <= -700_000 || y >= 700_000) by (nonlinear_arith)
        requires
            999_998 * 999_998 <= x * x + y * y,
    ;
    assert(a * a + b * b >= 500_000 * 500_000) by (nonlinear_arith)
        requires
            a <= -690_000 || a >= 690_000 || b <= -690_000 || b >= 690_000,
    ;
    lemma_floor_sqrt_at_least((a * a + b * b) as nat, 500_000);
}

impl View for Direction {
    type V = (int, int);

    open spec fn view(&self) -> (int, int) {
        (self.x as int, self.y as int)
    }
}

impl Direction {
    /// Whether the heading has unit length, within `SLACK`.
    pub open spec fn is_unit(&self) -> bool {
        unit_length(self.x as int, self.y as int)
    }

    /// Tells whether the heading has unit length, within `SLACK`.
    pub fn check_unit(&self) -> (ok: bool)
        ensures
            ok == self.is_unit(),
    {
        let bound: i64 = ONE + SLACK;
        if self.x < -bound || self.x > bound || self.y < -bound || self.y > bound {
            proof {
                if self.is_unit() {
                    lemma_unit_component_bound(self.x as int, self.y as int);
                }
            }
            return false;
        }
        assert(0 <= self.x * self.x <= 1_000_002 * 1_000_002 && 0 <= self.y * self.y <= 1_000_002
            * 1_000_002) by (nonlinear_arith)
            requires
                -1_000_002 <= self.x <= 1_000_002,
                -1_000_002 <= self.y <= 1_000_002,
        ;
        let m: i64 = self.x * self.x + self.y * self.y;
        let lo: i64 = ONE - SLACK;
        let hi: i64 = ONE + SLACK;
        lo * lo <= m && m <= hi * hi
    }

    /// The vector `(a, b)` scaled to length `ONE`.
    pub fn normalize(a: i64, b: i64) -> (d: Direction)
        requires
            -MAX_COMPONENT <= a <= MAX_COMPONENT,
            -MAX_COMPONENT <= b <= MAX_COMPONENT,
            a != 0 || b != 0,
        ensures
            d@ == normalized(a as int, b as int),
            2 * floor_sqrt((a * a + b * b) as nat) >= ONE ==> d.is_unit(),
    {
        assert(0 <= a * a <= 2_000_000_000 * 2_000_000_000 && 0 <= b * b <= 2_000_000_000
            * 2_000_000_000 && a * a + b * b >= 1) by (nonlinear_arith)
            requires
                -2_000_000_000 <= a <= 2_000_000_000,
                -2_000_000_000 <= b <= 2_000_000_000,
                a != 0 || b != 0,
        ;
        let s: i64 = a * a + b * b;
        let root: u64 = isqrt(s as u64);
        proof {
            lemma_floor_sqrt_at_least(s as nat, 1);
            lemma_floor_sqrt_bounds(s as nat);
            assert(root <= 3_000_000_000) by (nonlinear_arith)
                requires
                    root * root <= s,
                    s <= 8_000_000_000_000_000_000,
            ;
            if 2 * floor_sqrt((a * a + b * b) as nat) >= ONE {
                lemma_normalized_unit(a as int, b as int);
            }
        }
        let n: i64 = root as i64;
        Direction { x: (a * ONE) / n, y: (b * ONE) / n }
    }

    /// The heading moved by `(jx, jy)` and scaled back to unit length.
    pub fn jittered(&self, jx: i64, jy: i64) -> (d: Direction)
        requires
            self.is_unit(),
            -JITTER <= jx <= JITTER,
            -JITTER <= jy <= JITTER,
        ensures
            d@ == normalized(self.x + jx, self.y + jy),
            d.is_unit(),
    {
        proof {
            lemma_unit_component_bound(self.x as int, self.y as int);
            lemma_jittered_length(self.x as int, self.y as int, jx as int, jy as int);
            let a = self.x + jx;
            let b = self.y + jy;
            if a == 0 && b == 0 {
                assert(floor_sqrt((a * a + b * b) as nat) == 0) by {
                    assert(a * a + b * b == 0) by (nonlinear_arith)
                        requires
                            a == 0,
                            b == 0,
                    ;
                }
            }
        }
        Direction::normalize(self.x + jx, self.y + jy)
    }

    /// The heading after a bounce off a vertical surface.
    pub fn reflect_x(&self) -> (d: Direction)
        requires
            self.is_unit(),
        ensures
            d.x == -self.x,
            d.y == self.y,
            d.is_unit(),
    {
        proof {
            lemma_unit_component_bound(self.x as int, self.y as int);
            assert((-self.x) * (-self.x) == self.x * self.x) by (nonlinear_arith);
        }
        Direction { x: -self.x, y: self.y }
    }

    /// The heading after a bounce off a horizontal surface.
    pub fn reflect_y(&self) -> (d: Direction)
        requires
            self.is_unit(),
        ensures
            d.x == self.x,
            d.y == -self.y,
            d.is_unit(),
    {
        proof {
            lemma_unit_component_bound(self.x as int, self.y as int);
            assert((-self.y) * (-self.y) == self.y * self.y) by (nonlinear_arith);
        }
        Direction { x: self.x, y: -self.y }
    }
}

} // verus!
