//! The camera follower: exponential smoothing of a continuous rendered
//! position toward a discrete grid target.
//!
//! Every rendering tick the rendered position moves by the fraction
//! `k * dt` of its remaining distance to the target,
//! `rendered := rendered * (1 - k*dt) + target * k*dt`, with `target =
//! tile_size * grid_coordinate` and a fixed decay constant `k` (design
//! value 5). No floating point participates: positions are carried in
//! fixed-point subpixel units (`SUBPIXELS` units per pixel) and `k * dt`
//! is handed in as a fraction `num / den` in `(0, 1)`. The step rounds
//! away from zero, so as long as the rendered position has not reached a
//! stationary target it moves strictly closer every tick and never
//! overshoots — it reaches the target after at most `dist` ticks.

use vstd::arithmetic::div_mod::{
    lemma_basic_div, lemma_div_by_self, lemma_div_is_ordered, lemma_fundamental_div_mod_converse,
};
use vstd::arithmetic::mul::lemma_mul_inequality;
use vstd::prelude::*;

use crate::grid::GridLocation;

verus! {

/// Fixed-point subpixel units per pixel.
pub const SUBPIXELS: i64 = 1000;

/// Pixels per tile: the sprite width and height.
pub const TILE_SIZE: i64 = 16;

/// A continuous rendered position, in subpixel units per axis.
#[derive(Clone, Copy, PartialEq, Eq, Structural, Debug)]
pub struct RenderPos {
    pub x: i64,
    pub y: i64,
}

/// Distance between two positions on one axis.
pub open spec fn dist(a: int, b: int) -> int {
    if a >= b {
        a - b
    } else {
        b - a
    }
}

/// One smoothing step on one axis: move from `rendered` toward `target`
/// by the fraction `num / den` of the remaining distance, rounding away
/// from zero.
pub open spec fn smooth_step(rendered: int, target: int, num: int, den: int) -> int {
    if target >= rendered {
        rendered + ((target - rendered) * num + den - 1) / den
    } else {
        rendered - ((rendered - target) * num + den - 1) / den
    }
}

/// The rendered position after `n` smoothing steps toward a stationary
/// target.
pub open spec fn smooth_iter(rendered: int, target: int, num: int, den: int, n: nat) -> int
    decreases n,
{
    if n == 0 {
        rendered
    } else {
        smooth_step(smooth_iter(rendered, target, num, den, (n - 1) as nat), target, num, den)
    }
}

/// The step taken over a distance `d >= 1` covers at least one unit and
/// never more than the whole distance.
proof fn lemma_step_bounds(d: int, num: int, den: int)
    requires
        1 <= d,
        0 < num < den,
    ensures
        1 <= (d * num + den - 1) / den <= d,
{
    let numerator = d * num + den - 1;
    lemma_mul_inequality(1, d, num);
    assert(numerator >= den);
    lemma_div_is_ordered(den, numerator, den);
    lemma_div_by_self(den);
    lemma_mul_inequality(num, den, d);
    assert(numerator <= d * den + den - 1);
    lemma_fundamental_div_mod_converse(d * den + den - 1, den, d, den - 1);
    lemma_div_is_ordered(numerator, d * den + den - 1, den);
}

/// A position that has reached a stationary target stays there.
pub proof fn lemma_smoothing_stays_at_target(rendered: int, target: int, num: int, den: int)
    requires
        0 < num < den,
        rendered == target,
    ensures
        smooth_step(rendered, target, num, den) == rendered,
{
    lemma_basic_div(den - 1, den);
}

/// Law: for a stationary target and a smoothing fraction in `(0, 1)`,
/// the distance between the rendered position and the target strictly
/// decreases every tick, and the step never overshoots the target.
pub proof fn lemma_smoothing_strictly_decreases(rendered: int, target: int, num: int, den: int)
    requires
        0 < num < den,
        rendered != target,
    ensures
        dist(smooth_step(rendered, target, num, den), target) < dist(rendered, target),
        rendered < target ==> rendered < smooth_step(rendered, target, num, den) <= target,
        rendered > target ==> target <= smooth_step(rendered, target, num, den) < rendered,
{
    if target >= rendered {
        lemma_step_bounds(target - rendered, num, den);
    } else {
        lemma_step_bounds(rendered - target, num, den);
    }
}

/// Law: for a stationary target and a smoothing fraction in `(0, 1)`,
/// the rendered position reaches the target after at most `dist` ticks —
/// the distance approaches zero in the limit.
pub proof fn lemma_smoothing_reaches_target(
    rendered: int,
    target: int,
    num: int,
    den: int,
    n: nat,
)
    requires
        0 < num < den,
        n >= dist(rendered, target),
    ensures
        smooth_iter(rendered, target, num, den, n) == target,
    decreases n,
{
    if n > 0 {
        let prev = smooth_iter(rendered, target, num, den, (n - 1) as nat);
        if dist(rendered, target) <= n - 1 {
            lemma_smoothing_reaches_target(rendered, target, num, den, (n - 1) as nat);
            lemma_smoothing_stays_at_target(prev, target, num, den);
        } else {
            lemma_smoothing_comes_within(rendered, target, num, den, (n - 1) as nat);
            if prev == target {
                lemma_smoothing_stays_at_target(prev, target, num, den);
            } else {
                lemma_smoothing_strictly_decreases(prev, target, num, den);
            }
        }
    }
}

/// After `n` ticks the remaining distance is at most the starting
/// distance less `n`.
proof fn lemma_smoothing_comes_within(rendered: int, target: int, num: int, den: int, n: nat)
    requires
        0 < num < den,
    ensures
        dist(smooth_iter(rendered, target, num, den, n), target) <= dist(rendered, target) - n
            || smooth_iter(rendered, target, num, den, n) == target,
    decreases n,
{
    if n > 0 {
        let prev = smooth_iter(rendered, target, num, den, (n - 1) as nat);
        lemma_smoothing_comes_within(rendered, target, num, den, (n - 1) as nat);
        if prev == target {
            lemma_smoothing_stays_at_target(prev, target, num, den);
        } else {
            lemma_smoothing_strictly_decreases(prev, target, num, den);
        }
    }
}

/// One executable smoothing step on one axis.
pub fn smooth_axis(rendered: i64, target: i64, num: u32, den: u32) -> (r: i64)
    requires
        0 < num < den,
        den <= 10000,
        -100_000_000_000_000 <= rendered <= 100_000_000_000_000,
        -100_000_000_000_000 <= target <= 100_000_000_000_000,
    ensures
        r == smooth_step(rendered as int, target as int, num as int, den as int),
{
    if target == rendered {
        proof {
            lemma_smoothing_stays_at_target(rendered as int, target as int, num as int, den as int);
        }
        rendered
    } else if target > rendered {
        let diff: u64 = (target - rendered) as u64;
        proof {
            lemma_mul_inequality(diff as int, 200_000_000_000_000, num as int);
            lemma_step_bounds(diff as int, num as int, den as int);
        }
        let step: u64 = (diff * (num as u64) + (den as u64) - 1) / (den as u64);
        rendered + (step as i64)
    } else {
        let diff: u64 = (rendered - target) as u64;
        proof {
            lemma_mul_inequality(diff as int, 200_000_000_000_000, num as int);
            lemma_step_bounds(diff as int, num as int, den as int);
        }
        let step: u64 = (diff * (num as u64) + (den as u64) - 1) / (den as u64);
        rendered - (step as i64)
    }
}

/// The rendered target of a grid coordinate: `tile_size` pixels per
/// tile, in subpixel units.
pub fn tile_target(l: GridLocation) -> (r: RenderPos)
    ensures
        r.x == l.0 * TILE_SIZE * SUBPIXELS,
        r.y == l.1 * TILE_SIZE * SUBPIXELS,
{
    RenderPos { x: (l.0 as i64) * 16000, y: (l.1 as i64) * 16000 }
}

/// One rendering tick of the follower: smooth the rendered position
/// toward the grid coordinate of the followed entity on each axis. The
/// fraction `num / den` stands for `k * dt` this tick.
pub fn follow(rendered: RenderPos, target: GridLocation, num: u32, den: u32) -> (r: RenderPos)
    requires
        0 < num < den,
        den <= 10000,
        -100_000_000_000_000 <= rendered.x <= 100_000_000_000_000,
        -100_000_000_000_000 <= rendered.y <= 100_000_000_000_000,
    ensures
        r.x == smooth_step(
            rendered.x as int,
            target.0 * TILE_SIZE * SUBPIXELS,
            num as int,
            den as int,
        ),
        r.y == smooth_step(
            rendered.y as int,
            target.1 * TILE_SIZE * SUBPIXELS,
            num as int,
            den as int,
        ),
        -100_000_000_000_000 <= r.x <= 100_000_000_000_000,
        -100_000_000_000_000 <= r.y <= 100_000_000_000_000,
{
    let t = tile_target(target);
    let x = smooth_axis(rendered.x, t.x, num, den);
    let y = smooth_axis(rendered.y, t.y, num, den);
    proof {
        if rendered.x as int != t.x as int {
            lemma_smoothing_strictly_decreases(rendered.x as int, t.x as int, num as int, den as int);
        } else {
            lemma_smoothing_stays_at_target(rendered.x as int, t.x as int, num as int, den as int);
        }
        if rendered.y as int != t.y as int {
            lemma_smoothing_strictly_decreases(rendered.y as int, t.y as int, num as int, den as int);
        } else {
            lemma_smoothing_stays_at_target(rendered.y as int, t.y as int, num as int, den as int);
        }
    }
    RenderPos { x, y }
}

} // verus!
