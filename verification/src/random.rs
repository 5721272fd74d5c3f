//! The source of random numbers.

use vstd::prelude::*;
use crate::fixed::{is_finite, saturate, saturating};

verus! {

/// Draws from the process-wide generator of `macroquad::rand`.
///
/// `macroquad::rand::gen_range` scales the next 32 random bits to a
/// fraction in `[0, 1)`, computes `low + (high - low) * fraction` in
/// double precision and rounds the result toward zero. With both bounds
/// exact in double precision and in order, every step stays between them,
/// so the number drawn is at least `low` and at most `high`. Which number
/// it is depends on the generator's state; nothing more is claimed.
#[verifier::external_body]
fn gen_range(low: i64, high: i64) -> (r: i64)
    requires
        is_finite(low as int),
        is_finite(high as int),
        low <= high,
    ensures
        low <= r <= high,
{
    macroquad::rand::gen_range(low, high)
}

/// Whether `r` lies between `a` and `b`, whichever of them is smaller.
pub open spec fn between(r: int, a: int, b: int) -> bool {
    (a <= r <= b) || (b <= r <= a)
}

/// A random number between `low` and `high`, both saturated and taken in
/// either order.
pub fn random_in_range(low: i64, high: i64) -> (r: i64)
    ensures
        between(r as int, saturate(low as int), saturate(high as int)),
        is_finite(r as int),
{
    let a: i64 = saturating(low as i128);
    let b: i64 = saturating(high as i128);
    if a <= b {
        gen_range(a, b)
    } else {
        gen_range(b, a)
    }
}

} // verus!
