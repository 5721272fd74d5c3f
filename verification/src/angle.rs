//! Angles and directions.
//!
//! An angle is a fixed-point number of radians. Its direction, the pair of
//! its cosine and sine, is evaluated in integer arithmetic: the smaller of
//! the two by a power series on an eighth of a turn, the larger as the root
//! that completes it to unit length.

use vstd::prelude::*;
use crate::fixed::{
    floor_sqrt, is_floor_sqrt, lemma_floor_sqrt_exists, magnitude, remainder, sqrt, ONE,
};
use crate::vector::{Mat2, Matrix, Vec2, Vector};

verus! {

/// A full turn: eight times `EIGHTH`, within two millionths of 2 pi.
pub const TAU: i64 = 6_283_184;

/// A quarter turn.
pub const QUARTER: i64 = 1_570_796;

/// An eighth of a turn.
pub const EIGHTH: i64 = 785_398;

/// The sine of a small angle `r`, in `[0, EIGHTH]`: the series
/// `r - r^3/3! + r^5/5! - r^7/7!` in nested form, each step rounded down.
pub open spec fn sine_series(r: int) -> int {
    let one = ONE as int;
    let square = r * r / one;
    let third = one - square / 42;
    let second = one - (square * third / one) / 20;
    let first = one - (square * second / one) / 6;
    r * first / one
}

/// The other coordinate of a unit vector one of whose coordinates is
/// `part`.
pub open spec fn complement(part: int) -> int {
    floor_sqrt(ONE as int * ONE as int - part * part)
}

/// The direction of an angle `r` of the first quarter, `[0, QUARTER)`.
pub open spec fn quarter_direction(r: int) -> Vector {
    if r <= EIGHTH {
        Vector { x: complement(sine_series(r)), y: sine_series(r) }
    } else {
        Vector { x: sine_series(QUARTER - r), y: complement(sine_series(QUARTER - r)) }
    }
}

/// The direction of `angle`: its cosine and sine, at scale `ONE`.
pub open spec fn direction(angle: int) -> Vector {
    let turn = angle % (TAU as int);
    let d = quarter_direction(turn % (QUARTER as int));
    let quarter = turn / (QUARTER as int);
    if quarter == 0 {
        d
    } else if quarter == 1 {
        Vector { x: -d.y, y: d.x }
    } else if quarter == 2 {
        Vector { x: -d.x, y: -d.y }
    } else {
        Vector { x: d.y, y: -d.x }
    }
}

/// The vector of length `norm` at `angle` from the positive x axis.
pub open spec fn polar(norm: int, angle: int) -> Vector {
    direction(angle).scaled(norm)
}

/// The matrix that takes the y axis to the direction of `angle` and the
/// x axis to that direction turned a quarter turn.
pub open spec fn rotation(angle: int) -> Matrix {
    let d = direction(angle);
    Matrix { x_axis: Vector { x: -d.y, y: d.x }, y_axis: d }
}

/// The series stays within the angle it is given.
pub proof fn lemma_sine_series_bounds(r: int)
    requires
        0 <= r <= EIGHTH,
    ensures
        0 <= sine_series(r) <= r,
        r == 0 ==> sine_series(r) == 0,
{
    let one = ONE as int;
    let square = r * r / one;
    assert(0 <= r * r <= 785_398 * 785_398) by (nonlinear_arith)
        requires
            0 <= r <= 785_398,
    ;
    assert(0 <= square <= 616_851);
    let third = one - square / 42;
    assert(one - 14_687 <= third <= one);
    assert(0 <= square * third <= square * one) by (nonlinear_arith)
        requires
            0 <= square,
            0 <= third <= one,
    ;
    assert(square * third / one <= square) by (nonlinear_arith)
        requires
            0 <= square * third <= square * one,
            one == 1_000_000,
    ;
    assert(0 <= square * third / one);
    let second = one - (square * third / one) / 20;
    assert(0 <= second <= one);
    assert(0 <= square * second <= square * one) by (nonlinear_arith)
        requires
            0 <= square,
            0 <= second <= one,
    ;
    assert(square * second / one <= square) by (nonlinear_arith)
        requires
            0 <= square * second <= square * one,
            one == 1_000_000,
    ;
    assert(0 <= square * second / one);
    let first = one - (square * second / one) / 6;
    assert(0 <= first <= one);
    assert(0 <= r * first <= r * one) by (nonlinear_arith)
        requires
            0 <= r,
            0 <= first <= one,
    ;
    assert(r * first / one <= r) by (nonlinear_arith)
        requires
            0 <= r * first <= r * one,
            one == 1_000_000,
    ;
    assert(0 <= r * first / one);
    if r == 0 {
        assert(r * first == 0) by (nonlinear_arith)
            requires
                r == 0,
        ;
    }
}

/// A coordinate and its complement make a vector of unit length, short by
/// less than one part in a million.
pub proof fn lemma_complement(part: int)
    requires
        0 <= part <= ONE,
    ensures
        0 <= complement(part) <= ONE,
        ONE * ONE - 2 * ONE <= part * part + complement(part) * complement(part) <= ONE * ONE,
        part == 0 ==> complement(part) == ONE,
{
    let one = ONE as int;
    assert(0 <= part * part <= one * one) by (nonlinear_arith)
        requires
            0 <= part <= one,
    ;
    let n = one * one - part * part;
    lemma_floor_sqrt_exists(n);
    let c = floor_sqrt(n);
    if c > one {
        assert(c * c > one * one) by (nonlinear_arith)
            requires
                c > one,
                one > 0,
        ;
    }
    assert((c + 1) * (c + 1) == c * c + 2 * c + 1) by (nonlinear_arith);
    if part == 0 {
        assert(part * part == 0);
        assert(is_floor_sqrt(n, one)) by {
            assert((one + 1) * (one + 1) > one * one) by (nonlinear_arith)
                requires
                    one > 0,
            ;
        }
        crate::fixed::lemma_floor_sqrt_is(n, one);
    }
}

/// Every direction has coordinates of magnitude at most `ONE` and a
/// length within one part in a million of `ONE`.
pub proof fn lemma_direction_unit(angle: int)
    ensures
        magnitude(direction(angle).x) <= ONE,
        magnitude(direction(angle).y) <= ONE,
        direction(angle).is_finite(),
        ONE * ONE - 2 * ONE <= direction(angle).norm_squared() <= ONE * ONE,
{
    let turn = angle % (TAU as int);
    let r = turn % (QUARTER as int);
    lemma_quarter_direction_unit(r);
    let d = quarter_direction(r);
    assert((-d.x) * (-d.x) == d.x * d.x) by (nonlinear_arith);
    assert((-d.y) * (-d.y) == d.y * d.y) by (nonlinear_arith);
}

/// The directions of the first quarter have non-negative coordinates and
/// unit length.
pub proof fn lemma_quarter_direction_unit(r: int)
    requires
        0 <= r < QUARTER,
    ensures
        0 <= quarter_direction(r).x <= ONE,
        0 <= quarter_direction(r).y <= ONE,
        ONE * ONE - 2 * ONE <= quarter_direction(r).norm_squared() <= ONE * ONE,
{
    if r <= EIGHTH {
        lemma_sine_series_bounds(r);
        lemma_complement(sine_series(r));
    } else {
        lemma_sine_series_bounds(QUARTER - r);
        lemma_complement(sine_series(QUARTER - r));
    }
}

/// An angle kept within one turn of zero points where it pointed.
pub proof fn lemma_wrapped_angle(angle: int)
    ensures
        -TAU < remainder(angle, TAU as int) < TAU,
        direction(remainder(angle, TAU as int)) == direction(angle),
        direction(angle + TAU) == direction(angle),
{
    assert(remainder(angle, TAU as int) % (TAU as int) == angle % (TAU as int));
    assert((angle + TAU) % (TAU as int) == angle % (TAU as int));
}

/// Angle zero points along the positive x axis.
pub proof fn lemma_direction_zero()
    ensures
        direction(0) == (Vector { x: ONE as int, y: 0 }),
{
    lemma_sine_series_bounds(0);
    lemma_complement(0);
}

/// The sine of a small angle.
fn sine_of_small(r: i64) -> (s: i64)
    requires
        0 <= r <= EIGHTH,
    ensures
        s == sine_series(r as int),
        0 <= s <= r,
{
    proof {
        lemma_sine_series_bounds(r as int);
    }
    assert(0 <= r * r <= 785_398 * 785_398) by (nonlinear_arith)
        requires
            0 <= r <= 785_398,
    ;
    let square: i64 = r * r / ONE;
    let third: i64 = ONE - square / 42;
    assert(0 <= square * third <= 616_851 * 1_000_000) by (nonlinear_arith)
        requires
            0 <= square <= 616_851,
            0 <= third <= 1_000_000,
    ;
    let second: i64 = ONE - (square * third / ONE) / 20;
    assert(0 <= square * second <= 616_851 * 1_000_000) by (nonlinear_arith)
        requires
            0 <= square <= 616_851,
            0 <= second <= 1_000_000,
    ;
    let first: i64 = ONE - (square * second / ONE) / 6;
    assert(0 <= r * first <= 785_398 * 1_000_000) by (nonlinear_arith)
        requires
            0 <= r <= 785_398,
            0 <= first <= 1_000_000,
    ;
    r * first / ONE
}

/// The other coordinate of a unit vector.
fn complement_of(part: i64) -> (c: i64)
    requires
        0 <= part <= ONE,
    ensures
        c == complement(part as int),
        0 <= c <= ONE,
{
    proof {
        lemma_complement(part as int);
    }
    assert(0 <= part * part <= 1_000_000 * 1_000_000) by (nonlinear_arith)
        requires
            0 <= part <= 1_000_000,
    ;
    let rest: i64 = ONE * ONE - part * part;
    sqrt(rest as u128) as i64
}

/// The direction of `angle`: its cosine and sine, at scale `ONE`.
pub fn direction_of(angle: i64) -> (d: Vec2)
    ensures
        d@ == direction(angle as int),
        d@.is_finite(),
{
    proof {
        lemma_direction_unit(angle as int);
    }
    let remainder: i64 = angle % TAU;
    let turn: i64 = if remainder < 0 {
        remainder + TAU
    } else {
        remainder
    };
    assert(turn == (angle as int) % (TAU as int));
    let quarter: i64 = turn / QUARTER;
    let r: i64 = turn % QUARTER;
    let (x, y): (i64, i64) = if r <= EIGHTH {
        let s: i64 = sine_of_small(r);
        (complement_of(s), s)
    } else {
        let s: i64 = sine_of_small(QUARTER - r);
        (s, complement_of(s))
    };
    proof {
        lemma_quarter_direction_unit(r as int);
    }
    if quarter == 0 {
        Vec2::new(x, y)
    } else if quarter == 1 {
        Vec2::new(-y, x)
    } else if quarter == 2 {
        Vec2::new(-x, -y)
    } else {
        Vec2::new(y, -x)
    }
}

/// The vector of length `norm` at `angle` from the positive x axis,
/// saturated.
pub fn polar_vec2(norm: i64, angle: i64) -> (v: Vec2)
    ensures
        v@ == polar(norm as int, angle as int).saturated(),
        v@.is_finite(),
{
    direction_of(angle).scaled(norm)
}

/// Angles give rotation matrices.
pub trait RotationMatrix {
    /// The matrix of this angle.
    spec fn rotation(&self) -> Matrix;

    fn rotation_matrix(&self) -> (m: Mat2)
        ensures
            m@ == self.rotation(),
    ;
}

impl RotationMatrix for i64 {
    open spec fn rotation(&self) -> Matrix {
        rotation(*self as int)
    }

    fn rotation_matrix(&self) -> (m: Mat2) {
        proof {
            lemma_direction_unit(*self as int);
        }
        let d: Vec2 = direction_of(*self);
        Mat2::new(Vec2::new(-d.y(), d.x()), d)
    }
}

} // verus!
