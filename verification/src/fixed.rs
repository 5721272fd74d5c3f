//! Fixed-point scalars.
//!
//! Every length, speed, size and angle of the simulation is an `i64` that
//! counts millionths: the quantity `q` is stored as `q * ONE`. Stored
//! quantities stay within `[-LIMIT, LIMIT]`; arithmetic that would leave
//! that range saturates at its ends, so no operation ever overflows.

use vstd::prelude::*;

verus! {

/// The stored form of the quantity 1.
pub const ONE: i64 = 1_000_000;

/// The largest magnitude of a stored quantity.
pub const LIMIT: i64 = 1_000_000_000_000;

/// Whether `x` lies in the range of stored quantities.
pub open spec fn is_finite(x: int) -> bool {
    -LIMIT <= x <= LIMIT
}

/// `x` moved to the nearest end of the stored range if it lies outside.
pub open spec fn saturate(x: int) -> int {
    if x < -LIMIT {
        -(LIMIT as int)
    } else if x > LIMIT {
        LIMIT as int
    } else {
        x
    }
}

/// The magnitude of `x`.
pub open spec fn magnitude(x: int) -> int {
    if x < 0 {
        -x
    } else {
        x
    }
}

/// `a / b` rounded toward zero, for a positive divisor `b`.
pub open spec fn quotient(a: int, b: int) -> int {
    if a >= 0 {
        a / b
    } else {
        -((-a) / b)
    }
}

/// What division by a positive `b`, rounded toward zero, leaves of `a`: it
/// has the sign of `a` and a magnitude below `b`.
pub open spec fn remainder(a: int, b: int) -> int {
    if a >= 0 {
        a % b
    } else {
        -((-a) % b)
    }
}

/// The fixed-point product of two stored quantities, rounded toward zero.
pub open spec fn product(a: int, b: int) -> int {
    quotient(a * b, ONE as int)
}

/// Whether `r` is the integer square root of `n`, rounded down.
pub open spec fn is_floor_sqrt(n: int, r: int) -> bool {
    0 <= r && r * r <= n < (r + 1) * (r + 1)
}

/// The integer square root of `n`, rounded down.
pub open spec fn floor_sqrt(n: int) -> int {
    choose|r: int| is_floor_sqrt(n, r)
}

/// The integer square root of `n`, rounded up.
pub open spec fn ceil_sqrt(n: int) -> int {
    let r = floor_sqrt(n);
    if r * r == n {
        r
    } else {
        r + 1
    }
}

/// A number has at most one rounded-down square root.
pub proof fn lemma_floor_sqrt_unique(n: int, r: int, s: int)
    requires
        is_floor_sqrt(n, r),
        is_floor_sqrt(n, s),
    ensures
        r == s,
{
    if r < s {
        assert((r + 1) * (r + 1) <= s * s) by (nonlinear_arith)
            requires
                0 <= r,
                r + 1 <= s,
        ;
    } else if s < r {
        assert((s + 1) * (s + 1) <= r * r) by (nonlinear_arith)
            requires
                0 <= s,
                s + 1 <= r,
        ;
    }
}

/// Any `r` that meets the defining inequalities is the rounded-down root.
pub proof fn lemma_floor_sqrt_is(n: int, r: int)
    requires
        is_floor_sqrt(n, r),
    ensures
        floor_sqrt(n) == r,
{
    lemma_floor_sqrt_unique(n, r, floor_sqrt(n));
}

/// Every non-negative number has a rounded-down square root.
pub proof fn lemma_floor_sqrt_exists(n: int)
    requires
        0 <= n,
    ensures
        is_floor_sqrt(n, floor_sqrt(n)),
    decreases n,
{
    if n == 0 {
        assert(is_floor_sqrt(0, 0));
    } else {
        lemma_floor_sqrt_exists(n - 1);
        let r = floor_sqrt(n - 1);
        if (r + 1) * (r + 1) <= n {
            assert((r + 2) * (r + 2) > n) by (nonlinear_arith)
                requires
                    0 <= r,
                    n - 1 < (r + 1) * (r + 1),
            ;
            assert(is_floor_sqrt(n, r + 1));
        } else {
            assert(r * r <= n);
            assert(is_floor_sqrt(n, r));
        }
    }
}

/// The rounded-up root is the least number whose square reaches `n`.
pub proof fn lemma_ceil_sqrt_bounds(n: int, r: int)
    requires
        is_floor_sqrt(n, r),
    ensures
        0 <= ceil_sqrt(n) <= r + 1,
        n <= ceil_sqrt(n) * ceil_sqrt(n),
        n > 0 ==> ceil_sqrt(n) >= 1,
{
    lemma_floor_sqrt_is(n, r);
    if r * r != n {
        assert(n <= (r + 1) * (r + 1));
    }
    if n > 0 && r == 0 {
        assert(r * r == 0);
    }
}

/// Rounding toward zero never moves a quotient away from zero, and keeps
/// its sign.
pub proof fn lemma_quotient_bounds(a: int, b: int)
    requires
        b > 0,
    ensures
        a >= 0 ==> 0 <= quotient(a, b) * b <= a < quotient(a, b) * b + b,
        a <= 0 ==> 0 >= quotient(a, b) * b >= a > quotient(a, b) * b - b,
        magnitude(quotient(a, b)) <= magnitude(a),
{
    if a >= 0 {
        assert(0 <= (a / b) * b <= a < (a / b) * b + b && a / b <= a) by (nonlinear_arith)
            requires
                a >= 0,
                b > 0,
        ;
    } else {
        let m = -a;
        assert(0 <= (m / b) * b <= m < (m / b) * b + b && m / b <= m) by (nonlinear_arith)
            requires
                m >= 0,
                b > 0,
        ;
        assert((-(m / b)) * b == -((m / b) * b)) by (nonlinear_arith);
    }
}

/// Clamps `x` into the range of stored quantities.
pub fn saturating(x: i128) -> (r: i64)
    ensures
        r == saturate(x as int),
        is_finite(r as int),
{
    if x < -(LIMIT as i128) {
        -LIMIT
    } else if x > LIMIT as i128 {
        LIMIT
    } else {
        x as i64
    }
}

/// Divides by a positive number, rounding toward zero.
pub fn divide(a: i128, b: i128) -> (r: i128)
    requires
        b > 0,
    ensures
        r == quotient(a as int, b as int),
{
    a / b
}

/// What division by a positive number, rounded toward zero, leaves.
pub fn remaining(a: i128, b: i128) -> (r: i128)
    requires
        b > 0,
    ensures
        r == remainder(a as int, b as int),
        -b < r < b,
{
    a % b
}

/// The exact product of two quantities, at the square of the scale. The
/// product of two stored quantities is at most the square of `LIMIT`.
pub fn wide_product(a: i64, b: i64) -> (r: i128)
    ensures
        r == a as int * b as int,
        -0x4000_0000_0000_0000_0000_0000_0000_0000 <= r <= 0x4000_0000_0000_0000_0000_0000_0000_0000,
        is_finite(a as int) && is_finite(b as int) ==> -(LIMIT as int * LIMIT as int) <= r
            <= LIMIT as int * LIMIT as int,
{
    assert(-0x4000_0000_0000_0000_0000_0000_0000_0000 <= (a as int) * (b as int)
        <= 0x4000_0000_0000_0000_0000_0000_0000_0000) by (nonlinear_arith)
        requires
            -0x8000_0000_0000_0000 <= a as int <= 0x8000_0000_0000_0000,
            -0x8000_0000_0000_0000 <= b as int <= 0x8000_0000_0000_0000,
    ;
    proof {
        if is_finite(a as int) && is_finite(b as int) {
            assert(-1_000_000_000_000_000_000_000_000 <= (a as int) * (b as int)
                <= 1_000_000_000_000_000_000_000_000) by (nonlinear_arith)
                requires
                    -1_000_000_000_000 <= a as int <= 1_000_000_000_000,
                    -1_000_000_000_000 <= b as int <= 1_000_000_000_000,
            ;
        }
        assert(LIMIT as int * LIMIT as int == 1_000_000_000_000_000_000_000_000)
            by (nonlinear_arith);
    }
    (a as i128) * (b as i128)
}

/// The fixed-point product of `a` and `b`, rounded toward zero and
/// saturated.
pub fn multiply(a: i64, b: i64) -> (r: i64)
    ensures
        r == saturate(product(a as int, b as int)),
        is_finite(r as int),
{
    saturating(divide(wide_product(a, b), ONE as i128))
}

/// The integer square root of `n`, rounded down.
pub fn sqrt(n: u128) -> (r: u64)
    ensures
        r == floor_sqrt(n as int),
        is_floor_sqrt(n as int, r as int),
{
    let mut low: u128 = 0;
    let mut high: u128 = 0x1_0000_0000_0000_0000;
    assert(0x1_0000_0000_0000_0000int * 0x1_0000_0000_0000_0000int
        == 0x1_0000_0000_0000_0000_0000_0000_0000_0000int) by (nonlinear_arith);
    while high - low > 1
        invariant
            low < high <= 0x1_0000_0000_0000_0000,
            low * low <= n,
            n < high * high,
        decreases high - low,
    {
        let middle: u128 = low + (high - low) / 2;
        assert(middle * middle <= 0xffff_ffff_ffff_ffff * 0xffff_ffff_ffff_ffff
            && 0xffff_ffff_ffff_ffff * 0xffff_ffff_ffff_ffff
            < 0x1_0000_0000_0000_0000_0000_0000_0000_0000) by (nonlinear_arith)
            requires
                0 <= middle <= 0xffff_ffff_ffff_ffff,
        ;
        if middle * middle <= n {
            low = middle;
        } else {
            high = middle;
        }
    }
    proof {
        lemma_floor_sqrt_is(n as int, low as int);
    }
    low as u64
}

} // verus!
