//! Two-dimensional vectors and 2x2 matrices over fixed-point scalars.

use vstd::prelude::*;
use crate::fixed::{
    ceil_sqrt, divide, floor_sqrt, is_finite, lemma_ceil_sqrt_bounds, lemma_floor_sqrt_exists,
    lemma_quotient_bounds, magnitude, multiply, product, quotient, saturate, saturating, sqrt,
    wide_product, LIMIT, ONE,
};

verus! {

/// The mathematical value of a [`Vec2`]: a pair of unbounded integers.
pub struct Vector {
    pub x: int,
    pub y: int,
}

impl Vector {
    /// Both coordinates lie in the range of stored quantities.
    pub open spec fn is_finite(self) -> bool {
        is_finite(self.x) && is_finite(self.y)
    }

    /// Each coordinate saturated on its own.
    pub open spec fn saturated(self) -> Vector {
        Vector { x: saturate(self.x), y: saturate(self.y) }
    }

    pub open spec fn is_zero(self) -> bool {
        self.x == 0 && self.y == 0
    }

    pub open spec fn plus(self, rhs: Vector) -> Vector {
        Vector { x: self.x + rhs.x, y: self.y + rhs.y }
    }

    pub open spec fn minus(self, rhs: Vector) -> Vector {
        Vector { x: self.x - rhs.x, y: self.y - rhs.y }
    }

    pub open spec fn negated(self) -> Vector {
        Vector { x: -self.x, y: -self.y }
    }

    /// The vector turned by a quarter turn: its coordinates swapped and
    /// the first negated.
    pub open spec fn perpendicular(self) -> Vector {
        Vector { x: -self.y, y: self.x }
    }

    /// Each coordinate multiplied by the fixed-point `factor`.
    pub open spec fn scaled(self, factor: int) -> Vector {
        Vector { x: product(self.x, factor), y: product(self.y, factor) }
    }

    /// The exact inner product, at the square of the scale.
    pub open spec fn dot(self, rhs: Vector) -> int {
        self.x * rhs.x + self.y * rhs.y
    }

    /// The exact squared length, at the square of the scale.
    pub open spec fn norm_squared(self) -> int {
        self.x * self.x + self.y * self.y
    }

    /// The length, rounded down.
    pub open spec fn length(self) -> int {
        floor_sqrt(self.norm_squared())
    }

    /// The length at the square of the scale, rounded up: the root of the
    /// squared length times the square of `ONE`. It is the length in
    /// millionths of a millionth, so that even the shortest vector has a
    /// length known to one part in a million.
    pub open spec fn fine_length(self) -> int {
        ceil_sqrt(self.norm_squared() * (ONE as int * ONE as int))
    }

    /// The vector of the same direction and length `ONE`, up to rounding;
    /// the zero vector has no direction and stays zero.
    pub open spec fn normalized(self) -> Vector {
        self.with_length(ONE as int)
    }

    /// The vector of the same direction and length `norm`, up to
    /// rounding: each coordinate times `norm`, over the length, the
    /// length taken at the square of the scale and rounded up, so that the
    /// result is never longer than `norm`. The zero vector stays zero.
    pub open spec fn with_length(self, norm: int) -> Vector {
        if self.is_zero() {
            self
        } else {
            Vector {
                x: quotient(self.x * norm * ONE, self.fine_length()),
                y: quotient(self.y * norm * ONE, self.fine_length()),
            }
        }
    }

    /// Whether `self` lies within `reach` of the zero vector.
    pub open spec fn is_within(self, reach: int) -> bool {
        self.is_zero() || (reach >= 0 && self.norm_squared() <= reach * reach)
    }

    /// One step of length `step` from `self` toward `target`: the target
    /// itself once it is within reach.
    pub open spec fn moved_towards(self, target: Vector, step: int) -> Vector {
        let gap = target.minus(self);
        if gap.is_within(step) {
            target
        } else {
            self.plus(gap.with_length(step))
        }
    }
}

/// The squared length of a finite vector fits twice over in the square of
/// the range, and each coordinate is at most the length.
pub proof fn lemma_norm_bounds(v: Vector)
    requires
        v.is_finite(),
    ensures
        0 <= v.norm_squared() <= 2 * (LIMIT as int * LIMIT as int),
        0 <= v.length() <= 2 * LIMIT as int,
        magnitude(v.x) <= v.length(),
        magnitude(v.y) <= v.length(),
        v.length() * v.length() <= v.norm_squared(),
        v.is_zero() <==> v.length() == 0,
        v.is_zero() <==> v.norm_squared() == 0,
{
    let n = v.norm_squared();
    let x = v.x;
    let y = v.y;
    assert(0 <= x * x <= 1_000_000_000_000_000_000_000_000 && (x != 0 ==> x * x >= 1) && (x == 0 ==> x * x == 0)
        && x * x >= magnitude(x) * magnitude(x)) by (nonlinear_arith)
        requires
            -1_000_000_000_000 <= x <= 1_000_000_000_000,
    ;
    assert(0 <= y * y <= 1_000_000_000_000_000_000_000_000 && (y != 0 ==> y * y >= 1) && (y == 0 ==> y * y == 0)
        && y * y >= magnitude(y) * magnitude(y)) by (nonlinear_arith)
        requires
            -1_000_000_000_000 <= y <= 1_000_000_000_000,
    ;
    assert(LIMIT as int * LIMIT as int == 1_000_000_000_000_000_000_000_000) by (nonlinear_arith);
    lemma_floor_sqrt_exists(n);
    let r = floor_sqrt(n);
    let mx = magnitude(x);
    let my = magnitude(y);
    if mx > r {
        assert((r + 1) * (r + 1) <= mx * mx) by (nonlinear_arith)
            requires
                0 <= r,
                r + 1 <= mx,
        ;
    }
    if my > r {
        assert((r + 1) * (r + 1) <= my * my) by (nonlinear_arith)
            requires
                0 <= r,
                r + 1 <= my,
        ;
    }
    if r >= 2 * LIMIT {
        assert(r * r > 2 * 1_000_000_000_000_000_000_000_000) by (nonlinear_arith)
            requires
                r >= 2_000_000_000_000,
        ;
    }
    if r == 0 {
        assert((r + 1) * (r + 1) == 1) by (nonlinear_arith)
            requires
                r == 0,
        ;
        assert(r * r == 0) by (nonlinear_arith)
            requires
                r == 0,
        ;
    } else {
        assert(r * r >= 1) by (nonlinear_arith)
            requires
                r >= 1,
        ;
    }
}

/// What the fine length of a vector that is not zero is: the least number
/// whose square reaches the squared length at the fourth power of the
/// scale. It is at least `ONE`, and each coordinate, scaled up, is at most
/// the fine length.
pub proof fn lemma_fine_length(v: Vector)
    requires
        !v.is_zero(),
    ensures
        ONE <= v.fine_length(),
        v.norm_squared() * (ONE as int * ONE as int) <= v.fine_length() * v.fine_length(),
        (v.fine_length() - 1) * (v.fine_length() - 1) < v.norm_squared() * (ONE as int
            * ONE as int),
        magnitude(v.x) * ONE <= v.fine_length(),
        magnitude(v.y) * ONE <= v.fine_length(),
{
    let k = ONE as int;
    let kk = k * k;
    let x = v.x;
    let y = v.y;
    let n = v.norm_squared();
    assert(kk == 1_000_000_000_000) by (nonlinear_arith)
        requires
            kk == k * k,
            k == 1_000_000,
    ;
    assert(0 <= x * x && 0 <= y * y && (x != 0 ==> 1 <= x * x) && (y != 0 ==> 1 <= y * y))
        by (nonlinear_arith);
    assert(1 <= n);
    let big = n * kk;
    assert(kk <= big) by (nonlinear_arith)
        requires
            big == n * kk,
            1 <= n,
            0 <= kk,
    ;
    lemma_floor_sqrt_exists(big);
    let r = floor_sqrt(big);
    lemma_ceil_sqrt_bounds(big, r);
    let l = v.fine_length();
    assert(l == ceil_sqrt(big));
    if r * r == big {
        assert(r >= 1) by (nonlinear_arith)
            requires
                r >= 0,
                r * r >= 1,
        ;
        assert((r - 1) * (r - 1) < r * r) by (nonlinear_arith)
            requires
                r >= 1,
        ;
    } else {
        assert((l - 1) * (l - 1) == r * r);
    }
    if l < k {
        assert(l * l < kk) by (nonlinear_arith)
            requires
                0 <= l < k,
                kk == k * k,
        ;
    }
    lemma_scaled_up_coordinate(x, n, l);
    lemma_scaled_up_coordinate(y, n, l);
}

/// A coordinate whose square is within the squared length, scaled up, is
/// within a length whose square reaches the squared length scaled up.
proof fn lemma_scaled_up_coordinate(x: int, n: int, l: int)
    requires
        0 <= l,
        x * x <= n,
        n * (ONE as int * ONE as int) <= l * l,
    ensures
        magnitude(x) * ONE <= l,
{
    let k = ONE as int;
    let m = magnitude(x) * k;
    assert(m * m == (x * x) * (k * k)) by (nonlinear_arith)
        requires
            m == magnitude(x) * k,
    ;
    assert((x * x) * (k * k) <= n * (k * k)) by (nonlinear_arith)
        requires
            x * x <= n,
            0 <= k * k,
    ;
    assert(0 <= k * k) by (nonlinear_arith);
    if m > l {
        assert(m * m > l * l) by (nonlinear_arith)
            requires
                m > l,
                l >= 0,
        ;
    }
}

/// Rescaling a vector to a non-negative length never overshoots it, and
/// rescaling it to a length no greater than its own lengthens neither of
/// its coordinates.
pub proof fn lemma_with_length_bound(v: Vector, norm: int)
    requires
        0 <= norm,
    ensures
        v.with_length(norm).norm_squared() <= norm * norm,
        magnitude(v.with_length(norm).x) <= norm,
        magnitude(v.with_length(norm).y) <= norm,
        same_sign(v.with_length(norm).x, v.x),
        same_sign(v.with_length(norm).y, v.y),
        norm * norm <= v.norm_squared() ==> magnitude(v.with_length(norm).x) <= magnitude(v.x)
            && magnitude(v.with_length(norm).y) <= magnitude(v.y),
{
    if v.is_zero() {
        assert(0 <= norm * norm) by (nonlinear_arith);
        assert(v.norm_squared() == 0);
    } else {
        let k = ONE as int;
        let l = v.fine_length();
        let w = v.with_length(norm);
        lemma_fine_length(v);
        lemma_rescaled_coordinate(v.x, norm, l);
        lemma_rescaled_coordinate(v.y, norm, l);
        let a = magnitude(w.x);
        let c = magnitude(w.y);
        let mx = magnitude(v.x) * k;
        let my = magnitude(v.y) * k;
        assert(w.x * w.x == a * a && w.y * w.y == c * c) by (nonlinear_arith)
            requires
                a == magnitude(w.x),
                c == magnitude(w.y),
        ;
        assert(mx * mx == (v.x * v.x) * (k * k) && my * my == (v.y * v.y) * (k * k))
            by (nonlinear_arith)
            requires
                mx == magnitude(v.x) * k,
                my == magnitude(v.y) * k,
        ;
        assert((a * a) * (l * l) <= (mx * mx) * (norm * norm)) by (nonlinear_arith)
            requires
                0 <= a,
                0 <= l,
                0 <= mx,
                0 <= norm,
                a * l <= mx * norm,
        ;
        assert((c * c) * (l * l) <= (my * my) * (norm * norm)) by (nonlinear_arith)
            requires
                0 <= c,
                0 <= l,
                0 <= my,
                0 <= norm,
                c * l <= my * norm,
        ;
        let s = a * a + c * c;
        let ll = l * l;
        let nn = norm * norm;
        let p = a * a;
        let q = c * c;
        let xx = mx * mx;
        let yy = my * my;
        assert(xx + yy == v.norm_squared() * (k * k)) by (nonlinear_arith)
            requires
                xx == (v.x * v.x) * (k * k),
                yy == (v.y * v.y) * (k * k),
                v.norm_squared() == v.x * v.x + v.y * v.y,
        ;
        assert(0 <= nn) by (nonlinear_arith)
            requires
                nn == norm * norm,
        ;
        assert(1 <= ll) by (nonlinear_arith)
            requires
                ll == l * l,
                l >= 1,
        ;
        assert((p + q) * ll == p * ll + q * ll) by (nonlinear_arith);
        assert((xx + yy) * nn == xx * nn + yy * nn) by (nonlinear_arith);
        assert((xx + yy) * nn <= ll * nn) by (nonlinear_arith)
            requires
                xx + yy <= ll,
                0 <= nn,
        ;
        assert(s * ll <= nn * ll) by (nonlinear_arith)
            requires
                s == p + q,
                (p + q) * ll <= ll * nn,
        ;
        assert(s <= nn) by (nonlinear_arith)
            requires
                s * ll <= nn * ll,
                ll >= 1,
        ;
        assert(a <= norm) by (nonlinear_arith)
            requires
                0 <= a,
                0 <= norm,
                a * l <= mx * norm,
                mx <= l,
                l >= 1,
        ;
        assert(c <= norm) by (nonlinear_arith)
            requires
                0 <= c,
                0 <= norm,
                c * l <= my * norm,
                my <= l,
                l >= 1,
        ;
        if nn <= v.norm_squared() {
            let reach = norm * k;
            assert(reach * reach == nn * (k * k)) by (nonlinear_arith)
                requires
                    reach == norm * k,
                    nn == norm * norm,
            ;
            assert(nn * (k * k) <= v.norm_squared() * (k * k)) by (nonlinear_arith)
                requires
                    nn <= v.norm_squared(),
                    0 <= k * k,
            ;
            assert(0 <= k * k) by (nonlinear_arith);
            if reach > l {
                assert(reach * reach > l * l) by (nonlinear_arith)
                    requires
                        reach > l,
                        l >= 0,
                ;
            }
            let x = magnitude(v.x);
            let y = magnitude(v.y);
            assert(mx * norm == x * reach && my * norm == y * reach) by (nonlinear_arith)
                requires
                    mx == x * k,
                    my == y * k,
                    reach == norm * k,
            ;
            assert(a <= x) by (nonlinear_arith)
                requires
                    a * l <= x * reach,
                    0 <= reach <= l,
                    0 <= x,
                    0 <= a,
                    l >= 1,
            ;
            assert(c <= y) by (nonlinear_arith)
                requires
                    c * l <= y * reach,
                    0 <= reach <= l,
                    0 <= y,
                    0 <= c,
                    l >= 1,
            ;
        }
    }
}

/// Rescaling a vector reaches the length asked for, up to rounding.
///
/// The result of rescaling a vector that is not zero to a non-negative
/// length `norm` is shorter than `norm` by less than one part in a
/// million and two millionths: its squared length, with `4 * norm + 2`
/// added, is above the square of `norm` less a millionth of it. So the
/// result is as long as asked for however short the vector was.
pub proof fn lemma_with_length_reaches(v: Vector, norm: int)
    requires
        !v.is_zero(),
        0 <= norm,
    ensures
        (v.with_length(norm).norm_squared() + 4 * norm + 2) * (ONE as int * ONE as int) > (norm
            * norm) * ((ONE - 1) * (ONE - 1)),
{
    let k = ONE as int;
    let l = v.fine_length();
    let w = v.with_length(norm);
    lemma_fine_length(v);
    lemma_with_length_bound(v, norm);
    lemma_rescaled_coordinate(v.x, norm, l);
    lemma_rescaled_coordinate(v.y, norm, l);
    let a = magnitude(w.x);
    let c = magnitude(w.y);
    let mx = magnitude(v.x) * k;
    let my = magnitude(v.y) * k;
    let a1 = (a + 1) * l;
    let c1 = (c + 1) * l;
    let px = mx * norm;
    let py = my * norm;
    assert(0 <= px && 0 <= py) by (nonlinear_arith)
        requires
            px == mx * norm,
            py == my * norm,
            0 <= mx,
            0 <= my,
            0 <= norm,
    ;
    assert(a1 * a1 > px * px) by (nonlinear_arith)
        requires
            a1 > px,
            px >= 0,
    ;
    assert(c1 * c1 > py * py) by (nonlinear_arith)
        requires
            c1 > py,
            py >= 0,
    ;
    let kk = k * k;
    let nn = norm * norm;
    let ll = l * l;
    let n = v.norm_squared();
    assert(mx * mx == (v.x * v.x) * kk && my * my == (v.y * v.y) * kk) by (nonlinear_arith)
        requires
            mx == magnitude(v.x) * k,
            my == magnitude(v.y) * k,
            kk == k * k,
    ;
    assert(px * px == (mx * mx) * nn && py * py == (my * my) * nn) by (nonlinear_arith)
        requires
            px == mx * norm,
            py == my * norm,
            nn == norm * norm,
    ;
    let big = n * kk;
    assert(mx * mx + my * my == big) by (nonlinear_arith)
        requires
            mx * mx == (v.x * v.x) * kk,
            my * my == (v.y * v.y) * kk,
            n == v.x * v.x + v.y * v.y,
            big == n * kk,
    ;
    assert(px * px + py * py == big * nn) by (nonlinear_arith)
        requires
            px * px == (mx * mx) * nn,
            py * py == (my * my) * nn,
            mx * mx + my * my == big,
    ;
    let low = (l - 1) * (l - 1);
    assert(0 <= nn) by (nonlinear_arith)
        requires
            nn == norm * norm,
    ;
    assert(big * nn >= low * nn) by (nonlinear_arith)
        requires
            big > low,
            0 <= nn,
    ;
    let s1 = (a + 1) * (a + 1) + (c + 1) * (c + 1);
    assert(s1 * ll == a1 * a1 + c1 * c1) by (nonlinear_arith)
        requires
            s1 == (a + 1) * (a + 1) + (c + 1) * (c + 1),
            a1 == (a + 1) * l,
            c1 == (c + 1) * l,
            ll == l * l,
    ;
    assert(s1 * ll > low * nn);
    // `(l - 1) * k >= (k - 1) * l`, since `l >= k`
    let left = (l - 1) * k;
    let right = (k - 1) * l;
    assert(left >= right && right >= 0) by (nonlinear_arith)
        requires
            left == (l - 1) * k,
            right == (k - 1) * l,
            l >= k,
            k >= 1,
    ;
    assert(left * left >= right * right) by (nonlinear_arith)
        requires
            left >= right,
            right >= 0,
    ;
    assert(left * left == low * kk) by (nonlinear_arith)
        requires
            left == (l - 1) * k,
            low == (l - 1) * (l - 1),
            kk == k * k,
    ;
    let small = (k - 1) * (k - 1);
    assert(right * right == small * ll) by (nonlinear_arith)
        requires
            right == (k - 1) * l,
            small == (k - 1) * (k - 1),
            ll == l * l,
    ;
    assert((s1 * ll) * kk > (low * nn) * kk) by (nonlinear_arith)
        requires
            s1 * ll > low * nn,
            kk >= 1,
    ;
    assert(kk >= 1) by (nonlinear_arith)
        requires
            kk == k * k,
            k >= 1,
    ;
    assert((low * nn) * kk == (low * kk) * nn) by (nonlinear_arith);
    assert((low * kk) * nn >= (small * ll) * nn) by (nonlinear_arith)
        requires
            low * kk >= small * ll,
            0 <= nn,
    ;
    assert((s1 * ll) * kk == (s1 * kk) * ll && (small * ll) * nn == (small * nn) * ll)
        by (nonlinear_arith);
    assert(s1 * kk > small * nn) by (nonlinear_arith)
        requires
            (s1 * kk) * ll > (small * nn) * ll,
            ll >= 1,
    ;
    assert(ll >= 1) by (nonlinear_arith)
        requires
            ll == l * l,
            l >= 1,
    ;
    let s = w.norm_squared();
    assert(s == a * a + c * c) by (nonlinear_arith)
        requires
            s == w.x * w.x + w.y * w.y,
            a == magnitude(w.x),
            c == magnitude(w.y),
    ;
    assert(s1 == s + 2 * a + 2 * c + 2) by (nonlinear_arith)
        requires
            s1 == (a + 1) * (a + 1) + (c + 1) * (c + 1),
            s == a * a + c * c,
    ;
    assert((s + 4 * norm + 2) * kk >= s1 * kk) by (nonlinear_arith)
        requires
            s + 4 * norm + 2 >= s1,
            kk >= 1,
    ;
    assert(small * nn == nn * small) by (nonlinear_arith);
}

/// Scaling by a non-negative factor of at most `ONE`, or by any factor a
/// vector of length at most `ONE`, gives a vector no longer than the
/// vector or the factor: the fixed-point product of two lengths is at
/// most their product.
pub proof fn lemma_scaled_shorter(v: Vector, factor: int)
    requires
        0 <= factor,
        v.norm_squared() <= ONE * ONE,
    ensures
        v.scaled(factor).norm_squared() <= factor * factor,
        magnitude(v.scaled(factor).x) <= factor,
        magnitude(v.scaled(factor).y) <= factor,
{
    let k = ONE as int;
    let w = v.scaled(factor);
    lemma_quotient_bounds(v.x * factor, k);
    lemma_quotient_bounds(v.y * factor, k);
    let a = magnitude(w.x);
    let c = magnitude(w.y);
    let x = magnitude(v.x);
    let y = magnitude(v.y);
    assert(a * k <= x * factor && c * k <= y * factor) by (nonlinear_arith)
        requires
            a * k <= magnitude(v.x * factor),
            c * k <= magnitude(v.y * factor),
            x == magnitude(v.x),
            y == magnitude(v.y),
            0 <= factor,
    ;
    assert(x * x + y * y == v.norm_squared()) by (nonlinear_arith)
        requires
            v.norm_squared() == v.x * v.x + v.y * v.y,
            x == magnitude(v.x),
            y == magnitude(v.y),
    ;
    lemma_shorter(a, c, x, y, k, factor);
    assert(w.norm_squared() == a * a + c * c) by (nonlinear_arith)
        requires
            w.norm_squared() == w.x * w.x + w.y * w.y,
            a == magnitude(w.x),
            c == magnitude(w.y),
    ;
    assert(0 <= a * a && 0 <= c * c) by (nonlinear_arith);
    if a > factor {
        assert(a * a > factor * factor) by (nonlinear_arith)
            requires
                a > factor,
                factor >= 0,
        ;
    }
    if c > factor {
        assert(c * c > factor * factor) by (nonlinear_arith)
            requires
                c > factor,
                factor >= 0,
        ;
    }
}

/// If `a * k <= x * f` and `c * k <= y * f`, and `(x, y)` is no longer
/// than `k`, then `(a, c)` is no longer than `f`.
proof fn lemma_shorter(a: int, c: int, x: int, y: int, k: int, f: int)
    requires
        0 <= a,
        0 <= c,
        0 <= x,
        0 <= y,
        1 <= k,
        0 <= f,
        a * k <= x * f,
        c * k <= y * f,
        x * x + y * y <= k * k,
    ensures
        a * a + c * c <= f * f,
{
    let kk = k * k;
    let ff = f * f;
    let p = a * a;
    let q = c * c;
    let xx = x * x;
    let yy = y * y;
    assert(p * kk <= xx * ff) by (nonlinear_arith)
        requires
            0 <= a,
            0 <= k,
            0 <= x,
            0 <= f,
            a * k <= x * f,
            p == a * a,
            kk == k * k,
            xx == x * x,
            ff == f * f,
    ;
    assert(q * kk <= yy * ff) by (nonlinear_arith)
        requires
            0 <= c,
            0 <= k,
            0 <= y,
            0 <= f,
            c * k <= y * f,
            q == c * c,
            kk == k * k,
            yy == y * y,
            ff == f * f,
    ;
    assert(0 <= ff && 1 <= kk) by (nonlinear_arith)
        requires
            ff == f * f,
            kk == k * k,
            k >= 1,
    ;
    assert((p + q) * kk == p * kk + q * kk) by (nonlinear_arith);
    assert((xx + yy) * ff == xx * ff + yy * ff) by (nonlinear_arith);
    assert((xx + yy) * ff <= kk * ff) by (nonlinear_arith)
        requires
            xx + yy <= kk,
            0 <= ff,
    ;
    assert(p + q <= ff) by (nonlinear_arith)
        requires
            (p + q) * kk <= ff * kk,
            kk >= 1,
    ;
}

/// A matrix whose columns are a vector no longer than `ONE` and that
/// vector turned a quarter turn lengthens nothing it is applied to.
pub proof fn lemma_turned_shorter(d: Vector, v: Vector)
    requires
        d.norm_squared() <= ONE * ONE,
    ensures
        (Matrix { x_axis: d.perpendicular(), y_axis: d }).apply(v).norm_squared()
            <= v.norm_squared(),
{
    let k = ONE as int;
    let m = Matrix { x_axis: d.perpendicular(), y_axis: d };
    let w = m.apply(v);
    let top = (-d.y) * v.x + d.x * v.y;
    let bottom = d.x * v.x + d.y * v.y;
    lemma_quotient_bounds(top, k);
    lemma_quotient_bounds(bottom, k);
    let a = magnitude(w.x);
    let c = magnitude(w.y);
    let t = magnitude(top);
    let b = magnitude(bottom);
    let dd = d.x * d.x + d.y * d.y;
    let vv = v.x * v.x + v.y * v.y;
    let yx = d.y * v.x;
    let xy = d.x * v.y;
    let xx = d.x * v.x;
    let yy = d.y * v.y;
    assert(top == xy - yx) by (nonlinear_arith)
        requires
            top == (-d.y) * v.x + d.x * v.y,
            yx == d.y * v.x,
            xy == d.x * v.y,
    ;
    assert(yx * xy == xx * yy) by (nonlinear_arith)
        requires
            yx == d.y * v.x,
            xy == d.x * v.y,
            xx == d.x * v.x,
            yy == d.y * v.y,
    ;
    assert(top * top + bottom * bottom == yx * yx + xy * xy + xx * xx + yy * yy)
        by (nonlinear_arith)
        requires
            top == xy - yx,
            bottom == xx + yy,
            yx * xy == xx * yy,
    ;
    assert(yx * yx == (d.y * d.y) * (v.x * v.x) && xy * xy == (d.x * d.x) * (v.y * v.y) && xx
        * xx == (d.x * d.x) * (v.x * v.x) && yy * yy == (d.y * d.y) * (v.y * v.y))
        by (nonlinear_arith)
        requires
            yx == d.y * v.x,
            xy == d.x * v.y,
            xx == d.x * v.x,
            yy == d.y * v.y,
    ;
    let dx2 = d.x * d.x;
    let dy2 = d.y * d.y;
    let vx2 = v.x * v.x;
    let vy2 = v.y * v.y;
    assert(dd * vv == dy2 * vx2 + dx2 * vy2 + dx2 * vx2 + dy2 * vy2) by (nonlinear_arith)
        requires
            dd == dx2 + dy2,
            vv == vx2 + vy2,
    ;
    assert(top * top + bottom * bottom == dd * vv);
    assert(t * t == top * top && b * b == bottom * bottom) by (nonlinear_arith)
        requires
            t == magnitude(top),
            b == magnitude(bottom),
    ;
    assert(a * k == magnitude(w.x * k) && c * k == magnitude(w.y * k)) by (nonlinear_arith)
        requires
            a == magnitude(w.x),
            c == magnitude(w.y),
            k >= 1,
    ;
    assert((a * a) * (k * k) <= t * t) by (nonlinear_arith)
        requires
            0 <= a,
            0 <= k,
            a * k <= t,
    ;
    assert((c * c) * (k * k) <= b * b) by (nonlinear_arith)
        requires
            0 <= c,
            0 <= k,
            c * k <= b,
    ;
    let kk = k * k;
    let s = a * a + c * c;
    assert(0 <= vv) by (nonlinear_arith)
        requires
            vv == v.x * v.x + v.y * v.y,
    ;
    assert(dd * vv <= kk * vv) by (nonlinear_arith)
        requires
            dd <= kk,
            0 <= vv,
    ;
    assert(s * kk == (a * a) * kk + (c * c) * kk) by (nonlinear_arith)
        requires
            s == a * a + c * c,
    ;
    assert(s <= vv) by (nonlinear_arith)
        requires
            s * kk <= vv * kk,
            kk >= 1,
    ;
    assert(kk >= 1) by (nonlinear_arith)
        requires
            kk == k * k,
            k >= 1,
    ;
    assert(w.norm_squared() == s) by (nonlinear_arith)
        requires
            w.norm_squared() == w.x * w.x + w.y * w.y,
            s == a * a + c * c,
            a == magnitude(w.x),
            c == magnitude(w.y),
    ;
}

/// Saturating a vector never lengthens it.
pub proof fn lemma_saturated_shorter(v: Vector)
    ensures
        v.saturated().norm_squared() <= v.norm_squared(),
        v.is_finite() ==> v.saturated() == v,
{
    let s = v.saturated();
    assert(s.x * s.x <= v.x * v.x) by (nonlinear_arith)
        requires
            magnitude(s.x) <= magnitude(v.x),
    ;
    assert(s.y * s.y <= v.y * v.y) by (nonlinear_arith)
        requires
            magnitude(s.y) <= magnitude(v.y),
    ;
}

/// `part` is zero or has the sign of `whole`.
pub open spec fn same_sign(part: int, whole: int) -> bool {
    (whole >= 0 ==> part >= 0) && (whole <= 0 ==> part <= 0)
}

/// One coordinate of a rescaled vector: rounding toward zero leaves it
/// within one of the exact quotient, and it keeps the sign.
proof fn lemma_rescaled_coordinate(x: int, norm: int, l: int)
    requires
        0 <= norm,
        1 <= l,
    ensures
        magnitude(quotient(x * norm * ONE, l)) * l <= (magnitude(x) * ONE) * norm,
        (magnitude(x) * ONE) * norm < (magnitude(quotient(x * norm * ONE, l)) + 1) * l,
        same_sign(quotient(x * norm * ONE, l), x),
{
    let k = ONE as int;
    let p = x * norm * k;
    lemma_quotient_bounds(p, l);
    assert(magnitude(p) == (magnitude(x) * k) * norm && (x >= 0 ==> p >= 0) && (x <= 0 ==> p
        <= 0)) by (nonlinear_arith)
        requires
            p == x * norm * k,
            0 <= norm,
            k == 1_000_000,
    ;
    let q = quotient(p, l);
    assert(magnitude(q) * l == magnitude(q * l)) by (nonlinear_arith)
        requires
            l >= 1,
    ;
    assert((magnitude(q) + 1) * l == magnitude(q) * l + l) by (nonlinear_arith);
}

/// A point or displacement of the plane, in fixed-point coordinates.
///
/// Both coordinates always lie in the range of stored quantities;
/// operations whose exact result would leave it saturate.
#[derive(Clone, Copy, Debug, PartialEq, Eq, Structural)]
pub struct Vec2 {
    x: i64,
    y: i64,
}

impl View for Vec2 {
    type V = Vector;

    closed spec fn view(&self) -> Vector {
        Vector { x: self.x as int, y: self.y as int }
    }
}

impl Vec2 {
    /// What holds of every `Vec2`: its value is finite.
    #[verifier::type_invariant]
    pub open spec fn well_formed(self) -> bool {
        self@.is_finite()
    }

    /// The vector `(x, y)`, each coordinate saturated.
    pub fn new(x: i64, y: i64) -> (r: Vec2)
        ensures
            r@ == (Vector { x: x as int, y: y as int }).saturated(),
            r@.is_finite(),
    {
        Vec2 { x: saturating(x as i128), y: saturating(y as i128) }
    }

    /// The zero vector.
    pub fn zero() -> (r: Vec2)
        ensures
            r@ == (Vector { x: 0, y: 0 }),
            r@.is_finite(),
    {
        Vec2 { x: 0, y: 0 }
    }

    pub fn x(&self) -> (r: i64)
        ensures
            r == self@.x,
            is_finite(r as int),
    {
        proof {
            use_type_invariant(self);
        }
        self.x
    }

    pub fn y(&self) -> (r: i64)
        ensures
            r == self@.y,
            is_finite(r as int),
    {
        proof {
            use_type_invariant(self);
        }
        self.y
    }

    /// The sum, saturated.
    pub fn plus(self, rhs: Vec2) -> (r: Vec2)
        ensures
            r@ == self@.plus(rhs@).saturated(),
            r@.is_finite(),
    {
        proof {
            use_type_invariant(self);
            use_type_invariant(rhs);
        }
        Vec2 {
            x: saturating(self.x as i128 + rhs.x as i128),
            y: saturating(self.y as i128 + rhs.y as i128),
        }
    }

    /// The difference, saturated.
    pub fn minus(self, rhs: Vec2) -> (r: Vec2)
        ensures
            r@ == self@.minus(rhs@).saturated(),
            r@.is_finite(),
    {
        proof {
            use_type_invariant(self);
            use_type_invariant(rhs);
        }
        Vec2 {
            x: saturating(self.x as i128 - rhs.x as i128),
            y: saturating(self.y as i128 - rhs.y as i128),
        }
    }

    /// The opposite vector.
    pub fn negated(self) -> (r: Vec2)
        ensures
            r@ == self@.negated(),
            r@.is_finite(),
    {
        proof {
            use_type_invariant(self);
        }
        Vec2 { x: -self.x, y: -self.y }
    }

    /// The vector turned by a quarter turn.
    pub fn perpendicular(self) -> (r: Vec2)
        ensures
            r@ == self@.perpendicular(),
            r@.is_finite(),
    {
        proof {
            use_type_invariant(self);
        }
        Vec2 { x: -self.y, y: self.x }
    }

    /// Each coordinate times the fixed-point `factor`, saturated.
    pub fn scaled(self, factor: i64) -> (r: Vec2)
        ensures
            r@ == self@.scaled(factor as int).saturated(),
            r@.is_finite(),
    {
        Vec2 { x: multiply(self.x, factor), y: multiply(self.y, factor) }
    }

    /// The exact inner product, at the square of the scale.
    pub fn dot(self, rhs: Vec2) -> (r: i128)
        ensures
            r == self@.dot(rhs@),
    {
        proof {
            use_type_invariant(self);
            use_type_invariant(rhs);
        }
        let a: i128 = wide_product(self.x, rhs.x);
        let b: i128 = wide_product(self.y, rhs.y);
        assert(LIMIT as int * LIMIT as int == 1_000_000_000_000_000_000_000_000) by (nonlinear_arith);
        a + b
    }

    /// The exact squared length, at the square of the scale.
    pub fn norm_squared(self) -> (r: u128)
        ensures
            r == self@.norm_squared(),
    {
        proof {
            use_type_invariant(self);
            lemma_norm_bounds(self@);
        }
        let a: i128 = wide_product(self.x, self.x);
        let b: i128 = wide_product(self.y, self.y);
        assert(LIMIT as int * LIMIT as int == 1_000_000_000_000_000_000_000_000) by (nonlinear_arith);
        (a + b) as u128
    }

    /// The length, rounded down. It may exceed `LIMIT` by the factor of a
    /// diagonal.
    pub fn length(self) -> (r: i64)
        ensures
            r == self@.length(),
            0 <= r <= 2 * LIMIT,
    {
        proof {
            use_type_invariant(self);
            lemma_norm_bounds(self@);
        }
        sqrt(self.norm_squared()) as i64
    }

    /// The vector of the same direction and length `norm`, up to
    /// rounding and never longer; the zero vector stays zero. Saturated
    /// when `norm` is out of range.
    pub fn with_length(self, norm: i64) -> (r: Vec2)
        ensures
            r@ == self@.with_length(norm as int).saturated(),
            r@.is_finite(),
            0 <= norm ==> r@.norm_squared() <= norm * norm,
            0 <= norm <= LIMIT && !self@.is_zero() ==> (r@.norm_squared() + 4 * norm + 2) * (
            ONE as int * ONE as int) > (norm * norm) * ((ONE - 1) * (ONE - 1)),
    {
        proof {
            use_type_invariant(self);
            if 0 <= norm {
                lemma_with_length_bound(self@, norm as int);
                lemma_saturated_shorter(self@.with_length(norm as int));
                if norm <= LIMIT && !self@.is_zero() {
                    lemma_with_length_reaches(self@, norm as int);
                }
            }
        }
        if self.x == 0 && self.y == 0 {
            self
        } else {
            let (x, y): (i128, i128) = rescaled(self.x, self.y, norm);
            Vec2 { x: saturating(x), y: saturating(y) }
        }
    }

    /// The vector of the same direction and length `ONE`, up to rounding
    /// and never longer; the zero vector stays zero.
    pub fn normalized(self) -> (r: Vec2)
        ensures
            r@ == self@.normalized(),
            r@.is_finite(),
            r@.norm_squared() <= ONE * ONE,
            !self@.is_zero() ==> (r@.norm_squared() + 4 * ONE + 2) * (ONE as int * ONE as int) > (
            ONE * ONE) * ((ONE - 1) * (ONE - 1)),
    {
        proof {
            lemma_with_length_bound(self@, ONE as int);
        }
        self.with_length(ONE)
    }

    /// One step of length `step` toward `target`, or `target` itself once
    /// it is within reach; saturated.
    pub fn move_towards(self, target: Vec2, step: i64) -> (r: Vec2)
        ensures
            r@ == self@.moved_towards(target@, step as int).saturated(),
            r@.is_finite(),
    {
        proof {
            use_type_invariant(self);
            use_type_invariant(target);
        }
        let gap_x: i64 = target.x - self.x;
        let gap_y: i64 = target.y - self.y;
        if gap_x == 0 && gap_y == 0 {
            return target;
        }
        assert(0 <= gap_x as int * gap_x as int <= 4_000_000_000_000_000_000_000_000)
            by (nonlinear_arith)
            requires
                -2_000_000_000_000 <= gap_x as int <= 2_000_000_000_000,
        ;
        assert(0 <= gap_y as int * gap_y as int <= 4_000_000_000_000_000_000_000_000)
            by (nonlinear_arith)
            requires
                -2_000_000_000_000 <= gap_y as int <= 2_000_000_000_000,
        ;
        let within: bool = if step < 0 {
            false
        } else {
            assert(0 <= step as int * step as int <= 0x4000_0000_0000_0000_0000_0000_0000_0000)
                by (nonlinear_arith)
                requires
                    0 <= step as int <= 0x8000_0000_0000_0000,
            ;
            let a: i128 = (gap_x as i128) * (gap_x as i128);
            let b: i128 = (gap_y as i128) * (gap_y as i128);
            a + b <= (step as i128) * (step as i128)
        };
        if within {
            target
        } else {
            let (x, y): (i128, i128) = rescaled(gap_x, gap_y, step);
            Vec2 { x: saturating(self.x as i128 + x), y: saturating(self.y as i128 + y) }
        }
    }
}

/// The coordinates of the vector `(x, y)` rescaled to the length `norm`.
fn rescaled(x: i64, y: i64, norm: i64) -> (r: (i128, i128))
    requires
        -2 * LIMIT <= x <= 2 * LIMIT,
        -2 * LIMIT <= y <= 2 * LIMIT,
        x != 0 || y != 0,
    ensures
        r.0 == (Vector { x: x as int, y: y as int }).with_length(norm as int).x,
        r.1 == (Vector { x: x as int, y: y as int }).with_length(norm as int).y,
        -0x4000_0000_0000_0000_0000_0000_0000_0000 <= r.0 <= 0x4000_0000_0000_0000_0000_0000_0000_0000,
        -0x4000_0000_0000_0000_0000_0000_0000_0000 <= r.1 <= 0x4000_0000_0000_0000_0000_0000_0000_0000,
{
    let ghost v = Vector { x: x as int, y: y as int };
    proof {
        lemma_fine_length(v);
    }
    assert(0 <= x as int * x as int <= 4_000_000_000_000_000_000_000_000) by (nonlinear_arith)
        requires
            -2_000_000_000_000 <= x as int <= 2_000_000_000_000,
    ;
    assert(0 <= y as int * y as int <= 4_000_000_000_000_000_000_000_000) by (nonlinear_arith)
        requires
            -2_000_000_000_000 <= y as int <= 2_000_000_000_000,
    ;
    let squared: u128 = ((x as i128) * (x as i128) + (y as i128) * (y as i128)) as u128;
    assert(ONE as int * ONE as int == 1_000_000_000_000) by (nonlinear_arith);
    let big: u128 = squared * 1_000_000_000_000;
    let root: u64 = sqrt(big);
    assert(root <= 3_000_000_000_000_000_000) by (nonlinear_arith)
        requires
            root as int * root as int <= 8_000_000_000_000_000_000_000_000_000_000_000_000,
    ;
    assert(root as int * root as int <= 9_000_000_000_000_000_000_000_000_000_000_000_000)
        by (nonlinear_arith)
        requires
            0 <= root as int <= 3_000_000_000_000_000_000,
    ;
    let length: i128 = if (root as u128) * (root as u128) == big {
        root as i128
    } else {
        root as i128 + 1
    };
    assert(length == v.fine_length());
    let wide_x: i128 = wide_product(x, norm);
    let wide_y: i128 = wide_product(y, norm);
    assert(-20_000_000_000_000_000_000_000_000_000_000 <= wide_x
        <= 20_000_000_000_000_000_000_000_000_000_000) by (nonlinear_arith)
        requires
            wide_x == x as int * norm as int,
            -2_000_000_000_000 <= x as int <= 2_000_000_000_000,
            -10_000_000_000_000_000_000 <= norm as int <= 10_000_000_000_000_000_000,
    ;
    assert(-20_000_000_000_000_000_000_000_000_000_000 <= wide_y
        <= 20_000_000_000_000_000_000_000_000_000_000) by (nonlinear_arith)
        requires
            wide_y == y as int * norm as int,
            -2_000_000_000_000 <= y as int <= 2_000_000_000_000,
            -10_000_000_000_000_000_000 <= norm as int <= 10_000_000_000_000_000_000,
    ;
    proof {
        lemma_quotient_bounds(wide_x * ONE, length as int);
        lemma_quotient_bounds(wide_y * ONE, length as int);
    }
    (divide(wide_x * (ONE as i128), length), divide(wide_y * (ONE as i128), length))
}

/// The mathematical value of a [`Mat2`]: its two columns.
pub struct Matrix {
    pub x_axis: Vector,
    pub y_axis: Vector,
}

impl Matrix {
    /// The matrix applied to `v`: `v.x` times the first column plus `v.y`
    /// times the second, as one fixed-point product rounded toward zero.
    pub open spec fn apply(self, v: Vector) -> Vector {
        Vector {
            x: quotient(self.x_axis.x * v.x + self.y_axis.x * v.y, ONE as int),
            y: quotient(self.x_axis.y * v.x + self.y_axis.y * v.y, ONE as int),
        }
    }
}

impl Matrix {
    /// Where a vertex of a shape lies: the vertex `unit` of the unit shape
    /// scaled by `scale`, turned by the matrix and moved by `position`,
    /// saturated at each step.
    pub open spec fn place(self, unit: Vector, scale: int, position: Vector) -> Vector {
        self.apply(unit.scaled(scale).saturated()).saturated().plus(position).saturated()
    }
}

/// A 2x2 matrix of fixed-point scalars, held by its columns.
#[derive(Clone, Copy, Debug, PartialEq, Eq, Structural)]
pub struct Mat2 {
    x_axis: Vec2,
    y_axis: Vec2,
}

impl View for Mat2 {
    type V = Matrix;

    closed spec fn view(&self) -> Matrix {
        Matrix { x_axis: self.x_axis@, y_axis: self.y_axis@ }
    }
}

impl Mat2 {
    /// The matrix with the given columns.
    pub fn new(x_axis: Vec2, y_axis: Vec2) -> (r: Mat2)
        ensures
            r@ == (Matrix { x_axis: x_axis@, y_axis: y_axis@ }),
    {
        Mat2 { x_axis, y_axis }
    }

    pub fn x_axis(&self) -> (r: Vec2)
        ensures
            r@ == self@.x_axis,
    {
        self.x_axis
    }

    pub fn y_axis(&self) -> (r: Vec2)
        ensures
            r@ == self@.y_axis,
    {
        self.y_axis
    }

    /// Where the vertex `unit` of a unit shape lies once the shape is
    /// scaled by `scale`, turned by this matrix and moved by `position`.
    pub fn place(&self, unit: Vec2, scale: i64, position: Vec2) -> (r: Vec2)
        ensures
            r@ == self@.place(unit@, scale as int, position@),
            r@.is_finite(),
    {
        self.mul_vec2(unit.scaled(scale)).plus(position)
    }

    /// The matrix applied to `v`, saturated.
    pub fn mul_vec2(&self, v: Vec2) -> (r: Vec2)
        ensures
            r@ == self@.apply(v@).saturated(),
            r@.is_finite(),
    {
        let xx: i128 = wide_product(self.x_axis.x(), v.x());
        let yx: i128 = wide_product(self.y_axis.x(), v.y());
        let xy: i128 = wide_product(self.x_axis.y(), v.x());
        let yy: i128 = wide_product(self.y_axis.y(), v.y());
        assert(LIMIT as int * LIMIT as int == 1_000_000_000_000_000_000_000_000) by (nonlinear_arith);
        Vec2 {
            x: saturating(divide(xx + yx, ONE as i128)),
            y: saturating(divide(xy + yy, ONE as i128)),
        }
    }
}

} // verus!

