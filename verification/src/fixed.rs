//! Fixed-point scalars: an `i64` counts units of 2^-32.
//!
//! Sums and differences are exact. Products and quotients are rounded to the
//! nearest unit, halves away from zero.

use vstd::arithmetic::div_mod::{lemma_div_is_ordered, lemma_div_multiples_vanish_fancy, lemma_div_pos_is_pos};
use vstd::prelude::*;

verus! {

/// The fixed-point number 1.
pub const ONE: i64 = 4_294_967_296;

/// Largest magnitude of a coordinate that the geometry accepts (256 units).
pub const COORD_MAX: i64 = 1_099_511_627_776;

/// Largest magnitude of a numerator or denominator that `div_round` accepts (2^125).
pub const DIV_MAX: i128 = 42_535_295_865_117_307_932_921_825_928_971_026_432;

/// The magnitude of an integer.
pub open spec fn abs_int(v: int) -> int {
    if v < 0 {
        -v
    } else {
        v
    }
}

/// Sign of an integer: -1, 0 or 1.
pub open spec fn sign_of(v: int) -> int {
    if v > 0 {
        1
    } else if v < 0 {
        -1
    } else {
        0
    }
}

/// The quotient `n / d` for a positive `d`, rounded to the nearest integer,
/// halves away from zero.
pub open spec fn round_div_pos(n: int, d: int) -> int
    recommends
        d > 0,
{
    if n >= 0 {
        (2 * n + d) / (2 * d)
    } else {
        -((d - 2 * n) / (2 * d))
    }
}

/// The quotient `n / d` rounded to the nearest integer, halves away from zero.
pub open spec fn round_div(n: int, d: int) -> int
    recommends
        d != 0,
{
    if d > 0 {
        round_div_pos(n, d)
    } else {
        -round_div_pos(n, -d)
    }
}

/// The magnitude of a rounded quotient is the rounded quotient of the
/// magnitudes, and its sign is the product of the signs.
pub proof fn lemma_round_div_magnitude(n: int, d: int)
    requires
        d != 0,
    ensures
        round_div(n, d) == if (n < 0) != (d < 0) {
            -((2 * abs_int(n) + abs_int(d)) / (2 * abs_int(d)))
        } else {
            (2 * abs_int(n) + abs_int(d)) / (2 * abs_int(d))
        },
{
}

/// Product of two fixed-point numbers.
pub open spec fn fixed_mul(a: int, b: int) -> int {
    round_div(a * b, ONE as int)
}

/// Quotient of two fixed-point numbers.
pub open spec fn fixed_div(a: int, b: int) -> int
    recommends
        b != 0,
{
    round_div(a * ONE, b)
}

/// `r` is the integer square root of `n`, rounded down.
pub open spec fn is_floor_sqrt(n: int, r: int) -> bool {
    0 <= r && r * r <= n && n < (r + 1) * (r + 1)
}

/// The integer square root of `n`, rounded down.
pub open spec fn floor_sqrt(n: int) -> int
    recommends
        n >= 0,
{
    choose|r: int| is_floor_sqrt(n, r)
}

/// The product of two bounded numbers is bounded by the product of the bounds.
pub proof fn lemma_mul_bound(a: int, b: int, x: int, y: int)
    by (nonlinear_arith)
    requires
        -x <= a <= x,
        -y <= b <= y,
    ensures
        -(x * y) <= a * b <= x * y,
{
}

/// A number has at most one floor square root.
pub proof fn lemma_floor_sqrt_unique(n: int, r: int, s: int)
    by (nonlinear_arith)
    requires
        is_floor_sqrt(n, r),
        is_floor_sqrt(n, s),
    ensures
        r == s,
{
}

/// Every number from 0 on has a floor square root.
pub proof fn lemma_floor_sqrt_exists(n: int)
    requires
        n >= 0,
    ensures
        is_floor_sqrt(n, floor_sqrt(n)),
    decreases n,
{
    if n == 0 {
        assert(is_floor_sqrt(0, 0));
    } else {
        lemma_floor_sqrt_exists(n - 1);
        let r = floor_sqrt(n - 1);
        if n < (r + 1) * (r + 1) {
            assert(is_floor_sqrt(n, r));
        } else {
            assert(is_floor_sqrt(n, r + 1)) by (nonlinear_arith)
                requires
                    is_floor_sqrt(n - 1, r),
                    n >= (r + 1) * (r + 1),
            ;
        }
    }
}

/// `floor_sqrt(n)` is the one `r` with `is_floor_sqrt(n, r)`.
pub proof fn lemma_floor_sqrt_is(n: int, r: int)
    requires
        is_floor_sqrt(n, r),
    ensures
        floor_sqrt(n) == r,
{
    lemma_floor_sqrt_unique(n, r, floor_sqrt(n));
}

/// A rounded quotient is no larger in magnitude than its numerator.
pub proof fn lemma_round_div_bound(n: int, d: int)
    requires
        d != 0,
    ensures
        -abs_int(n) <= round_div(n, d) <= abs_int(n),
{
    lemma_round_div_magnitude(n, d);
    let a = abs_int(n);
    let b = abs_int(d);
    lemma_div_pos_is_pos(2 * a + b, 2 * b);
    if a == 0 {
        vstd::arithmetic::div_mod::lemma_basic_div(b, 2 * b);
    } else {
        assert(2 * a + b <= 2 * b * a + (2 * b - 1)) by (nonlinear_arith)
            requires
                a >= 1,
                b >= 1,
        ;
        lemma_div_is_ordered(2 * a + b, 2 * b * a + (2 * b - 1), 2 * b);
        lemma_div_multiples_vanish_fancy(a, 2 * b - 1, 2 * b);
    }
}

/// A rounded quotient is within `m` when the exact one is.
pub proof fn lemma_round_div_scaled(n: int, d: int, m: int)
    requires
        d != 0,
        m >= 0,
        abs_int(n) <= m * abs_int(d),
    ensures
        -m <= round_div(n, d) <= m,
{
    lemma_round_div_magnitude(n, d);
    let a = abs_int(n);
    let b = abs_int(d);
    lemma_div_pos_is_pos(2 * a + b, 2 * b);
    assert(2 * a + b <= 2 * b * m + b) by (nonlinear_arith)
        requires
            a <= m * b,
    ;
    lemma_div_is_ordered(2 * a + b, 2 * b * m + b, 2 * b);
    lemma_div_multiples_vanish_fancy(m, b, 2 * b);
}

/// A rounded quotient is an integer nearest to the exact quotient: it
/// differs from `n / d` by at most one half.
pub proof fn lemma_round_div_nearest(n: int, d: int)
    requires
        d != 0,
    ensures
        2 * abs_int(d * round_div(n, d) - n) <= abs_int(d),
{
    lemma_round_div_magnitude(n, d);
    let a = abs_int(n);
    let b = abs_int(d);
    let q = (2 * a + b) / (2 * b);
    vstd::arithmetic::div_mod::lemma_fundamental_div_mod(2 * a + b, 2 * b);
    vstd::arithmetic::div_mod::lemma_mod_bound(2 * a + b, 2 * b);
    assert(2 * b * q <= 2 * a + b < 2 * b * q + 2 * b);
    assert(abs_int(d * round_div(n, d) - n) == abs_int(b * q - a)) by (nonlinear_arith)
        requires
            d != 0,
            a == abs_int(n),
            b == abs_int(d),
            round_div(n, d) == if (n < 0) != (d < 0) {
                -q
            } else {
                q
            },
    ;
    assert(2 * (b * q) == 2 * b * q) by (nonlinear_arith);
}

/// Scaling `w` by a ratio `num / det` between 0 and 1 gives a value between 0 and `w`.
pub proof fn lemma_round_div_between(num: int, det: int, w: int)
    requires
        det != 0,
        num * det >= 0,
        abs_int(num) <= abs_int(det),
    ensures
        w >= 0 ==> 0 <= round_div(num * w, det) <= w,
        w <= 0 ==> w <= round_div(num * w, det) <= 0,
{
    lemma_round_div_magnitude(num * w, det);
    let a = abs_int(num * w);
    let b = abs_int(det);
    let c = abs_int(w);
    assert(a <= b * c) by (nonlinear_arith)
        requires
            abs_int(num) <= abs_int(det),
            a == abs_int(num * w),
            b == abs_int(det),
            c == abs_int(w),
    ;
    assert((num == 0 || w == 0) ==> num * w == 0) by (nonlinear_arith);
    assert(w > 0 && num != 0 ==> ((num * w < 0) == (det < 0))) by (nonlinear_arith)
        requires
            det != 0,
            num * det >= 0,
    ;
    assert(w < 0 && num != 0 ==> ((num * w < 0) != (det < 0))) by (nonlinear_arith)
        requires
            det != 0,
            num * det >= 0,
    ;
    lemma_div_pos_is_pos(2 * a + b, 2 * b);
    assert(2 * a + b <= 2 * b * c + b) by (nonlinear_arith)
        requires
            a <= b * c,
    ;
    lemma_div_is_ordered(2 * a + b, 2 * b * c + b, 2 * b);
    lemma_div_multiples_vanish_fancy(c, b, 2 * b);
    if num * w == 0 {
        vstd::arithmetic::div_mod::lemma_basic_div(b, 2 * b);
    }
}

/// The sign of a number: -1, 0 or 1.
pub fn sign(v: i128) -> (s: i8)
    ensures
        s == sign_of(v as int),
{
    if v > 0 {
        1
    } else if v < 0 {
        -1
    } else {
        0
    }
}

/// Divides with rounding to nearest, halves away from zero.
pub fn div_round(n: i128, d: i128) -> (q: i128)
    requires
        d != 0,
        -DIV_MAX <= n <= DIV_MAX,
        -DIV_MAX <= d <= DIV_MAX,
    ensures
        q == round_div(n as int, d as int),
{
    let a: i128 = if n < 0 {
        -n
    } else {
        n
    };
    let b: i128 = if d < 0 {
        -d
    } else {
        d
    };
    let m: i128 = (2 * a + b) / (2 * b);
    proof {
        lemma_round_div_bound(n as int, d as int);
        lemma_round_div_magnitude(n as int, d as int);
    }
    if (n < 0) != (d < 0) {
        -m
    } else {
        m
    }
}

/// Integer square root, rounded down.
pub fn isqrt(n: u128) -> (r: u64)
    ensures
        is_floor_sqrt(n as int, r as int),
        r == floor_sqrt(n as int),
{
    let mut lo: u128 = 0;
    let mut hi: u128 = 18_446_744_073_709_551_616;
    assert(n < hi * hi) by (nonlinear_arith)
        requires
            n <= u128::MAX,
            hi == 18_446_744_073_709_551_616,
    ;
    while hi - lo > 1
        invariant
            lo < hi <= 18_446_744_073_709_551_616,
            lo * lo <= n < hi * hi,
        decreases hi - lo,
    {
        let mid: u128 = lo + (hi - lo) / 2;
        assert(mid * mid <= u128::MAX) by (nonlinear_arith)
            requires
                mid <= 18_446_744_073_709_551_615,
        ;
        if mid * mid <= n {
            lo = mid;
        } else {
            hi = mid;
        }
    }
    proof {
        lemma_floor_sqrt_is(n as int, lo as int);
    }
    lo as u64
}

} // verus!
