//! Points and vectors of the plane.

use crate::fixed::{
    abs_int, div_round, fixed_div, fixed_mul, floor_sqrt, is_floor_sqrt, isqrt,
    lemma_floor_sqrt_exists, lemma_mul_bound, lemma_round_div_scaled, round_div, COORD_MAX, ONE,
};
use vstd::prelude::*;
use vstd::std_specs::ops::{AddSpecImpl, SubSpecImpl};

verus! {

/// A point or vector of the plane, in fixed-point coordinates.
#[derive(Debug, Clone, Copy, PartialEq, Eq, Structural)]
pub struct Vec2d {
    pub x: i64,
    pub y: i64,
}

/// The cross product `u.x * v.y - u.y * v.x`: positive when `v` lies
/// counter-clockwise of `u`.
pub open spec fn cross(u: Vec2d, v: Vec2d) -> int {
    u.x * v.y - u.y * v.x
}

/// The angle of `v` from the positive x axis lies in [0, pi). The zero vector
/// counts as pointing along the axis.
pub open spec fn upper_half(v: Vec2d) -> bool {
    v.y > 0 || (v.y == 0 && v.x >= 0)
}

/// The angle of `u` from the positive x axis, taken in [0, 2 pi), is smaller
/// than that of `v`.
pub open spec fn angle_lt(u: Vec2d, v: Vec2d) -> bool {
    if upper_half(u) != upper_half(v) {
        upper_half(u)
    } else {
        cross(u, v) > 0
    }
}

/// The two angles from the positive x axis differ by more than a half turn.
pub open spec fn angle_gap_wide(u: Vec2d, v: Vec2d) -> bool {
    (angle_lt(u, v) && cross(u, v) < 0) || (angle_lt(v, u) && cross(v, u) < 0)
}

impl core::ops::Add for Vec2d {
    type Output = Vec2d;

    fn add(self, other: Vec2d) -> (r: Vec2d) {
        Vec2d { x: self.x + other.x, y: self.y + other.y }
    }
}

impl AddSpecImpl for Vec2d {
    open spec fn obeys_add_spec() -> bool {
        true
    }

    open spec fn add_req(self, other: Vec2d) -> bool {
        &&& i64::MIN <= self.x + other.x <= i64::MAX
        &&& i64::MIN <= self.y + other.y <= i64::MAX
    }

    open spec fn add_spec(self, other: Vec2d) -> Vec2d {
        Vec2d { x: (self.x + other.x) as i64, y: (self.y + other.y) as i64 }
    }
}

impl core::ops::Sub for Vec2d {
    type Output = Vec2d;

    fn sub(self, other: Vec2d) -> (r: Vec2d) {
        Vec2d { x: self.x - other.x, y: self.y - other.y }
    }
}

impl SubSpecImpl for Vec2d {
    open spec fn obeys_sub_spec() -> bool {
        true
    }

    open spec fn sub_req(self, other: Vec2d) -> bool {
        &&& i64::MIN <= self.x - other.x <= i64::MAX
        &&& i64::MIN <= self.y - other.y <= i64::MAX
    }

    open spec fn sub_spec(self, other: Vec2d) -> Vec2d {
        Vec2d { x: (self.x - other.x) as i64, y: (self.y - other.y) as i64 }
    }
}

impl Vec2d {
    /// Both coordinates lie in `[-bound, bound]`.
    pub open spec fn within(self, bound: int) -> bool {
        -bound <= self.x <= bound && -bound <= self.y <= bound
    }

    /// Both coordinates lie in the range that the geometry accepts.
    pub open spec fn in_range(self) -> bool {
        self.within(COORD_MAX as int)
    }

    /// The squared length `x * x + y * y`.
    pub open spec fn square_spec(self) -> int {
        self.x * self.x + self.y * self.y
    }

    /// The distance between two points, rounded down.
    pub open spec fn distance_spec(self, other: Vec2d) -> int {
        floor_sqrt((self.x - other.x) * (self.x - other.x) + (self.y - other.y) * (self.y - other.y))
    }

    /// The vector scaled by the fixed-point number `k`.
    pub open spec fn mul_spec(self, k: int) -> Vec2d {
        Vec2d { x: fixed_mul(self.x as int, k) as i64, y: fixed_mul(self.y as int, k) as i64 }
    }

    /// The vector divided by the fixed-point number `k`; the zero vector when `k` is 0.
    pub open spec fn div_spec(self, k: int) -> Vec2d {
        if k == 0 {
            Vec2d { x: 0, y: 0 }
        } else {
            Vec2d { x: fixed_div(self.x as int, k) as i64, y: fixed_div(self.y as int, k) as i64 }
        }
    }

    /// The vector of length 1 in the direction of `self`; the zero vector for the zero vector.
    pub open spec fn normalize_spec(self) -> Vec2d {
        self.div_spec(floor_sqrt(self.square_spec()))
    }

    /// The point halfway between `p1` and `p2`.
    pub open spec fn middle_point_spec(p1: Vec2d, p2: Vec2d) -> Vec2d {
        Vec2d { x: round_div(p1.x + p2.x, 2) as i64, y: round_div(p1.y + p2.y, 2) as i64 }
    }

    /// The vector of length 1 that points from `v2` to `v1`.
    pub open spec fn unit_vector_between_spec(v1: Vec2d, v2: Vec2d) -> Vec2d {
        Vec2d { x: (v1.x - v2.x) as i64, y: (v1.y - v2.y) as i64 }.div_spec(v1.distance_spec(v2))
    }

    /// The quotient of each coordinate by `k` stays in the coordinate range.
    pub open spec fn div_fits(self, k: int) -> bool {
        &&& abs_int(self.x as int) * ONE <= COORD_MAX * abs_int(k)
        &&& abs_int(self.y as int) * ONE <= COORD_MAX * abs_int(k)
    }

    /// Whether both coordinates lie in the range that the geometry accepts.
    pub fn is_in_range(&self) -> (b: bool)
        ensures
            b == self.in_range(),
    {
        -COORD_MAX <= self.x && self.x <= COORD_MAX && -COORD_MAX <= self.y && self.y <= COORD_MAX
    }

    /// The vector of length 1 in the same direction; the zero vector stays zero.
    pub fn normalize(&self) -> (r: Vec2d)
        requires
            self.in_range(),
        ensures
            r == self.normalize_spec(),
            r.within(ONE as int),
    {
        let n: i128 = self.square();
        let d: u64 = isqrt(n as u128);
        proof {
            lemma_component_below_length(self.x as int, self.y as int, d as int);
        }
        if d == 0 {
            Vec2d { x: 0, y: 0 }
        } else {
            proof {
                assert(abs_int(self.x as int) * ONE <= ONE * abs_int(d as int)) by (nonlinear_arith)
                    requires
                        abs_int(self.x as int) <= d,
                ;
                assert(abs_int(self.y as int) * ONE <= ONE * abs_int(d as int)) by (nonlinear_arith)
                    requires
                        abs_int(self.y as int) <= d,
                ;
                lemma_mul_bound(self.x as int, ONE as int, d as int, ONE as int);
                lemma_mul_bound(self.y as int, ONE as int, d as int, ONE as int);
                lemma_round_div_scaled(self.x * ONE, d as int, ONE as int);
                lemma_round_div_scaled(self.y * ONE, d as int, ONE as int);
                assert(d <= 2 * COORD_MAX) by (nonlinear_arith)
                    requires
                        d * d <= n,
                        n <= 2 * (COORD_MAX * COORD_MAX),
                        d >= 0,
                ;
                assert(d * ONE <= 2 * COORD_MAX * ONE) by (nonlinear_arith)
                    requires
                        d <= 2 * COORD_MAX,
                ;
            }
            let x: i128 = div_round(self.x as i128 * ONE as i128, d as i128);
            let y: i128 = div_round(self.y as i128 * ONE as i128, d as i128);
            Vec2d { x: x as i64, y: y as i64 }
        }
    }

    /// The distance to `other`, rounded down.
    pub fn distance_from(&self, other: Vec2d) -> (d: i64)
        requires
            self.in_range(),
            other.in_range(),
        ensures
            d == self.distance_spec(other),
            is_floor_sqrt(
                (self.x - other.x) * (self.x - other.x) + (self.y - other.y) * (self.y - other.y),
                d as int,
            ),
            abs_int(self.x - other.x) <= d,
            abs_int(self.y - other.y) <= d,
            d <= 4 * COORD_MAX,
    {
        let dx: i128 = self.x as i128 - other.x as i128;
        let dy: i128 = self.y as i128 - other.y as i128;
        proof {
            lemma_mul_bound(dx as int, dx as int, 2 * COORD_MAX, 2 * COORD_MAX);
            lemma_mul_bound(dy as int, dy as int, 2 * COORD_MAX, 2 * COORD_MAX);
            assert(dx * dx >= 0 && dy * dy >= 0) by (nonlinear_arith);
        }
        let n: i128 = dx * dx + dy * dy;
        let d: u64 = isqrt(n as u128);
        proof {
            lemma_component_below_length(dx as int, dy as int, d as int);
            assert(d <= 4 * COORD_MAX) by (nonlinear_arith)
                requires
                    d * d <= n,
                    n <= 8 * (COORD_MAX * COORD_MAX),
                    d >= 0,
            ;
        }
        d as i64
    }

    /// The squared length, exactly.
    pub fn square(&self) -> (n: i128)
        requires
            self.in_range(),
        ensures
            n == self.square_spec(),
            0 <= n <= 2 * (COORD_MAX * COORD_MAX),
    {
        proof {
            lemma_mul_bound(self.x as int, self.x as int, COORD_MAX as int, COORD_MAX as int);
            lemma_mul_bound(self.y as int, self.y as int, COORD_MAX as int, COORD_MAX as int);
            assert(self.x * self.x >= 0 && self.y * self.y >= 0) by (nonlinear_arith);
        }
        self.x as i128 * self.x as i128 + self.y as i128 * self.y as i128
    }

    /// The vector of length 1 that points from `v2` to `v1`; zero when they coincide.
    pub fn unit_vector_between(v1: Vec2d, v2: Vec2d) -> (r: Vec2d)
        requires
            v1.within(COORD_MAX / 2),
            v2.within(COORD_MAX / 2),
        ensures
            r == Vec2d::unit_vector_between_spec(v1, v2),
            r.within(ONE as int),
    {
        let d: i64 = v1.distance_from(v2);
        let diff: Vec2d = v1 - v2;
        proof {
            assert(abs_int(diff.x as int) * ONE <= ONE * abs_int(d as int)) by (nonlinear_arith)
                requires
                    abs_int(diff.x as int) <= d,
            ;
            assert(abs_int(diff.y as int) * ONE <= ONE * abs_int(d as int)) by (nonlinear_arith)
                requires
                    abs_int(diff.y as int) <= d,
            ;
            if d != 0 {
                lemma_round_div_scaled(diff.x * ONE, d as int, ONE as int);
                lemma_round_div_scaled(diff.y * ONE, d as int, ONE as int);
            }
        }
        diff.div(d)
    }

    /// Scales by the fixed-point number `k`.
    pub fn mul(&self, k: i64) -> (r: Vec2d)
        requires
            self.in_range(),
            -COORD_MAX <= k <= COORD_MAX,
        ensures
            r == self.mul_spec(k as int),
            r.x == fixed_mul(self.x as int, k as int),
            r.y == fixed_mul(self.y as int, k as int),
    {
        proof {
            lemma_mul_bound(self.x as int, k as int, COORD_MAX as int, COORD_MAX as int);
            lemma_mul_bound(self.y as int, k as int, COORD_MAX as int, COORD_MAX as int);
            assert(COORD_MAX * COORD_MAX == 256 * COORD_MAX * ONE) by (nonlinear_arith)
                requires
                    COORD_MAX == 256 * ONE,
            ;
            lemma_round_div_scaled(self.x * k, ONE as int, 256 * COORD_MAX);
            lemma_round_div_scaled(self.y * k, ONE as int, 256 * COORD_MAX);
        }
        let x: i128 = div_round(self.x as i128 * k as i128, ONE as i128);
        let y: i128 = div_round(self.y as i128 * k as i128, ONE as i128);
        Vec2d { x: x as i64, y: y as i64 }
    }

    /// Divides by the fixed-point number `k`. Dividing by 0 gives the zero vector.
    pub fn div(&self, k: i64) -> (r: Vec2d)
        requires
            self.in_range(),
            k != 0 ==> self.div_fits(k as int),
        ensures
            r == self.div_spec(k as int),
            k != 0 ==> r.x == fixed_div(self.x as int, k as int) && r.y == fixed_div(
                self.y as int,
                k as int,
            ),
            r.in_range(),
    {
        if k == 0 {
            Vec2d { x: 0, y: 0 }
        } else {
            proof {
                lemma_mul_bound(self.x as int, ONE as int, COORD_MAX as int, ONE as int);
                lemma_mul_bound(self.y as int, ONE as int, COORD_MAX as int, ONE as int);
                assert(abs_int(self.x * ONE) == abs_int(self.x as int) * ONE) by (nonlinear_arith);
                assert(abs_int(self.y * ONE) == abs_int(self.y as int) * ONE) by (nonlinear_arith);
                lemma_round_div_scaled(self.x * ONE, k as int, COORD_MAX as int);
                lemma_round_div_scaled(self.y * ONE, k as int, COORD_MAX as int);
            }
            let x: i128 = div_round(self.x as i128 * ONE as i128, k as i128);
            let y: i128 = div_round(self.y as i128 * ONE as i128, k as i128);
            Vec2d { x: x as i64, y: y as i64 }
        }
    }

    /// The point halfway between `p1` and `p2`, each coordinate rounded.
    pub fn middle_point(p1: Vec2d, p2: Vec2d) -> (r: Vec2d)
        ensures
            r == Vec2d::middle_point_spec(p1, p2),
            r.x == round_div(p1.x + p2.x, 2),
            r.y == round_div(p1.y + p2.y, 2),
            forall|b: int| p1.within(b) && p2.within(b) ==> r.within(b),
    {
        proof {
            lemma_round_div_scaled(p1.x + p2.x, 2, i64::MAX as int + 1);
            lemma_round_div_scaled(p1.y + p2.y, 2, i64::MAX as int + 1);
            lemma_middle_between(p1.x as int, p2.x as int);
            lemma_middle_between(p1.y as int, p2.y as int);
        }
        let x: i128 = div_round(p1.x as i128 + p2.x as i128, 2);
        let y: i128 = div_round(p1.y as i128 + p2.y as i128, 2);
        Vec2d { x: x as i64, y: y as i64 }
    }

    /// The angle of `p1` from the positive x axis, taken in [0, 2 pi), is
    /// smaller than that of `p2`. Decided exactly.
    pub fn angle_less(p1: Vec2d, p2: Vec2d) -> (b: bool)
        requires
            p1.in_range(),
            p2.in_range(),
        ensures
            b == angle_lt(p1, p2),
    {
        let h1: bool = p1.y > 0 || (p1.y == 0 && p1.x >= 0);
        let h2: bool = p2.y > 0 || (p2.y == 0 && p2.x >= 0);
        if h1 != h2 {
            h1
        } else {
            Vec2d::outer_product(p1, p2) > 0
        }
    }

    /// The angles of `p1` and `p2` from the positive x axis differ by more
    /// than a half turn.
    pub fn angle_gap_exceeds_half_turn(p1: Vec2d, p2: Vec2d) -> (b: bool)
        requires
            p1.in_range(),
            p2.in_range(),
        ensures
            b == angle_gap_wide(p1, p2),
    {
        let c: i128 = Vec2d::outer_product(p1, p2);
        proof {
            assert(cross(p2, p1) == -cross(p1, p2)) by (nonlinear_arith);
        }
        (Vec2d::angle_less(p1, p2) && c < 0) || (Vec2d::angle_less(p2, p1) && c > 0)
    }

    /// The cross product of `p1` and `p2`, exactly.
    pub fn outer_product(p1: Vec2d, p2: Vec2d) -> (c: i128)
        requires
            p1.in_range(),
            p2.in_range(),
        ensures
            c == cross(p1, p2),
    {
        proof {
            lemma_mul_bound(p1.x as int, p2.y as int, COORD_MAX as int, COORD_MAX as int);
            lemma_mul_bound(p1.y as int, p2.x as int, COORD_MAX as int, COORD_MAX as int);
        }
        p1.x as i128 * p2.y as i128 - p1.y as i128 * p2.x as i128
    }
}

/// A component of a vector is no longer than the vector.
pub proof fn lemma_component_below_length(x: int, y: int, d: int)
    by (nonlinear_arith)
    requires
        is_floor_sqrt(x * x + y * y, d),
    ensures
        abs_int(x) <= d,
        abs_int(y) <= d,
        (d == 0) == (x == 0 && y == 0),
{
}

/// The rounded mean of two numbers lies between them.
pub proof fn lemma_middle_between(a: int, b: int)
    ensures
        a <= b ==> a <= round_div(a + b, 2) <= b,
        b <= a ==> b <= round_div(a + b, 2) <= a,
{
    let s = abs_int(a + b);
    let q = (2 * s + 2) / 4;
    assert(round_div(a + b, 2) == if a + b < 0 {
        -q
    } else {
        q
    });
    assert(4 * q <= 2 * s + 2 < 4 * q + 4);
}

/// The unit vector between two points has its coordinates in `[-1, 1]`.
pub proof fn lemma_unit_within(v1: Vec2d, v2: Vec2d)
    requires
        v1.within(COORD_MAX / 2),
        v2.within(COORD_MAX / 2),
    ensures
        Vec2d::unit_vector_between_spec(v1, v2).within(ONE as int),
{
    let dx = v1.x - v2.x;
    let dy = v1.y - v2.y;
    let n = dx * dx + dy * dy;
    assert(n >= 0) by (nonlinear_arith)
        requires
            n == dx * dx + dy * dy,
    ;
    lemma_floor_sqrt_exists(n);
    let d = floor_sqrt(n);
    lemma_component_below_length(dx, dy, d);
    if d != 0 {
        assert(abs_int(dx * ONE) <= ONE * abs_int(d)) by (nonlinear_arith)
            requires
                abs_int(dx) <= d,
        ;
        assert(abs_int(dy * ONE) <= ONE * abs_int(d)) by (nonlinear_arith)
            requires
                abs_int(dy) <= d,
        ;
        lemma_round_div_scaled(dx * ONE, d, ONE as int);
        lemma_round_div_scaled(dy * ONE, d, ONE as int);
    }
}

/// The angular order is transitive.
pub proof fn lemma_angle_lt_transitive(a: Vec2d, b: Vec2d, c: Vec2d)
    requires
        angle_lt(a, b),
        angle_lt(b, c),
    ensures
        angle_lt(a, c),
{
    if upper_half(a) == upper_half(b) && upper_half(b) == upper_half(c) {
        let ax = a.x as int;
        let ay = a.y as int;
        let bx = b.x as int;
        let by = b.y as int;
        let cx = c.x as int;
        let cy = c.y as int;
        assert(by * (ax * cy - ay * cx) == cy * (ax * by - ay * bx) + ay * (bx * cy - by * cx))
            by (nonlinear_arith);
        if upper_half(a) {
            assert(ax * cy - ay * cx > 0) by (nonlinear_arith)
                requires
                    by * (ax * cy - ay * cx) == cy * (ax * by - ay * bx) + ay * (bx * cy - by
                        * cx),
                    ax * by - ay * bx > 0,
                    bx * cy - by * cx > 0,
                    ay > 0 || (ay == 0 && ax >= 0),
                    by > 0 || (by == 0 && bx >= 0),
                    cy > 0 || (cy == 0 && cx >= 0),
            ;
        } else {
            assert(ax * cy - ay * cx > 0) by (nonlinear_arith)
                requires
                    by * (ax * cy - ay * cx) == cy * (ax * by - ay * bx) + ay * (bx * cy - by
                        * cx),
                    ax * by - ay * bx > 0,
                    bx * cy - by * cx > 0,
                    ay < 0 || (ay == 0 && ax < 0),
                    by < 0 || (by == 0 && bx < 0),
                    cy < 0 || (cy == 0 && cx < 0),
            ;
        }
    }
}

/// No vector comes before itself in the angular order, and of two vectors
/// at most one comes before the other.
pub proof fn lemma_angle_lt_asymmetric(a: Vec2d, b: Vec2d)
    ensures
        !angle_lt(a, a),
        !(angle_lt(a, b) && angle_lt(b, a)),
{
    assert(cross(a, a) == 0) by (nonlinear_arith);
    assert(cross(a, b) == -cross(b, a)) by (nonlinear_arith);
}

} // verus!
