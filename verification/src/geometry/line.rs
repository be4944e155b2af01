//! Line segments: side tests, crossing tests, crossing points and bisectors.

use crate::fixed::{
    abs_int, div_round, fixed_mul, lemma_mul_bound, lemma_round_div_between,
    lemma_round_div_nearest, lemma_round_div_scaled, round_div, sign, sign_of, COORD_MAX, ONE,
};
use crate::geometry::vec2d::Vec2d;
use vstd::prelude::*;

verus! {

/// A segment from `p1` to `p2`.
#[derive(Debug, Clone, Copy, PartialEq, Eq, Structural)]
pub struct Line {
    pub p1: Vec2d,
    pub p2: Vec2d,
}

/// `v` lies between `a` and `b`, in either order.
pub open spec fn between(a: int, v: int, b: int) -> bool {
    (a <= v <= b) || (b <= v <= a)
}

impl Line {
    /// Both endpoints have their coordinates in `[-bound, bound]`.
    pub open spec fn within(self, bound: int) -> bool {
        self.p1.within(bound) && self.p2.within(bound)
    }

    /// Both endpoints lie in the range that the geometry accepts.
    pub open spec fn in_range(self) -> bool {
        self.within(COORD_MAX as int)
    }

    /// Twice the signed area of the triangle `p2`, `p1`, `pt`: zero when the
    /// three points are collinear.
    pub open spec fn cross_side(self, pt: Vec2d) -> int {
        (self.p1.x - self.p2.x) * (pt.y - self.p1.y) - (self.p1.y - self.p2.y) * (pt.x - self.p1.x)
    }

    /// On which side of the line through the segment `pt` lies: -1, 0 or 1.
    pub open spec fn side(self, pt: Vec2d) -> int {
        sign_of(self.cross_side(pt))
    }

    /// The endpoints of `l2` are not strictly on one side of `l1`.
    pub open spec fn half_intersects(l1: Line, l2: Line) -> bool {
        l1.side(l2.p1) * l1.side(l2.p2) <= 0
    }

    /// Each segment has its endpoints on opposite sides of the other, or on
    /// its line. Touching counts.
    pub open spec fn intersects(l1: Line, l2: Line) -> bool {
        Line::half_intersects(l1, l2) && Line::half_intersects(l2, l1)
    }

    /// The segments cross and are parallel, so that no single crossing point exists.
    pub open spec fn overlaps_parallel(l1: Line, l2: Line) -> bool {
        Line::intersects(l1, l2) && l2.cross_side(l1.p1) == l2.cross_side(l1.p2)
    }

    /// The crossing point of two segments that cross and are not parallel:
    /// `t * l1.p1 + (1 - t) * l1.p2` with `t = -s2 / (s1 - s2)`, where `s1` and
    /// `s2` say how far the endpoints of `l1` are from the line of `l2`.
    /// Each coordinate is rounded.
    pub open spec fn intersection_spec(l1: Line, l2: Line) -> Option<Vec2d> {
        let s1 = l2.cross_side(l1.p1);
        let s2 = l2.cross_side(l1.p2);
        if !Line::intersects(l1, l2) || s1 == s2 {
            None
        } else {
            Some(
                Vec2d {
                    x: (l1.p2.x + round_div(-s2 * (l1.p1.x - l1.p2.x), s1 - s2)) as i64,
                    y: (l1.p2.y + round_div(-s2 * (l1.p1.y - l1.p2.y), s1 - s2)) as i64,
                },
            )
        }
    }

    /// The perpendicular bisector of `p1` and `p2` as a segment of the given
    /// length: centred at their midpoint, along the direction from `p2` to
    /// `p1` turned by a quarter turn.
    pub open spec fn vertical_bisector_spec(p1: Vec2d, p2: Vec2d, length: int) -> Line {
        let mid = Vec2d::middle_point_spec(p1, p2);
        let unit = Vec2d::unit_vector_between_spec(p1, p2);
        let half = round_div(length, 2);
        let off_x = fixed_mul(-unit.y, half);
        let off_y = fixed_mul(unit.x as int, half);
        Line {
            p1: Vec2d { x: (mid.x - off_x) as i64, y: (mid.y - off_y) as i64 },
            p2: Vec2d { x: (mid.x + off_x) as i64, y: (mid.y + off_y) as i64 },
        }
    }

    /// The segment from `p1` to `p2`.
    pub fn new(p1: Vec2d, p2: Vec2d) -> (l: Line)
        ensures
            l.p1 == p1,
            l.p2 == p2,
    {
        Line { p1, p2 }
    }

    /// The two segments cross or touch.
    pub fn is_intersect(l1: &Line, l2: &Line) -> (b: bool)
        requires
            l1.within(2 * COORD_MAX),
            l2.within(2 * COORD_MAX),
        ensures
            b == Line::intersects(*l1, *l2),
    {
        Line::half_is_intersect(l1, l2) && Line::half_is_intersect(l2, l1)
    }

    fn half_is_intersect(l1: &Line, l2: &Line) -> (b: bool)
        requires
            l1.within(2 * COORD_MAX),
            l2.within(2 * COORD_MAX),
        ensures
            b == Line::half_intersects(*l1, *l2),
    {
        let s: i8 = l1.point_side(l2.p1);
        let t: i8 = l1.point_side(l2.p2);
        proof {
            lemma_mul_bound(s as int, t as int, 1, 1);
        }
        s * t <= 0
    }

    fn cross_value(&self, pt: Vec2d) -> (c: i128)
        requires
            self.within(2 * COORD_MAX),
            pt.within(2 * COORD_MAX),
        ensures
            c == self.cross_side(pt),
            -(32 * (COORD_MAX * COORD_MAX)) <= c <= 32 * (COORD_MAX * COORD_MAX),
            self.in_range() && pt.in_range() ==> -(8 * (COORD_MAX * COORD_MAX)) <= c <= 8 * (
            COORD_MAX * COORD_MAX),
    {
        let ax: i128 = self.p1.x as i128 - self.p2.x as i128;
        let ay: i128 = self.p1.y as i128 - self.p2.y as i128;
        let bx: i128 = pt.x as i128 - self.p1.x as i128;
        let by: i128 = pt.y as i128 - self.p1.y as i128;
        proof {
            lemma_mul_bound(ax as int, by as int, 4 * COORD_MAX, 4 * COORD_MAX);
            lemma_mul_bound(ay as int, bx as int, 4 * COORD_MAX, 4 * COORD_MAX);
            if self.in_range() && pt.in_range() {
                lemma_mul_bound(ax as int, by as int, 2 * COORD_MAX, 2 * COORD_MAX);
                lemma_mul_bound(ay as int, bx as int, 2 * COORD_MAX, 2 * COORD_MAX);
                assert((2 * COORD_MAX) * (2 * COORD_MAX) == 4 * (COORD_MAX * COORD_MAX))
                    by (nonlinear_arith);
            }
        }
        ax * by - ay * bx
    }

    /// On which side of the line through the segment `pt` lies: -1, 0 or 1.
    /// Swapping the endpoints flips the sign; 0 means collinear.
    pub fn point_side(&self, pt: Vec2d) -> (s: i8)
        requires
            self.within(2 * COORD_MAX),
            pt.within(2 * COORD_MAX),
        ensures
            s == self.side(pt),
            -1 <= s <= 1,
    {
        sign(self.cross_value(pt))
    }

    /// The crossing point of two segments; `None` when they do not cross or
    /// are parallel.
    pub fn intersection(l1: &Line, l2: &Line) -> (r: Option<Vec2d>)
        requires
            l1.in_range(),
            l2.in_range(),
        ensures
            r == Line::intersection_spec(*l1, *l2),
            r is Some ==> between(l1.p1.x as int, r->0.x as int, l1.p2.x as int) && between(
                l1.p1.y as int,
                r->0.y as int,
                l1.p2.y as int,
            ),
    {
        if !Line::is_intersect(l1, l2) {
            None
        } else {
            let s1: i128 = l2.cross_value(l1.p1);
            let s2: i128 = l2.cross_value(l1.p2);
            let det: i128 = s1 - s2;
            if det == 0 {
                None
            } else {
                let num: i128 = -s2;
                let wx: i128 = l1.p1.x as i128 - l1.p2.x as i128;
                let wy: i128 = l1.p1.y as i128 - l1.p2.y as i128;
                proof {
                    assert(Line::half_intersects(*l2, *l1));
                    assert((s1 >= 0 && s2 <= 0) || (s1 <= 0 && s2 >= 0)) by (nonlinear_arith)
                        requires
                            sign_of(s1 as int) * sign_of(s2 as int) <= 0,
                    ;
                    assert(num * det >= 0) by (nonlinear_arith)
                        requires
                            (num >= 0 && det >= 0) || (num <= 0 && det <= 0),
                    ;
                    lemma_mul_bound(
                        num as int,
                        wx as int,
                        8 * (COORD_MAX * COORD_MAX),
                        2 * COORD_MAX,
                    );
                    lemma_mul_bound(
                        num as int,
                        wy as int,
                        8 * (COORD_MAX * COORD_MAX),
                        2 * COORD_MAX,
                    );
                    lemma_round_div_between(num as int, det as int, wx as int);
                    lemma_round_div_between(num as int, det as int, wy as int);
                }
                let x: i128 = l1.p2.x as i128 + div_round(num * wx, det);
                let y: i128 = l1.p2.y as i128 + div_round(num * wy, det);
                Some(Vec2d { x: x as i64, y: y as i64 })
            }
        }
    }

    /// The perpendicular bisector of `p1` and `p2`, as a segment of the given length.
    pub fn vertical_bisector(p1: Vec2d, p2: Vec2d, length: i64) -> (l: Line)
        requires
            p1.within(COORD_MAX / 2),
            p2.within(COORD_MAX / 2),
            -COORD_MAX <= length <= COORD_MAX,
        ensures
            l == Line::vertical_bisector_spec(p1, p2, length as int),
            forall|b: int|
                p1.within(b) && p2.within(b) ==> #[trigger] l.within(
                    b + abs_int(round_div(length as int, 2)),
                ),
            l.in_range(),
    {
        let mid_point: Vec2d = Vec2d::middle_point(p1, p2);
        let p1p2_unit: Vec2d = Vec2d::unit_vector_between(p1, p2);
        let line_vec: Vec2d = Vec2d { x: -p1p2_unit.y, y: p1p2_unit.x };
        proof {
            assert(abs_int(2) == 2);
            assert(COORD_MAX / 2 == 549_755_813_888);
            assert((COORD_MAX / 2) * abs_int(2) == COORD_MAX);
            lemma_round_div_scaled(length as int, 2, COORD_MAX / 2);
        }
        let half: i64 = div_round(length as i128, 2) as i64;
        proof {
            assert(abs_int(line_vec.x * half) <= abs_int(half as int) * abs_int(ONE as int))
                by (nonlinear_arith)
                requires
                    -ONE <= line_vec.x <= ONE,
            ;
            assert(abs_int(line_vec.y * half) <= abs_int(half as int) * abs_int(ONE as int))
                by (nonlinear_arith)
                requires
                    -ONE <= line_vec.y <= ONE,
            ;
            lemma_round_div_scaled(line_vec.x * half, ONE as int, abs_int(half as int));
            lemma_round_div_scaled(line_vec.y * half, ONE as int, abs_int(half as int));
        }
        let off: Vec2d = line_vec.mul(half);
        Line { p1: mid_point - off, p2: mid_point + off }
    }
}

/// Swapping the endpoints of a segment flips the side of every point.
pub proof fn lemma_side_flips(l: Line, p: Vec2d)
    ensures
        (Line { p1: l.p2, p2: l.p1 }).side(p) == -l.side(p),
{
    let r = Line { p1: l.p2, p2: l.p1 };
    assert(r.cross_side(p) == -l.cross_side(p)) by (nonlinear_arith)
        requires
            r.p1 == l.p2,
            r.p2 == l.p1,
    ;
}

/// The endpoints of a segment lie on its line.
pub proof fn lemma_endpoints_on_line(l: Line)
    ensures
        l.side(l.p1) == 0,
        l.side(l.p2) == 0,
{
    assert(l.cross_side(l.p1) == 0) by (nonlinear_arith);
    assert(l.cross_side(l.p2) == 0) by (nonlinear_arith);
}

/// Whether two segments cross does not depend on their order.
pub proof fn lemma_intersects_symmetric(l1: Line, l2: Line)
    ensures
        Line::intersects(l1, l2) == Line::intersects(l2, l1),
{
}

/// A segment that shares an endpoint with another crosses it.
pub proof fn lemma_shared_endpoint_intersects(l1: Line, l2: Line)
    requires
        l1.p1 == l2.p1 || l1.p1 == l2.p2 || l1.p2 == l2.p1 || l1.p2 == l2.p2,
    ensures
        Line::intersects(l1, l2),
{
    lemma_endpoints_on_line(l1);
    lemma_endpoints_on_line(l2);
    assert(Line::half_intersects(l1, l2)) by (nonlinear_arith)
        requires
            l1.side(l2.p1) == 0 || l1.side(l2.p2) == 0,
    ;
    assert(Line::half_intersects(l2, l1)) by (nonlinear_arith)
        requires
            l2.side(l1.p1) == 0 || l2.side(l1.p2) == 0,
    ;
}

/// The bisector segment is centred at the midpoint of the two points.
pub proof fn lemma_bisector_centred(p1: Vec2d, p2: Vec2d, length: int)
    requires
        p1.within(COORD_MAX / 2),
        p2.within(COORD_MAX / 2),
        -COORD_MAX <= length <= COORD_MAX,
    ensures
        ({
            let l = Line::vertical_bisector_spec(p1, p2, length);
            let mid = Vec2d::middle_point_spec(p1, p2);
            l.p1.x + l.p2.x == 2 * mid.x && l.p1.y + l.p2.y == 2 * mid.y
        }),
{
    let unit = Vec2d::unit_vector_between_spec(p1, p2);
    let half = round_div(length, 2);
    assert(abs_int(2) == 2);
    lemma_round_div_scaled(length, 2, COORD_MAX / 2);
    crate::geometry::vec2d::lemma_unit_within(p1, p2);
    crate::geometry::vec2d::lemma_middle_between(p1.x as int, p2.x as int);
    crate::geometry::vec2d::lemma_middle_between(p1.y as int, p2.y as int);
    assert(abs_int((-unit.y) * half) <= abs_int(half) * abs_int(ONE as int)) by (nonlinear_arith)
        requires
            -ONE <= unit.y <= ONE,
    ;
    assert(abs_int(unit.x * half) <= abs_int(half) * abs_int(ONE as int)) by (nonlinear_arith)
        requires
            -ONE <= unit.x <= ONE,
    ;
    lemma_round_div_scaled((-unit.y) * half, ONE as int, abs_int(half));
    lemma_round_div_scaled(unit.x * half, ONE as int, abs_int(half));
}

/// The point where the lines of two segments meet, as a fraction: the
/// numerators of its two coordinates and their common denominator.
pub struct ExactCrossing {
    pub x: int,
    pub y: int,
    pub den: int,
}

/// The point where the line of `l1` meets the line of `l2`:
/// `t * l1.p1 + (1 - t) * l1.p2` with `t = -s2 / (s1 - s2)`.
pub open spec fn exact_crossing(l1: Line, l2: Line) -> ExactCrossing {
    let s1 = l2.cross_side(l1.p1);
    let s2 = l2.cross_side(l1.p2);
    ExactCrossing {
        x: (s1 - s2) * l1.p2.x + (-s2) * (l1.p1.x - l1.p2.x),
        y: (s1 - s2) * l1.p2.y + (-s2) * (l1.p1.y - l1.p2.y),
        den: s1 - s2,
    }
}

/// The fraction `c` names a point on the line of `l`.
pub open spec fn on_line_exactly(l: Line, c: ExactCrossing) -> bool {
    (l.p1.x - l.p2.x) * (c.y - c.den * l.p1.y) - (l.p1.y - l.p2.y) * (c.x - c.den * l.p1.x) == 0
}

proof fn lemma_mul_swap(a: int, b: int, c: int)
    by (nonlinear_arith)
    ensures
        a * (b * c) == b * (a * c),
{
}

proof fn lemma_mul_spread(a: int, b: int, c: int)
    by (nonlinear_arith)
    ensures
        a * (b + c) == a * b + a * c,
        a * (b - c) == a * b - a * c,
{
}

proof fn lemma_bilinear(ax: int, ay: int, ux: int, uy: int, wx: int, wy: int, den: int, num: int)
    ensures
        ax * (den * uy + num * wy) - ay * (den * ux + num * wx) == den * (ax * uy - ay * ux) + num
            * (ax * wy - ay * wx),
{
    lemma_mul_spread(ax, den * uy, num * wy);
    lemma_mul_spread(ay, den * ux, num * wx);
    lemma_mul_swap(ax, den, uy);
    lemma_mul_swap(ax, num, wy);
    lemma_mul_swap(ay, den, ux);
    lemma_mul_swap(ay, num, wx);
    lemma_mul_spread(den, ax * uy, ay * ux);
    lemma_mul_spread(num, ax * wy, ay * wx);
}

/// The exact crossing lies on both lines.
pub proof fn lemma_exact_crossing_on_both_lines(l1: Line, l2: Line)
    ensures
        on_line_exactly(l1, exact_crossing(l1, l2)),
        on_line_exactly(l2, exact_crossing(l1, l2)),
{
    let c = exact_crossing(l1, l2);
    let s1 = l2.cross_side(l1.p1);
    let s2 = l2.cross_side(l1.p2);
    let ax = l2.p1.x - l2.p2.x;
    let ay = l2.p1.y - l2.p2.y;
    let wx = l1.p1.x - l1.p2.x;
    let wy = l1.p1.y - l1.p2.y;
    let den = s1 - s2;
    let num = -s2;
    assert(c.x - den * l1.p1.x == (num - den) * wx) by (nonlinear_arith)
        requires
            c.x == den * l1.p2.x + num * wx,
            wx == l1.p1.x - l1.p2.x,
    ;
    assert(c.y - den * l1.p1.y == (num - den) * wy) by (nonlinear_arith)
        requires
            c.y == den * l1.p2.y + num * wy,
            wy == l1.p1.y - l1.p2.y,
    ;
    assert(wx * ((num - den) * wy) - wy * ((num - den) * wx) == 0) by (nonlinear_arith);
    assert(s1 - s2 == ax * wy - ay * wx) by (nonlinear_arith)
        requires
            s1 == ax * (l1.p1.y - l2.p1.y) - ay * (l1.p1.x - l2.p1.x),
            s2 == ax * (l1.p2.y - l2.p1.y) - ay * (l1.p2.x - l2.p1.x),
            wx == l1.p1.x - l1.p2.x,
            wy == l1.p1.y - l1.p2.y,
    ;
    let ux = l1.p2.x - l2.p1.x;
    let uy = l1.p2.y - l2.p1.y;
    assert(c.x - den * l2.p1.x == den * ux + num * wx) by (nonlinear_arith)
        requires
            c.x == den * l1.p2.x + num * wx,
            ux == l1.p2.x - l2.p1.x,
    ;
    assert(c.y - den * l2.p1.y == den * uy + num * wy) by (nonlinear_arith)
        requires
            c.y == den * l1.p2.y + num * wy,
            uy == l1.p2.y - l2.p1.y,
    ;
    lemma_bilinear(ax, ay, ux, uy, wx, wy, den, num);
    assert(den * s2 + num * (ax * wy - ay * wx) == 0) by (nonlinear_arith)
        requires
            num == -s2,
            den == ax * wy - ay * wx,
    ;
}

/// The crossing point that `intersection_spec` gives is the exact crossing
/// of the two lines, each coordinate rounded to a nearest integer.
pub proof fn lemma_intersection_nearest(l1: Line, l2: Line)
    requires
        l1.in_range(),
        l2.in_range(),
        Line::intersection_spec(l1, l2) is Some,
    ensures
        ({
            let p = Line::intersection_spec(l1, l2)->0;
            let c = exact_crossing(l1, l2);
            &&& c.den != 0
            &&& 2 * abs_int(c.den * p.x - c.x) <= abs_int(c.den)
            &&& 2 * abs_int(c.den * p.y - c.y) <= abs_int(c.den)
            &&& between(l1.p1.x as int, p.x as int, l1.p2.x as int)
            &&& between(l1.p1.y as int, p.y as int, l1.p2.y as int)
        }),
{
    let s1 = l2.cross_side(l1.p1);
    let s2 = l2.cross_side(l1.p2);
    let den = s1 - s2;
    let num = -s2;
    let wx = l1.p1.x - l1.p2.x;
    let wy = l1.p1.y - l1.p2.y;
    assert(Line::half_intersects(l2, l1));
    assert((s1 >= 0 && s2 <= 0) || (s1 <= 0 && s2 >= 0)) by (nonlinear_arith)
        requires
            sign_of(s1) * sign_of(s2) <= 0,
    ;
    assert(num * den >= 0) by (nonlinear_arith)
        requires
            (num >= 0 && den >= 0) || (num <= 0 && den <= 0),
    ;
    lemma_round_div_between(num, den, wx);
    lemma_round_div_between(num, den, wy);
    lemma_round_div_nearest(num * wx, den);
    lemma_round_div_nearest(num * wy, den);
    let rx = round_div(num * wx, den);
    let ry = round_div(num * wy, den);
    let c = exact_crossing(l1, l2);
    assert(den * (l1.p2.x + rx) - c.x == den * rx - num * wx) by (nonlinear_arith)
        requires
            c.x == den * l1.p2.x + num * wx,
    ;
    assert(den * (l1.p2.y + ry) - c.y == den * ry - num * wy) by (nonlinear_arith)
        requires
            c.y == den * l1.p2.y + num * wy,
    ;
}

} // verus!
