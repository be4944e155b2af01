//! Convex polygons and the crossing-number test.

use crate::fixed::{COORD_MAX, ONE};
use crate::geometry::line::Line;
use crate::geometry::vec2d::Vec2d;
use crate::seq_lemmas::{lemma_filter_take_step, lemma_take_all};
use vstd::prelude::*;

verus! {

/// A convex polygon: its vertices in ring order, and the edges between them.
#[derive(Debug, Clone)]
pub struct Polygon {
    pub points: Vec<Vec2d>,
    pub lines: Vec<Line>,
}

/// The largest of three numbers.
pub open spec fn max3(a: int, b: int, c: int) -> int {
    if a >= b && a >= c {
        a
    } else if b >= c {
        b
    } else {
        c
    }
}

/// Every point of the sequence has its coordinates in `[-bound, bound]`.
pub open spec fn points_within(points: Seq<Vec2d>, bound: int) -> bool {
    forall|i: int| 0 <= i < points.len() ==> (#[trigger] points[i]).within(bound)
}

/// Every segment of the sequence has its coordinates in `[-bound, bound]`.
pub open spec fn lines_within(lines: Seq<Line>, bound: int) -> bool {
    forall|i: int| 0 <= i < lines.len() ==> (#[trigger] lines[i]).within(bound)
}

impl Polygon {
    /// The edges of a ring of vertices: from each vertex to the next, and
    /// from the last back to the first. Fewer than three vertices have no edges.
    pub open spec fn each_lines_spec(points: Seq<Vec2d>) -> Seq<Line> {
        if points.len() < 3 {
            Seq::empty()
        } else {
            Seq::new(
                points.len(),
                |i: int| Line { p1: points[i], p2: points[(i + 1) % (points.len() as int)] },
            )
        }
    }

    /// The edge list is the one that the vertices give.
    pub open spec fn wf(self) -> bool {
        self.lines@ == Polygon::each_lines_spec(self.points@)
    }

    /// The horizontal segment from `point` to the right, one unit past the
    /// segment `line` and the point.
    pub open spec fn line_to_right(point: Vec2d, line: Line) -> Line {
        Line {
            p1: point,
            p2: Vec2d {
                x: (max3(line.p1.x as int, line.p2.x as int, point.x as int) + ONE) as i64,
                y: point.y,
            },
        }
    }

    /// The ray from `point` to the right meets the segment `line`.
    pub open spec fn crosses_right(point: Vec2d, line: Line) -> bool {
        Line::intersects(Polygon::line_to_right(point, line), line)
    }

    /// `crosses_right` for the ray from `point`, as a predicate on segments.
    pub open spec fn crossing_pred(point: Vec2d) -> spec_fn(Line) -> bool {
        |line: Line| Polygon::crosses_right(point, line)
    }

    /// How many of the segments the ray from `point` to the right meets.
    pub open spec fn crossing_count(lines: Seq<Line>, point: Vec2d) -> nat {
        lines.filter(Polygon::crossing_pred(point)).len()
    }

    /// The crossing-number test: the ray from `point` to the right meets an
    /// odd number of edges.
    pub open spec fn contains(self, point: Vec2d) -> bool {
        Polygon::crossing_count(self.lines@, point) % 2 == 1
    }

    /// The polygon with the given vertices in ring order.
    pub fn new(points: Vec<Vec2d>) -> (p: Polygon)
        ensures
            p.points == points,
            p.wf(),
    {
        let lines = Polygon::each_lines(&points);
        Polygon { points, lines }
    }

    /// The edges of the ring of the given vertices; none for fewer than three.
    pub fn each_lines(points: &Vec<Vec2d>) -> (lines: Vec<Line>)
        ensures
            lines@ == Polygon::each_lines_spec(points@),
    {
        if points.len() < 3 {
            return Vec::new();
        }
        let n: usize = points.len();
        let mut lines: Vec<Line> = Vec::with_capacity(n);
        let mut i: usize = 0;
        while i < n
            invariant
                n == points.len(),
                n >= 3,
                i <= n,
                lines.len() == i,
                forall|j: int|
                    0 <= j < i ==> lines[j] == (Line {
                        p1: points[j],
                        p2: points[(j + 1) % (n as int)],
                    }),
            decreases n - i,
        {
            let next: usize = if i + 1 == n {
                0
            } else {
                i + 1
            };
            proof {
                if i + 1 == n {
                    vstd::arithmetic::div_mod::lemma_mod_self_0(n as int);
                } else {
                    vstd::arithmetic::div_mod::lemma_small_mod((i + 1) as nat, n as nat);
                }
            }
            lines.push(Line::new(points[i], points[next]));
            i = i + 1;
        }
        assert(lines@ =~= Polygon::each_lines_spec(points@));
        lines
    }

    /// The crossing-number test for `point`.
    pub fn is_include(&self, point: Vec2d) -> (b: bool)
        requires
            self.points.len() >= 3,
            lines_within(self.lines@, COORD_MAX as int),
            point.in_range(),
        ensures
            b == self.contains(point),
    {
        let mut cross_count: usize = 0;
        let mut i: usize = 0;
        while i < self.lines.len()
            invariant
                i <= self.lines.len(),
                lines_within(self.lines@, COORD_MAX as int),
                point.in_range(),
                cross_count == Polygon::crossing_count(self.lines@.take(i as int), point),
                cross_count <= i,
            decreases self.lines.len() - i,
        {
            proof {
                lemma_filter_take_step(self.lines@, Polygon::crossing_pred(point), i as int);
            }
            if Polygon::is_cross_with_line_to_right(&point, &self.lines[i]) {
                cross_count = cross_count + 1;
            }
            i = i + 1;
        }
        proof {
            lemma_take_all(self.lines@);
        }
        cross_count % 2 == 1
    }

    fn is_cross_with_line_to_right(point: &Vec2d, line: &Line) -> (b: bool)
        requires
            line.in_range(),
            point.in_range(),
        ensures
            b == Polygon::crosses_right(*point, *line),
    {
        let mut max_x: i64 = line.p1.x;
        if line.p2.x > max_x {
            max_x = line.p2.x;
        }
        if point.x > max_x {
            max_x = point.x;
        }
        let line_to_right = Line::new(*point, Vec2d { x: max_x + ONE, y: point.y });
        Line::is_intersect(&line_to_right, line)
    }
}

} // verus!
