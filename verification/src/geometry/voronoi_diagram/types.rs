//! Sites, vertices, edges and rings of a Voronoi diagram.

use crate::fixed::COORD_MAX;
use crate::geometry::line::Line;
use crate::geometry::polygon::{lines_within, points_within, Polygon};
use crate::geometry::vec2d::{
    angle_gap_wide, angle_lt, lemma_angle_lt_asymmetric, lemma_angle_lt_transitive, Vec2d,
};
use crate::geometry::voronoi_diagram::id_set::IdSet;
use crate::seq_lemmas::{
    lemma_filter_take_step, lemma_map_take_step, lemma_take_all, lemma_take_step,
};
use vstd::prelude::*;

verus! {

pub type ClusterId = u32;

pub type NodeId = u32;

pub type CellId = u32;

/// A site: the generator of one cell. The two labels are carried along unchanged.
#[derive(Debug, Clone, Copy, PartialEq, Eq, Structural)]
pub struct VoronoiCenterPoint {
    pub node_id: NodeId,
    pub pos: Vec2d,
    pub cluster_id: ClusterId,
}

/// A vertex of the diagram. `outbounds` holds the sides of the bounding
/// region that the vertex lies on: none for an interior vertex, one for a
/// vertex inside a side, two for a corner of the region.
#[derive(Debug, Clone, Copy, PartialEq, Eq, Structural)]
pub struct VoronoiPoint {
    pub pos: Vec2d,
    pub is_corner: bool,
    pub outbounds: IdSet,
}

/// An edge of a cell. `cells` holds the cells that the edge bounds: one for
/// an edge on the bounding region, two for an edge between cells.
#[derive(Debug, Clone, Copy, PartialEq, Eq, Structural)]
pub struct VoronoiLine {
    pub p1: VoronoiPoint,
    pub p2: VoronoiPoint,
    pub line: Line,
    pub cells: IdSet,
}

/// A ring of vertices with the polygon of their positions.
#[derive(Debug)]
pub struct VoronoiPolygon {
    pub points: Vec<VoronoiPoint>,
    pub polygon: Polygon,
}

/// A cell: its site, its ring and the edges of the ring.
#[derive(Debug)]
pub struct VoronoiCell {
    pub cell_id: CellId,
    pub point: VoronoiCenterPoint,
    pub bound: VoronoiPolygon,
    pub lines: Vec<VoronoiLine>,
}

/// What a cell is, as a value: its ring follows from its site and its edges.
pub struct CellView {
    pub cell_id: CellId,
    pub point: VoronoiCenterPoint,
    pub lines: Seq<VoronoiLine>,
}

/// What carving a cell along a bisector gives.
#[derive(Debug)]
pub struct DivideInfo {
    /// The parts of the crossed edges that stay with the cell.
    pub cut_lines: Vec<VoronoiLine>,
    /// The vertices of the cell after the carving: the two break points and
    /// the old vertices on the side of the cell's site.
    pub remain_points: Vec<VoronoiPoint>,
    /// The vertices that go to the new cell: the two break points and the
    /// old vertices on the other side that are interior or corners.
    pub separated_points: Vec<VoronoiPoint>,
    /// The part of the bisector inside the cell, between the two break points.
    pub middle_line: VoronoiLine,
    /// The cells across the crossed edges.
    pub new_neighbors: Vec<CellId>,
}

/// A `DivideInfo` as a value.
pub struct DivideView {
    pub cut_lines: Seq<VoronoiLine>,
    pub remain_points: Seq<VoronoiPoint>,
    pub separated_points: Seq<VoronoiPoint>,
    pub middle_line: VoronoiLine,
    pub new_neighbors: Seq<CellId>,
}

/// The largest magnitude of a coordinate inside a diagram: the bounding
/// region lies in the square from (-1, -1) to (1, 1).
pub const REGION_MAX: i64 = 4_294_967_296;

/// Every vertex of the sequence has its coordinates in `[-bound, bound]`.
pub open spec fn vertices_within(points: Seq<VoronoiPoint>, bound: int) -> bool {
    forall|i: int| 0 <= i < points.len() ==> (#[trigger] points[i]).pos.within(bound)
}

/// Every edge of the sequence has its endpoints in `[-bound, bound]`, and
/// its segment joins them.
pub open spec fn edges_within(lines: Seq<VoronoiLine>, bound: int) -> bool {
    forall|i: int| 0 <= i < lines.len() ==> (#[trigger] lines[i]).within(bound)
}

/// The position of a vertex.
pub open spec fn position() -> spec_fn(VoronoiPoint) -> Vec2d {
    |p: VoronoiPoint| p.pos
}

/// The vector from `center` to `point`. Its angle from the positive x axis
/// is the angle under which `point` is seen from `center`.
pub open spec fn direction(center: Vec2d, point: Vec2d) -> Vec2d {
    Vec2d { x: (point.x - center.x) as i64, y: (point.y - center.y) as i64 }
}

/// `a` is seen from `center` under a smaller angle than `b`.
pub open spec fn seen_before(center: Vec2d, a: VoronoiPoint, b: VoronoiPoint) -> bool {
    angle_lt(direction(center, a.pos), direction(center, b.pos))
}

/// The points without repetitions: of equal points the first one stays.
pub open spec fn uniq_spec(points: Seq<VoronoiPoint>) -> Seq<VoronoiPoint>
    decreases points.len(),
{
    if points.len() == 0 {
        Seq::empty()
    } else {
        let rest = uniq_spec(points.drop_last());
        if rest.contains(points.last()) {
            rest
        } else {
            rest.push(points.last())
        }
    }
}

/// The first index at or after `from` whose point is seen under a larger
/// angle than `p`; the length if there is none.
pub open spec fn first_after(center: Vec2d, sorted: Seq<VoronoiPoint>, p: VoronoiPoint, from: int) -> int
    decreases sorted.len() - from,
{
    if from < 0 || from >= sorted.len() {
        sorted.len() as int
    } else if seen_before(center, p, sorted[from]) {
        from
    } else {
        first_after(center, sorted, p, from + 1)
    }
}

/// The points ordered by the angle under which `center` sees them, smallest
/// first. Points seen under the same angle keep their order.
pub open spec fn sort_by_angle(center: Vec2d, points: Seq<VoronoiPoint>) -> Seq<VoronoiPoint>
    decreases points.len(),
{
    if points.len() == 0 {
        Seq::empty()
    } else {
        let rest = sort_by_angle(center, points.drop_last());
        rest.insert(first_after(center, rest, points.last(), 0), points.last())
    }
}

/// The distinct points, in angular order around `center`.
pub open spec fn sort_points_around_center_spec(center: Vec2d, points: Seq<VoronoiPoint>) -> Seq<
    VoronoiPoint,
> {
    sort_by_angle(center, uniq_spec(points))
}

/// The endpoint of `line` that comes first when passing over the edge
/// counter-clockwise around `center`, the short way round.
pub open spec fn first_endpoint(center: Vec2d, line: VoronoiLine) -> VoronoiPoint {
    let u = direction(center, line.p1.pos);
    let v = direction(center, line.p2.pos);
    let p1_first = if angle_gap_wide(u, v) {
        angle_lt(v, u)
    } else {
        angle_lt(u, v)
    };
    if p1_first {
        line.p1
    } else {
        line.p2
    }
}

/// `first_endpoint` around `center`, as a function on edges.
pub open spec fn first_endpoint_of(center: Vec2d) -> spec_fn(VoronoiLine) -> VoronoiPoint {
    |line: VoronoiLine| first_endpoint(center, line)
}

/// The ring that a cell's edges give: the first endpoint of each edge, in
/// angular order around `center`.
pub open spec fn from_lines_spec(center: Vec2d, lines: Seq<VoronoiLine>) -> Seq<VoronoiPoint> {
    sort_points_around_center_spec(center, lines.map_values(first_endpoint_of(center)))
}

/// `uniq_spec` holds every point of its argument, once.
pub proof fn lemma_uniq(points: Seq<VoronoiPoint>)
    ensures
        uniq_spec(points).no_duplicates(),
        uniq_spec(points).len() <= points.len(),
        forall|p: VoronoiPoint| uniq_spec(points).contains(p) <==> points.contains(p),
    decreases points.len(),
{
    if points.len() > 0 {
        let front = points.drop_last();
        let last = points.last();
        lemma_uniq(front);
        let rest = uniq_spec(front);
        assert forall|p: VoronoiPoint| uniq_spec(points).contains(p) <==> points.contains(p) by {
            if points.contains(p) {
                let i = choose|i: int| 0 <= i < points.len() && points[i] == p;
                if i < points.len() - 1 {
                    assert(front[i] == p);
                    assert(front.contains(p));
                    assert(rest.contains(p));
                    let k = choose|k: int| 0 <= k < rest.len() && rest[k] == p;
                    assert(uniq_spec(points)[k] == p);
                } else if !rest.contains(last) {
                    assert(uniq_spec(points)[rest.len() as int] == p);
                }
            }
            if uniq_spec(points).contains(p) {
                let k = choose|k: int| 0 <= k < uniq_spec(points).len() && uniq_spec(points)[k] == p;
                if k < rest.len() {
                    assert(rest[k] == p);
                    assert(rest.contains(p));
                    assert(front.contains(p));
                    let i = choose|i: int| 0 <= i < front.len() && front[i] == p;
                    assert(points[i] == p);
                } else {
                    assert(points[points.len() - 1] == p);
                }
            }
        }
    }
}

/// No point of the sequence is seen under a smaller angle than a point before it.
pub open spec fn sorted_by_angle(center: Vec2d, s: Seq<VoronoiPoint>) -> bool {
    forall|i: int, j: int| 0 <= i < j < s.len() ==> !seen_before(center, s[j], s[i])
}

/// Between `from` and `first_after` no point is seen under a larger angle
/// than `p`; the point at `first_after` is.
pub proof fn lemma_first_after(center: Vec2d, sorted: Seq<VoronoiPoint>, p: VoronoiPoint, from: int)
    requires
        0 <= from <= sorted.len(),
    ensures
        from <= first_after(center, sorted, p, from) <= sorted.len(),
        forall|j: int|
            from <= j < first_after(center, sorted, p, from) ==> !seen_before(
                center,
                p,
                #[trigger] sorted[j],
            ),
        first_after(center, sorted, p, from) < sorted.len() ==> seen_before(
            center,
            p,
            sorted[first_after(center, sorted, p, from)],
        ),
    decreases sorted.len() - from,
{
    if from < sorted.len() && !seen_before(center, p, sorted[from]) {
        lemma_first_after(center, sorted, p, from + 1);
    }
}

/// Sorting gives the same points in angular order: no point is seen under
/// a smaller angle than a point before it, and nothing is added or lost.
pub proof fn lemma_sort_by_angle_sorted(center: Vec2d, points: Seq<VoronoiPoint>)
    ensures
        sorted_by_angle(center, sort_by_angle(center, points)),
        forall|p: VoronoiPoint| sort_by_angle(center, points).contains(p) <==> points.contains(p),
        points.no_duplicates() ==> sort_by_angle(center, points).no_duplicates(),
    decreases points.len(),
{
    if points.len() > 0 {
        let front = points.drop_last();
        let last = points.last();
        lemma_sort_by_angle_sorted(center, front);
        let rest = sort_by_angle(center, front);
        let k = first_after(center, rest, last, 0);
        lemma_first_after(center, rest, last, 0);
        let out = rest.insert(k, last);
        assert(out == sort_by_angle(center, points));
        assert forall|i: int, j: int| 0 <= i < j < out.len() implies !seen_before(
            center,
            out[j],
            out[i],
        ) by {
            if j == k {
                assert(out[i] == rest[i]);
                assert(out[j] == last);
                assert(!seen_before(center, last, rest[i]));
            } else if i == k {
                assert(out[j] == rest[j - 1]);
                assert(out[i] == last);
                assert(seen_before(center, last, rest[k]));
                if j - 1 > k {
                    assert(!seen_before(center, rest[j - 1], rest[k]));
                }
                if seen_before(center, rest[j - 1], last) {
                    lemma_angle_lt_transitive(
                        direction(center, rest[j - 1].pos),
                        direction(center, last.pos),
                        direction(center, rest[k].pos),
                    );
                    lemma_angle_lt_asymmetric(
                        direction(center, rest[k].pos),
                        direction(center, rest[k].pos),
                    );
                }
            } else {
                let i0 = if i < k {
                    i
                } else {
                    i - 1
                };
                let j0 = if j < k {
                    j
                } else {
                    j - 1
                };
                assert(out[i] == rest[i0]);
                assert(out[j] == rest[j0]);
                assert(!seen_before(center, rest[j0], rest[i0]));
            }
        }
        assert forall|p: VoronoiPoint| out.contains(p) <==> points.contains(p) by {
            if out.contains(p) {
                let i = choose|i: int| 0 <= i < out.len() && out[i] == p;
                if i == k {
                    assert(points[points.len() - 1] == p);
                } else {
                    let i0 = if i < k {
                        i
                    } else {
                        i - 1
                    };
                    assert(rest[i0] == p);
                    assert(rest.contains(p));
                    assert(front.contains(p));
                    let m = choose|m: int| 0 <= m < front.len() && front[m] == p;
                    assert(points[m] == p);
                }
            }
            if points.contains(p) {
                let m = choose|m: int| 0 <= m < points.len() && points[m] == p;
                if m == points.len() - 1 {
                    assert(out[k] == p);
                } else {
                    assert(front[m] == p);
                    assert(front.contains(p));
                    assert(rest.contains(p));
                    let i0 = choose|i0: int| 0 <= i0 < rest.len() && rest[i0] == p;
                    let i = if i0 < k {
                        i0
                    } else {
                        i0 + 1
                    };
                    assert(out[i] == p);
                }
            }
        }
        if points.no_duplicates() {
            assert(front.no_duplicates()) by {
                assert forall|a: int, b: int| 0 <= a < front.len() && 0 <= b < front.len() && a
                    != b implies front[a] != front[b] by {
                    assert(points[a] != points[b]);
                }
            }
            assert(!rest.contains(last)) by {
                if rest.contains(last) {
                    assert(front.contains(last));
                    let m = choose|m: int| 0 <= m < front.len() && front[m] == last;
                    assert(points[m] == points[points.len() - 1]);
                }
            }
            assert forall|a: int, b: int| 0 <= a < out.len() && 0 <= b < out.len() && a
                != b implies out[a] != out[b] by {
                let a0 = if a < k {
                    a
                } else {
                    a - 1
                };
                let b0 = if b < k {
                    b
                } else {
                    b - 1
                };
                if a == k {
                    assert(out[b] == rest[b0]);
                    assert(rest.contains(rest[b0]));
                } else if b == k {
                    assert(out[a] == rest[a0]);
                    assert(rest.contains(rest[a0]));
                } else {
                    assert(out[a] == rest[a0]);
                    assert(out[b] == rest[b0]);
                }
            }
        }
    }
}

/// Sorting keeps the number of points and their coordinates' range.
pub proof fn lemma_sort_by_angle(center: Vec2d, points: Seq<VoronoiPoint>, bound: int)
    ensures
        sort_by_angle(center, points).len() == points.len(),
        vertices_within(points, bound) ==> vertices_within(sort_by_angle(center, points), bound),
    decreases points.len(),
{
    if points.len() > 0 {
        let front = points.drop_last();
        if vertices_within(points, bound) {
            assert forall|i: int| 0 <= i < front.len() implies (#[trigger] front[i]).pos.within(
                bound,
            ) by {
                assert(front[i] == points[i]);
            }
        }
        lemma_sort_by_angle(center, front, bound);
        let rest = sort_by_angle(center, front);
        lemma_first_after(center, rest, points.last(), 0);
    }
}

impl VoronoiPoint {
    /// A vertex in the interior of the bounding region.
    pub fn new(pos: Vec2d) -> (p: VoronoiPoint)
        ensures
            p == (VoronoiPoint { pos, is_corner: false, outbounds: IdSet::empty_spec() }),
    {
        VoronoiPoint { pos, is_corner: false, outbounds: IdSet::new() }
    }

    /// A corner of the bounding region, where the given sides meet.
    pub fn corner(pos: Vec2d, outbounds: Vec<u32>) -> (p: VoronoiPoint)
        requires
            outbounds.len() <= 2,
        ensures
            p == (VoronoiPoint { pos, is_corner: true, outbounds: IdSet::from_seq(outbounds@) }),
            p.outbounds.wf(),
            p.outbounds@ == outbounds@.to_set(),
    {
        VoronoiPoint { pos, is_corner: true, outbounds: IdSet::from_vec(&outbounds) }
    }

    /// The vertex lies on a side of the bounding region.
    pub open spec fn on_outbound_spec(self) -> bool {
        self.outbounds.n > 0
    }

    /// Whether the vertex lies on a side of the bounding region.
    pub fn on_outbound(&self) -> (b: bool)
        ensures
            b == self.on_outbound_spec(),
    {
        self.outbounds.len() > 0
    }

    /// The points without repetitions, in the order of their first occurrence.
    pub fn uniq_points(points: &Vec<VoronoiPoint>) -> (ret: Vec<VoronoiPoint>)
        ensures
            ret@ == uniq_spec(points@),
            ret@.no_duplicates(),
            forall|p: VoronoiPoint| ret@.contains(p) <==> points@.contains(p),
    {
        let mut ret: Vec<VoronoiPoint> = Vec::new();
        let mut i: usize = 0;
        while i < points.len()
            invariant
                i <= points.len(),
                ret@ == uniq_spec(points@.take(i as int)),
            decreases points.len() - i,
        {
            let point: VoronoiPoint = points[i];
            let mut exist: bool = false;
            let mut j: usize = 0;
            while j < ret.len()
                invariant
                    j <= ret.len(),
                    exist == exists|k: int| 0 <= k < j && ret[k] == point,
                decreases ret.len() - j,
            {
                if ret[j] == point {
                    exist = true;
                }
                j = j + 1;
            }
            proof {
                lemma_take_step(points@, i as int);
            }
            if !exist {
                ret.push(point);
            }
            i = i + 1;
        }
        proof {
            lemma_take_all(points@);
            lemma_uniq(points@);
        }
        ret
    }
}

impl VoronoiLine {
    /// Both endpoints have their coordinates in `[-bound, bound]`, and the
    /// segment joins them.
    pub open spec fn within(self, bound: int) -> bool {
        &&& self.p1.pos.within(bound)
        &&& self.p2.pos.within(bound)
        &&& self.line == (Line { p1: self.p1.pos, p2: self.p2.pos })
    }

    /// The edge from `p1` to `p2`, bounding no cell yet.
    pub open spec fn new_spec(p1: VoronoiPoint, p2: VoronoiPoint) -> VoronoiLine {
        VoronoiLine { p1, p2, line: Line { p1: p1.pos, p2: p2.pos }, cells: IdSet::empty_spec() }
    }

    /// The edge lies on the bounding region: its endpoints share a side.
    pub open spec fn is_outbound_spec(self) -> bool {
        self.p1.outbounds.intersection_spec(self.p2.outbounds).n > 0
    }

    /// The edge from `p1` to `p2`, bounding no cell yet.
    pub fn new(p1: VoronoiPoint, p2: VoronoiPoint) -> (l: VoronoiLine)
        ensures
            l == VoronoiLine::new_spec(p1, p2),
    {
        VoronoiLine { line: Line::new(p1.pos, p2.pos), p1, p2, cells: IdSet::new() }
    }

    /// The cell on the other side of the edge, seen from `my_cell_id`.
    pub fn another_cell(&self, my_cell_id: CellId) -> (r: Option<CellId>)
        ensures
            r == self.cells.other_than(my_cell_id),
    {
        self.cells.another(my_cell_id)
    }

    /// The edge lies on the bounding region.
    pub fn is_outbound(&self) -> (b: bool)
        ensures
            b == self.is_outbound_spec(),
    {
        self.p1.outbounds.intersection(&self.p2.outbounds).len() > 0
    }
}

/// The vector from `center` to `point`, which stands for the angle under
/// which `center` sees `point`. Angles are compared with `Vec2d::angle_less`.
pub fn arg2pi_from_center(center: &Vec2d, point: &Vec2d) -> (d: Vec2d)
    requires
        center.within(COORD_MAX / 2),
        point.within(COORD_MAX / 2),
    ensures
        d == direction(*center, *point),
        d.in_range(),
{
    *point - *center
}

/// The distinct points in angular order around `center`, smallest angle
/// first. Points under the same angle keep their order.
pub fn sort_points_around_center(center: &Vec2d, points: &Vec<VoronoiPoint>) -> (new_points: Vec<
    VoronoiPoint,
>)
    requires
        center.within(COORD_MAX / 2),
        vertices_within(points@, COORD_MAX / 2),
    ensures
        new_points@ == sort_points_around_center_spec(*center, points@),
        sorted_by_angle(*center, new_points@),
        new_points@.no_duplicates(),
        forall|p: VoronoiPoint| new_points@.contains(p) <==> points@.contains(p),
        new_points.len() <= points.len(),
        forall|b: int| vertices_within(points@, b) ==> vertices_within(new_points@, b),
{
    let unique_points = VoronoiPoint::uniq_points(points);
    proof {
        lemma_uniq(points@);
        lemma_uniq_within(points@, COORD_MAX / 2);
    }
    let mut new_points: Vec<VoronoiPoint> = Vec::new();
    let mut i: usize = 0;
    while i < unique_points.len()
        invariant
            i <= unique_points.len(),
            center.within(COORD_MAX / 2),
            vertices_within(unique_points@, COORD_MAX / 2),
            vertices_within(new_points@, COORD_MAX / 2),
            new_points@ == sort_by_angle(*center, unique_points@.take(i as int)),
        decreases unique_points.len() - i,
    {
        let point: VoronoiPoint = unique_points[i];
        let arg: Vec2d = arg2pi_from_center(center, &point.pos);
        let mut k: usize = 0;
        while k < new_points.len() && !Vec2d::angle_less(
            arg,
            arg2pi_from_center(center, &new_points[k].pos),
        )
            invariant
                k <= new_points.len(),
                center.within(COORD_MAX / 2),
                vertices_within(new_points@, COORD_MAX / 2),
                arg == direction(*center, point.pos),
                arg.in_range(),
                first_after(*center, new_points@, point, k as int) == first_after(
                    *center,
                    new_points@,
                    point,
                    0,
                ),
            decreases new_points.len() - k,
        {
            k = k + 1;
        }
        proof {
            lemma_take_step(unique_points@, i as int);
            assert(first_after(*center, new_points@, point, k as int) == k);
        }
        new_points.insert(k, point);
        proof {
            assert forall|j: int| 0 <= j < new_points.len() implies (#[trigger] new_points@[j]).pos.within(
                COORD_MAX / 2,
            ) by {
                if j < k {
                } else if j == k {
                } else {
                    assert(new_points@[j] == sort_by_angle(*center, unique_points@.take(i as int))[j
                        - 1]);
                }
            }
        }
        i = i + 1;
    }
    proof {
        lemma_take_all(unique_points@);
        lemma_sort_by_angle_sorted(*center, unique_points@);
        lemma_sort_by_angle(*center, unique_points@, COORD_MAX / 2);
        assert forall|b: int| vertices_within(points@, b) implies vertices_within(new_points@, b) by {
            lemma_uniq_within(points@, b);
            lemma_sort_by_angle(*center, unique_points@, b);
        }
    }
    new_points
}

/// Dropping repetitions keeps the range of the coordinates.
pub proof fn lemma_uniq_within(points: Seq<VoronoiPoint>, bound: int)
    requires
        vertices_within(points, bound),
    ensures
        vertices_within(uniq_spec(points), bound),
{
    lemma_uniq(points);
    let u = uniq_spec(points);
    assert forall|i: int| 0 <= i < u.len() implies (#[trigger] u[i]).pos.within(bound) by {
        assert(u.contains(u[i]));
        assert(points.contains(u[i]));
    }
}

/// The identifiers with `id` added at the end, unless it is among them.
pub open spec fn push_new(ids: Seq<u32>, id: u32) -> Seq<u32> {
    if ids.contains(id) {
        ids
    } else {
        ids.push(id)
    }
}

/// The identifiers with the elements of `s` added, each unless it is among them.
pub open spec fn add_ids(ids: Seq<u32>, s: IdSet) -> Seq<u32> {
    let a = if s.n >= 1 {
        push_new(ids, s.lo)
    } else {
        ids
    };
    if s.n >= 2 {
        push_new(a, s.hi)
    } else {
        a
    }
}

/// The cells that the edges bound, each once, in the order in which the
/// edges name them.
pub open spec fn neighbor_ids(lines: Seq<VoronoiLine>) -> Seq<u32>
    decreases lines.len(),
{
    if lines.len() == 0 {
        Seq::empty()
    } else {
        add_ids(neighbor_ids(lines.drop_last()), lines.last().cells)
    }
}

/// The crossing-number test on the ring of the given vertices.
pub open spec fn ring_contains(ring: Seq<VoronoiPoint>, point: Vec2d) -> bool {
    Polygon::crossing_count(Polygon::each_lines_spec(ring.map_values(position())), point) % 2 == 1
}

/// The edges of a ring join vertices of the ring.
pub proof fn lemma_each_lines_within(points: Seq<Vec2d>, bound: int)
    requires
        points_within(points, bound),
    ensures
        lines_within(Polygon::each_lines_spec(points), bound),
{
    let lines = Polygon::each_lines_spec(points);
    assert forall|i: int| 0 <= i < lines.len() implies (#[trigger] lines[i]).within(bound) by {
        let n = points.len() as int;
        let j = (i + 1) % n;
        assert(0 <= j < n) by {
            vstd::arithmetic::div_mod::lemma_mod_bound(i + 1, n);
        }
        assert(points[i].within(bound));
        assert(points[j].within(bound));
    }
}

/// Whether `id` is among `ids`.
pub fn contains_id(ids: &Vec<u32>, id: u32) -> (b: bool)
    ensures
        b == ids@.contains(id),
{
    let mut i: usize = 0;
    while i < ids.len()
        invariant
            i <= ids.len(),
            forall|k: int| 0 <= k < i ==> ids[k] != id,
        decreases ids.len() - i,
    {
        if ids[i] == id {
            return true;
        }
        i = i + 1;
    }
    false
}

/// Adds `id` at the end of `ids`, unless it is among them.
pub fn push_if_new(ids: &mut Vec<u32>, id: u32)
    ensures
        final(ids)@ == push_new(old(ids)@, id),
{
    if !contains_id(ids, id) {
        ids.push(id);
    }
}

impl VoronoiPolygon {
    /// The polygon is the one of the vertices' positions.
    pub open spec fn wf(self) -> bool {
        &&& self.polygon.wf()
        &&& self.polygon.points@ == self.points@.map_values(position())
    }

    /// The ring of the given vertices, with the polygon of their positions.
    pub fn new(points: Vec<VoronoiPoint>) -> (r: VoronoiPolygon)
        ensures
            r.points == points,
            r.wf(),
    {
        let mut ps: Vec<Vec2d> = Vec::new();
        let mut i: usize = 0;
        while i < points.len()
            invariant
                i <= points.len(),
                ps@ == points@.take(i as int).map_values(position()),
            decreases points.len() - i,
        {
            proof {
                lemma_map_take_step(points@, position(), i as int);
            }
            ps.push(points[i].pos);
            i = i + 1;
        }
        proof {
            lemma_take_all(points@);
        }
        VoronoiPolygon { points, polygon: Polygon::new(ps) }
    }

    /// The ring of a cell with the given site and edges.
    pub fn from_lines(point: &VoronoiCenterPoint, lines: &Vec<VoronoiLine>) -> (r: VoronoiPolygon)
        requires
            point.pos.within(COORD_MAX / 2),
            edges_within(lines@, COORD_MAX / 2),
        ensures
            r.points@ == from_lines_spec(point.pos, lines@),
            r.wf(),
            r.points.len() <= lines.len(),
            forall|b: int| edges_within(lines@, b) ==> vertices_within(r.points@, b),
    {
        let mut ps: Vec<VoronoiPoint> = Vec::new();
        let mut i: usize = 0;
        while i < lines.len()
            invariant
                i <= lines.len(),
                point.pos.within(COORD_MAX / 2),
                edges_within(lines@, COORD_MAX / 2),
                ps@ == lines@.take(i as int).map_values(first_endpoint_of(point.pos)),
            decreases lines.len() - i,
        {
            let line: VoronoiLine = lines[i];
            let arg1: Vec2d = arg2pi_from_center(&point.pos, &line.p1.pos);
            let arg2: Vec2d = arg2pi_from_center(&point.pos, &line.p2.pos);
            let rev: bool = Vec2d::angle_gap_exceeds_half_turn(arg1, arg2);
            let p1_first: bool = if rev {
                Vec2d::angle_less(arg2, arg1)
            } else {
                Vec2d::angle_less(arg1, arg2)
            };
            proof {
                lemma_map_take_step(lines@, first_endpoint_of(point.pos), i as int);
            }
            if p1_first {
                ps.push(line.p1);
            } else {
                ps.push(line.p2);
            }
            i = i + 1;
        }
        proof {
            lemma_take_all(lines@);
            lemma_first_endpoints_within(point.pos, lines@, COORD_MAX / 2);
        }
        let sorted = sort_points_around_center(&point.pos, &ps);
        proof {
            assert forall|b: int| edges_within(lines@, b) implies vertices_within(sorted@, b) by {
                lemma_first_endpoints_within(point.pos, lines@, b);
            }
        }
        VoronoiPolygon::new(sorted)
    }

    /// The crossing-number test for `point` on the ring.
    pub fn is_include(&self, point: Vec2d) -> (b: bool)
        requires
            self.points.len() >= 3,
            self.wf(),
            vertices_within(self.points@, COORD_MAX as int),
            point.in_range(),
        ensures
            b == ring_contains(self.points@, point),
    {
        proof {
            let ps = self.points@.map_values(position());
            assert forall|i: int| 0 <= i < ps.len() implies (#[trigger] ps[i]).within(
                COORD_MAX as int,
            ) by {
                assert(ps[i] == self.points@[i].pos);
            }
            lemma_each_lines_within(ps, COORD_MAX as int);
        }
        self.polygon.is_include(point)
    }
}

/// The first endpoints of edges lie where the edges lie.
pub proof fn lemma_first_endpoints_within(center: Vec2d, lines: Seq<VoronoiLine>, bound: int)
    requires
        edges_within(lines, bound),
    ensures
        vertices_within(lines.map_values(first_endpoint_of(center)), bound),
{
    let ps = lines.map_values(first_endpoint_of(center));
    assert forall|i: int| 0 <= i < ps.len() implies (#[trigger] ps[i]).pos.within(bound) by {
        assert(lines[i].within(bound));
    }
}

impl View for VoronoiCell {
    type V = CellView;

    open spec fn view(&self) -> CellView {
        CellView { cell_id: self.cell_id, point: self.point, lines: self.lines@ }
    }
}

impl CellView {
    /// The ring of the cell.
    pub open spec fn ring(self) -> Seq<VoronoiPoint> {
        from_lines_spec(self.point.pos, self.lines)
    }

    /// The ring goes once round the site: its vertices are in angular order
    /// around the site, none occurs twice, and each is an endpoint of an edge
    /// of the cell.
    pub proof fn lemma_ring_goes_round(self)
        ensures
            sorted_by_angle(self.point.pos, self.ring()),
            self.ring().no_duplicates(),
            self.ring().len() <= self.lines.len(),
            forall|p: VoronoiPoint|
                self.ring().contains(p) ==> exists|k: int|
                    0 <= k < self.lines.len() && (p == (#[trigger] self.lines[k]).p1 || p
                        == self.lines[k].p2),
    {
        let center = self.point.pos;
        let firsts = self.lines.map_values(first_endpoint_of(center));
        lemma_uniq(firsts);
        lemma_sort_by_angle_sorted(center, uniq_spec(firsts));
        lemma_sort_by_angle(center, uniq_spec(firsts), 0);
        assert forall|p: VoronoiPoint| self.ring().contains(p) implies exists|k: int|
            0 <= k < self.lines.len() && (p == (#[trigger] self.lines[k]).p1 || p
                == self.lines[k].p2) by {
            assert(uniq_spec(firsts).contains(p));
            assert(firsts.contains(p));
            let k = choose|k: int| 0 <= k < firsts.len() && firsts[k] == p;
            assert(p == self.lines[k].p1 || p == self.lines[k].p2);
        }
    }

    /// Every edge bounds one or two cells, with identifiers smaller than `count`.
    pub open spec fn edges_below(self, count: int) -> bool {
        forall|i: int| 0 <= i < self.lines.len() ==> (#[trigger] self.lines[i]).cells.below(count)
    }

    /// Every edge names the cell among the cells that it bounds.
    pub open spec fn edges_name_cell(self) -> bool {
        forall|i: int| 0 <= i < self.lines.len() ==> (#[trigger] self.lines[i]).cells.has(self.cell_id)
    }
}

impl VoronoiCell {
    /// The ring is the one that the site and the edges give.
    pub open spec fn consistent(self) -> bool {
        &&& self.bound.wf()
        &&& self.bound.points@ == self@.ring()
    }

    /// The site, the edges and the ring have their coordinates in `[-bound, bound]`.
    pub open spec fn within(self, bound: int) -> bool {
        &&& self.point.pos.within(bound)
        &&& edges_within(self.lines@, bound)
        &&& vertices_within(self.bound.points@, bound)
    }

    /// The cell is a cell of a diagram: consistent, inside the coordinate
    /// range of diagrams, with a ring of at least three vertices, and named
    /// by each of its edges.
    pub open spec fn wf(self) -> bool {
        &&& self.consistent()
        &&& self.within(REGION_MAX as int)
        &&& self.bound.points.len() >= 3
        &&& self@.edges_name_cell()
    }

    /// The cell with the given site and edges; its ring is computed from them.
    pub fn new(cell_id: CellId, point: VoronoiCenterPoint, lines: Vec<VoronoiLine>) -> (c: VoronoiCell)
        requires
            point.pos.within(COORD_MAX / 2),
            edges_within(lines@, COORD_MAX / 2),
        ensures
            c@ == (CellView { cell_id, point, lines: lines@ }),
            c.consistent(),
            forall|b: int| point.pos.within(b) && edges_within(lines@, b) ==> c.within(b),
    {
        VoronoiCell { cell_id, bound: VoronoiPolygon::from_lines(&point, &lines), point, lines }
    }

    /// The crossing-number test for the position of `point` on the cell's ring.
    pub fn is_include(&self, point: &VoronoiCenterPoint) -> (b: bool)
        requires
            self.bound.points.len() >= 3,
            self.bound.wf(),
            vertices_within(self.bound.points@, COORD_MAX as int),
            point.pos.in_range(),
        ensures
            b == ring_contains(self.bound.points@, point.pos),
    {
        self.bound.is_include(point.pos)
    }

    /// The cells that the edges of this cell bound, this cell among them.
    pub fn get_neighbor_cells(&self) -> (cells: Vec<CellId>)
        ensures
            cells@ == neighbor_ids(self.lines@),
    {
        let mut cells: Vec<CellId> = Vec::new();
        let mut i: usize = 0;
        while i < self.lines.len()
            invariant
                i <= self.lines.len(),
                cells@ == neighbor_ids(self.lines@.take(i as int)),
            decreases self.lines.len() - i,
        {
            let set: IdSet = self.lines[i].cells;
            proof {
                lemma_take_step(self.lines@, i as int);
            }
            if set.n >= 1 {
                push_if_new(&mut cells, set.lo);
            }
            if set.n >= 2 {
                push_if_new(&mut cells, set.hi);
            }
            i = i + 1;
        }
        proof {
            lemma_take_all(self.lines@);
        }
        cells
    }
}

impl View for DivideInfo {
    type V = DivideView;

    open spec fn view(&self) -> DivideView {
        DivideView {
            cut_lines: self.cut_lines@,
            remain_points: self.remain_points@,
            separated_points: self.separated_points@,
            middle_line: self.middle_line,
            new_neighbors: self.new_neighbors@,
        }
    }
}

impl DivideView {
    /// All coordinates lie in `[-bound, bound]`.
    pub open spec fn within(self, bound: int) -> bool {
        &&& edges_within(self.cut_lines, bound)
        &&& vertices_within(self.remain_points, bound)
        &&& vertices_within(self.separated_points, bound)
        &&& self.middle_line.within(bound)
    }
}

/// A point with side `s` counts as lying on the side `my_side` of a line:
/// a point on the line counts for either side.
pub open spec fn same_side(s: int, my_side: int) -> bool {
    s == my_side || s == 0
}

/// The edge crosses the bisector `b` in one point.
pub open spec fn is_hit(b: Line) -> spec_fn(VoronoiLine) -> bool {
    |e: VoronoiLine| Line::intersection_spec(e.line, b) is Some
}

/// The vertex where the edge `e` crosses `b`. It lies on the sides of the
/// bounding region that both endpoints of `e` lie on.
pub open spec fn break_point(e: VoronoiLine, b: Line) -> VoronoiPoint {
    VoronoiPoint {
        pos: Line::intersection_spec(e.line, b).unwrap(),
        is_corner: false,
        outbounds: e.p1.outbounds.intersection_spec(e.p2.outbounds),
    }
}

/// `break_point` on `b`, as a function on edges.
pub open spec fn break_point_of(b: Line) -> spec_fn(VoronoiLine) -> VoronoiPoint {
    |e: VoronoiLine| break_point(e, b)
}

/// The part of the crossed edge `e` on the side `my_side` of `b`: from the
/// endpoint on that side to the break point, bounding the cells that `e` bounds.
pub open spec fn cut_line(e: VoronoiLine, b: Line, my_side: int) -> VoronoiLine {
    let w = if same_side(b.side(e.p1.pos), my_side) {
        e.p1
    } else {
        e.p2
    };
    let v = break_point(e, b);
    VoronoiLine { p1: w, p2: v, line: Line { p1: w.pos, p2: v.pos }, cells: e.cells }
}

/// `cut_line` on `b` for the side `my_side`, as a function on edges.
pub open spec fn cut_line_of(b: Line, my_side: int) -> spec_fn(VoronoiLine) -> VoronoiLine {
    |e: VoronoiLine| cut_line(e, b, my_side)
}

/// The cells across the edges that `b` crosses, seen from `cell_id`: each
/// once, in the order of the edges.
pub open spec fn hit_neighbors(lines: Seq<VoronoiLine>, b: Line, cell_id: CellId) -> Seq<CellId>
    decreases lines.len(),
{
    if lines.len() == 0 {
        Seq::empty()
    } else {
        let rest = hit_neighbors(lines.drop_last(), b, cell_id);
        let e = lines.last();
        if is_hit(b)(e) && e.cells.other_than(cell_id) is Some {
            push_new(rest, e.cells.other_than(cell_id).unwrap())
        } else {
            rest
        }
    }
}

/// Some edge crosses `b` and is parallel to it.
pub open spec fn has_parallel_hit(lines: Seq<VoronoiLine>, b: Line) -> bool {
    exists|i: int| 0 <= i < lines.len() && Line::overlaps_parallel((#[trigger] lines[i]).line, b)
}

/// The vertex stays with the carved cell.
pub open spec fn stays(b: Line, my_side: int) -> spec_fn(VoronoiPoint) -> bool {
    |p: VoronoiPoint| same_side(b.side(p.pos), my_side)
}

/// The vertex goes to the new cell: it lies on the other side, and is
/// interior or a corner of the bounding region.
pub open spec fn leaves(b: Line, my_side: int) -> spec_fn(VoronoiPoint) -> bool {
    |p: VoronoiPoint| !same_side(b.side(p.pos), my_side) && (!p.on_outbound_spec() || p.is_corner)
}

/// The edge between two break points, bounding the carved cell and the new one.
pub open spec fn middle_line_spec(
    p1: VoronoiPoint,
    p2: VoronoiPoint,
    cell_id: CellId,
    next_cell_id: CellId,
) -> VoronoiLine {
    VoronoiLine {
        p1,
        p2,
        line: Line { p1: p1.pos, p2: p2.pos },
        cells: IdSet::empty_spec().insert_spec(cell_id).insert_spec(next_cell_id),
    }
}

/// Carving the cell with the given site, edges and ring along `b`, for a new
/// cell `next_cell_id`. `None` when an edge crosses `b` and is parallel to
/// it, when `b` does not cross the ring in exactly two places (two edges,
/// in two different points), or when fewer than three vertices remain.
pub open spec fn carve_spec(
    cell_id: CellId,
    site: Vec2d,
    lines: Seq<VoronoiLine>,
    ring: Seq<VoronoiPoint>,
    b: Line,
    next_cell_id: CellId,
) -> Option<DivideView> {
    let my_side = b.side(site);
    let hits = lines.filter(is_hit(b));
    let break_points = hits.map_values(break_point_of(b));
    let remain_points = break_points + ring.filter(stays(b, my_side));
    if has_parallel_hit(lines, b) || hits.len() != 2 || break_points[0].pos == break_points[1].pos
        || remain_points.len() < 3 {
        None
    } else {
        Some(
            DivideView {
                cut_lines: hits.map_values(cut_line_of(b, my_side)),
                remain_points,
                separated_points: break_points + ring.filter(leaves(b, my_side)),
                middle_line: middle_line_spec(
                    break_points[0],
                    break_points[1],
                    cell_id,
                    next_cell_id,
                ),
                new_neighbors: hit_neighbors(lines, b, cell_id),
            },
        )
    }
}

/// The edge lies wholly on the side `my_side` of `split`.
pub open spec fn survives(split: Line, my_side: int) -> spec_fn(VoronoiLine) -> bool {
    |l: VoronoiLine|
        same_side(split.side(l.p1.pos), my_side) && same_side(split.side(l.p2.pos), my_side)
}

/// The edges of a carved cell: the old edges wholly on the site's side of
/// the middle line, the cut edges, and the middle line.
pub open spec fn updated_lines(site: Vec2d, lines: Seq<VoronoiLine>, info: DivideView) -> Seq<
    VoronoiLine,
> {
    let split = info.middle_line.line;
    (lines.filter(survives(split, split.side(site))) + info.cut_lines).push(info.middle_line)
}

/// The carved cell names its own identifier on every edge, if it did before.
pub proof fn lemma_updated_lines(
    cell_id: CellId,
    site: Vec2d,
    lines: Seq<VoronoiLine>,
    info: DivideView,
    bound: int,
)
    requires
        edges_within(lines, bound),
        edges_within(info.cut_lines, bound),
        info.middle_line.within(bound),
    ensures
        edges_within(updated_lines(site, lines, info), bound),
        forall|l: VoronoiLine| #[trigger]
            updated_lines(site, lines, info).contains(l) ==> lines.contains(l)
                || info.cut_lines.contains(l) || l == info.middle_line,
{
    let split = info.middle_line.line;
    let kept = lines.filter(survives(split, split.side(site)));
    let all = updated_lines(site, lines, info);
    assert forall|i: int| 0 <= i < kept.len() implies lines.contains(#[trigger] kept[i]) by {
        lemma_filter_subset(lines, survives(split, split.side(site)), i);
    }
    assert forall|i: int| 0 <= i < all.len() implies (#[trigger] all[i]).within(bound) && (
    lines.contains(all[i]) || info.cut_lines.contains(all[i]) || all[i] == info.middle_line) by {
        if i < kept.len() {
            assert(all[i] == kept[i]);
            assert(lines.contains(kept[i]));
            let j = choose|j: int| 0 <= j < lines.len() && lines[j] == kept[i];
            assert(lines[j].within(bound));
        } else if i < kept.len() + info.cut_lines.len() {
            assert(all[i] == info.cut_lines[i - kept.len()]);
            assert(info.cut_lines.contains(all[i]));
        }
    }
    assert forall|l: VoronoiLine| #[trigger] all.contains(l) implies lines.contains(l)
        || info.cut_lines.contains(l) || l == info.middle_line by {
        let i = choose|i: int| 0 <= i < all.len() && all[i] == l;
        assert(all[i].within(bound));
    }
}

/// Every element of a filtered sequence is an element of the sequence.
pub proof fn lemma_filter_subset<T>(s: Seq<T>, pred: spec_fn(T) -> bool, i: int)
    requires
        0 <= i < s.filter(pred).len(),
    ensures
        s.contains(s.filter(pred)[i]),
        pred(s.filter(pred)[i]),
    decreases s.len(),
{
    reveal(Seq::filter);
    if s.len() > 0 {
        let front = s.drop_last();
        let sub = front.filter(pred);
        if i < sub.len() {
            lemma_filter_subset(front, pred, i);
            let k = choose|k: int| 0 <= k < front.len() && front[k] == sub[i];
            assert(s[k] == sub[i]);
        } else {
            assert(s[s.len() - 1] == s.filter(pred)[i]);
        }
    }
}

impl VoronoiCell {
    /// Carves the cell along the bisector `line` between its site and the
    /// site of the new cell `next_cell_id`.
    pub fn intersect_with_bounds(&self, line: &Line, next_cell_id: CellId) -> (r: Option<DivideInfo>)
        requires
            self.within(REGION_MAX as int),
            line.in_range(),
        ensures
            r is Some == carve_spec(
                self.cell_id,
                self.point.pos,
                self.lines@,
                self.bound.points@,
                *line,
                next_cell_id,
            ) is Some,
            r is Some ==> Some(r->0@) == carve_spec(
                self.cell_id,
                self.point.pos,
                self.lines@,
                self.bound.points@,
                *line,
                next_cell_id,
            ),
            r is Some ==> r->0@.within(REGION_MAX as int),
            r is Some ==> r->0.middle_line.cells.has(self.cell_id) && r->0.middle_line.cells.has(
                next_cell_id,
            ),
            r is Some && self@.edges_name_cell() ==> forall|k: int|
                0 <= k < r->0.cut_lines.len() ==> (#[trigger] r->0.cut_lines[k]).cells.has(
                    self.cell_id,
                ),
            r is Some && self@.edges_below(next_cell_id + 1) && self.cell_id <= next_cell_id
                ==> r->0.middle_line.cells.below(next_cell_id + 1) && forall|k: int|
                0 <= k < r->0.cut_lines.len() ==> (#[trigger] r->0.cut_lines[k]).cells.below(
                    next_cell_id + 1,
                ),
    {
        let mut cut_lines: Vec<VoronoiLine> = Vec::new();
        let mut remain_points: Vec<VoronoiPoint> = Vec::new();
        let mut separated_points: Vec<VoronoiPoint> = Vec::new();
        let mut break_points: Vec<VoronoiPoint> = Vec::new();
        let mut new_neighbors: Vec<CellId> = Vec::new();
        let my_side: i8 = line.point_side(self.point.pos);
        let ghost b = *line;
        let ghost lines = self.lines@;
        let ghost ring = self.bound.points@;

        let mut i: usize = 0;
        while i < self.lines.len()
            invariant
                i <= self.lines.len(),
                b == *line,
                lines == self.lines@,
                line.in_range(),
                edges_within(lines, REGION_MAX as int),
                my_side == b.side(self.point.pos),
                forall|j: int| 0 <= j < i ==> !Line::overlaps_parallel((#[trigger] lines[j]).line, b),
                cut_lines@ == lines.take(i as int).filter(is_hit(b)).map_values(
                    cut_line_of(b, my_side as int),
                ),
                break_points@ == lines.take(i as int).filter(is_hit(b)).map_values(
                    break_point_of(b),
                ),
                remain_points@ == break_points@,
                separated_points@ == break_points@,
                new_neighbors@ == hit_neighbors(lines.take(i as int), b, self.cell_id),
                edges_within(cut_lines@, REGION_MAX as int),
                vertices_within(break_points@, REGION_MAX as int),
                self@.edges_name_cell() ==> forall|k: int|
                    0 <= k < cut_lines.len() ==> (#[trigger] cut_lines[k]).cells.has(self.cell_id),
                self@.edges_below(next_cell_id + 1) ==> forall|k: int|
                    0 <= k < cut_lines.len() ==> (#[trigger] cut_lines[k]).cells.below(
                        next_cell_id + 1,
                    ),
            decreases self.lines.len() - i,
        {
            let bound_line: VoronoiLine = self.lines[i];
            assert(bound_line.within(REGION_MAX as int));
            let crossing: Option<Vec2d> = Line::intersection(&bound_line.line, line);
            proof {
                lemma_take_step(lines, i as int);
                lemma_filter_take_step(lines, is_hit(b), i as int);
                let hits = lines.take(i as int).filter(is_hit(b));
                assert(hits.push(bound_line).map_values(cut_line_of(b, my_side as int))
                    =~= hits.map_values(cut_line_of(b, my_side as int)).push(
                    cut_line(bound_line, b, my_side as int),
                ));
                assert(hits.push(bound_line).map_values(break_point_of(b)) =~= hits.map_values(
                    break_point_of(b),
                ).push(break_point(bound_line, b)));
            }
            match crossing {
                Some(pt) => {
                    let mut vpt: VoronoiPoint = VoronoiPoint::new(pt);
                    vpt.outbounds = bound_line.p1.outbounds.intersection(&bound_line.p2.outbounds);
                    let s1: i8 = line.point_side(bound_line.p1.pos);
                    let mut cut: VoronoiLine = if s1 == my_side || s1 == 0 {
                        VoronoiLine::new(bound_line.p1, vpt)
                    } else {
                        VoronoiLine::new(bound_line.p2, vpt)
                    };
                    cut.cells = bound_line.cells;
                    assert(vpt == break_point(bound_line, b));
                    assert(cut == cut_line(bound_line, b, my_side as int));
                    assert(self@.edges_name_cell() ==> self@.lines[i as int].cells.has(self.cell_id));
                    assert(self@.edges_below(next_cell_id + 1) ==> self@.lines[i as int].cells.below(
                        next_cell_id + 1,
                    ));
                    assert(vpt.pos.within(REGION_MAX as int));
                    cut_lines.push(cut);
                    break_points.push(vpt);
                    remain_points.push(vpt);
                    separated_points.push(vpt);
                    match bound_line.another_cell(self.cell_id) {
                        Some(another_cell_id) => {
                            push_if_new(&mut new_neighbors, another_cell_id);
                        },
                        None => {},
                    }
                },
                None => {
                    if Line::is_intersect(&bound_line.line, line) {
                        assert(Line::overlaps_parallel(lines[i as int].line, b));
                        return None;
                    }
                },
            }
            i = i + 1;
        }
        proof {
            lemma_take_all(lines);
            assert(!has_parallel_hit(lines, b));
        }
        if break_points.len() != 2 {
            return None;
        }
        if break_points[0].pos == break_points[1].pos {
            return None;
        }
        let mut middle_line: VoronoiLine = VoronoiLine::new(break_points[0], break_points[1]);
        middle_line.cells.insert(self.cell_id);
        middle_line.cells.insert(next_cell_id);
        proof {
            IdSet::empty_spec().lemma_insert(self.cell_id);
            IdSet::empty_spec().insert_spec(self.cell_id).lemma_insert(next_cell_id);
        }

        let mut k: usize = 0;
        while k < self.bound.points.len()
            invariant
                k <= self.bound.points.len(),
                b == *line,
                ring == self.bound.points@,
                line.in_range(),
                vertices_within(ring, REGION_MAX as int),
                vertices_within(break_points@, REGION_MAX as int),
                my_side == b.side(self.point.pos),
                remain_points@ == break_points@ + ring.take(k as int).filter(
                    stays(b, my_side as int),
                ),
                separated_points@ == break_points@ + ring.take(k as int).filter(
                    leaves(b, my_side as int),
                ),
                vertices_within(remain_points@, REGION_MAX as int),
                vertices_within(separated_points@, REGION_MAX as int),
            decreases self.bound.points.len() - k,
        {
            let point: VoronoiPoint = self.bound.points[k];
            assert(ring[k as int].pos.within(REGION_MAX as int));
            let s: i8 = line.point_side(point.pos);
            proof {
                lemma_filter_take_step(ring, stays(b, my_side as int), k as int);
                lemma_filter_take_step(ring, leaves(b, my_side as int), k as int);
                let kept = ring.take(k as int).filter(stays(b, my_side as int));
                let left = ring.take(k as int).filter(leaves(b, my_side as int));
                assert((break_points@ + kept).push(point) =~= break_points@ + kept.push(point));
                assert((break_points@ + left).push(point) =~= break_points@ + left.push(point));
            }
            if s == my_side || s == 0 {
                remain_points.push(point);
            } else {
                if !point.on_outbound() || point.is_corner {
                    separated_points.push(point);
                }
            }
            k = k + 1;
        }
        proof {
            lemma_take_all(ring);
        }
        if remain_points.len() < 3 {
            return None;
        }
        Some(DivideInfo { cut_lines, remain_points, separated_points, middle_line, new_neighbors })
    }

    /// The edges of the cell after the carving that `divide_info` describes.
    pub fn carved_lines(&self, divide_info: &DivideInfo) -> (v_lines: Vec<VoronoiLine>)
        requires
            self.within(REGION_MAX as int),
            divide_info@.within(REGION_MAX as int),
        ensures
            v_lines@ == updated_lines(self.point.pos, self.lines@, divide_info@),
            edges_within(v_lines@, REGION_MAX as int),
    {
        let split_line: Line = divide_info.middle_line.line;
        let my_side: i8 = split_line.point_side(self.point.pos);
        let ghost lines = self.lines@;
        let ghost keep = survives(split_line, my_side as int);
        let mut v_lines: Vec<VoronoiLine> = Vec::new();
        let mut i: usize = 0;
        while i < self.lines.len()
            invariant
                i <= self.lines.len(),
                lines == self.lines@,
                edges_within(lines, REGION_MAX as int),
                split_line.within(REGION_MAX as int),
                self.point.pos.within(REGION_MAX as int),
                my_side == split_line.side(self.point.pos),
                keep == survives(split_line, my_side as int),
                v_lines@ == lines.take(i as int).filter(keep),
            decreases self.lines.len() - i,
        {
            let my_line: VoronoiLine = self.lines[i];
            assert(my_line.within(REGION_MAX as int));
            let s1: i8 = split_line.point_side(my_line.p1.pos);
            let s2: i8 = split_line.point_side(my_line.p2.pos);
            proof {
                lemma_filter_take_step(lines, keep, i as int);
            }
            if (s1 == my_side || s1 == 0) && (s2 == my_side || s2 == 0) {
                v_lines.push(my_line);
            }
            i = i + 1;
        }
        proof {
            lemma_take_all(lines);
        }
        let ghost kept = v_lines@;
        let mut j: usize = 0;
        while j < divide_info.cut_lines.len()
            invariant
                j <= divide_info.cut_lines.len(),
                v_lines@ == kept + divide_info.cut_lines@.take(j as int),
            decreases divide_info.cut_lines.len() - j,
        {
            proof {
                lemma_take_step(divide_info.cut_lines@, j as int);
                assert((kept + divide_info.cut_lines@.take(j as int)).push(
                    divide_info.cut_lines@[j as int],
                ) =~= kept + divide_info.cut_lines@.take(j as int).push(
                    divide_info.cut_lines@[j as int],
                ));
            }
            v_lines.push(divide_info.cut_lines[j]);
            j = j + 1;
        }
        proof {
            lemma_take_all(divide_info.cut_lines@);
        }
        v_lines.push(divide_info.middle_line);
        proof {
            lemma_updated_lines(
                self.cell_id,
                self.point.pos,
                lines,
                divide_info@,
                REGION_MAX as int,
            );
        }
        v_lines
    }

    /// The cell after the carving that `divide_info` describes; `self` stays as it is.
    pub fn carved(&self, divide_info: &DivideInfo) -> (c: VoronoiCell)
        requires
            self.within(REGION_MAX as int),
            divide_info@.within(REGION_MAX as int),
        ensures
            c@ == (CellView {
                cell_id: self.cell_id,
                point: self.point,
                lines: updated_lines(self.point.pos, self.lines@, divide_info@),
            }),
            c.consistent(),
            c.within(REGION_MAX as int),
    {
        VoronoiCell::new(self.cell_id, self.point, self.carved_lines(divide_info))
    }

    /// Replaces the edges by those of the carved cell, and the ring by the
    /// ring that they give.
    pub fn update(&mut self, divide_info: &DivideInfo)
        requires
            old(self).within(REGION_MAX as int),
            divide_info@.within(REGION_MAX as int),
        ensures
            final(self)@ == (CellView {
                cell_id: old(self).cell_id,
                point: old(self).point,
                lines: updated_lines(old(self).point.pos, old(self).lines@, divide_info@),
            }),
            final(self).consistent(),
            final(self).within(REGION_MAX as int),
    {
        let v_lines = self.carved_lines(divide_info);
        self.bound = VoronoiPolygon::from_lines(&self.point, &v_lines);
        self.lines = v_lines;
    }
}

} // verus!
