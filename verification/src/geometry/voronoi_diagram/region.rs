//! The bounding region of a diagram: a convex polygon whose corners name
//! the sides that meet at them.

use crate::fixed::{COORD_MAX, ONE};
use crate::geometry::line::Line;
use crate::geometry::polygon::{lines_within, points_within, Polygon};
use crate::geometry::vec2d::Vec2d;
use crate::geometry::voronoi_diagram::id_set::IdSet;
use crate::geometry::voronoi_diagram::types::{
    lemma_each_lines_within, position, vertices_within, VoronoiLine, VoronoiPoint, VoronoiPolygon,
    REGION_MAX,
};
use vstd::prelude::*;

verus! {

/// Where a point lies with respect to the bounding region.
#[derive(Debug, Clone, Copy, PartialEq, Eq, Structural)]
pub enum RegionSide {
    Inside,
    Boundary,
    Outside,
}

/// The sides of the region with the given corners, as segments.
pub open spec fn region_edges(ring: Seq<VoronoiPoint>) -> Seq<Line> {
    Polygon::each_lines_spec(ring.map_values(position()))
}

/// Some edge has `p` on the side `s` of its line.
pub open spec fn some_side(edges: Seq<Line>, p: Vec2d, s: int) -> bool {
    exists|i: int| 0 <= i < edges.len() && (#[trigger] edges[i]).side(p) == s
}

/// `p` lies strictly inside the convex polygon with the given edges: on no
/// edge's line, and on the same side of all of them.
pub open spec fn strictly_inside(edges: Seq<Line>, p: Vec2d) -> bool {
    &&& edges.len() > 0
    &&& !some_side(edges, p, 0)
    &&& !(some_side(edges, p, 1) && some_side(edges, p, -1))
}

/// `p` lies strictly outside the convex polygon with the given edges: two
/// edges see it on opposite sides.
pub open spec fn strictly_outside(edges: Seq<Line>, p: Vec2d) -> bool {
    some_side(edges, p, 1) && some_side(edges, p, -1)
}

/// Where `p` lies with respect to the convex polygon with the given edges.
pub open spec fn region_side(edges: Seq<Line>, p: Vec2d) -> RegionSide {
    if strictly_outside(edges, p) {
        RegionSide::Outside
    } else if strictly_inside(edges, p) {
        RegionSide::Inside
    } else {
        RegionSide::Boundary
    }
}

/// The polygon is convex: every corner lies on the same side of every edge,
/// or on its line.
pub open spec fn convex(ring: Seq<VoronoiPoint>) -> bool {
    let edges = region_edges(ring);
    ||| forall|i: int, j: int|
        0 <= i < edges.len() && 0 <= j < ring.len() ==> (#[trigger] edges[i]).side(
            (#[trigger] ring[j]).pos,
        ) >= 0
    ||| forall|i: int, j: int|
        0 <= i < edges.len() && 0 <= j < ring.len() ==> (#[trigger] edges[i]).side(
            (#[trigger] ring[j]).pos,
        ) <= 0
}

/// The sides of the region as edges of a cell that bound no cell yet: from
/// each corner to the next, and from the last back to the first.
pub open spec fn boundary_lines(ring: Seq<VoronoiPoint>) -> Seq<VoronoiLine> {
    Seq::new(
        ring.len(),
        |i: int| VoronoiLine::new_spec(ring[i], ring[(i + 1) % (ring.len() as int)]),
    )
}

/// The ring is a bounding region: at least three corners inside the
/// coordinate range of diagrams, convex, each marked as a corner, and each
/// sharing a side with the next.
pub open spec fn valid_region(ring: Seq<VoronoiPoint>) -> bool {
    &&& ring.len() >= 3
    &&& vertices_within(ring, REGION_MAX as int)
    &&& convex(ring)
    &&& forall|i: int| 0 <= i < ring.len() ==> (#[trigger] ring[i]).is_corner
    &&& forall|i: int|
        0 <= i < ring.len() ==> (#[trigger] boundary_lines(ring)[i]).is_outbound_spec()
}

/// The corners of the unit square, counter-clockwise from the origin. Side 0
/// is the bottom, 1 the right, 2 the top and 3 the left.
pub open spec fn unit_square_ring() -> Seq<VoronoiPoint> {
    seq![
        VoronoiPoint {
            pos: Vec2d { x: 0, y: 0 },
            is_corner: true,
            outbounds: IdSet { n: 2, lo: 0, hi: 3 },
        },
        VoronoiPoint {
            pos: Vec2d { x: ONE, y: 0 },
            is_corner: true,
            outbounds: IdSet { n: 2, lo: 0, hi: 1 },
        },
        VoronoiPoint {
            pos: Vec2d { x: ONE, y: ONE },
            is_corner: true,
            outbounds: IdSet { n: 2, lo: 1, hi: 2 },
        },
        VoronoiPoint {
            pos: Vec2d { x: 0, y: ONE },
            is_corner: true,
            outbounds: IdSet { n: 2, lo: 2, hi: 3 },
        },
    ]
}

/// A point on a side of the region, between its two corners, is not
/// strictly inside the region.
pub proof fn lemma_on_side_not_inside(ring: Seq<VoronoiPoint>, i: int, p: Vec2d)
    requires
        ring.len() >= 3,
        0 <= i < ring.len(),
        region_edges(ring)[i].cross_side(p) == 0,
    ensures
        !strictly_inside(region_edges(ring), p),
        region_side(region_edges(ring), p) != RegionSide::Inside,
{
    assert(region_edges(ring)[i].side(p) == 0);
}

/// The unit square is a bounding region.
pub proof fn lemma_unit_square_valid()
    ensures
        valid_region(unit_square_ring()),
{
    let ring = unit_square_ring();
    let edges = region_edges(ring);
    let ps = ring.map_values(position());
    assert(ps.len() == 4);
    assert(edges.len() == 4);
    assert(edges[0] == Line { p1: ps[0], p2: ps[1] });
    assert(edges[1] == Line { p1: ps[1], p2: ps[2] });
    assert(edges[2] == Line { p1: ps[2], p2: ps[3] });
    assert(edges[3] == Line { p1: ps[3], p2: ps[0] });
    assert forall|i: int, j: int| 0 <= i < edges.len() && 0 <= j < ring.len() implies (
    #[trigger] edges[i]).side((#[trigger] ring[j]).pos) <= 0 by {
        lemma_unit_square_sides(i, j);
    }
    assert forall|i: int| 0 <= i < ring.len() implies (#[trigger] boundary_lines(
        ring,
    )[i]).is_outbound_spec() by {
        if i == 0 {
        } else if i == 1 {
        } else if i == 2 {
        } else {
        }
    }
}

proof fn lemma_unit_square_sides(i: int, j: int)
    requires
        0 <= i < 4,
        0 <= j < 4,
    ensures
        region_edges(unit_square_ring())[i].side(unit_square_ring()[j].pos) <= 0,
{
    let ring = unit_square_ring();
    let edges = region_edges(ring);
    let ps = ring.map_values(position());
    assert(edges[0] == Line { p1: ps[0], p2: ps[1] });
    assert(edges[1] == Line { p1: ps[1], p2: ps[2] });
    assert(edges[2] == Line { p1: ps[2], p2: ps[3] });
    assert(edges[3] == Line { p1: ps[3], p2: ps[0] });
    let e = edges[i];
    let q = ring[j].pos;
    assert(e.cross_side(q) <= 0) by (nonlinear_arith)
        requires
            (e.p1.x == 0 || e.p1.x == ONE) && (e.p1.y == 0 || e.p1.y == ONE),
            (e.p2.x == 0 || e.p2.x == ONE) && (e.p2.y == 0 || e.p2.y == ONE),
            (q.x == 0 || q.x == ONE) && (q.y == 0 || q.y == ONE),
            (e.p1.y == 0 && e.p2.y == 0 && e.p1.x == 0 && e.p2.x == ONE) || (e.p1.x == ONE
                && e.p2.x == ONE && e.p1.y == 0 && e.p2.y == ONE) || (e.p1.y == ONE && e.p2.y
                == ONE && e.p1.x == ONE && e.p2.x == 0) || (e.p1.x == 0 && e.p2.x == 0 && e.p1.y
                == ONE && e.p2.y == 0),
    ;
}

/// The unit square as a bounding region.
pub fn unit_square() -> (r: VoronoiPolygon)
    ensures
        r.points@ == unit_square_ring(),
        r.wf(),
        valid_region(r.points@),
{
    let mut points: Vec<VoronoiPoint> = Vec::new();
    points.push(VoronoiPoint::corner(Vec2d { x: 0, y: 0 }, vec![0u32, 3u32]));
    points.push(VoronoiPoint::corner(Vec2d { x: ONE, y: 0 }, vec![0u32, 1u32]));
    points.push(VoronoiPoint::corner(Vec2d { x: ONE, y: ONE }, vec![1u32, 2u32]));
    points.push(VoronoiPoint::corner(Vec2d { x: 0, y: ONE }, vec![2u32, 3u32]));
    proof {
        lemma_unit_square_valid();
        assert(points@ =~= unit_square_ring());
    }
    VoronoiPolygon::new(points)
}

/// Where `p` lies with respect to the region.
pub fn classify(region: &VoronoiPolygon, p: Vec2d) -> (side: RegionSide)
    requires
        region.wf(),
        vertices_within(region.points@, REGION_MAX as int),
        p.in_range(),
    ensures
        side == region_side(region_edges(region.points@), p),
{
    let ghost edges = region.polygon.lines@;
    proof {
        let ps = region.points@.map_values(position());
        assert forall|i: int| 0 <= i < ps.len() implies (#[trigger] ps[i]).within(
            COORD_MAX as int,
        ) by {
            assert(ps[i] == region.points@[i].pos);
        }
        lemma_each_lines_within(ps, COORD_MAX as int);
    }
    let mut has_positive: bool = false;
    let mut has_negative: bool = false;
    let mut has_zero: bool = false;
    let mut i: usize = 0;
    while i < region.polygon.lines.len()
        invariant
            i <= region.polygon.lines.len(),
            edges == region.polygon.lines@,
            lines_within(edges, COORD_MAX as int),
            p.in_range(),
            has_positive == some_side(edges.take(i as int), p, 1),
            has_negative == some_side(edges.take(i as int), p, -1),
            has_zero == some_side(edges.take(i as int), p, 0),
        decreases region.polygon.lines.len() - i,
    {
        assert(edges[i as int].within(COORD_MAX as int));
        let s: i8 = region.polygon.lines[i].point_side(p);
        proof {
            lemma_some_side_step(edges, p, 1, i as int);
            lemma_some_side_step(edges, p, -1, i as int);
            lemma_some_side_step(edges, p, 0, i as int);
        }
        if s > 0 {
            has_positive = true;
        } else if s < 0 {
            has_negative = true;
        } else {
            has_zero = true;
        }
        i = i + 1;
    }
    proof {
        crate::seq_lemmas::lemma_take_all(edges);
    }
    if has_positive && has_negative {
        RegionSide::Outside
    } else if !has_zero && region.polygon.lines.len() > 0 {
        RegionSide::Inside
    } else {
        RegionSide::Boundary
    }
}

/// `some_side` on a prefix one longer looks at one more edge.
pub proof fn lemma_some_side_step(edges: Seq<Line>, p: Vec2d, s: int, i: int)
    requires
        0 <= i < edges.len(),
    ensures
        some_side(edges.take(i + 1), p, s) == (some_side(edges.take(i), p, s) || edges[i].side(p)
            == s),
{
    let a = edges.take(i);
    let b = edges.take(i + 1);
    if some_side(a, p, s) {
        let k = choose|k: int| 0 <= k < a.len() && (#[trigger] a[k]).side(p) == s;
        assert(b[k].side(p) == s);
    }
    if edges[i].side(p) == s {
        assert(b[i].side(p) == s);
    }
    if some_side(b, p, s) {
        let k = choose|k: int| 0 <= k < b.len() && (#[trigger] b[k]).side(p) == s;
        if k < i {
            assert(a[k].side(p) == s);
        }
    }
}

/// The corner at `pos` where the sides `side` and `before` meet.
pub open spec fn corner_spec(pos: Vec2d, before: u32, side: u32) -> VoronoiPoint {
    VoronoiPoint {
        pos,
        is_corner: true,
        outbounds: IdSet::empty_spec().insert_spec(before).insert_spec(side),
    }
}

/// The region with the given corners: side `i` runs from corner `i` to the
/// next corner, so that corner `i` lies on the sides `i - 1` and `i`.
pub open spec fn region_ring(corners: Seq<Vec2d>) -> Seq<VoronoiPoint> {
    Seq::new(
        corners.len(),
        |i: int|
            corner_spec(
                corners[i],
                ((i + corners.len() - 1) % (corners.len() as int)) as u32,
                i as u32,
            ),
    )
}

/// Some corner lies on the side `s` of some edge.
pub open spec fn some_corner_side(edges: Seq<Line>, ring: Seq<VoronoiPoint>, s: int) -> bool {
    exists|i: int, j: int|
        0 <= i < edges.len() && 0 <= j < ring.len() && (#[trigger] edges[i]).side(
            (#[trigger] ring[j]).pos,
        ) == s
}

/// A polygon is convex when no two of its corners lie on opposite sides of
/// an edge.
pub proof fn lemma_convex_by_sides(ring: Seq<VoronoiPoint>)
    ensures
        convex(ring) == !(some_corner_side(region_edges(ring), ring, 1) && some_corner_side(
            region_edges(ring),
            ring,
            -1,
        )),
{
    let edges = region_edges(ring);
    if !some_corner_side(edges, ring, 1) {
        assert forall|i: int, j: int| 0 <= i < edges.len() && 0 <= j < ring.len() implies (
        #[trigger] edges[i]).side((#[trigger] ring[j]).pos) <= 0 by {
            if edges[i].side(ring[j].pos) > 0 {
                assert(edges[i].side(ring[j].pos) == 1);
            }
        }
    }
    if !some_corner_side(edges, ring, -1) {
        assert forall|i: int, j: int| 0 <= i < edges.len() && 0 <= j < ring.len() implies (
        #[trigger] edges[i]).side((#[trigger] ring[j]).pos) >= 0 by {
            if edges[i].side(ring[j].pos) < 0 {
                assert(edges[i].side(ring[j].pos) == -1);
            }
        }
    }
}

/// The region with the given corners, in ring order, if they make one: at
/// least three corners inside the coordinate range of diagrams that form a
/// convex polygon.
pub fn region_of(corners: &Vec<Vec2d>) -> (r: Option<VoronoiPolygon>)
    ensures
        r is Some == (3 <= corners.len() <= u32::MAX && points_within(
            corners@,
            REGION_MAX as int,
        ) && convex(region_ring(corners@))),
        r is Some ==> r->0.points@ == region_ring(corners@) && r->0.wf() && valid_region(
            r->0.points@,
        ),
{
    let n: usize = corners.len();
    if n < 3 || n > u32::MAX as usize {
        return None;
    }
    let ghost ring = region_ring(corners@);
    let mut points: Vec<VoronoiPoint> = Vec::new();
    let mut i: usize = 0;
    while i < n
        invariant
            i <= n,
            n == corners.len(),
            3 <= n <= u32::MAX,
            ring == region_ring(corners@),
            points.len() == i,
            forall|k: int| 0 <= k < i ==> #[trigger] points[k] == ring[k],
            forall|k: int| 0 <= k < i ==> (#[trigger] corners[k]).within(REGION_MAX as int),
        decreases n - i,
    {
        let pos: Vec2d = corners[i];
        if !(-REGION_MAX <= pos.x && pos.x <= REGION_MAX && -REGION_MAX <= pos.y && pos.y
            <= REGION_MAX) {
            assert(!corners@[i as int].within(REGION_MAX as int));
            return None;
        }
        let before: usize = if i == 0 {
            n - 1
        } else {
            i - 1
        };
        proof {
            if i == 0 {
                vstd::arithmetic::div_mod::lemma_small_mod((n - 1) as nat, n as nat);
            } else {
                vstd::arithmetic::div_mod::lemma_mod_add_multiples_vanish(i - 1, n as int);
                vstd::arithmetic::div_mod::lemma_small_mod((i - 1) as nat, n as nat);
            }
        }
        let mut outbounds: IdSet = IdSet::new();
        outbounds.insert(before as u32);
        outbounds.insert(i as u32);
        points.push(VoronoiPoint { pos, is_corner: true, outbounds });
        i = i + 1;
    }
    assert(points@ =~= ring);
    let region: VoronoiPolygon = VoronoiPolygon::new(points);
    let ghost edges = region.polygon.lines@;
    proof {
        let ps = region.points@.map_values(position());
        assert forall|k: int| 0 <= k < ps.len() implies (#[trigger] ps[k]).within(
            COORD_MAX as int,
        ) by {
            assert(ps[k] == corners@[k]);
        }
        lemma_each_lines_within(ps, COORD_MAX as int);
        assert(edges == region_edges(ring));
    }
    let mut has_positive: bool = false;
    let mut has_negative: bool = false;
    let mut e: usize = 0;
    while e < region.polygon.lines.len()
        invariant
            e <= region.polygon.lines.len(),
            edges == region.polygon.lines@,
            ring == region.points@,
            lines_within(edges, COORD_MAX as int),
            vertices_within(ring, REGION_MAX as int),
            has_positive == some_corner_side(edges.take(e as int), ring, 1),
            has_negative == some_corner_side(edges.take(e as int), ring, -1),
        decreases region.polygon.lines.len() - e,
    {
        let line: Line = region.polygon.lines[e];
        assert(edges[e as int].within(COORD_MAX as int));
        let mut edge_positive: bool = false;
        let mut edge_negative: bool = false;
        let mut j: usize = 0;
        while j < region.points.len()
            invariant
                j <= region.points.len(),
                ring == region.points@,
                line.within(COORD_MAX as int),
                vertices_within(ring, REGION_MAX as int),
                edge_positive == exists|k: int| 0 <= k < j && line.side((#[trigger] ring[k]).pos) == 1,
                edge_negative == exists|k: int|
                    0 <= k < j && line.side((#[trigger] ring[k]).pos) == -1,
            decreases region.points.len() - j,
        {
            assert(ring[j as int].pos.within(REGION_MAX as int));
            let s: i8 = line.point_side(region.points[j].pos);
            if s > 0 {
                edge_positive = true;
            } else if s < 0 {
                edge_negative = true;
            }
            j = j + 1;
        }
        proof {
            lemma_some_corner_side_step(edges, ring, 1, e as int);
            lemma_some_corner_side_step(edges, ring, -1, e as int);
        }
        if edge_positive {
            has_positive = true;
        }
        if edge_negative {
            has_negative = true;
        }
        e = e + 1;
    }
    proof {
        crate::seq_lemmas::lemma_take_all(edges);
        lemma_convex_by_sides(ring);
        assert(points_within(corners@, REGION_MAX as int));
    }
    if has_positive && has_negative {
        return None;
    }
    proof {
        assert forall|k: int| 0 <= k < ring.len() implies (#[trigger] boundary_lines(
            ring,
        )[k]).is_outbound_spec() by {
            let m = ring.len() as int;
            let next = (k + 1) % m;
            vstd::arithmetic::div_mod::lemma_mod_bound(k + 1, m);
            vstd::arithmetic::div_mod::lemma_mod_bound(k + m - 1, m);
            vstd::arithmetic::div_mod::lemma_mod_bound(next + m - 1, m);
            if k + 1 == m {
                vstd::arithmetic::div_mod::lemma_mod_self_0(m);
                vstd::arithmetic::div_mod::lemma_small_mod((m - 1) as nat, m as nat);
            } else {
                vstd::arithmetic::div_mod::lemma_small_mod((k + 1) as nat, m as nat);
                vstd::arithmetic::div_mod::lemma_mod_add_multiples_vanish(k, m);
                vstd::arithmetic::div_mod::lemma_small_mod(k as nat, m as nat);
            }
            let a = ring[k].outbounds;
            let b = ring[next].outbounds;
            assert(a.has(k as u32));
            assert(b.has(k as u32));
        }
    }
    Some(region)
}

/// `some_corner_side` on a prefix one longer looks at one more edge.
pub proof fn lemma_some_corner_side_step(edges: Seq<Line>, ring: Seq<VoronoiPoint>, s: int, e: int)
    requires
        0 <= e < edges.len(),
    ensures
        some_corner_side(edges.take(e + 1), ring, s) == (some_corner_side(edges.take(e), ring, s)
            || exists|k: int| 0 <= k < ring.len() && edges[e].side((#[trigger] ring[k]).pos) == s),
{
    let a = edges.take(e);
    let b = edges.take(e + 1);
    if some_corner_side(a, ring, s) {
        let (i, j) = choose|i: int, j: int|
            0 <= i < a.len() && 0 <= j < ring.len() && (#[trigger] a[i]).side(
                (#[trigger] ring[j]).pos,
            ) == s;
        assert(b[i].side(ring[j].pos) == s);
    }
    if exists|k: int| 0 <= k < ring.len() && edges[e].side((#[trigger] ring[k]).pos) == s {
        let k = choose|k: int| 0 <= k < ring.len() && edges[e].side((#[trigger] ring[k]).pos) == s;
        assert(b[e].side(ring[k].pos) == s);
    }
    if some_corner_side(b, ring, s) {
        let (i, j) = choose|i: int, j: int|
            0 <= i < b.len() && 0 <= j < ring.len() && (#[trigger] b[i]).side(
                (#[trigger] ring[j]).pos,
            ) == s;
        if i < e {
            assert(a[i].side(ring[j].pos) == s);
        } else {
            assert(edges[e].side(ring[j].pos) == s);
        }
    }
}

} // verus!
