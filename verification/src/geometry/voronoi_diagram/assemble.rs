//! The edges of a new cell: the middle lines that the walk found, closed
//! along the bounding region.

use crate::geometry::voronoi_diagram::id_set::IdSet;
use crate::geometry::voronoi_diagram::types::{
    edges_within, uniq_spec, vertices_within, CellId, VoronoiLine, VoronoiPoint, REGION_MAX,
};
use crate::geometry::voronoi_diagram::walk::{is_corner_point, push_corners};
use crate::seq_lemmas::{
    lemma_filter_push, lemma_filter_take_step, lemma_map_take_step, lemma_take_all,
    lemma_take_step,
};
use vstd::prelude::*;

verus! {

/// The endpoints of the edges, in their order: of each edge first `p1`, then `p2`.
pub open spec fn endpoints(lines: Seq<VoronoiLine>) -> Seq<VoronoiPoint>
    decreases lines.len(),
{
    if lines.len() == 0 {
        Seq::empty()
    } else {
        endpoints(lines.drop_last()).push(lines.last().p1).push(lines.last().p2)
    }
}

/// The vertex lies on a side of the bounding region.
pub open spec fn is_on_outbound() -> spec_fn(VoronoiPoint) -> bool {
    |p: VoronoiPoint| p.on_outbound_spec()
}

/// The vertex is another one than `tp`.
pub open spec fn is_not(tp: VoronoiPoint) -> spec_fn(VoronoiPoint) -> bool {
    |p: VoronoiPoint| p != tp
}

/// The vertices that may end an edge of the new cell: the corners that the
/// walk kept, and the endpoints of the middle lines.
pub open spec fn candidates(lines: Seq<VoronoiLine>, corners: Seq<VoronoiPoint>) -> Seq<VoronoiPoint> {
    corners + endpoints(lines)
}

/// The vertices of the new cell that lie on the bounding region, in the
/// order in which they are closed: the endpoints on the region, and after
/// them the corners.
pub open spec fn open_points(lines: Seq<VoronoiLine>, corners: Seq<VoronoiPoint>) -> Seq<VoronoiPoint> {
    endpoints(lines).filter(is_on_outbound()) + candidates(lines, corners).filter(is_corner_point())
}

/// The two vertices lie on a common side of the bounding region.
pub open spec fn shares_side(tp: VoronoiPoint, p: VoronoiPoint) -> bool {
    tp.outbounds.intersection_spec(p.outbounds).n > 0
}

/// The vertex shares a side of the bounding region with `tp`.
pub open spec fn shares_side_with(tp: VoronoiPoint) -> spec_fn(VoronoiPoint) -> bool {
    |p: VoronoiPoint| shares_side(tp, p)
}

/// The vertices that share a side of the bounding region with `tp`, each
/// once, in the order of their first occurrence.
pub open spec fn partners(points: Seq<VoronoiPoint>, tp: VoronoiPoint) -> Seq<VoronoiPoint> {
    uniq_spec(points.filter(shares_side_with(tp)))
}

/// The edge from `tp` to a vertex, bounding no cell yet.
pub open spec fn edge_from(tp: VoronoiPoint) -> spec_fn(VoronoiPoint) -> VoronoiLine {
    |p: VoronoiPoint| VoronoiLine::new_spec(tp, p)
}

/// The edges after closing: each open vertex in turn is taken off the open
/// vertices and the candidates, and joined to every remaining candidate
/// that shares a side of the bounding region with it. A convex cell meets
/// a side in one stretch, whose two ends are the two vertices of the cell
/// on that side; so each stretch is closed once, when the first of its
/// ends is taken, whatever the order of the vertices.
pub open spec fn close_spec(
    open: Seq<VoronoiPoint>,
    points: Seq<VoronoiPoint>,
    lines: Seq<VoronoiLine>,
) -> Seq<VoronoiLine>
    decreases open.len(),
{
    if open.len() == 0 {
        lines
    } else {
        let tp = open.first();
        let rest = points.filter(is_not(tp));
        let still_open = open.drop_first().filter(is_not(tp));
        proof {
            open.drop_first().lemma_filter_len(is_not(tp));
        }
        close_spec(still_open, rest, lines + partners(rest, tp).map_values(edge_from(tp)))
    }
}

/// The edge with `id` added to the cells that it bounds.
pub open spec fn named(id: CellId) -> spec_fn(VoronoiLine) -> VoronoiLine {
    |l: VoronoiLine|
        VoronoiLine { p1: l.p1, p2: l.p2, line: l.line, cells: l.cells.insert_spec(id) }
}

/// The edges of a new cell, from the middle lines and the corners that the
/// walk found: the middle lines, and after them the edges along the
/// bounding region that close the ring.
pub open spec fn new_cell_lines_spec(lines: Seq<VoronoiLine>, corners: Seq<VoronoiPoint>) -> Seq<
    VoronoiLine,
> {
    close_spec(open_points(lines, corners), candidates(lines, corners), lines)
}

/// The points other than `tp`, in their order.
pub fn remove_point(points: &Vec<VoronoiPoint>, tp: VoronoiPoint) -> (r: Vec<VoronoiPoint>)
    ensures
        r@ == points@.filter(is_not(tp)),
        r.len() <= points.len(),
        forall|b: int| vertices_within(points@, b) ==> vertices_within(r@, b),
{
    let mut r: Vec<VoronoiPoint> = Vec::new();
    let mut i: usize = 0;
    while i < points.len()
        invariant
            i <= points.len(),
            r.len() <= i,
            r@ == points@.take(i as int).filter(is_not(tp)),
            forall|k: int| 0 <= k < r.len() ==> points@.contains(#[trigger] r[k]),
        decreases points.len() - i,
    {
        proof {
            lemma_filter_take_step(points@, is_not(tp), i as int);
        }
        if points[i] != tp {
            r.push(points[i]);
        }
        i = i + 1;
    }
    proof {
        lemma_take_all(points@);
        assert forall|b: int| vertices_within(points@, b) implies vertices_within(r@, b) by {
            assert forall|k: int| 0 <= k < r@.len() implies (#[trigger] r@[k]).pos.within(b) by {
                assert(points@.contains(r[k]));
            }
        }
    }
    r
}

/// The endpoints of the edges, and those of them on the bounding region.
fn collect_endpoints(lines: &Vec<VoronoiLine>) -> (r: (Vec<VoronoiPoint>, Vec<VoronoiPoint>))
    requires
        edges_within(lines@, REGION_MAX as int),
    ensures
        r.0@ == endpoints(lines@),
        r.1@ == endpoints(lines@).filter(is_on_outbound()),
        vertices_within(r.0@, REGION_MAX as int),
        vertices_within(r.1@, REGION_MAX as int),
{
    let mut all: Vec<VoronoiPoint> = Vec::new();
    let mut out: Vec<VoronoiPoint> = Vec::new();
    let mut i: usize = 0;
    while i < lines.len()
        invariant
            i <= lines.len(),
            edges_within(lines@, REGION_MAX as int),
            all@ == endpoints(lines@.take(i as int)),
            out@ == endpoints(lines@.take(i as int)).filter(is_on_outbound()),
            vertices_within(all@, REGION_MAX as int),
            vertices_within(out@, REGION_MAX as int),
        decreases lines.len() - i,
    {
        let line: VoronoiLine = lines[i];
        assert(line.within(REGION_MAX as int));
        proof {
            lemma_take_step(lines@, i as int);
            let e = endpoints(lines@.take(i as int));
            lemma_filter_push(e, is_on_outbound(), line.p1);
            lemma_filter_push(e.push(line.p1), is_on_outbound(), line.p2);
        }
        all.push(line.p1);
        all.push(line.p2);
        if line.p1.on_outbound() {
            out.push(line.p1);
        }
        if line.p2.on_outbound() {
            out.push(line.p2);
        }
        i = i + 1;
    }
    proof {
        lemma_take_all(lines@);
    }
    (all, out)
}

/// The points that share a side of the bounding region with `tp`, each
/// once, in the order of their first occurrence.
fn find_partners(points: &Vec<VoronoiPoint>, tp: VoronoiPoint) -> (r: Vec<VoronoiPoint>)
    ensures
        r@ == partners(points@, tp),
        forall|k: int| 0 <= k < r.len() ==> points@.contains(#[trigger] r[k]),
{
    let mut sharing: Vec<VoronoiPoint> = Vec::new();
    let mut k: usize = 0;
    while k < points.len()
        invariant
            k <= points.len(),
            sharing@ == points@.take(k as int).filter(shares_side_with(tp)),
            forall|j: int| 0 <= j < sharing.len() ==> points@.contains(#[trigger] sharing[j]),
        decreases points.len() - k,
    {
        proof {
            lemma_filter_take_step(points@, shares_side_with(tp), k as int);
        }
        if tp.outbounds.intersection(&points[k].outbounds).len() > 0 {
            sharing.push(points[k]);
        }
        k = k + 1;
    }
    proof {
        lemma_take_all(points@);
    }
    let r = VoronoiPoint::uniq_points(&sharing);
    proof {
        assert forall|j: int| 0 <= j < r.len() implies points@.contains(#[trigger] r[j]) by {
            assert(r@.contains(r[j]));
            assert(sharing@.contains(r[j]));
            let m = choose|m: int| 0 <= m < sharing.len() && sharing[m] == r[j];
            assert(points@.contains(sharing[m]));
        }
    }
    r
}

/// Adds `id` to the cells that each edge bounds.
pub fn name_lines(lines: &Vec<VoronoiLine>, id: CellId) -> (r: Vec<VoronoiLine>)
    requires
        forall|k: int| 0 <= k < lines.len() ==> (#[trigger] lines[k]).cells.admits(id),
    ensures
        r@ == lines@.map_values(named(id)),
        forall|k: int| 0 <= k < r.len() ==> (#[trigger] r[k]).cells.has(id),
        forall|b: int| edges_within(lines@, b) ==> edges_within(r@, b),
        forall|k: int|
            0 <= k < r.len() && lines[k].cells.below(id + 1) ==> (#[trigger] r[k]).cells.below(
                id + 1,
            ),
{
    let mut r: Vec<VoronoiLine> = Vec::new();
    let mut i: usize = 0;
    while i < lines.len()
        invariant
            i <= lines.len(),
            forall|k: int| 0 <= k < lines.len() ==> (#[trigger] lines[k]).cells.admits(id),
            r.len() == i,
            forall|k: int| 0 <= k < i ==> #[trigger] r[k] == named(id)(lines[k]),
            forall|k: int| 0 <= k < i ==> (#[trigger] r[k]).cells.has(id),
            forall|k: int|
                0 <= k < i && lines[k].cells.below(id + 1) ==> (#[trigger] r[k]).cells.below(
                    id + 1,
                ),
        decreases lines.len() - i,
    {
        let mut line: VoronoiLine = lines[i];
        line.cells.insert(id);
        r.push(line);
        i = i + 1;
    }
    proof {
        assert(r@ =~= lines@.map_values(named(id)));
        assert forall|b: int| edges_within(lines@, b) implies edges_within(r@, b) by {
            assert forall|k: int| 0 <= k < r@.len() implies (#[trigger] r@[k]).within(b) by {
                assert(lines@[k].within(b));
            }
        }
    }
    r
}

/// The edges of the new cell `next_cell_id`: the middle lines that the walk
/// found, closed along the bounding region.
pub fn new_cell_lines(lines: Vec<VoronoiLine>, corners: &Vec<VoronoiPoint>, next_cell_id: CellId) -> (r:
    Vec<VoronoiLine>)
    requires
        edges_within(lines@, REGION_MAX as int),
        vertices_within(corners@, REGION_MAX as int),
        forall|k: int| 0 <= k < lines.len() ==> (#[trigger] lines[k]).cells.admits(next_cell_id),
    ensures
        r@ == new_cell_lines_spec(lines@, corners@),
        edges_within(r@, REGION_MAX as int),
        forall|k: int| 0 <= k < r.len() ==> (#[trigger] r[k]).cells.admits(next_cell_id),
        r.len() >= lines.len(),
        forall|k: int| 0 <= k < lines.len() ==> #[trigger] r[k] == lines[k],
        forall|k: int| lines.len() <= k < r.len() ==> (#[trigger] r[k]).cells == IdSet::empty_spec(),
{
    let ghost first_lines = lines@;
    let (ends, mut open) = collect_endpoints(&lines);
    let mut j: usize = 0;
    let mut points: Vec<VoronoiPoint> = Vec::new();
    while j < corners.len()
        invariant
            j <= corners.len(),
            points@ == corners@.take(j as int),
            vertices_within(corners@, REGION_MAX as int),
            vertices_within(points@, REGION_MAX as int),
        decreases corners.len() - j,
    {
        proof {
            lemma_take_step(corners@, j as int);
        }
        points.push(corners[j]);
        j = j + 1;
    }
    proof {
        lemma_take_all(corners@);
    }
    let mut k: usize = 0;
    while k < ends.len()
        invariant
            k <= ends.len(),
            points@ == corners@ + ends@.take(k as int),
            vertices_within(ends@, REGION_MAX as int),
            vertices_within(points@, REGION_MAX as int),
        decreases ends.len() - k,
    {
        proof {
            lemma_take_step(ends@, k as int);
            assert((corners@ + ends@.take(k as int)).push(ends@[k as int]) =~= corners@
                + ends@.take(k as int).push(ends@[k as int]));
        }
        points.push(ends[k]);
        k = k + 1;
    }
    proof {
        lemma_take_all(ends@);
    }
    push_corners(&mut open, &points);
    let mut lines = lines;
    let ghost first_open = open@;
    let ghost first_points = points@;
    while open.len() > 0
        invariant
            close_spec(open@, points@, lines@) == close_spec(first_open, first_points, first_lines),
            vertices_within(open@, REGION_MAX as int),
            vertices_within(points@, REGION_MAX as int),
            edges_within(lines@, REGION_MAX as int),
            forall|k: int| 0 <= k < lines.len() ==> (#[trigger] lines[k]).cells.admits(next_cell_id),
            lines.len() >= first_lines.len(),
            forall|k: int| 0 <= k < first_lines.len() ==> #[trigger] lines[k] == first_lines[k],
            forall|k: int|
                first_lines.len() <= k < lines.len() ==> (#[trigger] lines[k]).cells
                    == IdSet::empty_spec(),
        decreases open.len(),
    {
        let ghost before = open@;
        let tp: VoronoiPoint = open.remove(0);
        assert(open@ =~= before.drop_first());
        assert(tp == before.first());
        assert(tp.pos.within(REGION_MAX as int));
        points = remove_point(&points, tp);
        open = remove_point(&open, tp);
        let found: Vec<VoronoiPoint> = find_partners(&points, tp);
        let ghost base = lines@;
        let mut j: usize = 0;
        while j < found.len()
            invariant
                j <= found.len(),
                tp.pos.within(REGION_MAX as int),
                vertices_within(points@, REGION_MAX as int),
                forall|k: int| 0 <= k < found.len() ==> points@.contains(#[trigger] found[k]),
                lines@ == base + found@.take(j as int).map_values(edge_from(tp)),
                edges_within(lines@, REGION_MAX as int),
                forall|k: int|
                    0 <= k < lines.len() ==> (#[trigger] lines[k]).cells.admits(next_cell_id),
                lines.len() >= first_lines.len(),
                forall|k: int| 0 <= k < first_lines.len() ==> #[trigger] lines[k] == first_lines[k],
                forall|k: int|
                    first_lines.len() <= k < lines.len() ==> (#[trigger] lines[k]).cells
                        == IdSet::empty_spec(),
            decreases found.len() - j,
        {
            let p: VoronoiPoint = found[j];
            let ghost old_lines = lines@;
            proof {
                lemma_map_take_step(found@, edge_from(tp), j as int);
                assert((base + found@.take(j as int).map_values(edge_from(tp))).push(
                    edge_from(tp)(p),
                ) =~= base + found@.take(j as int).map_values(edge_from(tp)).push(
                    edge_from(tp)(p),
                ));
                assert(points@.contains(found[j as int]));
                let m = choose|m: int| 0 <= m < points@.len() && points@[m] == p;
                assert(points@[m].pos.within(REGION_MAX as int));
            }
            lines.push(VoronoiLine::new(tp, p));
            proof {
                assert forall|k: int| 0 <= k < lines.len() implies (#[trigger] lines[k]).within(
                    REGION_MAX as int,
                ) && lines[k].cells.admits(next_cell_id) by {
                    if k < old_lines.len() {
                        assert(lines[k] == old_lines[k]);
                    }
                }
                assert forall|k: int| first_lines.len() <= k < lines.len() implies (
                #[trigger] lines[k]).cells == IdSet::empty_spec() by {
                    if k < old_lines.len() {
                        assert(lines[k] == old_lines[k]);
                    }
                }
                assert forall|k: int| 0 <= k < first_lines.len() implies #[trigger] lines[k]
                    == first_lines[k] by {
                    assert(lines[k] == old_lines[k]);
                }
            }
            j = j + 1;
        }
        proof {
            lemma_take_all(found@);
        }
    }
    lines
}

} // verus!
