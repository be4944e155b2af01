//! The incremental Voronoi diagram.

use crate::geometry::line::Line;
use crate::geometry::vec2d::{cross, Vec2d};
use crate::geometry::voronoi_diagram::id_set::IdSet;
use crate::geometry::voronoi_diagram::assemble::{
    name_lines, named, new_cell_lines, new_cell_lines_spec,
};
use crate::geometry::voronoi_diagram::region::{
    boundary_lines, classify, region_edges, some_side, strictly_inside, strictly_outside,
    unit_square, valid_region, RegionSide,
};
use crate::geometry::voronoi_diagram::types::{
    direction, edges_within, first_endpoint, first_endpoint_of, lemma_sort_by_angle_sorted,
    lemma_uniq, ring_contains, sorted_by_angle, uniq_spec, vertices_within, CellId, CellView,
    VoronoiCell, VoronoiCenterPoint, VoronoiLine, VoronoiPoint, VoronoiPolygon, REGION_MAX,
};
use crate::geometry::voronoi_diagram::walk::{
    adjacency_named, cell_views, cells_wf, start_walk, walk, walk_spec, WalkState,
};
use vstd::prelude::*;

verus! {

/// Why a site was not added.
#[derive(Debug, Clone, Copy, PartialEq, Eq, Structural)]
pub enum InsertError {
    /// A cell has its site at the same position.
    DuplicateSite,
    /// The site lies outside the bounding region, or in no cell's ring.
    SiteOutsideBounds,
    /// The site lies on the boundary of the region, a bisector did not cross
    /// a ring in exactly two points, or a ring was left with fewer than
    /// three vertices.
    Degenerate,
}

/// A Voronoi diagram: a bounding region and one cell per site. The
/// identifier of a cell is its index in `cells`.
#[derive(Debug)]
pub struct VoronoiDiagram {
    pub outbound: VoronoiPolygon,
    pub cells: Vec<VoronoiCell>,
}

/// A diagram as a value.
pub struct DiagramView {
    pub outbound: Seq<VoronoiPoint>,
    pub cells: Seq<CellView>,
}

impl View for VoronoiDiagram {
    type V = DiagramView;

    open spec fn view(&self) -> DiagramView {
        DiagramView { outbound: self.outbound.points@, cells: cell_views(self.cells@) }
    }
}

/// Some cell has its site at `pos`.
pub open spec fn has_site_at(cells: Seq<CellView>, pos: Vec2d) -> bool {
    exists|i: int| 0 <= i < cells.len() && (#[trigger] cells[i]).point.pos == pos
}

/// The first cell at or after `from` whose ring holds `pos` by the
/// crossing-number test.
pub open spec fn first_containing(cells: Seq<CellView>, pos: Vec2d, from: int) -> Option<CellId>
    decreases cells.len() - from,
{
    if from < 0 || from >= cells.len() {
        None
    } else if ring_contains(cells[from].ring(), pos) {
        Some(from as CellId)
    } else {
        first_containing(cells, pos, from + 1)
    }
}

/// The first cell whose ring holds `pos`.
pub open spec fn locate_spec(cells: Seq<CellView>, pos: Vec2d) -> Option<CellId> {
    first_containing(cells, pos, 0)
}

/// The cell `cell_id` with the given site and edges, each edge naming the cell.
pub open spec fn build_cell_spec(
    cell_id: CellId,
    site: VoronoiCenterPoint,
    lines: Seq<VoronoiLine>,
) -> CellView {
    CellView { cell_id, point: site, lines: lines.map_values(named(cell_id)) }
}

/// The cells with each carved cell put in the place of the cell it was
/// carved from.
pub open spec fn commit_spec(cells: Seq<CellView>, carved: Seq<CellView>) -> Seq<CellView>
    decreases carved.len(),
{
    if carved.len() == 0 {
        cells
    } else if carved.last().cell_id < cells.len() {
        commit_spec(cells.update(carved.last().cell_id as int, carved.last()), carved.drop_last())
    } else {
        commit_spec(cells, carved.drop_last())
    }
}

/// What adding `site` to the diagram `d` gives: the diagram afterwards, and
/// the identifier of the new cell or the reason why there is none.
///
/// A site outside the coordinate range of diagrams or strictly outside the
/// region is outside; one that is not strictly inside is degenerate; one at
/// the position of a site of the diagram is a duplicate. The first site gets
/// the whole region. Any other site is located, the cells around it are
/// carved, and the new cell is assembled from the middle lines.
#[verifier::opaque]
pub open spec fn add_point_spec(d: DiagramView, site: VoronoiCenterPoint) -> (
    DiagramView,
    Result<CellId, InsertError>,
) {
    let edges = region_edges(d.outbound);
    let next = d.cells.len() as CellId;
    if !site.pos.within(REGION_MAX as int) || strictly_outside(edges, site.pos) {
        (d, Err(InsertError::SiteOutsideBounds))
    } else if !strictly_inside(edges, site.pos) {
        (d, Err(InsertError::Degenerate))
    } else if has_site_at(d.cells, site.pos) {
        (d, Err(InsertError::DuplicateSite))
    } else if d.cells.len() == 0 {
        let cell = build_cell_spec(0, site, boundary_lines(d.outbound));
        if cell.ring().len() < 3 {
            (d, Err(InsertError::Degenerate))
        } else {
            (DiagramView { outbound: d.outbound, cells: seq![cell] }, Ok(0))
        }
    } else {
        match locate_spec(d.cells, site.pos) {
            None => (d, Err(InsertError::SiteOutsideBounds)),
            Some(start) => match walk_spec(
                d.cells,
                site.pos,
                next,
                start_walk(start, d.cells.len()),
            ) {
                None => (d, Err(InsertError::Degenerate)),
                Some(w) => {
                    let cell = build_cell_spec(next, site, new_cell_lines_spec(w.lines, w.corners));
                    if cell.ring().len() < 3 {
                        (d, Err(InsertError::Degenerate))
                    } else {
                        (
                            DiagramView {
                                outbound: d.outbound,
                                cells: commit_spec(d.cells, w.carved).push(cell),
                            },
                            Ok(next),
                        )
                    }
                },
            },
        }
    }
}

/// Every edge of the last cell that bounds a second cell is an edge of that
/// cell too: the same endpoints, bounding the same two cells.
pub open spec fn new_edges_shared(cells: Seq<CellView>) -> bool {
    let new_cell = cells.last();
    forall|k: int|
        0 <= k < new_cell.lines.len() && (#[trigger] new_cell.lines[k]).cells.n == 2 ==> {
            let other = new_cell.lines[k].cells.other_than(new_cell.cell_id);
            &&& other is Some
            &&& other->0 < cells.len() - 1
            &&& cells[other->0 as int].lines.contains(new_cell.lines[k])
        }
}

/// The edges of all the cells: those of the first cell, then those of the
/// second, and so on. An edge between two cells occurs once for each.
pub open spec fn all_edges(cells: Seq<CellView>) -> Seq<VoronoiLine>
    decreases cells.len(),
{
    if cells.len() == 0 {
        Seq::empty()
    } else {
        all_edges(cells.drop_last()) + cells.last().lines
    }
}

/// What adding the sites one after the other gives.
pub open spec fn insert_all_spec(d: DiagramView, sites: Seq<VoronoiCenterPoint>) -> DiagramView
    decreases sites.len(),
{
    if sites.len() == 0 {
        d
    } else {
        add_point_spec(insert_all_spec(d, sites.drop_last()), sites.last()).0
    }
}

/// How many of the sites are added when they are added one after the other.
pub open spec fn accepted_count(d: DiagramView, sites: Seq<VoronoiCenterPoint>) -> nat
    decreases sites.len(),
{
    if sites.len() == 0 {
        0
    } else {
        accepted_count(d, sites.drop_last()) + if add_point_spec(
            insert_all_spec(d, sites.drop_last()),
            sites.last(),
        ).1 is Ok {
            1nat
        } else {
            0nat
        }
    }
}

/// Putting carved cells in place keeps the number of cells.
pub proof fn lemma_commit_len(cells: Seq<CellView>, carved: Seq<CellView>)
    ensures
        commit_spec(cells, carved).len() == cells.len(),
    decreases carved.len(),
{
    if carved.len() > 0 {
        if carved.last().cell_id < cells.len() {
            lemma_commit_len(
                cells.update(carved.last().cell_id as int, carved.last()),
                carved.drop_last(),
            );
        } else {
            lemma_commit_len(cells, carved.drop_last());
        }
    }
}

/// Adding a site adds exactly one cell, whose site it is; a site that is
/// refused leaves the diagram as it was.
pub proof fn lemma_add_point_counts(d: DiagramView, site: VoronoiCenterPoint)
    ensures
        add_point_spec(d, site).1 is Ok ==> add_point_spec(d, site).0.cells.len() == d.cells.len()
            + 1 && add_point_spec(d, site).0.cells.last().point == site,
        add_point_spec(d, site).1 is Err ==> add_point_spec(d, site).0 == d,
        add_point_spec(d, site).0.outbound == d.outbound,
{
    reveal(add_point_spec);
    if d.cells.len() > 0 && locate_spec(d.cells, site.pos) is Some {
        let start = locate_spec(d.cells, site.pos)->0;
        let next = d.cells.len() as CellId;
        let walked = walk_spec(d.cells, site.pos, next, start_walk(start, d.cells.len()));
        if walked is Some {
            lemma_commit_len(d.cells, walked->0.carved);
        }
    }
}

/// After any number of insertions the diagram has one cell for each site
/// that was added.
pub proof fn lemma_insert_all_counts(d: DiagramView, sites: Seq<VoronoiCenterPoint>)
    ensures
        insert_all_spec(d, sites).cells.len() == d.cells.len() + accepted_count(d, sites),
        accepted_count(d, sites) <= sites.len(),
        insert_all_spec(d, sites).outbound == d.outbound,
    decreases sites.len(),
{
    if sites.len() > 0 {
        lemma_insert_all_counts(d, sites.drop_last());
        lemma_add_point_counts(insert_all_spec(d, sites.drop_last()), sites.last());
    }
}

/// Adding a site at the position of a site of the diagram is refused as a
/// duplicate, and the diagram stays as it is.
pub proof fn lemma_duplicate_refused(d: VoronoiDiagram, i: int, site: VoronoiCenterPoint)
    requires
        d.wf(),
        0 <= i < d.cells.len(),
        site.pos == d.cells[i].point.pos,
    ensures
        add_point_spec(d@, site) == (d@, Err::<CellId, InsertError>(InsertError::DuplicateSite)),
{
    reveal(add_point_spec);
    assert(d.cells[i].wf());
    assert(d@.cells[i].point.pos == site.pos);
}

/// A site that was added is refused as a duplicate when it is added again,
/// and the diagram stays as it is.
pub proof fn lemma_reinsert_refused(d: DiagramView, site: VoronoiCenterPoint)
    requires
        add_point_spec(d, site).1 is Ok,
    ensures
        add_point_spec(add_point_spec(d, site).0, site) == (
            add_point_spec(d, site).0,
            Err::<CellId, InsertError>(InsertError::DuplicateSite),
        ),
{
    reveal(add_point_spec);
    lemma_add_point_counts(d, site);
    let after = add_point_spec(d, site).0;
    assert(after.cells[after.cells.len() - 1].point.pos == site.pos);
}

/// A site on the line of a side of the region is refused, and the diagram
/// stays as it is. This holds of every site on the boundary of the region.
pub proof fn lemma_boundary_site_refused(d: DiagramView, site: VoronoiCenterPoint, i: int)
    requires
        d.outbound.len() >= 3,
        0 <= i < d.outbound.len(),
        region_edges(d.outbound)[i].cross_side(site.pos) == 0,
    ensures
        add_point_spec(d, site).1 is Err,
        add_point_spec(d, site).1 != Err::<CellId, InsertError>(InsertError::DuplicateSite),
        add_point_spec(d, site).0 == d,
{
    reveal(add_point_spec);
    crate::geometry::voronoi_diagram::region::lemma_on_side_not_inside(d.outbound, i, site.pos);
}

/// The first site gets the whole region: the edges of its cell are the
/// sides of the region in their order, each bounding this cell alone.
pub proof fn lemma_first_cell_is_region(d: DiagramView, site: VoronoiCenterPoint)
    requires
        d.cells.len() == 0,
        add_point_spec(d, site).1 is Ok,
    ensures
        add_point_spec(d, site).1 == Ok::<CellId, InsertError>(0),
        add_point_spec(d, site).0.cells.len() == 1,
        add_point_spec(d, site).0.cells[0].point == site,
        add_point_spec(d, site).0.cells[0].lines.len() == d.outbound.len(),
        forall|k: int|
            0 <= k < d.outbound.len() ==> {
                let line = #[trigger] add_point_spec(d, site).0.cells[0].lines[k];
                &&& line.p1 == d.outbound[k]
                &&& line.p2 == d.outbound[(k + 1) % (d.outbound.len() as int)]
                &&& line.cells == (IdSet { n: 1, lo: 0, hi: 0 })
            },
{
    reveal(add_point_spec);
}

/// In a diagram every edge of a cell bounds that cell and at most one
/// other cell, which is a cell of the diagram.
pub proof fn lemma_edge_adjacency(d: VoronoiDiagram, i: int, k: int)
    requires
        d.wf(),
        0 <= i < d.cells.len(),
        0 <= k < d.cells[i].lines.len(),
    ensures
        ({
            let c = d.cells[i].lines[k].cells;
            &&& 1 <= c.n <= 2
            &&& c.has(i as CellId)
            &&& c.other_than(i as CellId) is Some ==> c.n == 2 && c.other_than(i as CellId)->0
                < d.cells.len()
        }),
{
    assert(d.cells[i].wf());
    assert(d.cells[i]@.edges_below(d.cells.len() as int));
    assert(d.cells[i]@.lines[k].cells.below(d.cells.len() as int));
    assert(d.cells[i]@.lines[k].cells.has(d.cells[i].cell_id));
}

/// Seen from a point, an edge runs counter-clockwise exactly when the point
/// lies on the negative side of its line.
pub proof fn lemma_cross_is_minus_side(center: Vec2d, p1: Vec2d, p2: Vec2d)
    requires
        center.within(REGION_MAX as int),
        p1.within(REGION_MAX as int),
        p2.within(REGION_MAX as int),
    ensures
        cross(direction(center, p1), direction(center, p2)) == -(Line { p1, p2 }).cross_side(center),
{
    let u = direction(center, p1);
    let v = direction(center, p2);
    assert(u.x == p1.x - center.x && u.y == p1.y - center.y);
    assert(v.x == p2.x - center.x && v.y == p2.y - center.y);
    let l = Line { p1, p2 };
    assert(u.x * v.y - u.y * v.x == -((l.p1.x - l.p2.x) * (center.y - l.p1.y) - (l.p1.y - l.p2.y)
        * (center.x - l.p1.x))) by (nonlinear_arith)
        requires
            u.x == l.p1.x - center.x,
            u.y == l.p1.y - center.y,
            v.x == l.p2.x - center.x,
            v.y == l.p2.y - center.y,
    ;
}

/// Of an edge that runs counter-clockwise round `center`, the first
/// endpoint is `p1`; of one that runs clockwise, it is `p2`.
pub proof fn lemma_first_endpoint_by_turn(center: Vec2d, line: VoronoiLine)
    ensures
        cross(direction(center, line.p1.pos), direction(center, line.p2.pos)) > 0
            ==> first_endpoint(center, line) == line.p1,
        cross(direction(center, line.p1.pos), direction(center, line.p2.pos)) < 0
            ==> first_endpoint(center, line) == line.p2,
{
    let u = direction(center, line.p1.pos);
    let v = direction(center, line.p2.pos);
    assert(cross(v, u) == -cross(u, v)) by (nonlinear_arith);
}

/// The first cell is the region: its ring holds exactly the corners of the
/// region, each once, in angular order around the site.
pub proof fn lemma_first_ring_is_region(d: DiagramView, site: VoronoiCenterPoint)
    requires
        valid_region(d.outbound),
        d.cells.len() == 0,
        add_point_spec(d, site).1 is Ok,
    ensures
        forall|p: VoronoiPoint|
            add_point_spec(d, site).0.cells[0].ring().contains(p) <==> d.outbound.contains(p),
        add_point_spec(d, site).0.cells[0].ring().no_duplicates(),
        sorted_by_angle(site.pos, add_point_spec(d, site).0.cells[0].ring()),
{
    reveal(add_point_spec);
    let ring = d.outbound;
    let n = ring.len() as int;
    let cell = build_cell_spec(0, site, boundary_lines(ring));
    assert(add_point_spec(d, site).0.cells[0] == cell);
    let center = site.pos;
    let edges = region_edges(ring);
    let firsts = cell.lines.map_values(first_endpoint_of(center));
    cell.lemma_ring_goes_round();
    lemma_uniq(firsts);
    lemma_sort_by_angle_sorted(center, uniq_spec(firsts));
    assert(edges.len() == n);
    assert forall|k: int| 0 <= k < n implies edges[k] == (Line {
        p1: ring[k].pos,
        p2: ring[(k + 1) % n].pos,
    }) && 0 <= (k + 1) % n < n by {
        vstd::arithmetic::div_mod::lemma_mod_bound(k + 1, n);
    }
    let clockwise = some_side(edges, center, 1);
    assert forall|k: int| 0 <= k < n implies #[trigger] firsts[k] == if clockwise {
        ring[(k + 1) % n]
    } else {
        ring[k]
    } by {
        let j = (k + 1) % n;
        let line = cell.lines[k];
        assert(line.p1 == ring[k] && line.p2 == ring[j]);
        assert(ring[k].pos.within(REGION_MAX as int));
        assert(ring[j].pos.within(REGION_MAX as int));
        lemma_cross_is_minus_side(center, ring[k].pos, ring[j].pos);
        lemma_first_endpoint_by_turn(center, line);
        let s = edges[k].side(center);
        assert(s != 0);
        if clockwise {
            assert(s != -1);
        } else {
            assert(s != 1);
        }
    }
    assert forall|p: VoronoiPoint| firsts.contains(p) <==> ring.contains(p) by {
        if firsts.contains(p) {
            let k = choose|k: int| 0 <= k < firsts.len() && firsts[k] == p;
            assert(firsts[k] == ring[k] || firsts[k] == ring[(k + 1) % n]);
        }
        if ring.contains(p) {
            let j = choose|j: int| 0 <= j < ring.len() && ring[j] == p;
            if clockwise {
                let k = if j == 0 {
                    n - 1
                } else {
                    j - 1
                };
                if j == 0 {
                    vstd::arithmetic::div_mod::lemma_mod_self_0(n);
                } else {
                    vstd::arithmetic::div_mod::lemma_small_mod(j as nat, n as nat);
                }
                assert(firsts[k] == ring[j]);
            } else {
                assert(firsts[j] == ring[j]);
            }
        }
    }
}

/// `rand::seq::SliceRandom::shuffle` on the sites, with the generator that
/// `rand::thread_rng` hands out. It swaps elements of the slice, so what
/// comes back holds the same sites as often as before, in an order that no
/// contract names. `thread_rng` panics if the system has no source of
/// randomness.
#[verifier::external_body]
fn shuffle_sites(points: &mut Vec<VoronoiCenterPoint>)
    ensures
        final(points)@.to_multiset() == old(points)@.to_multiset(),
        final(points).len() == old(points).len(),
{
    rand::seq::SliceRandom::shuffle(points.as_mut_slice(), &mut rand::thread_rng());
}

/// The cell `cell_id` with the given site and edges, each edge naming the
/// cell; `None` when the edges give a ring of fewer than three vertices.
pub fn build_cell(cell_id: CellId, site: &VoronoiCenterPoint, lines: &Vec<VoronoiLine>) -> (r: Option<
    VoronoiCell,
>)
    requires
        site.pos.within(REGION_MAX as int),
        edges_within(lines@, REGION_MAX as int),
        forall|k: int| 0 <= k < lines.len() ==> (#[trigger] lines[k]).cells.admits(cell_id),
    ensures
        r is Some == (build_cell_spec(cell_id, *site, lines@).ring().len() >= 3),
        r is Some ==> r->0@ == build_cell_spec(cell_id, *site, lines@) && r->0.wf(),
        r is Some && (forall|k: int|
            0 <= k < lines.len() ==> (#[trigger] lines[k]).cells.below(cell_id + 1))
            ==> r->0@.edges_below(cell_id + 1),
{
    let named_lines: Vec<VoronoiLine> = name_lines(lines, cell_id);
    let cell: VoronoiCell = VoronoiCell::new(cell_id, *site, named_lines);
    if cell.bound.points.len() < 3 {
        None
    } else {
        Some(cell)
    }
}

impl VoronoiDiagram {
    /// The diagram is one that insertions have built: the region is a
    /// bounding region, every cell is a cell of a diagram with its index as
    /// identifier, every site lies strictly inside the region, and every
    /// edge bounds one or two cells of the diagram.
    pub open spec fn wf(self) -> bool {
        &&& self.cells_in_place()
        &&& adjacency_named(self.cells@)
    }

    /// All of `wf` but that the edges name cells of the diagram.
    pub open spec fn cells_in_place(self) -> bool {
        &&& self.outbound.wf()
        &&& valid_region(self.outbound.points@)
        &&& cells_wf(self.cells@)
        &&& self.cells.len() <= u32::MAX
        &&& forall|i: int|
            0 <= i < self.cells.len() ==> strictly_inside(
                region_edges(self.outbound.points@),
                (#[trigger] self.cells[i]).point.pos,
            )
    }

    /// The empty diagram on the bounding region `outbound`.
    pub fn new(outbound: VoronoiPolygon) -> (d: VoronoiDiagram)
        requires
            outbound.wf(),
            valid_region(outbound.points@),
        ensures
            d.outbound == outbound,
            d.cells.len() == 0,
            d.wf(),
    {
        VoronoiDiagram { outbound, cells: Vec::new() }
    }

    /// The empty diagram on the unit square.
    pub fn on_unit_square() -> (d: VoronoiDiagram)
        ensures
            d.outbound.points@ == crate::geometry::voronoi_diagram::region::unit_square_ring(),
            d.cells.len() == 0,
            d.wf(),
    {
        VoronoiDiagram::new(unit_square())
    }

    /// The cells, in the order of their identifiers.
    pub fn cells(&self) -> (r: &Vec<VoronoiCell>)
        ensures
            *r == self.cells,
    {
        &self.cells
    }

    /// The edges of all the cells, cell after cell.
    pub fn edges(&self) -> (r: Vec<VoronoiLine>)
        ensures
            r@ == all_edges(self@.cells),
    {
        let mut r: Vec<VoronoiLine> = Vec::new();
        let ghost views = self@.cells;
        let mut i: usize = 0;
        while i < self.cells.len()
            invariant
                i <= self.cells.len(),
                views == self@.cells,
                r@ == all_edges(views.take(i as int)),
            decreases self.cells.len() - i,
        {
            let ghost start = r@;
            let cell: &VoronoiCell = &self.cells[i];
            assert(views[i as int].lines == cell.lines@);
            let mut k: usize = 0;
            while k < cell.lines.len()
                invariant
                    k <= cell.lines.len(),
                    r@ == start + cell.lines@.take(k as int),
                decreases cell.lines.len() - k,
            {
                proof {
                    crate::seq_lemmas::lemma_take_step(cell.lines@, k as int);
                    assert((start + cell.lines@.take(k as int)).push(cell.lines@[k as int])
                        =~= start + cell.lines@.take(k as int).push(cell.lines@[k as int]));
                }
                r.push(cell.lines[k]);
                k = k + 1;
            }
            proof {
                crate::seq_lemmas::lemma_take_all(cell.lines@);
                crate::seq_lemmas::lemma_take_step(views, i as int);
            }
            i = i + 1;
        }
        proof {
            crate::seq_lemmas::lemma_take_all(views);
        }
        r
    }

    /// The cell with the identifier `cell_id`.
    pub fn get_cell(&self, cell_id: CellId) -> (c: &VoronoiCell)
        requires
            cell_id < self.cells.len(),
        ensures
            *c == self.cells[cell_id as int],
    {
        &self.cells[cell_id as usize]
    }

    /// Whether some cell has its site at `pos`.
    pub fn has_site(&self, pos: Vec2d) -> (b: bool)
        ensures
            b == has_site_at(self@.cells, pos),
    {
        let mut i: usize = 0;
        while i < self.cells.len()
            invariant
                i <= self.cells.len(),
                forall|k: int| 0 <= k < i ==> (#[trigger] self@.cells[k]).point.pos != pos,
            decreases self.cells.len() - i,
        {
            if self.cells[i].point.pos == pos {
                assert(self@.cells[i as int].point.pos == pos);
                return true;
            }
            i = i + 1;
        }
        false
    }

    /// The first cell whose ring holds `point` by the crossing-number test.
    pub fn locate(&self, point: Vec2d) -> (r: Option<CellId>)
        requires
            self.wf(),
            point.in_range(),
        ensures
            r == locate_spec(self@.cells, point),
            r is Some ==> r->0 < self.cells.len(),
    {
        let mut i: usize = 0;
        while i < self.cells.len()
            invariant
                i <= self.cells.len(),
                self.wf(),
                point.in_range(),
                first_containing(self@.cells, point, i as int) == first_containing(
                    self@.cells,
                    point,
                    0,
                ),
            decreases self.cells.len() - i,
        {
            assert(self.cells[i as int].wf());
            assert(self@.cells[i as int] == self.cells[i as int]@);
            if self.cells[i].bound.is_include(point) {
                return Some(i as CellId);
            }
            i = i + 1;
        }
        None
    }

    /// Gives the first site the whole region as its cell.
    pub fn init_cell(&mut self, point: &VoronoiCenterPoint) -> (r: Result<CellId, InsertError>)
        requires
            old(self).wf(),
            old(self).cells.len() == 0,
            point.pos.within(REGION_MAX as int),
            strictly_inside(region_edges(old(self).outbound.points@), point.pos),
        ensures
            final(self).wf(),
            final(self).outbound == old(self).outbound,
            r is Err ==> *final(self) == *old(self),
            r is Ok == (build_cell_spec(0, *point, boundary_lines(old(self)@.outbound)).ring().len()
                >= 3),
            r is Ok ==> r == Ok::<CellId, InsertError>(0) && final(self)@.cells == seq![
                build_cell_spec(0, *point, boundary_lines(old(self)@.outbound)),
            ],
            r is Err ==> r == Err::<CellId, InsertError>(InsertError::Degenerate),
            r is Ok ==> final(self).cells.len() == 1 && final(self).cells[0].point == *point,
    {
        let n: usize = self.outbound.points.len();
        let ghost ring = self.outbound.points@;
        let mut lines: Vec<VoronoiLine> = Vec::new();
        let mut i: usize = 0;
        while i < n
            invariant
                i <= n,
                n == self.outbound.points.len(),
                n >= 3,
                ring == self.outbound.points@,
                vertices_within(ring, REGION_MAX as int),
                lines.len() == i,
                forall|k: int| 0 <= k < i ==> #[trigger] lines[k] == boundary_lines(ring)[k],
            decreases n - i,
        {
            let next: usize = if i + 1 == n {
                0
            } else {
                i + 1
            };
            proof {
                if i + 1 == n {
                    vstd::arithmetic::div_mod::lemma_mod_self_0(n as int);
                } else {
                    vstd::arithmetic::div_mod::lemma_small_mod((i + 1) as nat, n as nat);
                }
            }
            lines.push(VoronoiLine::new(self.outbound.points[i], self.outbound.points[next]));
            i = i + 1;
        }
        proof {
            assert(lines@ =~= boundary_lines(ring));
            assert forall|k: int| 0 <= k < lines.len() implies (#[trigger] lines[k]).within(
                REGION_MAX as int,
            ) && lines[k].cells.admits(0) by {
                let j = (k + 1) % (n as int);
                vstd::arithmetic::div_mod::lemma_mod_bound(k + 1, n as int);
                assert(ring[k].pos.within(REGION_MAX as int));
                assert(ring[j].pos.within(REGION_MAX as int));
            }
        }
        match build_cell(0, point, &lines) {
            None => Err(InsertError::Degenerate),
            Some(cell) => {
                self.cells.push(cell);
                proof {
                    assert(cell_views(self.cells@) =~= seq![cell@]);
                }
                Ok(0)
            },
        }
    }

    /// Puts each carved cell in the place of the cell it was carved from.
    fn commit(&mut self, carved: Vec<VoronoiCell>)
        requires
            old(self).cells_in_place(),
            forall|k: int|
                0 <= k < carved.len() ==> (#[trigger] carved[k]).wf()
                    && carved[k].cell_id < old(self).cells.len()
                    && carved[k].point == old(self).cells[carved[k].cell_id as int].point,
            forall|a: int, b: int|
                0 <= a < b < carved.len() ==> (#[trigger] carved[a]).cell_id != (
                #[trigger] carved[b]).cell_id,
        ensures
            forall|k: int|
                0 <= k < carved.len() ==> final(self).cells[(#[trigger] carved[k]).cell_id as int]
                    == carved[k],
            forall|i: int|
                0 <= i < old(self).cells.len() ==> #[trigger] final(self).cells[i] == old(
                    self,
                ).cells[i] || carved@.contains(final(self).cells[i]),
            final(self).cells_in_place(),
            final(self).outbound == old(self).outbound,
            final(self).cells.len() == old(self).cells.len(),
            final(self)@.cells == commit_spec(old(self)@.cells, cell_views(carved@)),
            forall|i: int|
                0 <= i < old(self).cells.len() ==> (#[trigger] final(self).cells[i]).point
                    == old(self).cells[i].point,
    {
        let mut carved = carved;
        let ghost first_cells = self.cells@;
        let ghost first_carved = carved@;
        proof {
            crate::seq_lemmas::lemma_take_all(first_carved);
        }
        while carved.len() > 0
            invariant
                self.cells_in_place(),
                forall|i: int|
                    0 <= i < first_cells.len() ==> #[trigger] self.cells[i] == first_cells[i]
                        || first_carved.contains(self.cells[i]),
                self.outbound == old(self).outbound,
                self.cells.len() == first_cells.len(),
                first_cells == old(self).cells@,
                forall|i: int|
                    0 <= i < first_cells.len() ==> (#[trigger] self.cells[i]).point
                        == first_cells[i].point,
                forall|k: int|
                    0 <= k < carved.len() ==> (#[trigger] carved[k]).wf() && carved[k].cell_id
                        < first_cells.len() && carved[k].point
                        == first_cells[carved[k].cell_id as int].point,
                commit_spec(cell_views(self.cells@), cell_views(carved@)) == commit_spec(
                    cell_views(first_cells),
                    cell_views(first_carved),
                ),
                carved.len() <= first_carved.len(),
                carved@ == first_carved.take(carved.len() as int),
                forall|k: int|
                    0 <= k < first_carved.len() ==> (#[trigger] first_carved[k]).cell_id
                        < first_cells.len(),
                forall|a: int, b: int|
                    0 <= a < b < first_carved.len() ==> (#[trigger] first_carved[a]).cell_id != (
                    #[trigger] first_carved[b]).cell_id,
                forall|k: int|
                    carved.len() <= k < first_carved.len() ==> self.cells[(
                    #[trigger] first_carved[k]).cell_id as int] == first_carved[k],
            decreases carved.len(),
        {
            let ghost before = carved@;
            let ghost cells_before = self.cells@;
            assert(before[before.len() - 1].wf());
            let cell: VoronoiCell = carved.pop().unwrap();
            let id: usize = cell.cell_id as usize;
            proof {
                assert(cell_views(before).last() == cell@);
                assert(cell_views(carved@) =~= cell_views(before).drop_last());
                assert(cell_views(cells_before.update(id as int, cell)) =~= cell_views(
                    cells_before,
                ).update(id as int, cell@));
            }
            self.cells.set(id, cell);
            proof {
                assert(before[before.len() - 1] == first_carved[before.len() - 1]);
                assert(carved@ =~= first_carved.take(carved.len() as int));
                assert(cell == first_carved[carved.len() as int]);
                assert forall|k: int| carved.len() <= k < first_carved.len() implies self.cells[(
                #[trigger] first_carved[k]).cell_id as int] == first_carved[k] by {
                    if k > carved.len() {
                        assert(first_carved[carved.len() as int].cell_id != first_carved[k].cell_id);
                        assert(cells_before[first_carved[k].cell_id as int] == first_carved[k]);
                    }
                }
                assert forall|i: int| 0 <= i < self.cells.len() implies (
                #[trigger] self.cells[i]).wf() && self.cells[i].cell_id == i && self.cells[i].point
                    == first_cells[i].point && strictly_inside(
                    region_edges(self.outbound.points@),
                    self.cells[i].point.pos,
                ) && (self.cells[i] == first_cells[i] || first_carved.contains(
                    self.cells[i],
                )) by {
                    assert(cells_before[i].point == first_cells[i].point);
                    if i != id {
                        assert(self.cells[i] == cells_before[i]);
                    } else {
                        assert(first_carved[carved.len() as int] == self.cells[i]);
                    }
                }
            }
        }
    }

    /// Adds the site `point` to the diagram. Returns the identifier of its
    /// cell. A site that is not added leaves the diagram as it was.
    pub fn add_point(&mut self, point: &VoronoiCenterPoint) -> (r: Result<CellId, InsertError>)
        requires
            old(self).wf(),
            old(self).cells.len() < u32::MAX,
        ensures
            (final(self)@, r) == add_point_spec(old(self)@, *point),
            final(self).wf(),
            final(self).outbound == old(self).outbound,
            r is Err ==> *final(self) == *old(self),
            r is Ok ==> r == Ok::<CellId, InsertError>(old(self).cells.len() as CellId)
                && final(self).cells.len() == old(self).cells.len() + 1
                && final(self).cells[old(self).cells.len() as int].point == *point,
            forall|i: int|
                0 <= i < old(self).cells.len() ==> (#[trigger] final(self).cells[i]).point
                    == old(self).cells[i].point,
            has_site_at(old(self)@.cells, point.pos) ==> r is Err,
            r is Ok ==> strictly_inside(region_edges(old(self).outbound.points@), point.pos),
            r is Ok ==> new_edges_shared(final(self)@.cells),
    {
        reveal(add_point_spec);
        let in_box: bool = -REGION_MAX <= point.pos.x && point.pos.x <= REGION_MAX && -REGION_MAX
            <= point.pos.y && point.pos.y <= REGION_MAX;
        if !in_box {
            return Err(InsertError::SiteOutsideBounds);
        }
        match classify(&self.outbound, point.pos) {
            RegionSide::Outside => {
                return Err(InsertError::SiteOutsideBounds);
            },
            RegionSide::Boundary => {
                return Err(InsertError::Degenerate);
            },
            RegionSide::Inside => {},
        }
        if self.has_site(point.pos) {
            return Err(InsertError::DuplicateSite);
        }
        if self.cells.len() == 0 {
            return self.init_cell(point);
        }
        let next_cell_id: CellId = self.cells.len() as CellId;
        let start: CellId = match self.locate(point.pos) {
            None => {
                return Err(InsertError::SiteOutsideBounds);
            },
            Some(start) => start,
        };
        let st: WalkState = match walk(&self.cells, point, next_cell_id, start) {
            None => {
                return Err(InsertError::Degenerate);
            },
            Some(st) => st,
        };
        let ghost w = st@;
        let WalkState { current: _, checked: _, pending: _, lines, corners, carved } = st;
        proof {
            assert forall|k: int| 0 <= k < lines.len() implies (#[trigger] lines[k]).cells.admits(
                next_cell_id,
            ) by {
                assert(lines[k].cells.has(next_cell_id));
            }
        }
        let ghost middle = lines@;
        let closed: Vec<VoronoiLine> = new_cell_lines(lines, &corners, next_cell_id);
        proof {
            assert forall|k: int| 0 <= k < closed.len() implies (#[trigger] closed[k]).cells.below(
                next_cell_id + 1,
            ) by {
                if k < middle.len() {
                    assert(closed[k] == middle[k]);
                    assert(carved[k].cell_id < self.cells.len());
                    assert(middle[k].cells == IdSet::empty_spec().insert_spec(
                        carved[k].cell_id,
                    ).insert_spec(next_cell_id));
                } else {
                    assert(closed[k].cells == IdSet::empty_spec());
                }
            }
        }
        let cell: VoronoiCell = match build_cell(next_cell_id, point, &closed) {
            None => {
                return Err(InsertError::Degenerate);
            },
            Some(cell) => cell,
        };
        let ghost before = self.cells@;
        let ghost carved_cells = carved@;
        let ghost middle_lines = w.lines;
        proof {
            assert forall|a: int, b: int| 0 <= a < b < carved.len() implies (
            #[trigger] carved[a]).cell_id != (#[trigger] carved[b]).cell_id by {}
        }
        self.commit(carved);
        let ghost committed = self.cells@;
        self.cells.push(cell);
        proof {
            let views = cell_views(self.cells@);
            assert(views.last() == cell@);
            assert forall|k: int|
                0 <= k < cell@.lines.len() && (#[trigger] cell@.lines[k]).cells.n == 2 implies {
                let other = cell@.lines[k].cells.other_than(next_cell_id);
                &&& other is Some
                &&& other->0 < views.len() - 1
                &&& views[other->0 as int].lines.contains(cell@.lines[k])
            } by {
                assert(cell@.lines[k] == named(next_cell_id)(closed@[k]));
                if k < middle_lines.len() {
                    assert(closed@[k] == middle_lines[k]);
                    let from = carved_cells[k];
                    assert(from.cell_id < before.len());
                    assert(committed[from.cell_id as int] == from);
                    assert(self.cells@[from.cell_id as int] == from);
                    assert(views[from.cell_id as int] == from@);
                    assert(from@.lines[from@.lines.len() - 1] == middle_lines[k]);
                } else {
                    assert(closed@[k].cells == IdSet::empty_spec());
                }
            }
            assert forall|i: int| 0 <= i < self.cells.len() implies (
            #[trigger] self.cells[i])@.edges_below(self.cells.len() as int) by {
                if i < committed.len() {
                    assert(self.cells[i] == committed[i]);
                    if committed[i] == before[i] {
                        assert(before[i]@.edges_below(before.len() as int));
                        assert forall|k: int| 0 <= k < before[i]@.lines.len() implies (
                        #[trigger] before[i]@.lines[k]).cells.below(self.cells.len() as int) by {
                            assert(before[i]@.lines[k].cells.below(before.len() as int));
                        }
                    } else {
                        assert(carved_cells.contains(committed[i]));
                        let k = choose|k: int|
                            0 <= k < carved_cells.len() && carved_cells[k] == committed[i];
                        assert(carved_cells[k]@.edges_below(next_cell_id + 1));
                    }
                }
            }
        }
        proof {
            assert(cell_views(self.cells@) =~= cell_views(committed).push(cell@));
            assert forall|i: int| 0 <= i < self.cells.len() implies (#[trigger] self.cells[i]).wf()
                && self.cells[i].cell_id == i && strictly_inside(
                region_edges(self.outbound.points@),
                self.cells[i].point.pos,
            ) by {
                if i < committed.len() {
                    assert(self.cells[i] == committed[i]);
                    assert(committed[i].point == before[i].point);
                }
            }
        }
        Ok(next_cell_id)
    }

    /// Adds the sites in a random order; a site that cannot be added is
    /// passed over. `points` holds the sites in the order in which they
    /// were added.
    pub fn calculate_diagram(&mut self, points: &mut Vec<VoronoiCenterPoint>)
        requires
            old(self).wf(),
            old(self).cells.len() + old(points).len() < u32::MAX,
        ensures
            final(points)@.to_multiset() == old(points)@.to_multiset(),
            final(self)@ == insert_all_spec(old(self)@, final(points)@),
            final(self).wf(),
            final(self).outbound == old(self).outbound,
            final(self).cells.len() == old(self).cells.len() + accepted_count(
                old(self)@,
                final(points)@,
            ),
    {
        shuffle_sites(points);
        self.insert_all(points);
    }

    /// Adds the sites one after the other; a site that cannot be added is
    /// passed over. Returns how many were added.
    pub fn insert_all(&mut self, points: &Vec<VoronoiCenterPoint>) -> (added: usize)
        requires
            old(self).wf(),
            old(self).cells.len() + points.len() < u32::MAX,
        ensures
            final(self)@ == insert_all_spec(old(self)@, points@),
            final(self).wf(),
            final(self).outbound == old(self).outbound,
            final(self).cells.len() == old(self).cells.len() + added,
            added == accepted_count(old(self)@, points@),
    {
        let mut added: usize = 0;
        let mut i: usize = 0;
        while i < points.len()
            invariant
                i <= points.len(),
                added <= i,
                self.wf(),
                self.outbound == old(self).outbound,
                self.cells.len() == old(self).cells.len() + added,
                old(self).cells.len() + points.len() < u32::MAX,
                self@ == insert_all_spec(old(self)@, points@.take(i as int)),
                added == accepted_count(old(self)@, points@.take(i as int)),
            decreases points.len() - i,
        {
            proof {
                crate::seq_lemmas::lemma_take_step(points@, i as int);
            }
            match self.add_point(&points[i]) {
                Ok(_) => {
                    added = added + 1;
                },
                Err(_) => {},
            }
            i = i + 1;
        }
        proof {
            crate::seq_lemmas::lemma_take_all(points@);
        }
        added
    }
}

} // verus!
