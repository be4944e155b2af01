//! The walk over the cells that a new site carves.
//!
//! Starting from the cell that holds the new site, each visited cell is
//! carved along the bisector between its site and the new one. The cells
//! across the crossed edges, and the neighbors that the carving took away,
//! are visited next. Carved cells are collected beside the diagram, which
//! stays as it is until the walk has succeeded.

use crate::geometry::line::Line;
use crate::geometry::vec2d::Vec2d;
use crate::geometry::voronoi_diagram::id_set::IdSet;
use crate::geometry::voronoi_diagram::types::{
    carve_spec, contains_id, edges_within, lemma_updated_lines, neighbor_ids, updated_lines,
    vertices_within, CellId, CellView, DivideInfo, VoronoiCell, VoronoiCenterPoint, VoronoiLine,
    VoronoiPoint, REGION_MAX,
};
use crate::seq_lemmas::{lemma_filter_take_step, lemma_take_all};
use vstd::prelude::*;

verus! {

/// The length of the bisector segments: 5, more than the diameter of any
/// bounding region.
pub const BISECTOR_LENGTH: i64 = 21_474_836_480;

/// The state of a walk, as a value.
pub struct Walk {
    /// The cell to carve next.
    pub current: CellId,
    /// For each cell of the diagram, whether it has been carved.
    pub checked: Seq<bool>,
    /// The cells still to visit; the last one is visited first.
    pub pending: Seq<CellId>,
    /// The edges of the new cell found so far: one middle line per carved cell.
    pub lines: Seq<VoronoiLine>,
    /// The corners of the bounding region that go to the new cell.
    pub corners: Seq<VoronoiPoint>,
    /// The carved cells, in the order of the visits.
    pub carved: Seq<CellView>,
}

/// The state of a walk.
#[derive(Debug)]
pub struct WalkState {
    pub current: CellId,
    pub checked: Vec<bool>,
    pub pending: Vec<CellId>,
    pub lines: Vec<VoronoiLine>,
    pub corners: Vec<VoronoiPoint>,
    pub carved: Vec<VoronoiCell>,
}

/// The cells as values.
pub open spec fn cell_views(cells: Seq<VoronoiCell>) -> Seq<CellView> {
    cells.map_values(|c: VoronoiCell| c@)
}

impl View for WalkState {
    type V = Walk;

    open spec fn view(&self) -> Walk {
        Walk {
            current: self.current,
            checked: self.checked@,
            pending: self.pending@,
            lines: self.lines@,
            corners: self.corners@,
            carved: cell_views(self.carved@),
        }
    }
}

/// The cell `id` exists and has not been carved.
pub open spec fn is_unchecked(checked: Seq<bool>) -> spec_fn(CellId) -> bool {
    |id: CellId| id < checked.len() && !checked[id as int]
}

/// The cell `id` is not among `new_ids`, exists and has not been carved.
pub open spec fn is_gone(new_ids: Seq<CellId>, checked: Seq<bool>) -> spec_fn(CellId) -> bool {
    |id: CellId| !new_ids.contains(id) && id < checked.len() && !checked[id as int]
}

/// The vertex is a corner of the bounding region.
pub open spec fn is_corner_point() -> spec_fn(VoronoiPoint) -> bool {
    |p: VoronoiPoint| p.is_corner
}

/// The identifier is another one than `id`.
pub open spec fn differs_from(id: CellId) -> spec_fn(CellId) -> bool {
    |x: CellId| x != id
}

/// Every pending cell exists and has not been carved.
pub open spec fn pending_ok(pending: Seq<CellId>, checked: Seq<bool>) -> bool {
    forall|k: int| 0 <= k < pending.len() ==> is_unchecked(checked)(#[trigger] pending[k])
}

/// How many cells have not been carved.
pub open spec fn unchecked_count(checked: Seq<bool>) -> nat
    decreases checked.len(),
{
    if checked.len() == 0 {
        0
    } else {
        unchecked_count(checked.drop_last()) + if checked.last() {
            0nat
        } else {
            1nat
        }
    }
}

/// The walk before its first visit, at the cell `start` of `n` cells.
pub open spec fn start_walk(start: CellId, n: nat) -> Walk {
    Walk {
        current: start,
        checked: Seq::new(n, |i: int| false),
        pending: Seq::empty(),
        lines: Seq::empty(),
        corners: Seq::empty(),
        carved: Seq::empty(),
    }
}

/// The visit of the current cell: it is carved along the bisector between
/// `site` and its own site. `None` when the carving fails or leaves a ring
/// of fewer than three vertices.
pub open spec fn visit_spec(cells: Seq<CellView>, site: Vec2d, next_cell_id: CellId, w: Walk) -> Option<
    Walk,
> {
    let cell = cells[w.current as int];
    let bisector = Line::vertical_bisector_spec(site, cell.point.pos, BISECTOR_LENGTH as int);
    match carve_spec(cell.cell_id, cell.point.pos, cell.lines, cell.ring(), bisector, next_cell_id) {
        None => None,
        Some(info) => {
            let carved = CellView {
                cell_id: cell.cell_id,
                point: cell.point,
                lines: updated_lines(cell.point.pos, cell.lines, info),
            };
            let checked = w.checked.update(w.current as int, true);
            if carved.ring().len() < 3 {
                None
            } else {
                Some(
                    Walk {
                        current: w.current,
                        checked,
                        pending: w.pending + info.new_neighbors.filter(is_unchecked(checked))
                            + neighbor_ids(cell.lines).filter(
                            is_gone(neighbor_ids(carved.lines), checked),
                        ),
                        lines: w.lines.push(info.middle_line),
                        corners: w.corners + info.separated_points.filter(is_corner_point()),
                        carved: w.carved.push(carved),
                    },
                )
            }
        },
    }
}

/// The walk with the last pending cell made current and taken off the
/// pending cells, wherever it stands among them.
pub open spec fn advance_spec(w: Walk) -> Walk {
    let next = w.pending.last();
    Walk {
        current: next,
        checked: w.checked,
        pending: w.pending.drop_last().filter(differs_from(next)),
        lines: w.lines,
        corners: w.corners,
        carved: w.carved,
    }
}

/// The walk from the state `w` on, to its end: the state after the last
/// visit, or `None` when a visit fails.
pub open spec fn walk_spec(cells: Seq<CellView>, site: Vec2d, next_cell_id: CellId, w: Walk) -> Option<
    Walk,
>
    decreases unchecked_count(w.checked),
{
    if !(w.current < w.checked.len() && !w.checked[w.current as int]) {
        None
    } else {
        match visit_spec(cells, site, next_cell_id, w) {
            None => None,
            Some(v) => {
                if v.pending.len() == 0 {
                    Some(v)
                } else {
                    proof {
                        lemma_check_decreases(w.checked, w.current as int);
                    }
                    walk_spec(cells, site, next_cell_id, advance_spec(v))
                }
            },
        }
    }
}

/// Marking a cell that was not carved leaves one cell fewer to carve.
pub proof fn lemma_check_decreases(checked: Seq<bool>, i: int)
    requires
        0 <= i < checked.len(),
        !checked[i],
    ensures
        unchecked_count(checked.update(i, true)) + 1 == unchecked_count(checked),
    decreases checked.len(),
{
    let after = checked.update(i, true);
    if i == checked.len() - 1 {
        assert(after.drop_last() =~= checked.drop_last());
    } else {
        lemma_check_decreases(checked.drop_last(), i);
        assert(after.drop_last() =~= checked.drop_last().update(i, true));
    }
}

impl WalkState {
    /// What a walk keeps true between visits, for a diagram with the given
    /// cells and a new cell `next_cell_id`: every carved cell is a cell of a
    /// diagram and has the site of the cell it was carved from, every edge
    /// found for the new cell names it, and nothing has left the coordinate
    /// range of diagrams.
    pub open spec fn inv(self, cells: Seq<VoronoiCell>, next_cell_id: CellId) -> bool {
        &&& self.checked.len() == cells.len()
        &&& forall|k: int|
            0 <= k < self.carved.len() ==> (#[trigger] self.carved[k]).wf() && self.carved[k].cell_id
                < cells.len() && self.carved[k].point == cells[self.carved[k].cell_id as int].point
        &&& edges_within(self.lines@, REGION_MAX as int)
        &&& forall|k: int|
            0 <= k < self.lines.len() ==> (#[trigger] self.lines[k]).cells.has(next_cell_id)
        &&& vertices_within(self.corners@, REGION_MAX as int)
        &&& self.middle_lines_shared(next_cell_id)
        &&& forall|k: int|
            0 <= k < self.carved.len() ==> (#[trigger] self.carved[k])@.edges_below(
                next_cell_id + 1,
            )
    }

    /// Each carved cell was carved once, and the last of its edges is the
    /// middle line that the new cell got from it: the same edge, bounding
    /// the carved cell and the new one.
    pub open spec fn middle_lines_shared(self, next_cell_id: CellId) -> bool {
        &&& self.lines.len() == self.carved.len()
        &&& forall|k: int|
            0 <= k < self.carved.len() ==> {
                &&& (#[trigger] self.carved[k]).cell_id < self.checked.len()
                &&& self.checked[self.carved[k].cell_id as int]
                &&& self.carved[k].lines.len() > 0
                &&& self.carved[k].lines@.last() == self.lines[k]
                &&& self.lines[k].cells == IdSet::empty_spec().insert_spec(
                    self.carved[k].cell_id,
                ).insert_spec(next_cell_id)
            }
        &&& forall|a: int, b: int|
            0 <= a < b < self.carved.len() ==> (#[trigger] self.carved[a]).cell_id != (
            #[trigger] self.carved[b]).cell_id
    }

    /// The state before the first visit.
    pub fn start(start: CellId, n: usize) -> (st: WalkState)
        ensures
            st@ == start_walk(start, n as nat),
            st.carved.len() == 0,
            st.lines.len() == 0,
            st.corners.len() == 0,
    {
        let mut checked: Vec<bool> = Vec::new();
        let mut i: usize = 0;
        while i < n
            invariant
                i <= n,
                checked.len() == i,
                forall|k: int| 0 <= k < i ==> !checked[k],
            decreases n - i,
        {
            checked.push(false);
            i = i + 1;
        }
        let st = WalkState {
            current: start,
            checked,
            pending: Vec::new(),
            lines: Vec::new(),
            corners: Vec::new(),
            carved: Vec::new(),
        };
        proof {
            assert(st.checked@ =~= Seq::new(n as nat, |i: int| false));
            assert(cell_views(st.carved@) =~= Seq::empty());
            assert(st.pending@ =~= Seq::empty());
            assert(st.lines@ =~= Seq::empty());
            assert(st.corners@ =~= Seq::empty());
        }
        st
    }
}

/// Appends to `pending` the identifiers of `ids` that exist and have not
/// been carved.
pub fn push_unchecked(pending: &mut Vec<CellId>, ids: &Vec<CellId>, checked: &Vec<bool>)
    ensures
        final(pending)@ == old(pending)@ + ids@.filter(is_unchecked(checked@)),
        pending_ok(old(pending)@, checked@) ==> pending_ok(final(pending)@, checked@),
{
    let ghost start = pending@;
    let mut i: usize = 0;
    while i < ids.len()
        invariant
            i <= ids.len(),
            pending@ == start + ids@.take(i as int).filter(is_unchecked(checked@)),
            pending_ok(start, checked@) ==> pending_ok(pending@, checked@),
        decreases ids.len() - i,
    {
        let id: CellId = ids[i];
        proof {
            lemma_filter_take_step(ids@, is_unchecked(checked@), i as int);
            let sub = ids@.take(i as int).filter(is_unchecked(checked@));
            assert((start + sub).push(id) =~= start + sub.push(id));
        }
        if (id as usize) < checked.len() && !checked[id as usize] {
            pending.push(id);
        }
        i = i + 1;
    }
    proof {
        lemma_take_all(ids@);
    }
}

/// Appends to `pending` the identifiers of `ids` that are not among
/// `new_ids`, exist and have not been carved.
pub fn push_gone(
    pending: &mut Vec<CellId>,
    ids: &Vec<CellId>,
    new_ids: &Vec<CellId>,
    checked: &Vec<bool>,
)
    ensures
        final(pending)@ == old(pending)@ + ids@.filter(is_gone(new_ids@, checked@)),
        pending_ok(old(pending)@, checked@) ==> pending_ok(final(pending)@, checked@),
{
    let ghost start = pending@;
    let mut i: usize = 0;
    while i < ids.len()
        invariant
            i <= ids.len(),
            pending@ == start + ids@.take(i as int).filter(is_gone(new_ids@, checked@)),
            pending_ok(start, checked@) ==> pending_ok(pending@, checked@),
        decreases ids.len() - i,
    {
        let id: CellId = ids[i];
        proof {
            lemma_filter_take_step(ids@, is_gone(new_ids@, checked@), i as int);
            let sub = ids@.take(i as int).filter(is_gone(new_ids@, checked@));
            assert((start + sub).push(id) =~= start + sub.push(id));
        }
        if !contains_id(new_ids, id) && (id as usize) < checked.len() && !checked[id as usize] {
            pending.push(id);
        }
        i = i + 1;
    }
    proof {
        lemma_take_all(ids@);
    }
}

/// Appends to `corners` the points of `points` that are corners of the
/// bounding region.
pub fn push_corners(corners: &mut Vec<VoronoiPoint>, points: &Vec<VoronoiPoint>)
    ensures
        final(corners)@ == old(corners)@ + points@.filter(is_corner_point()),
        forall|b: int|
            vertices_within(old(corners)@, b) && vertices_within(points@, b) ==> vertices_within(
                final(corners)@,
                b,
            ),
{
    let ghost start = corners@;
    let mut i: usize = 0;
    while i < points.len()
        invariant
            i <= points.len(),
            corners@ == start + points@.take(i as int).filter(is_corner_point()),
            forall|b: int|
                vertices_within(start, b) && vertices_within(points@, b) ==> vertices_within(
                    corners@,
                    b,
                ),
        decreases points.len() - i,
    {
        let point: VoronoiPoint = points[i];
        proof {
            lemma_filter_take_step(points@, is_corner_point(), i as int);
            let sub = points@.take(i as int).filter(is_corner_point());
            assert((start + sub).push(point) =~= start + sub.push(point));
        }
        if point.is_corner {
            let ghost before = corners@;
            corners.push(point);
            proof {
                assert forall|b: int|
                    vertices_within(start, b) && vertices_within(points@, b) implies vertices_within(
                    corners@,
                    b,
                ) by {
                    assert(vertices_within(before, b));
                    assert(points@[i as int].pos.within(b));
                    assert forall|k: int| 0 <= k < corners@.len() implies (
                    #[trigger] corners@[k]).pos.within(b) by {
                        if k < before.len() {
                            assert(corners@[k] == before[k]);
                        }
                    }
                }
            }
        }
        i = i + 1;
    }
    proof {
        lemma_take_all(points@);
    }
}

/// The identifiers of `ids` other than `id`, in their order.
pub fn remove_id(ids: &Vec<CellId>, id: CellId) -> (r: Vec<CellId>)
    ensures
        r@ == ids@.filter(differs_from(id)),
        forall|k: int| 0 <= k < r.len() ==> #[trigger] r[k] != id && ids@.contains(r[k]),
{
    let mut r: Vec<CellId> = Vec::new();
    let mut i: usize = 0;
    while i < ids.len()
        invariant
            i <= ids.len(),
            r@ == ids@.take(i as int).filter(differs_from(id)),
            forall|k: int| 0 <= k < r.len() ==> #[trigger] r[k] != id && ids@.contains(r[k]),
        decreases ids.len() - i,
    {
        proof {
            lemma_filter_take_step(ids@, differs_from(id), i as int);
        }
        if ids[i] != id {
            r.push(ids[i]);
        }
        i = i + 1;
    }
    proof {
        lemma_take_all(ids@);
    }
    r
}

/// Every cell is a cell of a diagram, and its identifier is its index.
pub open spec fn cells_wf(cells: Seq<VoronoiCell>) -> bool {
    forall|i: int| 0 <= i < cells.len() ==> (#[trigger] cells[i]).wf() && cells[i].cell_id == i
}

/// Every edge of every cell bounds one or two cells, and these are cells
/// of the diagram.
pub open spec fn adjacency_named(cells: Seq<VoronoiCell>) -> bool {
    forall|i: int| 0 <= i < cells.len() ==> (#[trigger] cells[i])@.edges_below(cells.len() as int)
}

/// No pending cell is the current one.
pub open spec fn current_not_pending(w: Walk) -> bool {
    forall|k: int| 0 <= k < w.pending.len() ==> #[trigger] w.pending[k] != w.current
}

/// Visits the current cell of the walk: carves it along the bisector
/// between its site and `site`, and notes what the carving gives. Returns
/// whether the carving succeeded; the state is unchanged when it did not.
pub fn visit(
    cells: &Vec<VoronoiCell>,
    site: &VoronoiCenterPoint,
    next_cell_id: CellId,
    st: &mut WalkState,
) -> (ok: bool)
    requires
        cells_wf(cells@),
        site.pos.within(REGION_MAX as int),
        adjacency_named(cells@),
        next_cell_id == cells.len(),
        old(st).current < cells.len(),
        !old(st).checked[old(st).current as int],
        old(st).inv(cells@, next_cell_id),
    ensures
        ok == visit_spec(cell_views(cells@), site.pos, next_cell_id, old(st)@) is Some,
        ok ==> Some(final(st)@) == visit_spec(
            cell_views(cells@),
            site.pos,
            next_cell_id,
            old(st)@,
        ),
        ok ==> final(st).inv(cells@, next_cell_id),
        ok && pending_ok(old(st).pending@, old(st).checked@) && current_not_pending(old(st)@)
            ==> pending_ok(final(st).pending@, final(st).checked@),
        !ok ==> *final(st) == *old(st),
{
    let cur: usize = st.current as usize;
    let cell: &VoronoiCell = &cells[cur];
    assert(cell.wf());
    assert(cell@.edges_below(next_cell_id + 1)) by {
        assert(cells@[cur as int]@.edges_below(cells.len() as int));
        assert forall|i: int| 0 <= i < cell@.lines.len() implies (
        #[trigger] cell@.lines[i]).cells.below(next_cell_id + 1) by {
            assert(cell@.lines[i].cells.below(cells.len() as int));
        }
    }
    assert(cell_views(cells@)[cur as int] == cell@);
    let middle_line: Line = Line::vertical_bisector(site.pos, cell.point.pos, BISECTOR_LENGTH);
    let info: DivideInfo = match cell.intersect_with_bounds(&middle_line, next_cell_id) {
        Some(info) => info,
        None => {
            return false;
        },
    };
    let carved: VoronoiCell = cell.carved(&info);
    if carved.bound.points.len() < 3 {
        return false;
    }
    proof {
        lemma_updated_lines(
            cell.cell_id,
            cell.point.pos,
            cell.lines@,
            info@,
            REGION_MAX as int,
        );
        assert forall|i: int| 0 <= i < carved@.lines.len() implies (
        #[trigger] carved@.lines[i]).cells.has(carved@.cell_id) by {
            let l = carved@.lines[i];
            assert(updated_lines(cell.point.pos, cell.lines@, info@).contains(l));
            if cell.lines@.contains(l) {
                let j = choose|j: int| 0 <= j < cell.lines@.len() && cell.lines@[j] == l;
                assert(cell@.lines[j].cells.has(cell.cell_id));
            } else if info@.cut_lines.contains(l) {
                let j = choose|j: int| 0 <= j < info.cut_lines@.len() && info.cut_lines@[j] == l;
                assert(info.cut_lines[j].cells.has(cell.cell_id));
            }
        }
        assert(carved.wf());
        assert forall|i: int| 0 <= i < carved@.lines.len() implies (
        #[trigger] carved@.lines[i]).cells.below(next_cell_id + 1) by {
            let l = carved@.lines[i];
            assert(updated_lines(cell.point.pos, cell.lines@, info@).contains(l));
            if cell.lines@.contains(l) {
                let j = choose|j: int| 0 <= j < cell.lines@.len() && cell.lines@[j] == l;
                assert(cell@.lines[j].cells.below(next_cell_id + 1));
            } else if info@.cut_lines.contains(l) {
                let j = choose|j: int| 0 <= j < info.cut_lines@.len() && info.cut_lines@[j] == l;
                assert(info.cut_lines[j].cells.below(next_cell_id + 1));
            }
        }
    }
    let ghost before = st@;
    let ghost old_carved = st.carved@;
    let ghost old_lines = st.lines@;
    st.checked.set(cur, true);
    proof {
        assert forall|k: int| 0 <= k < before.pending.len() && pending_ok(
            before.pending,
            before.checked,
        ) && current_not_pending(before) implies is_unchecked(st.checked@)(
            #[trigger] before.pending[k],
        ) by {
            assert(is_unchecked(before.checked)(before.pending[k]));
        }
    }
    push_unchecked(&mut st.pending, &info.new_neighbors, &st.checked);
    st.lines.push(info.middle_line);
    push_corners(&mut st.corners, &info.separated_points);
    let old_neighbors: Vec<CellId> = cell.get_neighbor_cells();
    let new_neighbors: Vec<CellId> = carved.get_neighbor_cells();
    push_gone(&mut st.pending, &old_neighbors, &new_neighbors, &st.checked);
    st.carved.push(carved);
    proof {
        assert(cell_views(st.carved@) =~= cell_views(old_carved).push(carved@));
        assert(st.pending@ =~= before.pending + info.new_neighbors@.filter(
            is_unchecked(st.checked@),
        ) + old_neighbors@.filter(is_gone(new_neighbors@, st.checked@)));
        assert forall|k: int| 0 <= k < st.carved.len() implies (#[trigger] st.carved[k]).wf()
            && st.carved[k].cell_id < cells.len() && st.carved[k]@.edges_below(next_cell_id + 1)
            && st.carved[k].point == cells[st.carved[k].cell_id as int].point by {
            if k < old_carved.len() {
                assert(st.carved[k] == old_carved[k]);
            }
        }
        assert forall|k: int| 0 <= k < st.lines.len() implies (#[trigger] st.lines[k]).within(
            REGION_MAX as int,
        ) && st.lines[k].cells.has(next_cell_id) by {
            if k < old_lines.len() {
                assert(st.lines[k] == old_lines[k]);
            }
        }
        assert forall|k: int| 0 <= k < st.carved.len() implies {
            &&& (#[trigger] st.carved[k]).cell_id < st.checked.len()
            &&& st.checked[st.carved[k].cell_id as int]
            &&& st.carved[k].lines.len() > 0
            &&& st.carved[k].lines@.last() == st.lines[k]
            &&& st.lines[k].cells == IdSet::empty_spec().insert_spec(
                st.carved[k].cell_id,
            ).insert_spec(next_cell_id)
        } by {
            if k < old_carved.len() {
                assert(st.carved[k] == old_carved[k]);
                assert(st.lines[k] == old_lines[k]);
            }
        }
        assert forall|a: int, b: int| 0 <= a < b < st.carved.len() implies (
        #[trigger] st.carved[a]).cell_id != (#[trigger] st.carved[b]).cell_id by {
            assert(st.carved[a] == old_carved[a]);
            if b < old_carved.len() {
                assert(st.carved[b] == old_carved[b]);
            } else {
                assert(before.checked[old_carved[a].cell_id as int]);
            }
        }
    }
    true
}

/// Makes the last pending cell the current one, and takes it off the
/// pending cells.
pub fn advance(st: &mut WalkState)
    requires
        old(st).pending.len() > 0,
    ensures
        final(st)@ == advance_spec(old(st)@),
        final(st).checked == old(st).checked,
        final(st).lines == old(st).lines,
        final(st).corners == old(st).corners,
        final(st).carved == old(st).carved,
        pending_ok(old(st).pending@, old(st).checked@) ==> pending_ok(
            final(st).pending@,
            final(st).checked@,
        ) && is_unchecked(final(st).checked@)(final(st).current),
        current_not_pending(final(st)@),
{
    let ghost before = st.pending@;
    let next: CellId = st.pending.pop().unwrap();
    assert(st.pending@ == before.drop_last());
    st.current = next;
    let rest: Vec<CellId> = remove_id(&st.pending, next);
    proof {
        assert forall|k: int| 0 <= k < rest.len() && pending_ok(
            before,
            st.checked@,
        ) implies is_unchecked(st.checked@)(#[trigger] rest[k]) by {
            assert(before.drop_last().contains(rest[k]));
            let j = choose|j: int| 0 <= j < before.drop_last().len() && before.drop_last()[j] == rest[k];
            assert(before[j] == rest[k]);
        }
        if pending_ok(before, st.checked@) {
            assert(is_unchecked(st.checked@)(before[before.len() - 1]));
        }
    }
    st.pending = rest;
}

/// Walks over the cells that the new site `site` carves, from the cell
/// `start` on. Returns the state after the last visit, or `None` when a
/// carving failed.
pub fn walk(
    cells: &Vec<VoronoiCell>,
    site: &VoronoiCenterPoint,
    next_cell_id: CellId,
    start: CellId,
) -> (r: Option<WalkState>)
    requires
        cells_wf(cells@),
        adjacency_named(cells@),
        next_cell_id == cells.len(),
        site.pos.within(REGION_MAX as int),
        start < cells.len(),
    ensures
        r is Some == walk_spec(
            cell_views(cells@),
            site.pos,
            next_cell_id,
            start_walk(start, cells.len() as nat),
        ) is Some,
        r is Some ==> Some(r->0@) == walk_spec(
            cell_views(cells@),
            site.pos,
            next_cell_id,
            start_walk(start, cells.len() as nat),
        ),
        r is Some ==> r->0.inv(cells@, next_cell_id),
{
    let mut st: WalkState = WalkState::start(start, cells.len());
    let ghost views = cell_views(cells@);
    let ghost first = start_walk(start, cells.len() as nat);
    loop
        invariant
            cells_wf(cells@),
            adjacency_named(cells@),
            next_cell_id == cells.len(),
            views == cell_views(cells@),
            first == start_walk(start, cells.len() as nat),
            site.pos.within(REGION_MAX as int),
            st.current < cells.len(),
            st.inv(cells@, next_cell_id),
            pending_ok(st.pending@, st.checked@),
            current_not_pending(st@),
            !st.checked[st.current as int],
            walk_spec(views, site.pos, next_cell_id, st@) == walk_spec(
                views,
                site.pos,
                next_cell_id,
                first,
            ),
        decreases unchecked_count(st.checked@),
    {
        let ghost before = st@;
        let ok: bool = visit(cells, site, next_cell_id, &mut st);
        if !ok {
            return None;
        }
        proof {
            lemma_check_decreases(before.checked, before.current as int);
        }
        if st.pending.len() == 0 {
            return Some(st);
        }
        advance(&mut st);
    }
}

} // verus!
