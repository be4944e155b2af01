use voronoi::fixed::ONE;
use voronoi::geometry::line::Line;
use voronoi::geometry::vec2d::Vec2d;
use voronoi::geometry::voronoi_diagram::assemble::new_cell_lines;
use voronoi::geometry::voronoi_diagram::id_set::IdSet;
use voronoi::geometry::voronoi_diagram::region::{
    classify, region_of, unit_square, RegionSide,
};
use voronoi::geometry::voronoi_diagram::types::{
    arg2pi_from_center, sort_points_around_center, VoronoiCell, VoronoiCenterPoint, VoronoiLine,
    VoronoiPoint, VoronoiPolygon,
};
use voronoi::geometry::voronoi_diagram::voronoi_diagram::{InsertError, VoronoiDiagram};

fn fx(x: f64) -> i64 {
    (x * 4294967296.0).round() as i64
}

fn v(x: f64, y: f64) -> Vec2d {
    Vec2d { x: fx(x), y: fx(y) }
}

fn site(id: u32, x: f64, y: f64) -> VoronoiCenterPoint {
    VoronoiCenterPoint { node_id: id, pos: v(x, y), cluster_id: id + 100 }
}

fn diagram_of(sites: &[(f64, f64)]) -> (VoronoiDiagram, Vec<Result<u32, InsertError>>) {
    let mut d = VoronoiDiagram::on_unit_square();
    let mut results = Vec::new();
    for (i, s) in sites.iter().enumerate() {
        results.push(d.add_point(&site(i as u32, s.0, s.1)));
    }
    (d, results)
}

fn ring_positions(cell: &VoronoiCell) -> Vec<Vec2d> {
    cell.bound.points.iter().map(|p| p.pos).collect()
}

fn has_edge(cell: &VoronoiCell, a: Vec2d, b: Vec2d, cells: &[u32]) -> bool {
    cell.lines.iter().any(|l| {
        ((l.p1.pos == a && l.p2.pos == b) || (l.p1.pos == b && l.p2.pos == a))
            && l.cells == IdSet::from_vec(&cells.to_vec())
    })
}

fn interior_edges(cell: &VoronoiCell) -> Vec<VoronoiLine> {
    cell.lines.iter().filter(|l| l.cells.len() == 2).cloned().collect()
}

fn snapshot(d: &VoronoiDiagram) -> Vec<(u32, VoronoiCenterPoint, Vec<VoronoiPoint>, Vec<VoronoiLine>)> {
    d.cells.iter().map(|c| (c.cell_id, c.point, c.bound.points.clone(), c.lines.clone())).collect()
}

fn squared_distance(a: Vec2d, b: Vec2d) -> i128 {
    let dx = (a.x - b.x) as i128;
    let dy = (a.y - b.y) as i128;
    dx * dx + dy * dy
}

fn twice_area(ring: &[Vec2d]) -> i128 {
    let mut a: i128 = 0;
    for i in 0..ring.len() {
        let p = ring[i];
        let q = ring[(i + 1) % ring.len()];
        a += (p.x as i128) * (q.y as i128) - (p.y as i128) * (q.x as i128);
    }
    a
}

fn close_to(a: Vec2d, b: Vec2d, tolerance: i64) -> bool {
    (a.x - b.x).abs() <= tolerance && (a.y - b.y).abs() <= tolerance
}

fn generated_sites(seed: u64, n: usize) -> Vec<VoronoiCenterPoint> {
    let mut x = seed;
    let mut sites = Vec::new();
    for i in 0..n {
        x = x.wrapping_mul(6364136223846793005).wrapping_add(1442695040888963407);
        let a = (x >> 32) as i64;
        x = x.wrapping_mul(6364136223846793005).wrapping_add(1442695040888963407);
        let b = (x >> 32) as i64;
        let pos = Vec2d { x: ONE / 10 + a * 8 / 10, y: ONE / 10 + b * 8 / 10 };
        sites.push(VoronoiCenterPoint { node_id: i as u32, pos, cluster_id: 0 });
    }
    sites
}

/// Every sample of a grid lies in exactly one ring, that of the nearest site.
fn badly_placed_samples(d: &VoronoiDiagram, grid: i64) -> usize {
    let mut bad = 0;
    for i in 1..grid {
        for j in 1..grid {
            let q = Vec2d { x: i * ONE / grid + 12345, y: j * ONE / grid + 6789 };
            let holders: Vec<u32> =
                d.cells.iter().filter(|c| c.bound.is_include(q)).map(|c| c.cell_id).collect();
            let nearest =
                d.cells.iter().min_by_key(|c| squared_distance(q, c.point.pos)).unwrap().cell_id;
            if holders.len() != 1 || holders[0] != nearest {
                bad += 1;
            }
        }
    }
    bad
}

#[test]
fn empty_diagram_has_no_cells() {
    let d = VoronoiDiagram::on_unit_square();
    assert_eq!(d.cells.len(), 0);
    assert_eq!(d.outbound.points.len(), 4);
    assert_eq!(d.locate(v(0.5, 0.5)), None);
    assert!(!d.has_site(v(0.5, 0.5)));
}

#[test]
fn new_takes_the_bounding_region() {
    let d = VoronoiDiagram::new(unit_square());
    assert_eq!(d.cells.len(), 0);
    assert_eq!(d.outbound.points[0], VoronoiPoint::corner(v(0.0, 0.0), vec![0, 3]));
    assert_eq!(d.outbound.points[2], VoronoiPoint::corner(v(1.0, 1.0), vec![1, 2]));
    assert_eq!(d.outbound.polygon.lines.len(), 4);
}

#[test]
fn region_classifies_points() {
    let r = unit_square();
    assert_eq!(classify(&r, v(0.5, 0.5)), RegionSide::Inside);
    assert_eq!(classify(&r, v(0.0, 0.5)), RegionSide::Boundary);
    assert_eq!(classify(&r, v(1.0, 1.0)), RegionSide::Boundary);
    assert_eq!(classify(&r, v(1.5, 0.5)), RegionSide::Outside);
    assert_eq!(classify(&r, v(-0.25, -0.25)), RegionSide::Outside);
    assert_eq!(classify(&r, v(2.0, 0.0)), RegionSide::Outside);
}

#[test]
fn single_site_gets_the_whole_square() {
    let (d, results) = diagram_of(&[(0.5, 0.5)]);
    assert_eq!(results, vec![Ok(0)]);
    assert_eq!(d.cells.len(), 1);
    let cell = d.get_cell(0);
    assert_eq!(cell.cell_id, 0);
    assert_eq!(cell.point, site(0, 0.5, 0.5));
    assert_eq!(
        ring_positions(cell),
        vec![v(1.0, 1.0), v(0.0, 1.0), v(0.0, 0.0), v(1.0, 0.0)]
    );
    assert!(cell.bound.points.iter().all(|p| p.is_corner && p.outbounds.len() == 2));
    assert_eq!(cell.lines.len(), 4);
    assert!(has_edge(cell, v(0.0, 0.0), v(1.0, 0.0), &[0]));
    assert!(has_edge(cell, v(1.0, 0.0), v(1.0, 1.0), &[0]));
    assert!(has_edge(cell, v(1.0, 1.0), v(0.0, 1.0), &[0]));
    assert!(has_edge(cell, v(0.0, 1.0), v(0.0, 0.0), &[0]));
    assert_eq!(cell.lines[0].p1, d.outbound.points[0]);
    assert_eq!(cell.lines[0].p2, d.outbound.points[1]);
    assert_eq!(twice_area(&ring_positions(cell)), 2 * (ONE as i128) * (ONE as i128));
}

#[test]
fn two_sites_side_by_side_share_the_vertical_bisector() {
    let (d, results) = diagram_of(&[(0.25, 0.5), (0.75, 0.5)]);
    assert_eq!(results, vec![Ok(0), Ok(1)]);
    assert_eq!(d.cells.len(), 2);
    for id in 0..2 {
        let cell = d.get_cell(id);
        assert!(has_edge(cell, v(0.5, 0.0), v(0.5, 1.0), &[0, 1]));
        assert_eq!(interior_edges(cell).len(), 1);
        assert_eq!(cell.lines.len(), 4);
    }
    assert_eq!(
        ring_positions(d.get_cell(0)),
        vec![v(0.5, 1.0), v(0.0, 1.0), v(0.0, 0.0), v(0.5, 0.0)]
    );
    assert_eq!(
        ring_positions(d.get_cell(1)),
        vec![v(1.0, 1.0), v(0.5, 1.0), v(0.5, 0.0), v(1.0, 0.0)]
    );
    let top = d.get_cell(0).bound.points[0];
    assert!(!top.is_corner);
    assert_eq!(top.outbounds, IdSet::from_vec(&vec![2]));
}

#[test]
fn two_sites_one_above_the_other_share_the_horizontal_bisector() {
    let (d, results) = diagram_of(&[(0.5, 0.25), (0.5, 0.75)]);
    assert_eq!(results, vec![Ok(0), Ok(1)]);
    for id in 0..2 {
        let cell = d.get_cell(id);
        assert!(has_edge(cell, v(0.0, 0.5), v(1.0, 0.5), &[0, 1]));
        assert_eq!(interior_edges(cell).len(), 1);
    }
    assert_eq!(
        ring_positions(d.get_cell(1)),
        vec![v(1.0, 1.0), v(0.0, 1.0), v(0.0, 0.5), v(1.0, 0.5)]
    );
}

#[test]
fn three_collinear_sites_give_two_parallel_interior_edges() {
    let (d, results) = diagram_of(&[(0.25, 0.5), (0.5, 0.5), (0.75, 0.5)]);
    assert_eq!(results, vec![Ok(0), Ok(1), Ok(2)]);
    assert!(has_edge(d.get_cell(0), v(0.375, 0.0), v(0.375, 1.0), &[0, 1]));
    assert!(has_edge(d.get_cell(1), v(0.375, 0.0), v(0.375, 1.0), &[0, 1]));
    assert!(has_edge(d.get_cell(1), v(0.625, 0.0), v(0.625, 1.0), &[1, 2]));
    assert!(has_edge(d.get_cell(2), v(0.625, 0.0), v(0.625, 1.0), &[1, 2]));
    assert_eq!(interior_edges(d.get_cell(0)).len(), 1);
    assert_eq!(interior_edges(d.get_cell(1)).len(), 2);
    assert_eq!(interior_edges(d.get_cell(2)).len(), 1);
    for cell in d.cells.iter() {
        for edge in interior_edges(cell) {
            assert_eq!(edge.p1.pos.x, edge.p2.pos.x);
        }
    }
}

#[test]
fn three_sites_meet_at_the_point_equidistant_from_them() {
    let (d, results) = diagram_of(&[(0.2, 0.2), (0.8, 0.2), (0.5, 0.8)]);
    assert_eq!(results, vec![Ok(0), Ok(1), Ok(2)]);
    let meeting = v(0.5, 0.425);
    for cell in d.cells.iter() {
        let hits: Vec<Vec2d> =
            ring_positions(cell).into_iter().filter(|p| close_to(*p, meeting, 8)).collect();
        assert_eq!(hits.len(), 1);
        let inner: Vec<&VoronoiPoint> =
            cell.bound.points.iter().filter(|p| p.outbounds.is_empty()).collect();
        assert_eq!(inner.len(), 1);
        let d0 = squared_distance(inner[0].pos, d.get_cell(0).point.pos) as f64;
        let d1 = squared_distance(inner[0].pos, d.get_cell(1).point.pos) as f64;
        let d2 = squared_distance(inner[0].pos, d.get_cell(2).point.pos) as f64;
        assert!((d0 - d1).abs() / d0 < 1e-8);
        assert!((d0 - d2).abs() / d0 < 1e-8);
    }
    assert_eq!(d.get_cell(2).bound.points.len(), 5);
    assert_eq!(badly_placed_samples(&d, 20), 0);
}

#[test]
fn inserting_a_site_twice_is_a_duplicate() {
    let mut d = VoronoiDiagram::on_unit_square();
    assert_eq!(d.add_point(&site(0, 0.5, 0.5)), Ok(0));
    let before = snapshot(&d);
    assert_eq!(d.add_point(&site(0, 0.5, 0.5)), Err(InsertError::DuplicateSite));
    assert_eq!(d.add_point(&site(9, 0.5, 0.5)), Err(InsertError::DuplicateSite));
    assert_eq!(snapshot(&d), before);
    assert_eq!(d.cells.len(), 1);
}

#[test]
fn every_existing_site_is_a_duplicate() {
    let sites = generated_sites(7, 12);
    let mut d = VoronoiDiagram::on_unit_square();
    for s in sites.iter() {
        assert!(d.add_point(s).is_ok());
    }
    let before = snapshot(&d);
    for s in sites.iter() {
        assert!(d.has_site(s.pos));
        assert_eq!(d.add_point(s), Err(InsertError::DuplicateSite));
    }
    assert_eq!(snapshot(&d), before);
}

#[test]
fn site_on_the_boundary_is_rejected() {
    for (x, y) in [(0.5, 0.0), (0.0, 0.5), (1.0, 0.5), (0.5, 1.0), (0.0, 0.0), (1.0, 1.0)] {
        let mut d = VoronoiDiagram::on_unit_square();
        assert_eq!(d.add_point(&site(0, x, y)), Err(InsertError::Degenerate));
        assert_eq!(d.cells.len(), 0);
        assert_eq!(d.add_point(&site(0, 0.5, 0.5)), Ok(0));
        let before = snapshot(&d);
        assert_eq!(d.add_point(&site(1, x, y)), Err(InsertError::Degenerate));
        assert_eq!(snapshot(&d), before);
    }
}

#[test]
fn site_outside_the_region_is_rejected() {
    for (x, y) in [(1.5, 0.5), (-0.1, 0.5), (0.5, 1.0001), (2.0, 0.0), (100.0, 100.0)] {
        let mut d = VoronoiDiagram::on_unit_square();
        assert_eq!(d.add_point(&site(0, x, y)), Err(InsertError::SiteOutsideBounds));
        assert_eq!(d.add_point(&site(0, 0.5, 0.5)), Ok(0));
        let before = snapshot(&d);
        assert_eq!(d.add_point(&site(1, x, y)), Err(InsertError::SiteOutsideBounds));
        assert_eq!(snapshot(&d), before);
    }
}

#[test]
fn bisector_through_the_corners_is_degenerate() {
    let mut d = VoronoiDiagram::on_unit_square();
    assert_eq!(d.add_point(&site(0, 0.25, 0.25)), Ok(0));
    let before = snapshot(&d);
    assert_eq!(d.add_point(&site(1, 0.75, 0.75)), Err(InsertError::Degenerate));
    assert_eq!(snapshot(&d), before);
    assert_eq!(d.add_point(&site(1, 0.75, 0.5)), Ok(1));
}

#[test]
fn fourth_site_on_a_common_circle_is_refused_and_the_diagram_kept() {
    let mut d = VoronoiDiagram::on_unit_square();
    assert_eq!(d.add_point(&site(0, 0.25, 0.375)), Ok(0));
    assert_eq!(d.add_point(&site(1, 0.75, 0.375)), Ok(1));
    assert_eq!(d.add_point(&site(2, 0.75, 0.625)), Ok(2));
    let shared = v(0.5, 0.5);
    for cell in d.cells.iter() {
        assert!(ring_positions(cell).contains(&shared));
    }
    let before = snapshot(&d);
    assert_eq!(d.add_point(&site(3, 0.25, 0.625)), Err(InsertError::Degenerate));
    assert_eq!(snapshot(&d), before);
    assert_eq!(badly_placed_samples(&d, 20), 0);
    assert_eq!(d.add_point(&site(3, 0.25, 0.75)), Ok(3));
    assert_eq!(badly_placed_samples(&d, 20), 0);
}

#[test]
fn site_on_an_existing_edge_is_found_in_no_ring() {
    let mut d = VoronoiDiagram::on_unit_square();
    assert_eq!(d.add_point(&site(0, 0.5, 0.25)), Ok(0));
    assert_eq!(d.add_point(&site(1, 0.5, 0.75)), Ok(1));
    assert_eq!(d.locate(v(0.25, 0.5)), None);
    let before = snapshot(&d);
    assert_eq!(d.add_point(&site(2, 0.25, 0.5)), Err(InsertError::SiteOutsideBounds));
    assert_eq!(snapshot(&d), before);
}

#[test]
fn labels_of_sites_are_kept() {
    let mut d = VoronoiDiagram::on_unit_square();
    let a = VoronoiCenterPoint { node_id: 41, pos: v(0.3, 0.3), cluster_id: 7 };
    let b = VoronoiCenterPoint { node_id: 42, pos: v(0.6, 0.7), cluster_id: 8 };
    assert_eq!(d.add_point(&a), Ok(0));
    assert_eq!(d.add_point(&b), Ok(1));
    assert_eq!(d.get_cell(0).point, a);
    assert_eq!(d.get_cell(1).point, b);
}

#[test]
fn locate_finds_the_cell_of_each_site() {
    let sites = generated_sites(3, 40);
    let mut d = VoronoiDiagram::on_unit_square();
    for (i, s) in sites.iter().enumerate() {
        assert_eq!(d.add_point(s), Ok(i as u32));
        assert_eq!(d.locate(s.pos), Some(i as u32));
    }
    for (i, s) in sites.iter().enumerate() {
        assert_eq!(d.locate(s.pos), Some(i as u32));
        assert!(d.get_cell(i as u32).is_include(s));
    }
}

#[test]
fn hundred_generated_sites_keep_the_diagram_sound() {
    for seed in [1u64, 2, 42] {
        let sites = generated_sites(seed, 100);
        let mut d = VoronoiDiagram::on_unit_square();
        for (i, s) in sites.iter().enumerate() {
            assert_eq!(d.add_point(s), Ok(i as u32));
            assert_eq!(d.cells.len(), i + 1);
        }
        for (i, cell) in d.cells.iter().enumerate() {
            assert_eq!(cell.cell_id, i as u32);
            assert_eq!(cell.point, sites[i]);
            assert!(cell.bound.points.len() >= 3);
            assert!(cell.bound.is_include(cell.point.pos));
            assert!(cell.lines.iter().all(|l| l.cells.contains(cell.cell_id)));
            assert!(cell.lines.iter().all(|l| l.cells.len() >= 1 && l.cells.len() <= 2));
            assert!(cell.lines.iter().all(|l| l.cells.hi < 100 && l.cells.lo < 100));
        }
        assert_eq!(badly_placed_samples(&d, 20), 0);
        let total: i128 = d.cells.iter().map(|c| twice_area(&ring_positions(c))).sum();
        let whole = 2 * (ONE as i128) * (ONE as i128);
        assert!(((total - whole) as f64).abs() / (whole as f64) < 1e-9);
        for cell in d.cells.iter() {
            for edge in interior_edges(cell) {
                let other = d.get_cell(edge.another_cell(cell.cell_id).unwrap());
                assert!(other.lines.iter().any(|m| m.cells == edge.cells
                    && ((close_to(m.p1.pos, edge.p1.pos, 4096)
                        && close_to(m.p2.pos, edge.p2.pos, 4096))
                        || (close_to(m.p1.pos, edge.p2.pos, 4096)
                            && close_to(m.p2.pos, edge.p1.pos, 4096)))));
            }
        }
    }
}

#[test]
fn first_generated_sites_are_the_expected_ones() {
    let sites = generated_sites(1, 2);
    assert_eq!(sites[0].pos, Vec2d { x: 1883632367, y: 2179807374 });
    assert_eq!(sites[1].pos, Vec2d { x: 2657242643, y: 1745005321 });
}

#[test]
fn interior_edges_match_exactly_where_nothing_is_rounded() {
    let (d, _) = diagram_of(&[(0.25, 0.25), (0.75, 0.25), (0.5, 0.75), (0.25, 0.875)]);
    assert_eq!(d.cells.len(), 4);
    for cell in d.cells.iter() {
        for edge in interior_edges(cell) {
            let other = d.get_cell(edge.another_cell(cell.cell_id).unwrap());
            assert!(has_edge(other, edge.p1.pos, edge.p2.pos, &[edge.cells.lo, edge.cells.hi]));
        }
    }
}

#[test]
fn the_order_of_insertion_does_not_change_the_partition() {
    let sites = generated_sites(11, 30);
    let mut forward = VoronoiDiagram::on_unit_square();
    let mut backward = VoronoiDiagram::on_unit_square();
    for s in sites.iter() {
        assert!(forward.add_point(s).is_ok());
    }
    for s in sites.iter().rev() {
        assert!(backward.add_point(s).is_ok());
    }
    for cell in forward.cells.iter() {
        let twin = backward.get_cell(backward.locate(cell.point.pos).unwrap());
        assert_eq!(twin.point, cell.point);
        let a = twice_area(&ring_positions(cell));
        let b = twice_area(&ring_positions(twin));
        assert!(((a - b) as f64).abs() / (a as f64) < 1e-6);
        assert_eq!(twin.bound.points.len(), cell.bound.points.len());
    }
}

#[test]
fn insert_all_counts_the_sites_it_added() {
    let mut sites = generated_sites(5, 10);
    sites.push(sites[3]);
    sites.push(VoronoiCenterPoint { node_id: 0, pos: v(1.5, 0.5), cluster_id: 0 });
    let mut d = VoronoiDiagram::on_unit_square();
    assert_eq!(d.insert_all(&sites), 10);
    assert_eq!(d.cells.len(), 10);
    assert_eq!(d.insert_all(&sites), 0);
    assert_eq!(d.cells.len(), 10);
}

#[test]
fn calculate_diagram_adds_the_sites_in_a_shuffled_order() {
    let sites = generated_sites(9, 60);
    let mut shuffled = sites.clone();
    let mut d = VoronoiDiagram::on_unit_square();
    d.calculate_diagram(&mut shuffled);
    assert_ne!(shuffled, sites);
    let mut a: Vec<(i64, i64)> = sites.iter().map(|s| (s.pos.x, s.pos.y)).collect();
    let mut b: Vec<(i64, i64)> = shuffled.iter().map(|s| (s.pos.x, s.pos.y)).collect();
    a.sort();
    b.sort();
    assert_eq!(a, b);
    let mut one_by_one = VoronoiDiagram::on_unit_square();
    let mut added = Vec::new();
    for s in shuffled.iter() {
        if one_by_one.add_point(s).is_ok() {
            added.push(*s);
        }
    }
    assert_eq!(snapshot(&d), snapshot(&one_by_one));
    assert_eq!(d.cells.len(), added.len());
    for (i, s) in added.iter().enumerate() {
        assert_eq!(d.get_cell(i as u32).point, *s);
    }
}

/// The sites of `generated_sites`, in `rounds` different orders.
fn generated_orders(seed: u64, n: usize, rounds: usize) -> Vec<Vec<VoronoiCenterPoint>> {
    let base = generated_sites(seed, n);
    let mut x = seed.wrapping_mul(7919).wrapping_add(1);
    let mut orders = Vec::new();
    for _ in 0..rounds {
        let mut p = base.clone();
        for i in (1..n).rev() {
            x = x.wrapping_mul(6364136223846793005).wrapping_add(1442695040888963407);
            let j = ((x >> 33) % (i as u64 + 1)) as usize;
            p.swap(i, j);
        }
        orders.push(p);
    }
    orders
}

#[test]
fn many_orders_of_insertion_keep_the_diagram_sound() {
    for order in generated_orders(9, 30, 150) {
        let mut d = VoronoiDiagram::on_unit_square();
        for (i, s) in order.iter().enumerate() {
            assert_eq!(d.add_point(s), Ok(i as u32));
        }
        assert_eq!(badly_placed_samples(&d, 10), 0);
        let total: i128 = d.cells.iter().map(|c| twice_area(&ring_positions(c))).sum();
        let whole = 2 * (ONE as i128) * (ONE as i128);
        assert!(((total - whole) as f64).abs() / (whole as f64) < 1e-9);
    }
}

#[test]
fn new_cell_that_holds_three_corners_is_closed_along_the_boundary() {
    let mut d = VoronoiDiagram::on_unit_square();
    let first = VoronoiCenterPoint {
        node_id: 0,
        pos: Vec2d { x: 447116727, y: 1451760663 },
        cluster_id: 0,
    };
    let second = VoronoiCenterPoint {
        node_id: 1,
        pos: Vec2d { x: 1457215443, y: 2679109650 },
        cluster_id: 0,
    };
    assert_eq!(d.add_point(&first), Ok(0));
    assert_eq!(d.add_point(&second), Ok(1));
    let low = Vec2d { x: 3461831435, y: 0 };
    let left = Vec2d { x: 0, y: 2849060475 };
    assert_eq!(ring_positions(d.get_cell(0)), vec![left, v(0.0, 0.0), low]);
    assert_eq!(
        ring_positions(d.get_cell(1)),
        vec![v(1.0, 1.0), v(0.0, 1.0), left, low, v(1.0, 0.0)]
    );
    let new_cell = d.get_cell(1);
    assert_eq!(new_cell.lines.len(), 5);
    assert!(has_edge(new_cell, low, left, &[0, 1]));
    assert!(has_edge(new_cell, low, v(1.0, 0.0), &[1]));
    assert!(has_edge(new_cell, v(1.0, 0.0), v(1.0, 1.0), &[1]));
    assert!(has_edge(new_cell, v(1.0, 1.0), v(0.0, 1.0), &[1]));
    assert!(has_edge(new_cell, v(0.0, 1.0), left, &[1]));
    assert_eq!(badly_placed_samples(&d, 20), 0);
    let third = VoronoiCenterPoint {
        node_id: 2,
        pos: Vec2d { x: 1626985614, y: 567338528 },
        cluster_id: 0,
    };
    assert_eq!(d.add_point(&third), Ok(2));
    assert_eq!(badly_placed_samples(&d, 20), 0);
}

#[test]
fn closing_joins_every_pair_of_vertices_that_share_a_side() {
    let square = unit_square();
    let low = VoronoiPoint { pos: v(0.75, 0.0), is_corner: false, outbounds: IdSet::from_vec(&vec![0]) };
    let left = VoronoiPoint { pos: v(0.0, 0.75), is_corner: false, outbounds: IdSet::from_vec(&vec![3]) };
    let mut middle = VoronoiLine::new(low, left);
    middle.cells = IdSet::from_vec(&vec![0, 1]);
    let corners = vec![square.points[2], square.points[3], square.points[1]];
    let lines = new_cell_lines(vec![middle], &corners, 1);
    assert_eq!(lines.len(), 5);
    assert_eq!(lines[0], middle);
    assert_eq!(lines[1], VoronoiLine::new(low, square.points[1]));
    assert_eq!(lines[2], VoronoiLine::new(left, square.points[3]));
    assert_eq!(lines[3], VoronoiLine::new(square.points[2], square.points[3]));
    assert_eq!(lines[4], VoronoiLine::new(square.points[2], square.points[1]));
    let inner = VoronoiLine::new(VoronoiPoint::new(v(0.25, 0.25)), VoronoiPoint::new(v(0.5, 0.5)));
    assert_eq!(new_cell_lines(vec![inner], &Vec::new(), 1), vec![inner]);
}

#[test]
fn carving_a_square_cell_gives_the_two_break_points() {
    let mut d = VoronoiDiagram::on_unit_square();
    assert_eq!(d.add_point(&site(0, 0.25, 0.5)), Ok(0));
    let bisector = Line::vertical_bisector(v(0.75, 0.5), v(0.25, 0.5), 5 * ONE);
    let info = d.get_cell(0).intersect_with_bounds(&bisector, 1).unwrap();
    assert_eq!(info.cut_lines.len(), 2);
    assert_eq!(info.middle_line.cells, IdSet::from_vec(&vec![0, 1]));
    assert_eq!(info.middle_line.p1.pos, v(0.5, 0.0));
    assert_eq!(info.middle_line.p2.pos, v(0.5, 1.0));
    assert_eq!(info.middle_line.line, Line::new(v(0.5, 0.0), v(0.5, 1.0)));
    assert_eq!(info.middle_line.p1.outbounds, IdSet::from_vec(&vec![0]));
    assert_eq!(info.remain_points.len(), 4);
    assert_eq!(info.separated_points.len(), 4);
    assert_eq!(info.new_neighbors.len(), 0);
    assert_eq!(info.cut_lines[0].p1.pos, v(0.0, 0.0));
    assert_eq!(info.cut_lines[0].p2.pos, v(0.5, 0.0));
    let mut carved = d.get_cell(0).carved(&info);
    assert_eq!(carved.lines.len(), 4);
    assert_eq!(ring_positions(&carved), vec![v(0.5, 1.0), v(0.0, 1.0), v(0.0, 0.0), v(0.5, 0.0)]);
    assert_eq!(carved.get_neighbor_cells(), vec![0, 1]);
    let mut updated = VoronoiCell::new(0, site(0, 0.25, 0.5), d.get_cell(0).lines.clone());
    updated.update(&info);
    assert_eq!(updated.lines, carved.lines);
    assert_eq!(updated.bound.points, carved.bound.points);
    carved.update(&info);
    assert_eq!(carved.lines.len(), 7);
}

#[test]
fn carving_fails_when_the_bisector_misses_the_cell() {
    let mut d = VoronoiDiagram::on_unit_square();
    assert_eq!(d.add_point(&site(0, 0.25, 0.5)), Ok(0));
    let far = Line::new(Vec2d { x: 3 * ONE, y: -ONE }, Vec2d { x: 3 * ONE, y: 2 * ONE });
    assert!(d.get_cell(0).intersect_with_bounds(&far, 1).is_none());
    let along = Line::new(Vec2d { x: -ONE, y: 0 }, Vec2d { x: 2 * ONE, y: 0 });
    assert!(d.get_cell(0).intersect_with_bounds(&along, 1).is_none());
}

#[test]
fn points_are_sorted_by_angle_without_repetitions() {
    let center = v(0.5, 0.5);
    let east = VoronoiPoint::new(v(1.0, 0.5));
    let north = VoronoiPoint::new(v(0.5, 1.0));
    let west = VoronoiPoint::new(v(0.0, 0.5));
    let south = VoronoiPoint::new(v(0.5, 0.0));
    let far_north = VoronoiPoint::new(v(0.5, 0.75));
    let sorted =
        sort_points_around_center(&center, &vec![south, north, west, east, north, far_north]);
    assert_eq!(sorted, vec![east, north, far_north, west, south]);
    assert_eq!(
        VoronoiPoint::uniq_points(&vec![south, north, south, north, east]),
        vec![south, north, east]
    );
    assert_eq!(arg2pi_from_center(&center, &v(1.0, 0.75)), v(0.5, 0.25));
}

#[test]
fn ring_from_edges_takes_the_first_endpoint_of_each() {
    let a = VoronoiPoint::new(v(1.0, 0.0));
    let b = VoronoiPoint::new(v(1.0, 1.0));
    let c = VoronoiPoint::new(v(0.0, 1.0));
    let e = VoronoiPoint::new(v(0.0, 0.0));
    let lines = vec![
        VoronoiLine::new(b, a),
        VoronoiLine::new(b, c),
        VoronoiLine::new(e, c),
        VoronoiLine::new(e, a),
    ];
    let center = VoronoiCenterPoint { node_id: 0, pos: v(0.5, 0.5), cluster_id: 0 };
    let ring = VoronoiPolygon::from_lines(&center, &lines);
    assert_eq!(ring.points, vec![b, c, e, a]);
    assert!(ring.is_include(v(0.25, 0.75)));
    assert!(!ring.is_include(v(1.25, 0.75)));
    let cell = VoronoiCell::new(5, center, lines);
    assert_eq!(cell.bound.points, vec![b, c, e, a]);
    assert_eq!(cell.get_neighbor_cells(), Vec::<u32>::new());
}

#[test]
fn edges_on_the_boundary_share_a_side() {
    let r = unit_square();
    let bottom = VoronoiLine::new(r.points[0], r.points[1]);
    let diagonal = VoronoiLine::new(r.points[0], r.points[2]);
    let inner = VoronoiLine::new(VoronoiPoint::new(v(0.5, 0.5)), r.points[2]);
    assert!(bottom.is_outbound());
    assert!(!diagonal.is_outbound());
    assert!(!inner.is_outbound());
    assert!(r.points[0].on_outbound());
    assert!(!VoronoiPoint::new(v(0.5, 0.5)).on_outbound());
    assert_eq!(bottom.another_cell(0), None);
}

#[test]
fn region_of_marks_the_corners_with_their_sides() {
    let corners = vec![v(0.0, 0.0), v(1.0, 0.0), v(1.0, 1.0), v(0.0, 1.0)];
    let region = region_of(&corners).unwrap();
    assert_eq!(region.points, unit_square().points);
    let triangle = region_of(&vec![v(-1.0, -1.0), v(1.0, -1.0), v(0.0, 1.0)]).unwrap();
    assert_eq!(triangle.points[0].outbounds, IdSet::from_vec(&vec![2, 0]));
    assert_eq!(triangle.points[1].outbounds, IdSet::from_vec(&vec![0, 1]));
    assert_eq!(triangle.points[2].outbounds, IdSet::from_vec(&vec![1, 2]));
    assert!(triangle.points.iter().all(|p| p.is_corner));
    let clockwise = vec![v(0.0, 1.0), v(1.0, 1.0), v(1.0, 0.0), v(0.0, 0.0)];
    assert!(region_of(&clockwise).is_some());
}

#[test]
fn region_of_refuses_what_is_no_region() {
    assert!(region_of(&vec![v(0.0, 0.0), v(1.0, 0.0)]).is_none());
    assert!(region_of(&vec![v(0.0, 0.0), v(1.5, 0.0), v(0.0, 1.0)]).is_none());
    let dented = vec![v(0.0, 0.0), v(1.0, 0.0), v(0.25, 0.25), v(0.0, 1.0)];
    assert!(region_of(&dented).is_none());
}

#[test]
fn diagram_on_a_triangle() {
    let region = region_of(&vec![v(-1.0, -1.0), v(1.0, -1.0), v(0.0, 1.0)]).unwrap();
    let mut d = VoronoiDiagram::new(region);
    assert_eq!(d.add_point(&site(0, 0.0, -0.5)), Ok(0));
    assert_eq!(d.get_cell(0).bound.points.len(), 3);
    assert_eq!(d.add_point(&site(1, 0.0, 0.25)), Ok(1));
    assert_eq!(d.add_point(&site(2, 0.9, 0.9)), Err(InsertError::SiteOutsideBounds));
    assert_eq!(d.add_point(&site(2, 0.0, -1.0)), Err(InsertError::Degenerate));
    assert_eq!(d.add_point(&site(2, -0.5, -0.75)), Ok(2));
    assert_eq!(d.cells().len(), 3);
    for (i, cell) in d.cells().iter().enumerate() {
        assert_eq!(d.locate(cell.point.pos), Some(i as u32));
    }
    let whole: i128 = d.cells.iter().map(|c| twice_area(&ring_positions(c))).sum();
    let expected = 4 * (ONE as i128) * (ONE as i128);
    assert!(((whole - expected) as f64).abs() / (expected as f64) < 1e-9);
}

#[test]
fn edges_lists_the_edges_of_all_cells() {
    let (d, _) = diagram_of(&[(0.25, 0.5), (0.75, 0.5)]);
    let edges = d.edges();
    assert_eq!(edges.len(), 8);
    assert_eq!(edges[..4], d.get_cell(0).lines[..]);
    assert_eq!(edges[4..], d.get_cell(1).lines[..]);
    let shared = edges.iter().filter(|l| l.cells.len() == 2).count();
    assert_eq!(shared, 2);
    assert_eq!(VoronoiDiagram::on_unit_square().edges().len(), 0);
}

#[test]
fn every_shared_edge_of_a_new_cell_is_an_edge_of_its_neighbor() {
    let sites = generated_sites(21, 50);
    let mut d = VoronoiDiagram::on_unit_square();
    for s in sites.iter() {
        let id = d.add_point(s).unwrap();
        let new_cell = d.get_cell(id);
        for edge in interior_edges(new_cell) {
            let other = d.get_cell(edge.another_cell(id).unwrap());
            assert!(other.lines.contains(&edge));
        }
    }
}

#[test]
fn rings_go_once_round_their_sites() {
    let sites = generated_sites(8, 40);
    let mut d = VoronoiDiagram::on_unit_square();
    for s in sites.iter() {
        assert!(d.add_point(s).is_ok());
    }
    for cell in d.cells.iter() {
        let ring = &cell.bound.points;
        for i in 0..ring.len() {
            for j in (i + 1)..ring.len() {
                assert_ne!(ring[i], ring[j]);
                let a = arg2pi_from_center(&cell.point.pos, &ring[i].pos);
                let b = arg2pi_from_center(&cell.point.pos, &ring[j].pos);
                assert!(Vec2d::angle_less(a, b));
            }
        }
    }
}

#[test]
fn carving_fails_when_the_bisector_only_touches_a_corner() {
    let mut d = VoronoiDiagram::on_unit_square();
    assert_eq!(d.add_point(&site(0, 0.25, 0.5)), Ok(0));
    let touching = Line::new(v(-1.0, 1.0), v(1.0, -1.0));
    assert!(d.get_cell(0).intersect_with_bounds(&touching, 1).is_none());
    let through = Line::new(v(-1.0, -1.0), v(2.0, 2.0));
    assert!(d.get_cell(0).intersect_with_bounds(&through, 1).is_none());
}
