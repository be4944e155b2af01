use voronoi::fixed::{div_round, isqrt, sign, COORD_MAX, ONE};
use voronoi::geometry::distance::euclid_distance;
use voronoi::geometry::line::Line;
use voronoi::geometry::polygon::Polygon;
use voronoi::geometry::rect::Rect;
use voronoi::geometry::vec2d::Vec2d;
use voronoi::geometry::voronoi_diagram::id_set::IdSet;

fn v(x: i64, y: i64) -> Vec2d {
    Vec2d { x, y }
}

fn fx(x: f64) -> i64 {
    (x * 4294967296.0).round() as i64
}

fn unit_square_polygon() -> Polygon {
    Polygon::new(vec![v(0, 0), v(ONE, 0), v(ONE, ONE), v(0, ONE)])
}

#[test]
fn one_is_two_to_the_32() {
    assert_eq!(ONE, 1i64 << 32);
    assert_eq!(COORD_MAX, 1i64 << 40);
}

#[test]
fn sign_of_numbers() {
    assert_eq!(sign(17), 1);
    assert_eq!(sign(-3), -1);
    assert_eq!(sign(0), 0);
}

#[test]
fn div_round_rounds_to_nearest_halves_away_from_zero() {
    assert_eq!(div_round(7, 2), 4);
    assert_eq!(div_round(-7, 2), -4);
    assert_eq!(div_round(7, -2), -4);
    assert_eq!(div_round(-7, -2), 4);
    assert_eq!(div_round(5, 3), 2);
    assert_eq!(div_round(4, 3), 1);
    assert_eq!(div_round(-4, 3), -1);
    assert_eq!(div_round(0, 5), 0);
    assert_eq!(div_round(1, 2), 1);
    assert_eq!(div_round(-1, 2), -1);
    assert_eq!(div_round(1, 3), 0);
}

#[test]
fn isqrt_rounds_down() {
    assert_eq!(isqrt(0), 0);
    assert_eq!(isqrt(1), 1);
    assert_eq!(isqrt(3), 1);
    assert_eq!(isqrt(4), 2);
    assert_eq!(isqrt(99), 9);
    assert_eq!(isqrt(100), 10);
    assert_eq!(isqrt(u128::MAX), u64::MAX);
    assert_eq!(isqrt(1u128 << 64), 1u64 << 32);
}

#[test]
fn vectors_add_and_subtract() {
    assert_eq!(v(1, 2) + v(10, 20), v(11, 22));
    assert_eq!(v(1, 2) - v(10, 20), v(-9, -18));
}

#[test]
fn mul_scales_by_a_fixed_point_number() {
    assert_eq!(v(ONE, -2 * ONE).mul(ONE / 2), v(ONE / 2, -ONE));
    assert_eq!(v(3, 5).mul(ONE), v(3, 5));
    assert_eq!(v(3, -3).mul(ONE / 2), v(2, -2));
    assert_eq!(v(ONE, ONE).mul(0), v(0, 0));
}

#[test]
fn div_by_zero_gives_the_zero_vector() {
    assert_eq!(v(ONE, -ONE).div(0), v(0, 0));
}

#[test]
fn div_divides_by_a_fixed_point_number() {
    assert_eq!(v(ONE, -3 * ONE).div(2 * ONE), v(ONE / 2, -3 * ONE / 2));
    assert_eq!(v(6, 9).div(3 * ONE), v(2, 3));
}

#[test]
fn square_is_the_exact_squared_length() {
    assert_eq!(v(3, -4).square(), 25);
    assert_eq!(v(ONE, 0).square(), (ONE as i128) * (ONE as i128));
}

#[test]
fn distance_rounds_down() {
    assert_eq!(v(0, 0).distance_from(v(3, 4)), 5);
    assert_eq!(v(1, 1).distance_from(v(2, 2)), 1);
    assert_eq!(v(ONE, 0).distance_from(v(0, 0)), ONE);
    assert_eq!(v(5, 5).distance_from(v(5, 5)), 0);
}

#[test]
fn normalize_gives_length_one() {
    assert_eq!(v(3 * ONE, 0).normalize(), v(ONE, 0));
    assert_eq!(v(0, -7).normalize(), v(0, -ONE));
    assert_eq!(v(3, 4).normalize(), v(fx(0.6), fx(0.8)));
}

#[test]
fn normalize_of_zero_is_zero() {
    assert_eq!(v(0, 0).normalize(), v(0, 0));
}

#[test]
fn unit_vector_between_points_from_second_to_first() {
    assert_eq!(Vec2d::unit_vector_between(v(ONE, 0), v(0, 0)), v(ONE, 0));
    assert_eq!(Vec2d::unit_vector_between(v(0, 0), v(0, 5)), v(0, -ONE));
    assert_eq!(Vec2d::unit_vector_between(v(7, 7), v(7, 7)), v(0, 0));
}

#[test]
fn middle_point_is_the_rounded_mean() {
    assert_eq!(Vec2d::middle_point(v(0, 0), v(ONE, 2 * ONE)), v(ONE / 2, ONE));
    assert_eq!(Vec2d::middle_point(v(0, 0), v(1, -1)), v(1, -1));
    assert_eq!(Vec2d::middle_point(v(-4, 6), v(4, -6)), v(0, 0));
}

#[test]
fn angles_are_ordered_counter_clockwise_from_the_x_axis() {
    let east = v(5, 0);
    let north_east = v(3, 3);
    let north = v(0, 2);
    let west = v(-4, 0);
    let south = v(0, -1);
    let south_east = v(2, -2);
    let order = [east, north_east, north, west, south, south_east];
    for i in 0..order.len() {
        for j in 0..order.len() {
            assert_eq!(Vec2d::angle_less(order[i], order[j]), i < j);
        }
    }
    assert!(!Vec2d::angle_less(v(1, 1), v(2, 2)));
    assert!(!Vec2d::angle_less(v(2, 2), v(1, 1)));
}

#[test]
fn angle_gap_is_wide_beyond_a_half_turn() {
    assert!(Vec2d::angle_gap_exceeds_half_turn(v(1, 1), v(1, -1)));
    assert!(Vec2d::angle_gap_exceeds_half_turn(v(1, -1), v(1, 1)));
    assert!(!Vec2d::angle_gap_exceeds_half_turn(v(1, 0), v(0, 1)));
    assert!(!Vec2d::angle_gap_exceeds_half_turn(v(1, 0), v(-1, 0)));
    assert!(!Vec2d::angle_gap_exceeds_half_turn(v(1, 1), v(-1, 1)));
}

#[test]
fn outer_product_is_the_cross_product() {
    assert_eq!(Vec2d::outer_product(v(1, 0), v(0, 1)), 1);
    assert_eq!(Vec2d::outer_product(v(2, 3), v(5, 7)), -1);
}

#[test]
fn point_side_flips_when_the_endpoints_are_swapped() {
    let l = Line::new(v(0, 0), v(ONE, 0));
    let r = Line::new(v(ONE, 0), v(0, 0));
    let above = v(ONE / 2, ONE);
    let below = v(ONE / 2, -ONE);
    assert_eq!(l.point_side(above), -1);
    assert_eq!(l.point_side(below), 1);
    assert_eq!(r.point_side(above), 1);
    assert_eq!(r.point_side(below), -1);
    assert_eq!(l.point_side(v(3 * ONE, 0)), 0);
    assert_eq!(r.point_side(v(3 * ONE, 0)), 0);
}

#[test]
fn crossing_segments_intersect() {
    let a = Line::new(v(0, 0), v(4, 4));
    let b = Line::new(v(0, 4), v(4, 0));
    assert!(Line::is_intersect(&a, &b));
    assert!(Line::is_intersect(&b, &a));
    assert_eq!(Line::intersection(&a, &b), Some(v(2, 2)));
}

#[test]
fn touching_counts_as_intersecting() {
    let a = Line::new(v(0, 0), v(4, 0));
    let b = Line::new(v(2, 0), v(2, 5));
    assert!(Line::is_intersect(&a, &b));
    assert_eq!(Line::intersection(&a, &b), Some(v(2, 0)));
    assert_eq!(Line::intersection(&b, &a), Some(v(2, 0)));
}

#[test]
fn separate_segments_do_not_intersect() {
    let a = Line::new(v(0, 0), v(4, 0));
    let b = Line::new(v(2, 1), v(2, 5));
    assert!(!Line::is_intersect(&a, &b));
    assert_eq!(Line::intersection(&a, &b), None);
}

#[test]
fn parallel_and_coincident_segments_have_no_intersection_point() {
    let a = Line::new(v(0, 0), v(4, 0));
    let b = Line::new(v(0, 1), v(4, 1));
    let c = Line::new(v(2, 0), v(6, 0));
    assert!(!Line::is_intersect(&a, &b));
    assert_eq!(Line::intersection(&a, &b), None);
    assert!(Line::is_intersect(&a, &c));
    assert_eq!(Line::intersection(&a, &c), None);
}

#[test]
fn intersection_is_rounded_to_the_nearest_point() {
    let a = Line::new(v(0, 0), v(3, 1));
    let b = Line::new(v(1, -5), v(1, 5));
    assert_eq!(Line::intersection(&a, &b), Some(v(1, 0)));
    let c = Line::new(v(2, -5), v(2, 5));
    assert_eq!(Line::intersection(&a, &c), Some(v(2, 1)));
}

#[test]
fn bisector_of_two_points_on_a_horizontal_line_is_vertical() {
    let l = Line::vertical_bisector(v(ONE / 4, ONE / 2), v(3 * ONE / 4, ONE / 2), 5 * ONE);
    assert_eq!(l.p1, v(ONE / 2, 3 * ONE));
    assert_eq!(l.p2, v(ONE / 2, -2 * ONE));
}

#[test]
fn bisector_of_two_points_on_a_vertical_line_is_horizontal() {
    let l = Line::vertical_bisector(v(ONE / 2, ONE / 4), v(ONE / 2, 3 * ONE / 4), 5 * ONE);
    assert_eq!(l.p1, v(-2 * ONE, ONE / 2));
    assert_eq!(l.p2, v(3 * ONE, ONE / 2));
}

#[test]
fn bisector_of_a_point_with_itself_is_a_single_point() {
    let l = Line::vertical_bisector(v(ONE, ONE), v(ONE, ONE), 5 * ONE);
    assert_eq!(l.p1, v(ONE, ONE));
    assert_eq!(l.p2, v(ONE, ONE));
}

#[test]
fn bisector_has_the_length_asked_for_up_to_rounding() {
    let l = Line::vertical_bisector(v(0, 0), v(3 * ONE, 4 * ONE), 10 * ONE);
    assert_eq!(l.p1, v(-10737418241, 21474836482));
    assert_eq!(l.p2, v(23622320129, -4294967298));
    assert_eq!(l.p1.distance_from(l.p2), 10 * ONE + 4);
    assert_eq!(Vec2d::middle_point(l.p1, l.p2), v(3 * ONE / 2, 2 * ONE));
}

#[test]
fn polygon_edges_close_the_ring() {
    let p = unit_square_polygon();
    assert_eq!(p.lines.len(), 4);
    assert_eq!(p.lines[0], Line::new(v(0, 0), v(ONE, 0)));
    assert_eq!(p.lines[3], Line::new(v(0, ONE), v(0, 0)));
    assert_eq!(Polygon::each_lines(&vec![v(0, 0), v(1, 1)]).len(), 0);
}

#[test]
fn polygon_holds_interior_points() {
    let p = unit_square_polygon();
    assert!(p.is_include(v(ONE / 2, ONE / 2)));
    assert!(p.is_include(v(1, 1)));
    assert!(p.is_include(v(ONE - 1, ONE / 3)));
}

#[test]
fn polygon_does_not_hold_outer_points() {
    let p = unit_square_polygon();
    assert!(!p.is_include(v(2 * ONE, ONE / 2)));
    assert!(!p.is_include(v(-ONE, ONE / 2)));
    assert!(!p.is_include(v(ONE / 2, 2 * ONE)));
    assert!(!p.is_include(v(ONE / 2, -1)));
}

#[test]
fn id_set_holds_at_most_two_identifiers_in_order() {
    let mut s = IdSet::new();
    assert!(s.is_empty());
    assert!(s.insert(7));
    assert!(!s.insert(7));
    assert!(s.insert(3));
    assert_eq!(s, IdSet { n: 2, lo: 3, hi: 7 });
    assert_eq!(s.len(), 2);
    assert!(s.contains(3) && s.contains(7) && !s.contains(5));
    assert_eq!(IdSet::from_vec(&vec![7, 3]), s);
    assert_eq!(IdSet::from_vec(&vec![4, 4]), IdSet { n: 1, lo: 4, hi: 0 });
}

#[test]
fn id_set_intersection_and_other_element() {
    let a = IdSet::from_vec(&vec![0, 3]);
    let b = IdSet::from_vec(&vec![2, 3]);
    let c = IdSet::from_vec(&vec![1, 2]);
    assert_eq!(a.intersection(&b), IdSet { n: 1, lo: 3, hi: 0 });
    assert_eq!(a.intersection(&c), IdSet::new());
    assert_eq!(a.intersection(&a), a);
    assert_eq!(a.another(0), Some(3));
    assert_eq!(a.another(3), Some(0));
    assert_eq!(a.another(9), Some(0));
    assert_eq!(IdSet::from_vec(&vec![5]).another(5), None);
}

#[test]
fn euclid_distance_is_the_rounded_distance() {
    assert_eq!(euclid_distance(v(0, 0), v(3 * ONE, 4 * ONE)), 5 * ONE);
    assert_eq!(euclid_distance(v(0, 0), v(1, 1)), 1);
    assert_eq!(euclid_distance(v(-2, 0), v(2, 0)), 4);
}

#[test]
fn rect_holds_its_near_sides_only() {
    let r = Rect { pos: v(ONE, ONE), size: v(2 * ONE, ONE) };
    assert!(r.is_in(v(ONE, ONE)));
    assert!(r.is_in(v(3 * ONE - 1, 2 * ONE - 1)));
    assert!(!r.is_in(v(3 * ONE, ONE)));
    assert!(!r.is_in(v(ONE, 2 * ONE)));
    assert!(!r.is_in(v(ONE - 1, ONE)));
}

#[test]
fn rects_overlap_when_their_centres_are_close() {
    let a = Rect { pos: v(0, 0), size: v(2 * ONE, 2 * ONE) };
    let b = Rect { pos: v(ONE, ONE), size: v(2 * ONE, 2 * ONE) };
    let c = Rect { pos: v(2 * ONE, 0), size: v(ONE, ONE) };
    let e = Rect { pos: v(0, 3 * ONE), size: v(ONE, ONE) };
    assert!(a.is_overlap(&b));
    assert!(b.is_overlap(&a));
    assert!(!a.is_overlap(&c));
    assert!(!a.is_overlap(&e));
    assert!(a.is_overlap(&a));
}

#[test]
fn coordinates_up_to_256_are_in_range() {
    assert!(v(COORD_MAX, -COORD_MAX).is_in_range());
    assert!(v(0, 0).is_in_range());
    assert!(!v(COORD_MAX + 1, 0).is_in_range());
    assert!(!v(0, -COORD_MAX - 1).is_in_range());
}

#[test]
fn crossing_point_is_within_half_a_unit_of_the_exact_one() {
    let a = Line::new(v(0, 0), v(7, 3));
    let b = Line::new(v(5, -4), v(1, 9));
    let p = Line::intersection(&a, &b).unwrap();
    assert_eq!(p, v(3, 1));
    let exact_x = 343.0 / 103.0;
    let exact_y = 147.0 / 103.0;
    assert!((p.x as f64 - exact_x).abs() <= 0.5);
    assert!((p.y as f64 - exact_y).abs() <= 0.5);
}
