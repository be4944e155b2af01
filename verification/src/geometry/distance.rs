//! Distances between points.

use crate::geometry::vec2d::Vec2d;
use vstd::prelude::*;

verus! {

/// The Euclidean distance between two points, rounded down.
pub fn euclid_distance(p1: Vec2d, p2: Vec2d) -> (d: i64)
    requires
        p1.in_range(),
        p2.in_range(),
    ensures
        d == p1.distance_spec(p2),
{
    p1.distance_from(p2)
}

} // verus!
