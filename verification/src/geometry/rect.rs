//! Axis-parallel rectangles.

use crate::fixed::{abs_int, div_round, lemma_round_div_scaled, round_div, COORD_MAX};
use crate::geometry::vec2d::Vec2d;
use vstd::prelude::*;

verus! {

/// The rectangle with the corner `pos` and the extent `size`.
#[derive(Debug, Clone, Copy, PartialEq, Eq, Structural)]
pub struct Rect {
    pub pos: Vec2d,
    pub size: Vec2d,
}

impl Rect {
    /// The corner and the extent lie in half the coordinate range.
    pub open spec fn in_range(self) -> bool {
        self.pos.within(COORD_MAX / 2) && self.size.within(COORD_MAX / 2)
    }

    /// `point` lies in the rectangle; the sides at `pos` belong to it, the
    /// opposite ones do not.
    pub open spec fn holds(self, point: Vec2d) -> bool {
        &&& self.pos.x <= point.x < self.pos.x + self.size.x
        &&& self.pos.y <= point.y < self.pos.y + self.size.y
    }

    /// The centre of the rectangle along one axis.
    pub open spec fn center_of(pos: int, size: int) -> int {
        pos + round_div(size, 2)
    }

    /// The centres are closer than half the sum of the extents, along both axes.
    pub open spec fn overlaps(self, other: Rect) -> bool {
        &&& abs_int(
            Rect::center_of(self.pos.x as int, self.size.x as int) - Rect::center_of(
                other.pos.x as int,
                other.size.x as int,
            ),
        ) < round_div(self.size.x + other.size.x, 2)
        &&& abs_int(
            Rect::center_of(self.pos.y as int, self.size.y as int) - Rect::center_of(
                other.pos.y as int,
                other.size.y as int,
            ),
        ) < round_div(self.size.y + other.size.y, 2)
    }

    fn axis_overlap(pos1: i64, size1: i64, pos2: i64, size2: i64) -> (b: bool)
        requires
            -(COORD_MAX / 2) <= pos1 <= COORD_MAX / 2,
            -(COORD_MAX / 2) <= size1 <= COORD_MAX / 2,
            -(COORD_MAX / 2) <= pos2 <= COORD_MAX / 2,
            -(COORD_MAX / 2) <= size2 <= COORD_MAX / 2,
        ensures
            b == (abs_int(Rect::center_of(pos1 as int, size1 as int) - Rect::center_of(
                pos2 as int,
                size2 as int,
            )) < round_div(size1 + size2, 2)),
    {
        proof {
            assert(abs_int(2) == 2);
            lemma_round_div_scaled(size1 as int, 2, COORD_MAX as int);
            lemma_round_div_scaled(size2 as int, 2, COORD_MAX as int);
            lemma_round_div_scaled(size1 + size2, 2, COORD_MAX as int);
        }
        let center1: i128 = pos1 as i128 + div_round(size1 as i128, 2);
        let center2: i128 = pos2 as i128 + div_round(size2 as i128, 2);
        let diff: i128 = if center1 < center2 {
            center2 - center1
        } else {
            center1 - center2
        };
        diff < div_round(size1 as i128 + size2 as i128, 2)
    }

    /// The two rectangles overlap.
    pub fn is_overlap(&self, other: &Rect) -> (b: bool)
        requires
            self.in_range(),
            other.in_range(),
        ensures
            b == self.overlaps(*other),
    {
        Rect::axis_overlap(self.pos.x, self.size.x, other.pos.x, other.size.x)
            && Rect::axis_overlap(self.pos.y, self.size.y, other.pos.y, other.size.y)
    }

    /// `point` lies in the rectangle.
    pub fn is_in(&self, point: Vec2d) -> (b: bool)
        ensures
            b == self.holds(point),
    {
        self.pos.x <= point.x && (point.x as i128) < self.pos.x as i128 + self.size.x as i128
            && self.pos.y <= point.y && (point.y as i128) < self.pos.y as i128
            + self.size.y as i128
    }
}

} // verus!
