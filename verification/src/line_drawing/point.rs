//! Signed and unsigned grid points and the conversions between them.

use vstd::prelude::*;

verus! {

/// A signed point in 2d space, relative to a grid's logical origin: `x` grows to the
/// right and `y` grows upwards.
#[derive(Debug, Clone, Copy, PartialEq, Eq, Structural)]
pub struct Point {
    pub x: isize,
    pub y: isize,
}

/// An unsigned point in 2d space: a column `x` and a row `y` of a backing array, with
/// the origin in the top-left corner and rows counted downwards.
#[derive(Debug, Clone, Copy, PartialEq, Eq, Structural)]
pub struct UPoint {
    pub x: usize,
    pub y: usize,
}

/// The member of the `isize` range that is congruent to `v` modulo the size of the
/// machine word, for `v` at most one word away from that range.
pub open spec fn wrap_isize(v: int) -> int {
    if v > isize::MAX {
        v - (usize::MAX + 1)
    } else if v < isize::MIN {
        v + (usize::MAX + 1)
    } else {
        v
    }
}

impl Point {
    /// The backing-array cell that this point names when `zero_coord` is the cell of
    /// the logical origin, if both of its indices are representable.
    pub open spec fn spec_to_upoint(self, zero_coord: UPoint) -> Option<UPoint> {
        if 0 <= zero_coord.x + self.x <= usize::MAX && 0 <= zero_coord.y - self.y <= usize::MAX {
            Some(
                UPoint { x: (zero_coord.x + self.x) as usize, y: (zero_coord.y - self.y) as usize },
            )
        } else {
            None
        }
    }

    /// Converts a point on the four-quadrant grid into the backing-array cell it names.
    /// Returns `None` exactly when a resulting index would be negative (or would not
    /// fit in a `usize`).
    pub fn to_upoint(self, zero_coord: &UPoint) -> (cell: Option<UPoint>)
        ensures
            cell == self.spec_to_upoint(*zero_coord),
            cell.is_some() <==> 0 <= zero_coord.x + self.x <= usize::MAX && 0 <= zero_coord.y
                - self.y <= usize::MAX,
            cell matches Some(c) ==> c.spec_to_point(*zero_coord) == self,
    {
        Some(
            UPoint {
                x: shifted(zero_coord.x, self.x as i128)?,
                y: shifted(zero_coord.y, -(self.y as i128))?,
            },
        )
    }
}

/// The index `by` places after `base`, if there is one.
fn shifted(base: usize, by: i128) -> (index: Option<usize>)
    requires
        isize::MIN <= by <= isize::MAX + 1,
    ensures
        index == if 0 <= base + by <= usize::MAX {
            Some((base + by) as usize)
        } else {
            None::<usize>
        },
{
    let sum: i128 = base as i128 + by;
    if sum < 0 || sum > usize::MAX as i128 {
        None
    } else {
        Some(sum as usize)
    }
}

impl UPoint {
    /// The point on the four-quadrant grid that names this cell when `zero_coord` is the
    /// cell of the logical origin. An offset that does not fit in an `isize` wraps
    /// around, as two's-complement arithmetic does.
    pub open spec fn spec_to_point(self, zero_coord: UPoint) -> Point {
        Point {
            x: wrap_isize(self.x - zero_coord.x) as isize,
            y: wrap_isize(zero_coord.y - self.y) as isize,
        }
    }

    /// Converts a backing-array cell into the point of the four-quadrant grid that names
    /// it. Total: see [`UPoint::spec_to_point`] for offsets beyond the `isize` range.
    pub fn to_point(self, zero_coord: &UPoint) -> (point: Point)
        ensures
            point == self.spec_to_point(*zero_coord),
            isize::MIN <= self.x - zero_coord.x <= isize::MAX ==> point.x == self.x - zero_coord.x,
            isize::MIN <= zero_coord.y - self.y <= isize::MAX ==> point.y == zero_coord.y - self.y,
    {
        Point { x: signed_offset(self.x, zero_coord.x), y: signed_offset(zero_coord.y, self.y) }
    }
}

/// `to - from` as an `isize`, wrapping around where the difference does not fit.
fn signed_offset(to: usize, from: usize) -> (d: isize)
    ensures
        d == wrap_isize(to - from),
{
    if to >= from {
        let span = to - from;
        if span <= isize::MAX as usize {
            span as isize
        } else {
            -((usize::MAX - span) as isize) - 1
        }
    } else {
        let short = from - to - 1;
        if short <= isize::MAX as usize {
            -(short as isize) - 1
        } else {
            (usize::MAX - short) as isize
        }
    }
}

/// Converting a point to a cell and back gives the point again, whenever the first
/// conversion succeeds.
pub proof fn lemma_point_round_trip(p: Point, zero_coord: UPoint)
    requires
        p.spec_to_upoint(zero_coord).is_some(),
    ensures
        p.spec_to_upoint(zero_coord).unwrap().spec_to_point(zero_coord) == p,
{
}

/// Converting a cell to a point and back gives the cell again, whenever its offset from
/// the origin fits in an `isize` on both axes.
pub proof fn lemma_upoint_round_trip(u: UPoint, zero_coord: UPoint)
    requires
        isize::MIN <= u.x - zero_coord.x <= isize::MAX,
        isize::MIN <= zero_coord.y - u.y <= isize::MAX,
    ensures
        u.spec_to_point(zero_coord).spec_to_upoint(zero_coord) == Some(u),
{
}

} // verus!
