//! A fixed-size grid addressed by signed coordinates around a chosen origin cell.

use vstd::prelude::*;
use std::ops::{Index, IndexMut};
use super::point::{Point, UPoint};

verus! {

/// A matrix that allows negative coordinates: an `X` by `Y` backing array of which the
/// cell `zero_coord` is addressed as the point (0, 0).
#[derive(Debug, Copy, PartialEq, Eq)]
pub struct FourQuadrantMatrix<const X: usize, const Y: usize, T> {
    matrix: [[T; X]; Y],
    frame: Frame<X, Y>,
}

/// The origin cell of an `X` by `Y` grid, with the inclusive bounds of the logical
/// coordinates that it gives the grid.
#[derive(Debug, Clone, Copy, PartialEq, Eq)]
struct Frame<const X: usize, const Y: usize> {
    max_point: Point,
    min_point: Point,
    zero_coord: UPoint,
}

impl<const X: usize, const Y: usize> Frame<X, Y> {
    #[verifier::type_invariant]
    spec fn inv(&self) -> bool {
        &&& self.min_point.x == -self.zero_coord.x
        &&& self.max_point.x == X - 1 - self.zero_coord.x
        &&& self.min_point.y == self.zero_coord.y - (Y - 1)
        &&& self.max_point.y == self.zero_coord.y
    }
}

impl<const X: usize, const Y: usize, T: Copy> Clone for FourQuadrantMatrix<X, Y, T> {
    fn clone(&self) -> (copy: Self)
        ensures
            copy == *self,
    {
        *self
    }
}

impl<const X: usize, const Y: usize, T> View for FourQuadrantMatrix<X, Y, T> {
    type V = Seq<Seq<T>>;

    /// The backing array: `Y` rows of `X` cells each, the top row first.
    closed spec fn view(&self) -> Seq<Seq<T>> {
        Seq::new(Y as nat, |r: int| self.matrix@[r]@)
    }
}

impl<const X: usize, const Y: usize, T> FourQuadrantMatrix<X, Y, T> {
    /// The cell of the backing array that is addressed as (0, 0).
    pub closed spec fn spec_zero_coord(&self) -> UPoint {
        self.frame.zero_coord
    }

    /// The cached lower bound of the points in bounds.
    pub closed spec fn spec_min_point(&self) -> Point {
        self.frame.min_point
    }

    /// The cached upper bound of the points in bounds.
    pub closed spec fn spec_max_point(&self) -> Point {
        self.frame.max_point
    }

    /// Whether the bounds that the grid with origin cell `zero_coord` would cache are
    /// representable.
    pub open spec fn origin_fits(zero_coord: UPoint) -> bool {
        &&& isize::MIN <= -zero_coord.x
        &&& isize::MIN <= X - 1 - zero_coord.x <= isize::MAX
        &&& isize::MIN <= zero_coord.y - (Y - 1) <= isize::MAX
        &&& zero_coord.y <= isize::MAX
    }

    /// The cached bounds are those of the backing array, seen from the origin cell:
    /// the bottom-left cell is the lower bound and the top-right cell the upper. This
    /// holds of every grid that [`FourQuadrantMatrix::new`] has made, and the
    /// functions of this module say so to their callers.
    pub open spec fn wf(&self) -> bool {
        &&& self.spec_min_point().x == -self.spec_zero_coord().x
        &&& self.spec_max_point().x == X - 1 - self.spec_zero_coord().x
        &&& self.spec_min_point().y == self.spec_zero_coord().y - (Y - 1)
        &&& self.spec_max_point().y == self.spec_zero_coord().y
    }

    /// Whether `other` has the origin and the bounds of this grid.
    pub open spec fn same_frame(&self, other: &Self) -> bool {
        &&& other.spec_zero_coord() == self.spec_zero_coord()
        &&& other.spec_min_point() == self.spec_min_point()
        &&& other.spec_max_point() == self.spec_max_point()
    }

    /// Whether `p` lies within the cached bounds, component-wise and inclusive.
    pub open spec fn in_bounds(&self, p: Point) -> bool {
        &&& self.spec_min_point().x <= p.x <= self.spec_max_point().x
        &&& self.spec_min_point().y <= p.y <= self.spec_max_point().y
    }

    /// The value of the cell that `p` names.
    pub open spec fn at(&self, p: Point) -> T {
        self@[self.spec_zero_coord().y - p.y][self.spec_zero_coord().x + p.x]
    }
}

/// `v` brought down to `hi` where it is above, then up to `lo` where it is below.
pub open spec fn clamp(v: int, lo: int, hi: int) -> int {
    let capped = if v > hi { hi } else { v };
    if capped < lo { lo } else { capped }
}

impl<const X: usize, const Y: usize, T> FourQuadrantMatrix<X, Y, T> where T: Copy, T: Default {
    /// Generates a new matrix with a given zero point (the cell of the backing array
    /// that is considered to be (0, 0)), every cell holding the default value of `T`.
    pub fn new(zero_coord: UPoint) -> (m: Self)
        requires
            Self::origin_fits(zero_coord),
        ensures
            m.wf(),
            m.spec_zero_coord() == zero_coord,
            forall|r: int, c: int|
                0 <= r < Y && 0 <= c < X ==> call_ensures(T::default, (), #[trigger] m@[r][c]),
            forall|r: int, c: int|
                0 <= r < Y && 0 <= c < X ==> #[trigger] m@[r][c] == m@[0][0],
    {
        let fill = T::default();
        FourQuadrantMatrix {
            matrix: [[fill; X]; Y],
            frame: Frame {
                max_point: Point {
                    x: (X as i128 - 1 - zero_coord.x as i128) as isize,
                    y: zero_coord.y as isize,
                },
                min_point: Point {
                    x: (-(zero_coord.x as i128)) as isize,
                    y: (zero_coord.y as i128 - (Y as i128 - 1)) as isize,
                },
                zero_coord,
            },
        }
    }

    /// The cell of the backing array that is addressed as (0, 0).
    pub fn zero_coord(&self) -> (zero: UPoint)
        ensures
            zero == self.spec_zero_coord(),
    {
        self.frame.zero_coord
    }

    /// The point of the bottom-left cell: the least coordinate in bounds on each axis.
    pub fn min_point(&self) -> (min: Point)
        ensures
            min == self.spec_min_point(),
            self.wf(),
    {
        proof {
            use_type_invariant(&self.frame);
        }
        self.frame.min_point
    }

    /// The point of the top-right cell: the greatest coordinate in bounds on each axis.
    pub fn max_point(&self) -> (max: Point)
        ensures
            max == self.spec_max_point(),
            self.wf(),
    {
        proof {
            use_type_invariant(&self.frame);
        }
        self.frame.max_point
    }

    /// Makes sure a point is in bounds and if not, brings it in bounds.
    pub fn bound_point(&self, point: &mut Point)
        ensures
            final(point).x == clamp(
                old(point).x as int,
                self.spec_min_point().x as int,
                self.spec_max_point().x as int,
            ),
            final(point).y == clamp(
                old(point).y as int,
                self.spec_min_point().y as int,
                self.spec_max_point().y as int,
            ),
            self.in_bounds(*old(point)) ==> *final(point) == *old(point),
            X > 0 && Y > 0 ==> self.in_bounds(*final(point)),
    {
        proof {
            use_type_invariant(&self.frame);
        }
        if point.x > self.frame.max_point.x {
            point.x = self.frame.max_point.x
        }
        if point.y > self.frame.max_point.y {
            point.y = self.frame.max_point.y
        }
        if point.x < self.frame.min_point.x {
            point.x = self.frame.min_point.x
        }
        if point.y < self.frame.min_point.y {
            point.y = self.frame.min_point.y
        }
    }

    /// Checks if the point is in bounds.
    pub fn is_in_bounds(&self, point: &Point) -> (inside: bool)
        ensures
            inside == self.in_bounds(*point),
            self.wf(),
    {
        proof {
            use_type_invariant(&self.frame);
        }
        point.x <= self.frame.max_point.x && point.y <= self.frame.max_point.y
            && point.x >= self.frame.min_point.x && point.y >= self.frame.min_point.y
    }

    /// Fills the matrix with the default value of `T`.
    pub fn reset_matrix(&mut self)
        ensures
            final(self).wf(),
            old(self).same_frame(final(self)),
            forall|r: int, c: int|
                0 <= r < Y && 0 <= c < X ==> call_ensures(T::default, (), #[trigger] final(self)@[r][c]),
            forall|r: int, c: int|
                0 <= r < Y && 0 <= c < X ==> #[trigger] final(self)@[r][c] == final(self)@[0][0],
    {
        proof {
            use_type_invariant(&self.frame);
        }
        let fill = T::default();
        self.matrix = [[fill; X]; Y];
    }
}

impl<T, const X: usize, const Y: usize> vstd::std_specs::core::IndexSpecImpl<Point> for FourQuadrantMatrix<X, Y, T> {
    /// Direct indexing is for points that the caller knows to be in bounds.
    open spec fn index_req(&self, index: &Point) -> bool {
        self.in_bounds(*index)
    }
}

impl<T, const X: usize, const Y: usize> Index<Point> for FourQuadrantMatrix<X, Y, T> {
    type Output = T;

    /// The cell that `index` names. Only for a point in bounds.
    fn index(&self, index: Point) -> (cell: &T)
        ensures
            *cell == self.at(index),
    {
        proof {
            use_type_invariant(&self.frame);
        }
        let upoint = index.to_upoint(&self.frame.zero_coord).expect(
            "would result in negative unsigned coordinate!",
        );
        &self.matrix[upoint.y][upoint.x]
    }
}

impl<T, const X: usize, const Y: usize> IndexMut<Point> for FourQuadrantMatrix<X, Y, T> {
    /// The cell that `index` names, to write to. Only for a point in bounds. No other
    /// cell changes, and this one changes to what is written through the reference.
    fn index_mut(&mut self, index: Point) -> (cell: &mut T)
        requires
            old(self).in_bounds(index),
        ensures
            *cell == old(self).at(index),
            old(self).wf(),
            old(self).same_frame(final(self)),
            final(self)@ == old(self)@.update(
                old(self).spec_zero_coord().y - index.y,
                old(self)@[old(self).spec_zero_coord().y - index.y].update(
                    old(self).spec_zero_coord().x + index.x,
                    *final(cell),
                ),
            ),
    {
        proof {
            use_type_invariant(&self.frame);
        }
        let upoint = index.to_upoint(&self.frame.zero_coord).expect(
            "would result in negative unsigned coordinate!",
        );
        &mut self.matrix[upoint.y][upoint.x]
    }
}

impl<const X: usize, const Y: usize, T> FourQuadrantMatrix<X, Y, T> {
    /// The backing array itself, of which the view is the sequence of rows.
    pub closed spec fn backing(self) -> [[T; X]; Y] {
        self.matrix
    }

    /// The view has `Y` rows of `X` cells each, and the backing array holds row by
    /// row what the view holds.
    pub proof fn lemma_view_shape(self)
        ensures
            self@.len() == Y,
            forall|r: int| 0 <= r < Y ==> (#[trigger] self@[r]).len() == X,
            forall|r: int| 0 <= r < Y ==> #[trigger] self.backing()@[r]@ == self@[r],
    {
    }

    /// Two grids that agree on their origin and on every point in bounds hold the
    /// same cells.
    pub proof fn lemma_same_points_same_cells(self, other: Self)
        requires
            self.wf(),
            other.wf(),
            self.spec_zero_coord() == other.spec_zero_coord(),
            forall|p: Point| self.in_bounds(p) ==> #[trigger] self.at(p) == other.at(p),
        ensures
            self@ == other@,
    {
        let zero = self.spec_zero_coord();
        assert forall|r: int| 0 <= r < Y implies #[trigger] self@[r] == other@[r] by {
            assert forall|c: int| 0 <= c < X implies self@[r][c] == other@[r][c] by {
                let p = Point { x: (c - zero.x) as isize, y: (zero.y - r) as isize };
                assert(self.in_bounds(p));
                assert(self.at(p) == self@[r][c]);
                assert(other.at(p) == other@[r][c]);
            }
            assert(self@[r] =~= other@[r]);
        }
        assert(self@ =~= other@);
    }

    /// The bounds of a grid that has cells are the points that name its top-right and
    /// its bottom-left cell.
    pub proof fn lemma_bounds_are_corners(self)
        requires
            self.wf(),
            X > 0,
            Y > 0,
        ensures
            self.spec_max_point() == (UPoint { x: (X - 1) as usize, y: 0 }).spec_to_point(
                self.spec_zero_coord(),
            ),
            self.spec_min_point() == (UPoint { x: 0, y: (Y - 1) as usize }).spec_to_point(
                self.spec_zero_coord(),
            ),
    {
    }

    /// A point is within the cached bounds exactly when it names a cell of the
    /// backing array: its conversion succeeds and gives a column below `X` and a row
    /// below `Y`.
    pub proof fn lemma_in_bounds_iff_cell(self, p: Point)
        requires
            self.wf(),
        ensures
            self.in_bounds(p) <==> (p.spec_to_upoint(self.spec_zero_coord()) matches Some(cell)
                && cell.x < X && cell.y < Y),
    {
    }
}

impl<T, const X: usize, const Y: usize> vstd::std_specs::convert::FromSpecImpl<FourQuadrantMatrix<X, Y, T>> for [[T; X]; Y] {
    open spec fn obeys_from_spec() -> bool {
        true
    }

    open spec fn from_spec(value: FourQuadrantMatrix<X, Y, T>) -> Self {
        value.backing()
    }
}

impl<T, const X: usize, const Y: usize> From<FourQuadrantMatrix<X, Y, T>> for [[T; X]; Y] {
    /// Gives up the grid for its backing array: `Y` rows of `X` cells, the top row first.
    fn from(value: FourQuadrantMatrix<X, Y, T>) -> (rows: Self)
        ensures
            rows == value.backing(),
            forall|r: int| 0 <= r < Y ==> #[trigger] rows@[r]@ == value@[r],
    {
        value.matrix
    }
}

} // verus!
