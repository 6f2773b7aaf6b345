//! Drawing lines into a grid, clipped to its bounds.

use vstd::prelude::*;
use std::ops::IndexMut;
use super::line::{
    lemma_across_ends, lemma_across_monotonic, lemma_across_range, lemma_across_unique,
    steps_across, Line,
};
use super::matrix::FourQuadrantMatrix;
use super::point::Point;

verus! {

/// Whether the coordinates `c` lie within the bounds of `matrix`.
pub open spec fn in_grid<const X: usize, const Y: usize, T>(
    matrix: FourQuadrantMatrix<X, Y, T>,
    c: (int, int),
) -> bool {
    &&& matrix.spec_min_point().x <= c.0 <= matrix.spec_max_point().x
    &&& matrix.spec_min_point().y <= c.1 <= matrix.spec_max_point().y
}

/// Whether `after` is `before` with the first `steps` cells of `line` drawn into it:
/// the same grid, in which those of the cells that are in bounds hold 1 and all others
/// hold what they held.
pub open spec fn draws_within<const X: usize, const Y: usize>(
    before: FourQuadrantMatrix<X, Y, u8>,
    after: FourQuadrantMatrix<X, Y, u8>,
    line: Line,
    steps: int,
) -> bool {
    &&& before.same_frame(&after)
    &&& forall|p: Point|
        before.in_bounds(p) ==> #[trigger] after.at(p) == (if line.covers_within(p, steps) {
            1u8
        } else {
            before.at(p)
        })
}

/// Whether `after` is `before` with `line` drawn into it: the same grid, in which the
/// cells of the rasterized line that are in bounds hold 1 and all others hold what
/// they held.
pub open spec fn draws<const X: usize, const Y: usize>(
    before: FourQuadrantMatrix<X, Y, u8>,
    after: FourQuadrantMatrix<X, Y, u8>,
    line: Line,
) -> bool {
    draws_within(before, after, line, line.run() + 1)
}

/// Drawing two lines one after the other sets the cells that either of them
/// covers, in whichever order they are drawn; a cell that both cover holds 1 as any
/// other does.
pub proof fn lemma_draws_both<const X: usize, const Y: usize>(
    start: FourQuadrantMatrix<X, Y, u8>,
    between: FourQuadrantMatrix<X, Y, u8>,
    end: FourQuadrantMatrix<X, Y, u8>,
    first: Line,
    second: Line,
)
    requires
        draws(start, between, first),
        draws(between, end, second),
    ensures
        start.same_frame(&end),
        forall|p: Point|
            start.in_bounds(p) ==> #[trigger] end.at(p) == (if first.covers(p) || second.covers(p) {
                1u8
            } else {
                start.at(p)
            }),
{
    assert forall|p: Point| start.in_bounds(p) implies #[trigger] end.at(p) == (if first.covers(p)
        || second.covers(p) {
        1u8
    } else {
        start.at(p)
    }) by {
        assert(between.in_bounds(p));
        assert(between.at(p) == (if first.covers(p) {
            1u8
        } else {
            start.at(p)
        }));
    }
}

/// Two lines that cover the same points in bounds leave the same picture, however
/// far either extends past the edges of the grid.
pub proof fn lemma_same_cover_same_picture<const X: usize, const Y: usize>(
    before: FourQuadrantMatrix<X, Y, u8>,
    one: FourQuadrantMatrix<X, Y, u8>,
    other: FourQuadrantMatrix<X, Y, u8>,
    line: Line,
    longer: Line,
)
    requires
        before.wf(),
        draws(before, one, line),
        draws(before, other, longer),
        forall|p: Point| before.in_bounds(p) ==> #[trigger] line.covers(p) == longer.covers(p),
    ensures
        one@ == other@,
{
    assert forall|p: Point| one.in_bounds(p) implies #[trigger] one.at(p) == other.at(p) by {
        assert(before.in_bounds(p));
        assert(line.covers(p) == longer.covers(p));
    }
    one.lemma_same_points_same_cells(other);
}

/// Once the walk has left the grid it does not come back: where one cell of the walk
/// is in bounds and the next is not, no later cell is in bounds either.
pub proof fn lemma_walk_leaves_once<const X: usize, const Y: usize, T>(
    matrix: FourQuadrantMatrix<X, Y, T>,
    line: Line,
    k: int,
    j: int,
)
    requires
        0 <= k < j <= line.run(),
        in_grid(matrix, line.cell(k)),
        !in_grid(matrix, line.cell(k + 1)),
    ensures
        !in_grid(matrix, line.cell(j)),
{
    let run = line.run();
    let rise = line.rise();
    lemma_across_monotonic(run, rise, k, k + 1);
    lemma_across_monotonic(run, rise, k + 1, j);
}

/// Setting the cell of step `k` takes a grid with `k` cells of the line drawn to one
/// with `k + 1` of them drawn.
proof fn lemma_step_drawn<const X: usize, const Y: usize>(
    start: FourQuadrantMatrix<X, Y, u8>,
    before: FourQuadrantMatrix<X, Y, u8>,
    after: FourQuadrantMatrix<X, Y, u8>,
    line: Line,
    k: int,
    cell: Point,
)
    requires
        0 <= k,
        before.wf(),
        draws_within(start, before, line, k),
        line.cell(k) == (cell.x as int, cell.y as int),
        before.in_bounds(cell),
        before.same_frame(&after),
        after@ == before@.update(
            before.spec_zero_coord().y - cell.y,
            before@[before.spec_zero_coord().y - cell.y].update(
                before.spec_zero_coord().x + cell.x,
                1u8,
            ),
        ),
    ensures
        draws_within(start, after, line, k + 1),
{
    before.lemma_view_shape();
    assert forall|p: Point| start.in_bounds(p) implies #[trigger] after.at(p) == (
    if line.covers_within(p, k + 1) {
        1u8
    } else {
        start.at(p)
    }) by {
        if p == cell {
            assert(line.covers_within(p, k + 1));
        } else {
            assert(after.at(p) == before.at(p));
            lemma_covers_one_more(line, p, k);
        }
    }
}

/// A point is among the first `k + 1` cells of the walk when it is among the first
/// `k`, or is the cell of step `k`.
proof fn lemma_covers_one_more(line: Line, p: Point, k: int)
    requires
        0 <= k,
    ensures
        line.covers_within(p, k + 1) <==> line.covers_within(p, k) || line.cell(k) == (
            p.x as int,
            p.y as int,
        ),
{
    if line.covers_within(p, k + 1) {
        let j = choose|j: int| 0 <= j < k + 1 && #[trigger] line.cell(j) == (p.x as int, p.y as int);
        if j != k {
            assert(line.covers_within(p, k));
        }
    }
    if line.covers_within(p, k) {
        let j = choose|j: int| 0 <= j < k && #[trigger] line.cell(j) == (p.x as int, p.y as int);
        assert(0 <= j < k + 1);
    }
}

/// Passing over a cell that is out of bounds draws it as far as the grid can show.
proof fn lemma_step_skipped<const X: usize, const Y: usize>(
    start: FourQuadrantMatrix<X, Y, u8>,
    now: FourQuadrantMatrix<X, Y, u8>,
    line: Line,
    k: int,
)
    requires
        0 <= k,
        draws_within(start, now, line, k),
        !in_grid(start, line.cell(k)),
    ensures
        draws_within(start, now, line, k + 1),
{
    assert forall|p: Point| start.in_bounds(p) implies #[trigger] now.at(p) == (
    if line.covers_within(p, k + 1) {
        1u8
    } else {
        start.at(p)
    }) by {
        lemma_covers_one_more(line, p, k);
    }
}

/// Where the walk has just left the grid, the cells drawn so far are all that the
/// whole line shows.
proof fn lemma_rest_skipped<const X: usize, const Y: usize>(
    start: FourQuadrantMatrix<X, Y, u8>,
    now: FourQuadrantMatrix<X, Y, u8>,
    line: Line,
    k: int,
)
    requires
        0 < k <= line.run(),
        draws_within(start, now, line, k),
        in_grid(start, line.cell(k - 1)),
        !in_grid(start, line.cell(k)),
    ensures
        draws(start, now, line),
{
    assert forall|p: Point| start.in_bounds(p) implies #[trigger] now.at(p) == (if line.covers(p) {
        1u8
    } else {
        start.at(p)
    }) by {
        if line.covers(p) && !line.covers_within(p, k) {
            let j = choose|j: int|
                0 <= j < line.run() + 1 && #[trigger] line.cell(j) == (p.x as int, p.y as int);
            if j > k {
                lemma_walk_leaves_once(start, line, k - 1, j);
            }
            assert(!in_grid(start, line.cell(j)));
        }
        if line.covers_within(p, k) {
            let j = choose|j: int| 0 <= j < k && #[trigger] line.cell(j) == (p.x as int, p.y as int);
            assert(0 <= j < line.run() + 1);
        }
    }
}

/// Renders a line into a matrix of pixels: every cell of the rasterized line that lies
/// within the bounds of the matrix is set to 1, and nothing else changes.
///
/// The line may extend past the edges of the matrix in either direction. Cells out of
/// bounds are passed over until the line enters the matrix, and the walk ends with the
/// first cell out of bounds after that, as the line cannot come back.
pub fn draw_line<const X: usize, const Y: usize>(
    line: &Line,
    matrix: &mut FourQuadrantMatrix<X, Y, u8>,
)
    ensures
        final(matrix).wf(),
        old(matrix).same_frame(final(matrix)),
        forall|p: Point|
            old(matrix).in_bounds(p) ==> #[trigger] final(matrix).at(p) == (if line.covers(p) {
                1u8
            } else {
                old(matrix).at(p)
            }),
        draws(*old(matrix), *final(matrix), *line),
{
    // Is it steeper than 45 degrees? If so, we transpose the line, so that we always walk
    // the axis on which it covers more ground.
    let steep = magnitude(line.0.x as i128 - line.1.x as i128) < magnitude(
        line.0.y as i128 - line.1.y as i128,
    );
    let (a, b): (Point, Point) = if steep {
        (Point { x: line.0.y, y: line.0.x }, Point { x: line.1.y, y: line.1.x })
    } else {
        (line.0, line.1)
    };
    // If the line is running right-to-left, flip the points so we start on the left.
    let (from, to): (Point, Point) = if a.x > b.x {
        (b, a)
    } else {
        (a, b)
    };
    let run: i128 = to.x as i128 - from.x as i128;
    let rise: i128 = magnitude(to.y as i128 - from.y as i128);
    let rising = to.y > from.y;

    // If the first point is out of bounds, we want to wait for us to get in bounds before
    // arming the early return.
    let first = if steep {
        Point { x: from.y, y: from.x }
    } else {
        from
    };
    let mut prev_out_of_bounds = !matrix.is_in_bounds(&first);

    let mut error2: i128 = 0;
    let mut u: isize = from.x;
    let mut v: isize = from.y;
    let ghost mut k: int = 0;
    let ghost mut n: int = 0;
    proof {
        lemma_across_ends(run as int, rise as int);
        assert(line.cell(0) == (first.x as int, first.y as int));
    }
    loop
        invariant_except_break
            run == line.run(),
            rise == line.rise(),
            rising == line.rising(),
            steep == line.steep(),
            from.x == line.along(line.first()),
            from.y == line.across(line.first()),
            to.x == from.x + run,
            to.y == (if rising {
                from.y + rise
            } else {
                from.y - rise
            }),
            0 <= rise <= run,
            0 <= k <= run,
            0 <= n <= rise,
            n == steps_across(run as int, rise as int, k),
            u == from.x + k,
            v == (if rising {
                from.y + n
            } else {
                from.y - n
            }),
            error2 == 2 * (rise * k) - 2 * (run * n),
            -run < error2 <= run || (run == 0 && error2 == 0),
            matrix.wf(),
            draws_within(*old(matrix), *matrix, *line, k),
            !prev_out_of_bounds ==> in_grid(
                *matrix,
                line.cell(
                    if k == 0 {
                        0
                    } else {
                        k - 1
                    },
                ),
            ),
        ensures
            matrix.wf(),
            draws(*old(matrix), *matrix, *line),
        decreases run - k,
    {
        // Remember the transpose? This is where we undo it.
        let draw_point = if steep {
            Point { x: v, y: u }
        } else {
            Point { x: u, y: v }
        };
        let ghost before = *matrix;
        if matrix.is_in_bounds(&draw_point) {
            let cell = matrix.index_mut(draw_point);
            *cell = 1;
            prev_out_of_bounds = false;
            proof {
                lemma_step_drawn(*old(matrix), before, *matrix, *line, k, draw_point);
            }
        } else {
            if !prev_out_of_bounds {
                proof {
                    lemma_rest_skipped(*old(matrix), *matrix, *line, k);
                }
                break;
            }
            prev_out_of_bounds = true;
            proof {
                lemma_step_skipped(*old(matrix), *matrix, *line, k);
            }
        }
        if u == to.x {
            break;
        }
        u = u + 1;
        error2 = error2 + 2 * rise;
        proof {
            assert(rise * (k + 1) == rise * k + rise) by (nonlinear_arith);
        }
        if error2 > run {
            proof {
                assert(run * (n + 1) == run * n + run) by (nonlinear_arith);
                assert(2 * (rise * (k + 1)) - 2 * (run * (n + 1)) == 2 * rise * (k + 1) - 2 * run * (n
                    + 1)) by (nonlinear_arith);
                lemma_across_unique(run as int, rise as int, k + 1, n + 1);
                lemma_across_range(run as int, rise as int, k + 1);
                n = n + 1;
            }
            v = if rising {
                v + 1
            } else {
                v - 1
            };
            error2 = error2 - 2 * run;
        } else {
            proof {
                assert(2 * (rise * (k + 1)) - 2 * (run * n) == 2 * rise * (k + 1) - 2 * run * n)
                    by (nonlinear_arith);
                lemma_across_unique(run as int, rise as int, k + 1, n);
            }
        }
        proof {
            k = k + 1;
        }
    }
}

/// The absolute value of the difference of two coordinates.
fn magnitude(v: i128) -> (m: i128)
    requires
        -(usize::MAX as int) <= v <= usize::MAX,
    ensures
        m == vstd::math::abs(v as int),
{
    if v < 0 {
        -v
    } else {
        v
    }
}

} // verus!
