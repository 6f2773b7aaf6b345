//! Line segments and the cells that rasterizing them selects.
//!
//! A line is walked cell by cell along the axis on which it covers more ground,
//! from the endpoint that is behind on that axis to the other. The walk takes `run`
//! steps along and `rise` steps across, and keeps the cell as close to the ideal line
//! as whole cells allow: after `k` steps along it has taken [`steps_across`] steps across.
//! That count is what integer error accumulation arrives at, where the doubled error
//! grows by `2 * rise` with each step along and is brought back by `2 * run`, with a
//! step across, whenever it exceeds `run`; see [`lemma_across_unique`].

use vstd::prelude::*;
use vstd::arithmetic::div_mod::{lemma_div_is_ordered, lemma_fundamental_div_mod_converse};
use vstd::math::abs;
use super::point::{Point, UPoint};

verus! {

/// A line segment in 2d space, described by its two endpoints.
#[derive(Debug, Clone, Copy, PartialEq, Eq, Structural)]
pub struct Line(pub Point, pub Point);

/// A line segment between two cells of a backing array.
#[derive(Debug, Clone, Copy, PartialEq, Eq, Structural)]
pub struct ULine(pub UPoint, pub UPoint);

/// How many unit steps across a line has taken after `k` steps along it, when it
/// takes `rise` steps across in `run` steps along: `k * rise / run` rounded to the
/// nearest integer, a tie going to the smaller one.
pub open spec fn steps_across(run: int, rise: int, k: int) -> int {
    if run <= 0 {
        0
    } else {
        (2 * rise * k + run - 1) / (2 * run)
    }
}

impl Line {
    /// Whether the line covers more ground vertically than horizontally. A steep
    /// line is walked along `y`, any other along `x`.
    pub open spec fn steep(self) -> bool {
        abs(self.0.x - self.1.x) < abs(self.0.y - self.1.y)
    }

    /// The coordinate of `p` on the axis that the walk follows.
    pub open spec fn along(self, p: Point) -> int {
        if self.steep() {
            p.y as int
        } else {
            p.x as int
        }
    }

    /// The coordinate of `p` on the other axis.
    pub open spec fn across(self, p: Point) -> int {
        if self.steep() {
            p.x as int
        } else {
            p.y as int
        }
    }

    /// The coordinate of the cell `c` on the axis that the walk follows.
    pub open spec fn along_of(self, c: (int, int)) -> int {
        if self.steep() {
            c.1
        } else {
            c.0
        }
    }

    /// The coordinate of the cell `c` on the other axis.
    pub open spec fn across_of(self, c: (int, int)) -> int {
        if self.steep() {
            c.0
        } else {
            c.1
        }
    }

    /// The endpoint at which the walk starts: the one that is behind on the walk's
    /// axis, and the first one where neither is.
    pub open spec fn first(self) -> Point {
        if self.along(self.0) > self.along(self.1) {
            self.1
        } else {
            self.0
        }
    }

    /// The endpoint at which the walk ends.
    pub open spec fn last(self) -> Point {
        if self.along(self.0) > self.along(self.1) {
            self.0
        } else {
            self.1
        }
    }

    /// The number of steps along the walk's axis.
    pub open spec fn run(self) -> int {
        self.along(self.last()) - self.along(self.first())
    }

    /// The number of steps across it.
    pub open spec fn rise(self) -> int {
        abs(self.across(self.last()) - self.across(self.first())) as int
    }

    /// Whether the steps across go in the positive direction.
    pub open spec fn rising(self) -> bool {
        self.across(self.last()) > self.across(self.first())
    }

    /// The coordinates `(x, y)` of the cell that the walk selects at step `k`.
    pub open spec fn cell(self, k: int) -> (int, int) {
        let u = self.along(self.first()) + k;
        let n = steps_across(self.run(), self.rise(), k);
        let v = if self.rising() {
            self.across(self.first()) + n
        } else {
            self.across(self.first()) - n
        };
        if self.steep() {
            (v, u)
        } else {
            (u, v)
        }
    }

    /// Whether one of the first `steps` cells of the walk is `p`.
    pub open spec fn covers_within(self, p: Point, steps: int) -> bool {
        exists|k: int| 0 <= k < steps && #[trigger] self.cell(k) == (p.x as int, p.y as int)
    }

    /// Whether the rasterized line passes through `p`.
    pub open spec fn covers(self, p: Point) -> bool {
        self.covers_within(p, self.run() + 1)
    }

    /// The walk never takes more steps across than along.
    pub proof fn lemma_rise_within_run(self)
        ensures
            0 <= self.rise() <= self.run(),
    {
    }

    /// The line with the endpoints the other way round.
    pub open spec fn reversed(self) -> Line {
        Line(self.1, self.0)
    }

    /// The walk does not depend on which endpoint is named first: both ways round it
    /// selects the same cells in the same order.
    pub proof fn lemma_reversed_same_cells(self, k: int)
        ensures
            self.reversed().run() == self.run(),
            self.reversed().cell(k) == self.cell(k),
    {
    }

    /// Every cell of the walk lies in the rectangle that the endpoints span.
    pub proof fn lemma_cell_between_endpoints(self, k: int)
        requires
            0 <= k <= self.run(),
        ensures
            self.first().x <= self.cell(k).0 <= self.last().x || self.last().x <= self.cell(k).0
                <= self.first().x,
            self.first().y <= self.cell(k).1 <= self.last().y || self.last().y <= self.cell(k).1
                <= self.first().y,
    {
        lemma_across_range(self.run(), self.rise(), k);
    }

    /// Each step of the walk moves one cell along its axis, and at most one cell
    /// across it, towards the last endpoint.
    pub proof fn lemma_cells_adjacent(self, k: int)
        requires
            0 <= k < self.run(),
        ensures
            self.along_of(self.cell(k + 1)) == self.along_of(self.cell(k)) + 1,
            self.across_of(self.cell(k + 1)) == self.across_of(self.cell(k)) || self.across_of(
                self.cell(k + 1),
            ) == self.across_of(self.cell(k)) + (if self.rising() {
                1int
            } else {
                -1int
            }),
    {
        lemma_across_step(self.run(), self.rise(), k);
    }

    /// The walk starts on the one endpoint and ends on the other.
    pub proof fn lemma_covers_endpoints(self)
        ensures
            self.cell(0) == (self.first().x as int, self.first().y as int),
            self.cell(self.run()) == (self.last().x as int, self.last().y as int),
            self.covers(self.0),
            self.covers(self.1),
    {
        let run = self.run();
        let rise = self.rise();
        lemma_across_ends(run, rise);
        assert(self.cell(0) == (self.first().x as int, self.first().y as int));
        assert(self.cell(run) == (self.last().x as int, self.last().y as int));
    }
}

/// The count of steps across is the only one that keeps the doubled error
/// `2 * rise * k - 2 * run * n` within `(-run, run]`.
pub proof fn lemma_across_unique(run: int, rise: int, k: int, n: int)
    requires
        0 < run,
        -run < 2 * rise * k - 2 * run * n <= run,
    ensures
        n == steps_across(run, rise, k),
{
    let x = 2 * rise * k + run - 1;
    let d = 2 * run;
    let r = x - n * d;
    assert(n * d == 2 * run * n) by (nonlinear_arith)
        requires
            d == 2 * run,
    ;
    lemma_fundamental_div_mod_converse(x, d, n, r);
}

/// The error that the count of steps across leaves stays within `(-run, run]`.
pub proof fn lemma_across_error(run: int, rise: int, k: int)
    requires
        0 < run,
    ensures
        -run < 2 * rise * k - 2 * run * steps_across(run, rise, k) <= run,
{
    let x = 2 * rise * k + run - 1;
    let d = 2 * run;
    vstd::arithmetic::div_mod::lemma_fundamental_div_mod(x, d);
    vstd::arithmetic::div_mod::lemma_mod_bound(x, d);
    assert(d * (x / d) == 2 * run * (x / d)) by (nonlinear_arith)
        requires
            d == 2 * run,
    ;
}

/// No steps across have been taken at the start, and all of them at the end.
pub proof fn lemma_across_ends(run: int, rise: int)
    requires
        0 <= rise <= run,
    ensures
        steps_across(run, rise, 0) == 0,
        steps_across(run, rise, run) == rise,
{
    if run > 0 {
        assert(2 * rise * 0 - 2 * run * 0 == 0);
        lemma_across_unique(run, rise, 0, 0);
        assert(2 * rise * run - 2 * run * rise == 0) by (nonlinear_arith);
        lemma_across_unique(run, rise, run, rise);
    }
}

/// The count of steps across never goes down along the walk.
pub proof fn lemma_across_monotonic(run: int, rise: int, j: int, k: int)
    requires
        0 <= rise,
        j <= k,
    ensures
        steps_across(run, rise, j) <= steps_across(run, rise, k),
{
    if run > 0 {
        assert(2 * rise * j <= 2 * rise * k) by (nonlinear_arith)
            requires
                0 <= rise,
                j <= k,
        ;
        lemma_div_is_ordered(2 * rise * j + run - 1, 2 * rise * k + run - 1, 2 * run);
    }
}

/// From one step of the walk to the next the count of steps across stays or goes up
/// by one.
pub proof fn lemma_across_step(run: int, rise: int, k: int)
    requires
        0 <= rise <= run,
    ensures
        steps_across(run, rise, k) <= steps_across(run, rise, k + 1) <= steps_across(run, rise, k) + 1,
{
    if run > 0 {
        let n = steps_across(run, rise, k);
        lemma_across_monotonic(run, rise, k, k + 1);
        lemma_across_error(run, rise, k);
        lemma_across_error(run, rise, k + 1);
        let m = steps_across(run, rise, k + 1);
        assert(2 * rise * (k + 1) == 2 * rise * k + 2 * rise) by (nonlinear_arith);
        assert(m <= n + 1) by (nonlinear_arith)
            requires
                0 < run,
                0 <= rise <= run,
                -run < 2 * rise * k - 2 * run * n <= run,
                -run < 2 * rise * k + 2 * rise - 2 * run * m <= run,
        ;
    }
}

/// Along the walk the count of steps across stays between none and all of them.
pub proof fn lemma_across_range(run: int, rise: int, k: int)
    requires
        0 <= rise <= run,
        0 <= k <= run,
    ensures
        0 <= steps_across(run, rise, k) <= rise,
{
    lemma_across_ends(run, rise);
    lemma_across_monotonic(run, rise, 0, k);
    lemma_across_monotonic(run, rise, k, run);
}

} // verus!
