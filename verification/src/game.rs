//! The interactive engine front-end: a grid of [`Cell`] grains plus the
//! knobs the input loop turns — gravity and topple toggles, the topple
//! range, the brush radius, and the cursor position. The brush radius is
//! measured in tenths of a cell, so the disc test is exact integer
//! arithmetic: a point is inside the brush iff the squared distance times
//! 100 is at most the squared radius.

use vstd::prelude::*;
use crate::cell::{glyph_allowed, Cell};
use crate::grid::{
    bottom_stable, came_from_at_or_above, empty_grid, gravity_pass, gravity_spec, grid_count,
    grid_get, grid_put, grid_uniform, grid_views, grid_wf, lemma_bottom_stable_trans,
    lemma_came_from_refl, lemma_came_from_trans, lemma_gravity_pass_props, same_dims,
    tick_outcome, topple_outcome, topple_pass, topple_spec,
};
use crate::rng::Coin;
use vstd::pervasive::VecAdditionalExecFns;

verus! {

/// `(x, y)` lies within the brush disc centered at `(cx, cy)`: its
/// Euclidean distance from the center is at most the radius, which is given
/// in tenths of a cell, so the comparison squares both sides and scales the
/// left one by 100.
pub open spec fn in_disc(cx: int, cy: int, x: int, y: int, radius_tenths: int) -> bool {
    100 * ((x - cx) * (x - cx) + (y - cy) * (y - cy)) <= radius_tenths * radius_tenths
}

/// How one cell inside the brush disc relates to its old contents: placing
/// fills an empty cell with a fresh well-formed grain and leaves an
/// occupied cell exactly as it was (so repeated painting never
/// re-randomizes); erasing empties the cell.
pub open spec fn painted_cell(oldv: Option<Cell>, newv: Option<Cell>, additive: bool) -> bool {
    if additive {
        if oldv is Some {
            newv == oldv
        } else {
            newv is Some && newv->Some_0.wf() && glyph_allowed(
                true,
                true,
                true,
                true,
                newv->Some_0.glyph,
            )
        }
    } else {
        newv is None
    }
}

/// What one brush application does to the grid: every in-bounds cell inside
/// the disc is painted as `painted_cell` says, and every other cell is
/// untouched.
pub open spec fn paint_rel(
    g0: Seq<Vec<Option<Cell>>>,
    g1: Seq<Vec<Option<Cell>>>,
    cx: int,
    cy: int,
    rt: int,
    additive: bool,
) -> bool {
    &&& same_dims(g0, g1)
    &&& forall|c: int, r: int|
        0 <= c < g0.len() && 0 <= r < g0[c]@.len() ==> (if in_disc(cx, cy, c, r, rt) {
            painted_cell(g0[c]@[r], #[trigger] g1[c]@[r], additive)
        } else {
            g1[c]@[r] == g0[c]@[r]
        })
}

/// Painting the same disc twice with the brush, with no step in between,
/// leaves the grid exactly as it was after the first application: the
/// first pass fills every empty cell of the disc, so the second pass finds
/// nothing to change and re-randomizes no grain.
pub proof fn lemma_paint_idempotent(
    g0: Seq<Vec<Option<Cell>>>,
    g1: Seq<Vec<Option<Cell>>>,
    g2: Seq<Vec<Option<Cell>>>,
    cx: int,
    cy: int,
    rt: int,
)
    requires
        paint_rel(g0, g1, cx, cy, rt, true),
        paint_rel(g1, g2, cx, cy, rt, true),
    ensures
        same_dims(g1, g2),
        forall|c: int, r: int|
            0 <= c < g1.len() && 0 <= r < g1[c]@.len() ==> (#[trigger] g2[c]@[r]) == g1[c]@[r],
{
    assert forall|c: int, r: int|
        0 <= c < g1.len() && 0 <= r < g1[c]@.len() implies (#[trigger] g2[c]@[r]) == g1[c]@[r] by {
        assert(0 <= c < g0.len() && 0 <= r < g0[c]@.len());
        if in_disc(cx, cy, c, r, rt) {
            assert(painted_cell(g0[c]@[r], g1[c]@[r], true));
            assert(painted_cell(g1[c]@[r], g2[c]@[r], true));
        }
    }
}

/// Every point of the disc lies in the square of half-side `radius / 10`
/// cells around the center, so scanning that square covers the whole disc.
pub proof fn lemma_disc_in_square(cx: int, cy: int, x: int, y: int, rt: int)
    requires
        rt >= 0,
        in_disc(cx, cy, x, y, rt),
    ensures
        cx - rt / 10 <= x <= cx + rt / 10,
        cy - rt / 10 <= y <= cy + rt / 10,
{
    let b = rt / 10;
    assert(rt == 10 * b + rt % 10 && 0 <= rt % 10 < 10);
    let dx = x - cx;
    let dy = y - cy;
    assert(dx * dx >= 0 && dy * dy >= 0) by (nonlinear_arith);
    if dx > b || dx < -b {
        assert(dx * dx >= (b + 1) * (b + 1)) by (nonlinear_arith)
            requires
                b >= 0,
                dx > b || dx < -b,
        ;
        assert(100 * ((b + 1) * (b + 1)) > rt * rt) by (nonlinear_arith)
            requires
                0 <= rt < 10 * (b + 1),
        ;
        assert(100 * (dx * dx + dy * dy) > rt * rt) by (nonlinear_arith)
            requires
                dx * dx >= (b + 1) * (b + 1),
                dy * dy >= 0,
                100 * ((b + 1) * (b + 1)) > rt * rt,
        ;
        assert(false);
    }
    if dy > b || dy < -b {
        assert(dy * dy >= (b + 1) * (b + 1)) by (nonlinear_arith)
            requires
                b >= 0,
                dy > b || dy < -b,
        ;
        assert(100 * ((b + 1) * (b + 1)) > rt * rt) by (nonlinear_arith)
            requires
                0 <= rt < 10 * (b + 1),
        ;
        assert(100 * (dx * dx + dy * dy) > rt * rt) by (nonlinear_arith)
            requires
                dy * dy >= (b + 1) * (b + 1),
                dx * dx >= 0,
                100 * ((b + 1) * (b + 1)) > rt * rt,
        ;
        assert(false);
    }
}

pub struct Game {
    pub exit: bool,
    pub current_column: u16,
    pub current_row: u16,
    pub gravity: bool,
    pub topple: bool,
    pub topple_range: u8,
    pub topple_min: u8,
    pub topple_max: u8,
    pub topple_range_default: u8,
    /// Largest brush radius, in tenths of a cell.
    pub brush_max: u32,
    /// Smallest brush radius, in tenths of a cell.
    pub brush_min: u32,
    /// Brush radius change per step, in tenths of a cell.
    pub brush_step: u32,
    /// Current brush radius, in tenths of a cell.
    pub brush_current: u32,
    pub column_total: u16,
    pub row_total: u16,
    pub grid: Vec<Vec<Option<Cell>>>,
}

impl Game {
    /// The grid matches the recorded dimensions, the topple range sits in
    /// its (positive) bounds, and the brush radius sits in its bounds.
    pub open spec fn wf(self) -> bool {
        &&& grid_wf(self.grid@, self.column_total as int, self.row_total as int)
        &&& 1 <= self.topple_min
        &&& self.topple_min <= self.topple_range <= self.topple_max
        &&& self.topple_min <= self.topple_range_default <= self.topple_max
        &&& 1 <= self.brush_min <= self.brush_current <= self.brush_max <= 10000
        &&& 1 <= self.brush_step <= 10000
    }

    /// The cell at `(c, r)`.
    pub open spec fn spec_cell(self, c: int, r: int) -> Option<Cell> {
        self.grid@[c]@[r]
    }

    /// Everything except the grid is unchanged between the two states.
    pub open spec fn same_knobs(self, other: Game) -> bool {
        &&& other.exit == self.exit
        &&& other.current_column == self.current_column
        &&& other.current_row == self.current_row
        &&& other.gravity == self.gravity
        &&& other.topple == self.topple
        &&& other.topple_range == self.topple_range
        &&& other.topple_min == self.topple_min
        &&& other.topple_max == self.topple_max
        &&& other.topple_range_default == self.topple_range_default
        &&& other.brush_max == self.brush_max
        &&& other.brush_min == self.brush_min
        &&& other.brush_step == self.brush_step
        &&& other.brush_current == self.brush_current
        &&& other.column_total == self.column_total
        &&& other.row_total == self.row_total
    }

    /// A fresh game: an empty grid, cursor at the center, gravity and
    /// topple on, topple range 3 within 1..=100, and a 0.7-cell brush that
    /// steps by 0.7 up to 60.9.
    pub fn new(columns: u32, rows: u32) -> (game: Game)
        requires
            columns <= u16::MAX,
            rows <= u16::MAX,
        ensures
            game.wf(),
            !game.exit,
            game.current_column == columns / 2,
            game.current_row == rows / 2,
            game.gravity,
            game.topple,
            game.topple_range == 3,
            game.topple_min == 1,
            game.topple_max == 100,
            game.topple_range_default == 3,
            game.brush_max == 609,
            game.brush_min == 7,
            game.brush_step == 7,
            game.brush_current == 7,
            game.column_total == columns,
            game.row_total == rows,
            forall|c: int, r: int|
                0 <= c < columns && 0 <= r < rows ==> game.spec_cell(c, r) is None,
    {
        let grid = empty_grid(columns as usize, rows as usize);
        Game {
            exit: false,
            current_column: (columns / 2) as u16,
            current_row: (rows / 2) as u16,
            gravity: true,
            topple: true,
            topple_range: 3,
            topple_min: 1,
            topple_max: 100,
            topple_range_default: 3,
            brush_max: 609,
            brush_min: 7,
            brush_step: 7,
            brush_current: 7,
            column_total: columns as u16,
            row_total: rows as u16,
            grid,
        }
    }

    /// Flip the gravity pass on or off.
    pub fn toggle_gravity(&mut self)
        ensures
            *final(self) == (Game { gravity: !old(self).gravity, ..*old(self) }),
    {
        self.gravity = !self.gravity;
    }

    /// Flip the topple pass on or off.
    pub fn toggle_topple(&mut self)
        ensures
            *final(self) == (Game { topple: !old(self).topple, ..*old(self) }),
    {
        self.topple = !self.topple;
    }

    /// Widen the brush by one step, up to the configured maximum.
    pub fn brush_increase(&mut self)
        requires
            old(self).wf(),
        ensures
            final(self).wf(),
            *final(self) == (Game {
                brush_current: final(self).brush_current,
                ..*old(self)
            }),
            final(self).brush_current == (if old(self).brush_current + old(self).brush_step <= old(self).brush_max {
                old(self).brush_current + old(self).brush_step
            } else {
                old(self).brush_max as int
            }),
    {
        let widened = self.brush_current + self.brush_step;
        self.brush_current = if widened <= self.brush_max {
            widened
        } else {
            self.brush_max
        };
    }

    /// Narrow the brush by one step, down to the configured minimum.
    pub fn brush_decrease(&mut self)
        requires
            old(self).wf(),
        ensures
            final(self).wf(),
            *final(self) == (Game {
                brush_current: final(self).brush_current,
                ..*old(self)
            }),
            final(self).brush_current == (if old(self).brush_current - old(self).brush_step >= old(self).brush_min {
                old(self).brush_current - old(self).brush_step
            } else {
                old(self).brush_min as int
            }),
    {
        self.brush_current = if self.brush_current >= self.brush_min + self.brush_step {
            self.brush_current - self.brush_step
        } else {
            self.brush_min
        };
    }

    /// Raise the topple range by one, up to the configured maximum.
    pub fn topple_range_increase(&mut self)
        requires
            old(self).wf(),
        ensures
            final(self).wf(),
            *final(self) == (Game {
                topple_range: final(self).topple_range,
                ..*old(self)
            }),
            final(self).topple_range == (if old(self).topple_range + 1 <= old(self).topple_max {
                old(self).topple_range + 1
            } else {
                old(self).topple_max as int
            }),
    {
        self.topple_range = if self.topple_range < self.topple_max {
            self.topple_range + 1
        } else {
            self.topple_max
        };
    }

    /// Lower the topple range by one, down to the configured minimum.
    pub fn topple_range_decrease(&mut self)
        requires
            old(self).wf(),
        ensures
            final(self).wf(),
            *final(self) == (Game {
                topple_range: final(self).topple_range,
                ..*old(self)
            }),
            final(self).topple_range == (if old(self).topple_range - 1 >= old(self).topple_min {
                old(self).topple_range - 1
            } else {
                old(self).topple_min as int
            }),
    {
        self.topple_range = if self.topple_range > self.topple_min {
            self.topple_range - 1
        } else {
            self.topple_min
        };
    }

    /// The cell at the given position, for rendering.
    pub fn cell_at(&self, column: u16, row: u16) -> (cell: Option<Cell>)
        requires
            self.wf(),
            column < self.column_total,
            row < self.row_total,
        ensures
            cell == self.spec_cell(column as int, row as int),
    {
        grid_get(&self.grid, column as usize, row as usize)
    }

    /// Single-cell variant of the brush: when `state` is set, fill the
    /// cell with a fresh grain only if it is empty (an occupied cell keeps
    /// its grain); when `state` is clear, empty the cell.
    pub fn set_cell(&mut self, column: u16, row: u16, state: bool)
        requires
            old(self).wf(),
            column < old(self).column_total,
            row < old(self).row_total,
        ensures
            final(self).wf(),
            *final(self) == (Game { grid: final(self).grid, ..*old(self) }),
            painted_cell(
                old(self).spec_cell(column as int, row as int),
                final(self).spec_cell(column as int, row as int),
                state,
            ),
            forall|c: int, r: int|
                0 <= c < old(self).column_total && 0 <= r < old(self).row_total && !(c == column
                    && r == row) ==> final(self).spec_cell(c, r) == old(self).spec_cell(c, r),
    {
        let cur = grid_get(&self.grid, column as usize, row as usize);
        if state && cur.is_none() {
            let cell = Cell::new(true, true, true, true);
            grid_put(&mut self.grid, column as usize, row as usize, Some(cell));
        } else if !state && cur.is_some() {
            grid_put(&mut self.grid, column as usize, row as usize, None);
        }
    }

    /// Empty the grid and restore the brush, topple range and both passes
    /// to their startup values.
    pub fn reset(&mut self)
        requires
            old(self).wf(),
        ensures
            final(self).wf(),
            *final(self) == (Game {
                grid: final(self).grid,
                brush_current: old(self).brush_min,
                topple_range: old(self).topple_range_default,
                gravity: true,
                topple: true,
                ..*old(self)
            }),
            forall|c: int, r: int|
                0 <= c < old(self).column_total && 0 <= r < old(self).row_total ==> final(self).spec_cell(c, r) is None,
    {
        self.grid = empty_grid(self.column_total as usize, self.row_total as usize);
        self.brush_current = self.brush_min;
        self.topple_range = self.topple_range_default;
        self.gravity = true;
        self.topple = true;
    }

    /// Resize the grid in place: cells in the overlap of the old and new
    /// dimensions keep their contents, new cells are empty, and cells
    /// beyond the new dimensions are lost. Always succeeds.
    pub fn resize(&mut self, new_columns: u16, new_rows: u16)
        requires
            old(self).wf(),
        ensures
            final(self).wf(),
            final(self).column_total == new_columns,
            final(self).row_total == new_rows,
            *final(self) == (Game {
                grid: final(self).grid,
                column_total: new_columns,
                row_total: new_rows,
                ..*old(self)
            }),
            forall|c: int, r: int|
                0 <= c < new_columns && 0 <= r < new_rows ==> final(self).spec_cell(c, r) == (if c
                    < old(self).column_total && r < old(self).row_total {
                    old(self).spec_cell(c, r)
                } else {
                    None::<Cell>
                }),
    {
        let ghost s0 = *self;
        let ghost g0 = self.grid@;
        let new_cols_us = new_columns as usize;
        let new_rows_us = new_rows as usize;
        self.grid.truncate(new_cols_us);
        let kept = self.grid.len();
        let mut c: usize = 0;
        while c < kept
            invariant
                c <= kept,
                kept <= new_cols_us,
                kept <= g0.len(),
                *self == (Game { grid: self.grid, ..s0 }),
                s0.wf(),
                self.grid@.len() == kept,
                forall|i: int| c <= i < kept ==> self.grid@[i] == g0[i],
                forall|i: int| 0 <= i < c ==> (#[trigger] self.grid@[i])@.len() == new_rows_us,
                forall|i: int, r: int|
                    0 <= i < c && 0 <= r < new_rows_us ==> (#[trigger] self.grid@[i]@[r]) == (if r
                        < g0[i]@.len() {
                        g0[i]@[r]
                    } else {
                        None::<Cell>
                    }),
            decreases kept - c,
        {
            let old_len = self.grid[c].len();
            let mut newcol: Vec<Option<Cell>> = Vec::new();
            let mut r: usize = 0;
            while r < new_rows_us
                invariant
                    r <= new_rows_us,
                    newcol@.len() == r,
                    c < self.grid@.len(),
                    old_len == self.grid@[c as int]@.len(),
                    forall|j: int|
                        0 <= j < r ==> (#[trigger] newcol@[j]) == (if j < old_len {
                            self.grid@[c as int]@[j]
                        } else {
                            None::<Cell>
                        }),
                decreases new_rows_us - r,
            {
                let v = if r < old_len {
                    grid_get(&self.grid, c, r)
                } else {
                    None
                };
                newcol.push(v);
                r = r + 1;
            }
            self.grid.set(c, newcol);
            c = c + 1;
        }
        while self.grid.len() < new_cols_us
            invariant
                kept <= self.grid@.len() <= new_cols_us,
                kept <= g0.len(),
                *self == (Game { grid: self.grid, ..s0 }),
                s0.wf(),
                forall|i: int| 0 <= i < kept ==> (#[trigger] self.grid@[i])@.len() == new_rows_us,
                forall|i: int, r: int|
                    0 <= i < kept && 0 <= r < new_rows_us ==> (#[trigger] self.grid@[i]@[r]) == (
                    if r < g0[i]@.len() {
                        g0[i]@[r]
                    } else {
                        None::<Cell>
                    }),
                forall|i: int|
                    kept <= i < self.grid@.len() ==> (#[trigger] self.grid@[i])@.len()
                        == new_rows_us,
                forall|i: int, r: int|
                    kept <= i < self.grid@.len() && 0 <= r < new_rows_us
                        ==> (#[trigger] self.grid@[i]@[r]) is None,
            decreases new_cols_us - self.grid@.len(),
        {
            self.grid.push(crate::grid::empty_column(new_rows_us));
        }
        self.column_total = new_columns;
        self.row_total = new_rows;
    }

    /// Apply the brush at the cursor: place grains in (or erase grains
    /// from) every in-bounds cell whose distance from the cursor is at most
    /// the brush radius. Placing touches only empty cells, so grains
    /// already inside the disc keep their glyph and hue.
    pub fn brush_apply(&mut self, additive: bool)
        requires
            old(self).wf(),
        ensures
            final(self).wf(),
            *final(self) == (Game { grid: final(self).grid, ..*old(self) }),
            paint_rel(
                old(self).grid@,
                final(self).grid@,
                old(self).current_column as int,
                old(self).current_row as int,
                old(self).brush_current as int,
                additive,
            ),
    {
        let ghost s0 = *self;
        let ghost g0 = self.grid@;
        let cc = self.current_column as i64;
        let cr = self.current_row as i64;
        let rt = self.brush_current as i64;
        let b = rt / 10;
        let cols = self.grid.len();
        proof {
            assert forall|c: int, r: int|
                0 <= c < g0.len() && 0 <= r < g0[c]@.len() && in_disc(
                    cc as int,
                    cr as int,
                    c,
                    r,
                    rt as int,
                ) implies cc - b <= c <= cc + b && cr - b <= r <= cr + b by {
                lemma_disc_in_square(cc as int, cr as int, c, r, rt as int);
            }
        }
        let mut x = cc - b;
        while x <= cc + b
            invariant
                *self == (Game { grid: self.grid, ..s0 }),
                s0.wf(),
                g0 == s0.grid@,
                cc == s0.current_column as i64,
                cr == s0.current_row as i64,
                rt == s0.brush_current as i64,
                0 <= b <= 1000,
                b == rt / 10,
                cc - b <= x <= cc + b + 1,
                cols == self.grid@.len(),
                same_dims(g0, self.grid@),
                forall|c: int, r: int|
                    0 <= c < g0.len() && 0 <= r < g0[c]@.len() ==> (if c < x && in_disc(
                        cc as int,
                        cr as int,
                        c,
                        r,
                        rt as int,
                    ) {
                        painted_cell(g0[c]@[r], #[trigger] self.grid@[c]@[r], additive)
                    } else {
                        self.grid@[c]@[r] == g0[c]@[r]
                    }),
            decreases cc + b + 1 - x,
        {
            proof {
                assert forall|c: int, r: int|
                    0 <= c < g0.len() && 0 <= r < g0[c]@.len() && in_disc(
                        cc as int,
                        cr as int,
                        c,
                        r,
                        rt as int,
                    ) implies cr - b <= r by {
                    lemma_disc_in_square(cc as int, cr as int, c, r, rt as int);
                }
            }
            let mut y = cr - b;
            while y <= cr + b
                invariant
                    *self == (Game { grid: self.grid, ..s0 }),
                    s0.wf(),
                    g0 == s0.grid@,
                    cc == s0.current_column as i64,
                    cr == s0.current_row as i64,
                    rt == s0.brush_current as i64,
                    0 <= b <= 1000,
                    b == rt / 10,
                    cc - b <= x <= cc + b,
                    cr - b <= y <= cr + b + 1,
                    cols == self.grid@.len(),
                    same_dims(g0, self.grid@),
                    forall|c: int, r: int|
                        0 <= c < g0.len() && 0 <= r < g0[c]@.len() ==> (if (c < x || (c == x && r
                            < y)) && in_disc(cc as int, cr as int, c, r, rt as int) {
                            painted_cell(g0[c]@[r], #[trigger] self.grid@[c]@[r], additive)
                        } else {
                            self.grid@[c]@[r] == g0[c]@[r]
                        }),
                decreases cr + b + 1 - y,
            {
                let dx = x - cc;
                let dy = y - cr;
                proof {
                    assert(-1001 <= dx <= 1001 && -1001 <= dy <= 1001);
                    assert(0 <= dx * dx <= 1002001) by (nonlinear_arith)
                        requires
                            -1001 <= dx <= 1001,
                    ;
                    assert(0 <= dy * dy <= 1002001) by (nonlinear_arith)
                        requires
                            -1001 <= dy <= 1001,
                    ;
                    assert(0 <= rt * rt <= 100000000) by (nonlinear_arith)
                        requires
                            0 <= rt <= 10000,
                    ;
                }
                let d2 = dx * dx + dy * dy;
                if 100 * d2 <= rt * rt {
                    if x >= 0 && y >= 0 && (x as usize) < cols {
                        let xu = x as usize;
                        if (y as usize) < self.grid[xu].len() {
                            let yu = y as usize;
                            let cur = grid_get(&self.grid, xu, yu);
                            if additive && cur.is_none() {
                                let cell = Cell::new(true, true, true, true);
                                grid_put(&mut self.grid, xu, yu, Some(cell));
                            } else if !additive && cur.is_some() {
                                grid_put(&mut self.grid, xu, yu, None);
                            }
                        }
                    }
                }
                y = y + 1;
            }
            proof {
                assert forall|c: int, r: int|
                    0 <= c < g0.len() && 0 <= r < g0[c]@.len() && in_disc(
                        cc as int,
                        cr as int,
                        c,
                        r,
                        rt as int,
                    ) implies r <= cr + b by {
                    lemma_disc_in_square(cc as int, cr as int, c, r, rt as int);
                }
            }
            x = x + 1;
        }
        proof {
            assert forall|c: int, r: int|
                0 <= c < g0.len() && 0 <= r < g0[c]@.len() && in_disc(
                    cc as int,
                    cr as int,
                    c,
                    r,
                    rt as int,
                ) implies c <= cc + b by {
                lemma_disc_in_square(cc as int, cr as int, c, r, rt as int);
            }
        }
    }

    /// One tick: when toppling is on, a topple pass over the configured
    /// range; then, when gravity is on, a gravity pass. Grains are only
    /// ever relocated: the total count is unchanged, nothing moves up, and
    /// an occupant of the bottom row stays exactly where it is.
    pub fn tick(&mut self)
        requires
            old(self).wf(),
        ensures
            final(self).wf(),
            old(self).same_knobs(*final(self)),
            grid_count(final(self).grid@) == grid_count(old(self).grid@),
            came_from_at_or_above(old(self).grid@, final(self).grid@),
            bottom_stable(old(self).grid@, final(self).grid@),
            !old(self).topple && old(self).gravity ==> forall|c: int|
                0 <= c < old(self).column_total ==> final(self).grid@[c]@ == gravity_spec(
                    #[trigger] old(self).grid@[c]@,
                ),
            !old(self).topple && !old(self).gravity ==> final(self).grid@ == old(self).grid@,
            old(self).topple && old(self).gravity ==> exists|dirs: Map<(int, int), bool>|
                tick_outcome(
                    old(self).grid@,
                    final(self).grid@,
                    old(self).topple_range as int,
                    dirs,
                ),
            old(self).topple && !old(self).gravity ==> exists|dirs: Map<(int, int), bool>|
                topple_outcome(
                    old(self).grid@,
                    final(self).grid@,
                    old(self).topple_range as int,
                    dirs,
                ),
    {
        let mut coin = Coin::Random;
        self.tick_with(&mut coin);
    }

    /// `tick`, drawing topple directions from the given source.
    pub fn tick_with(&mut self, coin: &mut Coin)
        requires
            old(self).wf(),
        ensures
            final(self).wf(),
            old(self).same_knobs(*final(self)),
            grid_count(final(self).grid@) == grid_count(old(self).grid@),
            came_from_at_or_above(old(self).grid@, final(self).grid@),
            bottom_stable(old(self).grid@, final(self).grid@),
            !old(self).topple && old(self).gravity ==> forall|c: int|
                0 <= c < old(self).column_total ==> final(self).grid@[c]@ == gravity_spec(
                    #[trigger] old(self).grid@[c]@,
                ),
            !old(self).topple && !old(self).gravity ==> final(self).grid@ == old(self).grid@,
            old(self).topple && old(self).gravity ==> exists|dirs: Map<(int, int), bool>|
                tick_outcome(
                    old(self).grid@,
                    final(self).grid@,
                    old(self).topple_range as int,
                    dirs,
                ),
            old(self).topple && !old(self).gravity ==> exists|dirs: Map<(int, int), bool>|
                topple_outcome(
                    old(self).grid@,
                    final(self).grid@,
                    old(self).topple_range as int,
                    dirs,
                ),
    {
        let ghost pre = *self;
        if self.topple {
            let range = self.topple_range;
            proof {
                assert(grid_uniform(self.grid@));
            }
            topple_pass(&mut self.grid, range as usize, coin);
        }
        let ghost mid = *self;
        proof {
            if !pre.topple {
                lemma_came_from_refl(pre.grid@);
            }
        }
        if self.gravity {
            gravity_pass(&mut self.grid);
            proof {
                lemma_gravity_pass_props(mid.grid@, self.grid@);
            }
        } else {
            proof {
                lemma_came_from_refl(mid.grid@);
            }
        }
        proof {
            lemma_came_from_trans(pre.grid@, mid.grid@, self.grid@);
            lemma_bottom_stable_trans(pre.grid@, mid.grid@, self.grid@);
            if pre.topple {
                let dirs = choose|dirs: Map<(int, int), bool>|
                    topple_outcome(pre.grid@, mid.grid@, pre.topple_range as int, dirs);
                if pre.gravity {
                    assert forall|c: int| 0 <= c < pre.grid@.len() implies self.grid@[c]@
                        == gravity_spec(
                        #[trigger] topple_spec(
                            grid_views(pre.grid@),
                            pre.topple_range as int,
                            dirs,
                        )[c],
                    ) by {
                        assert(grid_views(mid.grid@)[c] == mid.grid@[c]@);
                        assert(self.grid@[c]@ == gravity_spec(mid.grid@[c]@));
                    }
                    assert(tick_outcome(pre.grid@, self.grid@, pre.topple_range as int, dirs));
                } else {
                    assert(topple_outcome(pre.grid@, self.grid@, pre.topple_range as int, dirs));
                }
            }
        }
    }

    /// Clear every cell of the bottom row, and nothing else: the one way a
    /// pile that reached the floor leaves the grid.
    pub fn drain(&mut self)
        requires
            old(self).wf(),
            old(self).row_total >= 1,
        ensures
            final(self).wf(),
            *final(self) == (Game { grid: final(self).grid, ..*old(self) }),
            forall|c: int|
                0 <= c < old(self).column_total ==> (#[trigger] final(self).grid@[c])@[old(self).row_total - 1] is None,
            forall|c: int, r: int|
                0 <= c < old(self).column_total && 0 <= r < old(self).row_total - 1 ==> final(self).spec_cell(c, r) == old(self).spec_cell(c, r),
    {
        let ghost s0 = *self;
        let last_row = (self.row_total - 1) as usize;
        let cols = self.grid.len();
        let mut c: usize = 0;
        while c < cols
            invariant
                c <= cols,
                self.grid@.len() == cols,
                *self == (Game { grid: self.grid, ..s0 }),
                s0.wf(),
                cols == s0.column_total,
                s0.row_total >= 1,
                last_row == s0.row_total - 1,
                forall|i: int| c <= i < cols ==> self.grid@[i] == s0.grid@[i],
                forall|i: int| 0 <= i < c ==> (#[trigger] self.grid@[i])@.len() == s0.row_total,
                forall|i: int|
                    0 <= i < c ==> (#[trigger] self.grid@[i]@[last_row as int]) is None,
                forall|i: int, r: int|
                    0 <= i < c && 0 <= r < last_row ==> (#[trigger] self.grid@[i]@[r])
                        == s0.grid@[i]@[r],
            decreases cols - c,
        {
            assert(self.grid@[c as int] == s0.grid@[c as int]);
            assert(s0.grid@[c as int]@.len() == s0.row_total);
            grid_put(&mut self.grid, c, last_row, None);
            c = c + 1;
        }
    }
}

} // verus!
