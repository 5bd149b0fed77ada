//! The plain engine front-end: a grid of [`Block`] grains with an update
//! that runs one topple pass (the configured range) followed by one gravity
//! pass. The owning loop paints cells, drains the floor, resets, resizes and
//! ticks; all of that is verified here.

use vstd::prelude::*;
use crate::block::Block;
use crate::grid::{
    bottom_stable, came_from_at_or_above, empty_grid, gravity_pass, gravity_spec, grid_count,
    grid_get, grid_put, grid_uniform, grid_views, grid_wf, lemma_bottom_stable_trans,
    lemma_came_from_trans, lemma_gravity_pass_props, tick_outcome, topple_outcome, topple_pass,
    topple_spec,
};
use crate::rng::Coin;
use vstd::pervasive::VecAdditionalExecFns;

verus! {

/// Why constructing an engine was refused.
#[derive(Clone, Copy, Debug, PartialEq, Eq, Structural)]
pub enum ConfigError {
    /// The grid must have at least one column and one row.
    ZeroDimension,
    /// The topple range must not be negative.
    NegativeToppleRange,
}

#[derive(Debug)]
pub struct Sand {
    pub columns: u16,
    pub rows: u16,
    pub grid: Vec<Vec<Option<Block>>>,
    pub speed: u64,
    pub topple: isize,
}

impl Sand {
    /// The grid matches the recorded dimensions and the topple range is not
    /// negative.
    pub open spec fn wf(self) -> bool {
        &&& grid_wf(self.grid@, self.columns as int, self.rows as int)
        &&& self.topple >= 0
    }

    /// The cell at `(c, r)`.
    pub open spec fn spec_cell(self, c: int, r: int) -> Option<Block> {
        self.grid@[c]@[r]
    }

    /// The configuration that survives every operation but `resize_grid`.
    pub open spec fn same_config(self, other: Sand) -> bool {
        &&& other.columns == self.columns
        &&& other.rows == self.rows
        &&& other.speed == self.speed
        &&& other.topple == self.topple
    }

    /// Build an empty grid of the given dimensions. A zero dimension or a
    /// negative topple range is a configuration error; `fps` drives only the
    /// frame delay.
    pub fn new(columns: u16, rows: u16, fps: u64, topple: isize) -> (result: Result<
        Sand,
        ConfigError,
    >)
        requires
            fps >= 1,
        ensures
            result is Ok <==> (columns >= 1 && rows >= 1 && topple >= 0),
            (columns == 0 || rows == 0) ==> result == Err::<Sand, ConfigError>(
                ConfigError::ZeroDimension,
            ),
            (columns >= 1 && rows >= 1 && topple < 0) ==> result == Err::<Sand, ConfigError>(
                ConfigError::NegativeToppleRange,
            ),
            result is Ok ==> {
                let s = result->Ok_0;
                &&& s.wf()
                &&& s.columns == columns
                &&& s.rows == rows
                &&& s.speed == 1000u64 / fps
                &&& s.topple == topple
                &&& forall|c: int, r: int|
                    0 <= c < columns && 0 <= r < rows ==> s.spec_cell(c, r) is None
            },
    {
        if columns == 0 || rows == 0 {
            return Err(ConfigError::ZeroDimension);
        }
        if topple < 0 {
            return Err(ConfigError::NegativeToppleRange);
        }
        let grid = empty_grid(columns as usize, rows as usize);
        Ok(Sand { columns, rows, grid, speed: 1000 / fps, topple })
    }

    /// Grow or shrink the grid in place: cells in the overlap of the old and
    /// new dimensions keep their contents, new cells are empty, and cells
    /// beyond the new dimensions are lost. Always succeeds.
    pub fn resize_grid(&mut self, columns: u16, rows: u16)
        requires
            old(self).wf(),
        ensures
            final(self).wf(),
            final(self).columns == columns,
            final(self).rows == rows,
            final(self).speed == old(self).speed,
            final(self).topple == old(self).topple,
            forall|c: int, r: int|
                0 <= c < columns && 0 <= r < rows ==> final(self).spec_cell(c, r) == (if c < old(self).columns && r < old(self).rows {
                    old(self).spec_cell(c, r)
                } else {
                    None::<Block>
                }),
    {
        let ghost s0 = *self;
        let ghost g0 = self.grid@;
        let new_cols = columns as usize;
        let new_rows = rows as usize;
        self.grid.truncate(new_cols);
        let kept = self.grid.len();
        let mut c: usize = 0;
        while c < kept
            invariant
                c <= kept,
                kept <= new_cols,
                kept <= g0.len(),
                self.speed == s0.speed,
                self.topple == s0.topple,
                s0.topple >= 0,
                self.grid@.len() == kept,
                forall|i: int| c <= i < kept ==> self.grid@[i] == g0[i],
                forall|i: int| 0 <= i < c ==> (#[trigger] self.grid@[i])@.len() == new_rows,
                forall|i: int, r: int|
                    0 <= i < c && 0 <= r < new_rows ==> (#[trigger] self.grid@[i]@[r]) == (if r
                        < g0[i]@.len() {
                        g0[i]@[r]
                    } else {
                        None::<Block>
                    }),
            decreases kept - c,
        {
            let old_len = self.grid[c].len();
            let mut newcol: Vec<Option<Block>> = Vec::new();
            let mut r: usize = 0;
            while r < new_rows
                invariant
                    r <= new_rows,
                    newcol@.len() == r,
                    c < self.grid@.len(),
                    old_len == self.grid@[c as int]@.len(),
                    forall|j: int|
                        0 <= j < r ==> (#[trigger] newcol@[j]) == (if j < old_len {
                            self.grid@[c as int]@[j]
                        } else {
                            None::<Block>
                        }),
                decreases new_rows - r,
            {
                let v = if r < old_len {
                    grid_get(&self.grid, c, r)
                } else {
                    None
                };
                newcol.push(v);
                r = r + 1;
            }
            self.grid.set(c, newcol);
            c = c + 1;
        }
        while self.grid.len() < new_cols
            invariant
                kept <= self.grid@.len() <= new_cols,
                kept <= g0.len(),
                self.speed == s0.speed,
                self.topple == s0.topple,
                s0.topple >= 0,
                forall|i: int| 0 <= i < kept ==> (#[trigger] self.grid@[i])@.len() == new_rows,
                forall|i: int, r: int|
                    0 <= i < kept && 0 <= r < new_rows ==> (#[trigger] self.grid@[i]@[r]) == (if r
                        < g0[i]@.len() {
                        g0[i]@[r]
                    } else {
                        None::<Block>
                    }),
                forall|i: int|
                    kept <= i < self.grid@.len() ==> (#[trigger] self.grid@[i])@.len() == new_rows,
                forall|i: int, r: int|
                    kept <= i < self.grid@.len() && 0 <= r < new_rows
                        ==> (#[trigger] self.grid@[i]@[r]) is None,
            decreases new_cols - self.grid@.len(),
        {
            self.grid.push(crate::grid::empty_column(new_rows));
        }
        self.columns = columns;
        self.rows = rows;
    }

    /// Whether the cell at the given position is occupied.
    pub fn is_cell_set(&mut self, column: u16, row: u16) -> (set: bool)
        requires
            old(self).wf(),
            column < old(self).columns,
            row < old(self).rows,
        ensures
            *final(self) == *old(self),
            set == (old(self).spec_cell(column as int, row as int) is Some),
    {
        grid_get(&self.grid, column as usize, row as usize).is_some()
    }

    /// Whether the cell at the given position is empty.
    pub fn is_cell_unset(&mut self, column: u16, row: u16) -> (unset: bool)
        requires
            old(self).wf(),
            column < old(self).columns,
            row < old(self).rows,
        ensures
            *final(self) == *old(self),
            unset == (old(self).spec_cell(column as int, row as int) is None),
    {
        !self.is_cell_set(column, row)
    }

    /// Put the given grain at the given position, replacing whatever was
    /// there.
    pub fn cell_set(&mut self, column: u16, row: u16, block: Block)
        requires
            old(self).wf(),
            column < old(self).columns,
            row < old(self).rows,
        ensures
            final(self).wf(),
            old(self).same_config(*final(self)),
            final(self).spec_cell(column as int, row as int) == Some(block),
            forall|c: int, r: int|
                0 <= c < old(self).columns && 0 <= r < old(self).rows && !(c == column && r == row)
                    ==> final(self).spec_cell(c, r) == old(self).spec_cell(c, r),
    {
        grid_put(&mut self.grid, column as usize, row as usize, Some(block));
    }

    /// Empty the cell at the given position.
    pub fn clear_cell(&mut self, column: u16, row: u16)
        requires
            old(self).wf(),
            column < old(self).columns,
            row < old(self).rows,
        ensures
            final(self).wf(),
            old(self).same_config(*final(self)),
            final(self).spec_cell(column as int, row as int) is None,
            forall|c: int, r: int|
                0 <= c < old(self).columns && 0 <= r < old(self).rows && !(c == column && r == row)
                    ==> final(self).spec_cell(c, r) == old(self).spec_cell(c, r),
    {
        grid_put(&mut self.grid, column as usize, row as usize, None);
    }

    /// Replace the grid with an all-empty grid of the current dimensions.
    pub fn reset(&mut self)
        requires
            old(self).wf(),
        ensures
            final(self).wf(),
            old(self).same_config(*final(self)),
            forall|c: int, r: int|
                0 <= c < old(self).columns && 0 <= r < old(self).rows ==> final(self).spec_cell(
                    c,
                    r,
                ) is None,
    {
        self.grid = empty_grid(self.columns as usize, self.rows as usize);
    }

    /// Clear every cell of the bottom row, and nothing else: the one way a
    /// pile that reached the floor leaves the grid.
    pub fn drain(&mut self)
        requires
            old(self).wf(),
            old(self).rows >= 1,
        ensures
            final(self).wf(),
            old(self).same_config(*final(self)),
            forall|c: int|
                0 <= c < old(self).columns ==> (#[trigger] final(self).grid@[c])@[old(self).rows
                    - 1] is None,
            forall|c: int, r: int|
                0 <= c < old(self).columns && 0 <= r < old(self).rows - 1 ==> final(self).spec_cell(c, r) == old(self).spec_cell(c, r),
    {
        let last_row = (self.rows - 1) as usize;
        let cols = self.grid.len();
        let ghost s0 = *self;
        let mut c: usize = 0;
        while c < cols
            invariant
                c <= cols,
                self.grid@.len() == cols,
                self.columns == s0.columns,
                self.rows == s0.rows,
                self.speed == s0.speed,
                self.topple == s0.topple,
                s0.wf(),
                cols == s0.columns,
                s0.rows >= 1,
                last_row == s0.rows - 1,
                forall|i: int| c <= i < cols ==> self.grid@[i] == s0.grid@[i],
                forall|i: int| 0 <= i < c ==> (#[trigger] self.grid@[i])@.len() == s0.rows,
                forall|i: int|
                    0 <= i < c ==> (#[trigger] self.grid@[i]@[last_row as int]) is None,
                forall|i: int, r: int|
                    0 <= i < c && 0 <= r < last_row ==> (#[trigger] self.grid@[i]@[r])
                        == s0.grid@[i]@[r],
            decreases cols - c,
        {
            assert(self.grid@[c as int] == s0.grid@[c as int]);
            assert(s0.grid@[c as int]@.len() == s0.rows);
            grid_put(&mut self.grid, c, last_row, None);
            c = c + 1;
        }
    }

    /// One tick: a topple pass over the configured range, then a gravity
    /// pass. Occupants are only ever relocated: the total count is
    /// unchanged, nothing moves up, and (for a positive range) an occupant
    /// of the bottom row stays exactly where it is.
    pub fn update(&mut self)
        requires
            old(self).wf(),
        ensures
            final(self).wf(),
            old(self).same_config(*final(self)),
            grid_count(final(self).grid@) == grid_count(old(self).grid@),
            came_from_at_or_above(old(self).grid@, final(self).grid@),
            old(self).topple >= 1 ==> bottom_stable(old(self).grid@, final(self).grid@),
            exists|dirs: Map<(int, int), bool>|
                tick_outcome(old(self).grid@, final(self).grid@, old(self).topple as int, dirs),
    {
        let mut coin = Coin::Random;
        self.update_with(&mut coin);
    }

    /// `update`, drawing topple directions from the given source.
    pub fn update_with(&mut self, coin: &mut Coin)
        requires
            old(self).wf(),
        ensures
            final(self).wf(),
            old(self).same_config(*final(self)),
            grid_count(final(self).grid@) == grid_count(old(self).grid@),
            came_from_at_or_above(old(self).grid@, final(self).grid@),
            old(self).topple >= 1 ==> bottom_stable(old(self).grid@, final(self).grid@),
            exists|dirs: Map<(int, int), bool>|
                tick_outcome(old(self).grid@, final(self).grid@, old(self).topple as int, dirs),
    {
        let ghost pre = *old(self);
        let range = self.topple;
        self.effect_topple_with(range, coin);
        let ghost mid = *self;
        self.effect_gravity();
        proof {
            lemma_came_from_trans(pre.grid@, mid.grid@, self.grid@);
            if pre.topple >= 1 {
                lemma_bottom_stable_trans(pre.grid@, mid.grid@, self.grid@);
            }
            let dirs = choose|dirs: Map<(int, int), bool>|
                topple_outcome(pre.grid@, mid.grid@, pre.topple as int, dirs);
            assert forall|c: int| 0 <= c < pre.grid@.len() implies self.grid@[c]@ == gravity_spec(
                #[trigger] topple_spec(grid_views(pre.grid@), pre.topple as int, dirs)[c],
            ) by {
                assert(grid_views(mid.grid@)[c] == mid.grid@[c]@);
                assert(self.grid@[c]@ == gravity_spec(mid.grid@[c]@));
            }
            assert(tick_outcome(pre.grid@, self.grid@, pre.topple as int, dirs));
        }
    }

    /// Let every occupant with an empty cell directly below it fall exactly
    /// one row, scanning each column from the bottom row upward. Columns do
    /// not interact; each column's result is the gravity scan of its own
    /// prior contents.
    pub fn effect_gravity(&mut self)
        requires
            old(self).wf(),
        ensures
            final(self).wf(),
            old(self).same_config(*final(self)),
            forall|c: int|
                0 <= c < old(self).columns ==> final(self).grid@[c]@ == gravity_spec(
                    #[trigger] old(self).grid@[c]@,
                ),
            grid_count(final(self).grid@) == grid_count(old(self).grid@),
            came_from_at_or_above(old(self).grid@, final(self).grid@),
            bottom_stable(old(self).grid@, final(self).grid@),
    {
        gravity_pass(&mut self.grid);
        proof {
            lemma_gravity_pass_props(old(self).grid@, self.grid@);
        }
    }

    /// Give every occupant that rests on something one chance to slide one
    /// column sideways and `range` rows down, preferring a random side and
    /// retrying the other side once. Occupants are only relocated downward
    /// into cells that were empty: the count is unchanged, nothing moves
    /// up, and (for a positive range) the bottom row's occupants stay put.
    pub fn effect_topple(&mut self, range: isize)
        requires
            old(self).wf(),
            range >= 0,
        ensures
            final(self).wf(),
            old(self).same_config(*final(self)),
            grid_count(final(self).grid@) == grid_count(old(self).grid@),
            came_from_at_or_above(old(self).grid@, final(self).grid@),
            range >= 1 ==> bottom_stable(old(self).grid@, final(self).grid@),
            exists|dirs: Map<(int, int), bool>|
                topple_outcome(old(self).grid@, final(self).grid@, range as int, dirs),
    {
        let mut coin = Coin::Random;
        self.effect_topple_with(range, &mut coin);
    }

    /// `effect_topple`, drawing directions from the given source.
    pub fn effect_topple_with(&mut self, range: isize, coin: &mut Coin)
        requires
            old(self).wf(),
            range >= 0,
        ensures
            final(self).wf(),
            old(self).same_config(*final(self)),
            grid_count(final(self).grid@) == grid_count(old(self).grid@),
            came_from_at_or_above(old(self).grid@, final(self).grid@),
            range >= 1 ==> bottom_stable(old(self).grid@, final(self).grid@),
            exists|dirs: Map<(int, int), bool>|
                topple_outcome(old(self).grid@, final(self).grid@, range as int, dirs),
    {
        proof {
            assert(grid_uniform(self.grid@));
        }
        topple_pass(&mut self.grid, range as usize, coin);
        proof {
            assert((range as usize) as int == range as int);
        }
    }
}

} // verus!
