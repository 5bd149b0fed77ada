//! The cell store shared by both engine front-ends: a vector of columns, each
//! column a vector of optional occupants, addressed `grid[column][row]` with
//! row 0 at the top and gravity pulling toward increasing row indices.
//!
//! This module holds the mathematical model of such a grid (occupancy count,
//! well-formedness, provenance of moved occupants) and the verified primitive
//! operations the simulation passes are built from: reading a cell, writing a
//! cell, and relocating an occupant to an empty destination.

use vstd::prelude::*;
use vstd::pervasive::VecAdditionalExecFns;
use crate::rng::Coin;

verus! {

/// Number of occupied cells in one column.
pub open spec fn col_count<T>(col: Seq<Option<T>>) -> int
    decreases col.len(),
{
    if col.len() == 0 {
        0
    } else {
        col_count(col.drop_last()) + if col.last() is Some {
            1int
        } else {
            0int
        }
    }
}

/// Number of occupied cells in the whole grid.
pub open spec fn grid_count<T>(g: Seq<Vec<Option<T>>>) -> int
    decreases g.len(),
{
    if g.len() == 0 {
        0
    } else {
        grid_count(g.drop_last()) + col_count(g.last()@)
    }
}

/// Every column holds exactly `rows` cells and there are exactly `cols`
/// columns.
pub open spec fn grid_wf<T>(g: Seq<Vec<Option<T>>>, cols: int, rows: int) -> bool {
    &&& g.len() == cols
    &&& forall|c: int| 0 <= c < cols ==> (#[trigger] g[c])@.len() == rows
}

/// Every occupant of `g1` already existed somewhere in `g0`, at the same row
/// or higher up (a smaller row index). This is how "the simulation never
/// lifts a particle" is stated without tracking identities: moves only ever
/// increase the row index, so each occupant can be traced back to a cell of
/// the pre-state at the same or a smaller row.
pub open spec fn came_from_at_or_above<T>(
    g0: Seq<Vec<Option<T>>>,
    g1: Seq<Vec<Option<T>>>,
) -> bool {
    forall|c: int, r: int|
        0 <= c < g1.len() && 0 <= r < g1[c]@.len() && (#[trigger] g1[c]@[r]) is Some
            ==> exists|c0: int, r0: int|
                0 <= c0 < g0.len() && 0 <= r0 < g0[c0]@.len() && r0 <= r
                    && (#[trigger] g0[c0]@[r0]) == g1[c]@[r]
}

/// `g1` has exactly the same column count and column lengths as `g0`.
pub open spec fn same_dims<T>(g0: Seq<Vec<Option<T>>>, g1: Seq<Vec<Option<T>>>) -> bool {
    &&& g1.len() == g0.len()
    &&& forall|c: int| 0 <= c < g0.len() ==> (#[trigger] g1[c])@.len() == g0[c]@.len()
}

/// An occupant of the bottom row of `g0` is still in place in `g1`.
pub open spec fn bottom_stable<T>(g0: Seq<Vec<Option<T>>>, g1: Seq<Vec<Option<T>>>) -> bool {
    forall|c: int|
        0 <= c < g0.len() && (#[trigger] g0[c])@.len() > 0 && g0[c]@[g0[c]@.len() - 1] is Some
            ==> g1[c]@[g0[c]@.len() - 1] == g0[c]@[g0[c]@.len() - 1]
}

/// The occupant at `(c, r)` rests on something: the cell directly below is
/// occupied, or `r` is the bottom row.
pub open spec fn resting<T>(g: Seq<Vec<Option<T>>>, c: int, r: int) -> bool {
    r == g[c]@.len() - 1 || g[c]@[r + 1] is Some
}

/// The column one step toward the chosen side.
pub open spec fn topple_target(c: int, left: bool) -> int {
    if left {
        c - 1
    } else {
        c + 1
    }
}

/// A topple move from `(c, r)` into column `nc`, `range` rows further down,
/// is allowed: the destination exists and is empty, and the occupant rests
/// on something.
pub open spec fn can_topple_to<T>(
    g: Seq<Vec<Option<T>>>,
    c: int,
    r: int,
    range: int,
    nc: int,
) -> bool {
    &&& 0 <= nc < g.len()
    &&& r + range < g[nc]@.len()
    &&& g[nc]@[r + range] is None
    &&& resting(g, c, r)
}

/// A column's occupancy count changes by the difference at the one updated
/// position.
pub proof fn lemma_col_count_update<T>(col: Seq<Option<T>>, i: int, v: Option<T>)
    requires
        0 <= i < col.len(),
    ensures
        col_count(col.update(i, v)) == col_count(col) - (if col[i] is Some {
            1int
        } else {
            0int
        }) + (if v is Some {
            1int
        } else {
            0int
        }),
    decreases col.len(),
{
    let upd = col.update(i, v);
    if i == col.len() - 1 {
        assert(upd.drop_last() =~= col.drop_last());
    } else {
        assert(upd.drop_last() =~= col.drop_last().update(i, v));
        lemma_col_count_update(col.drop_last(), i, v);
    }
}

/// Replacing one column changes the grid count by the difference of the two
/// column counts.
pub proof fn lemma_grid_count_update<T>(g: Seq<Vec<Option<T>>>, c: int, col: Vec<Option<T>>)
    requires
        0 <= c < g.len(),
    ensures
        grid_count(g.update(c, col)) == grid_count(g) - col_count(g[c]@) + col_count(col@),
    decreases g.len(),
{
    let upd = g.update(c, col);
    if c == g.len() - 1 {
        assert(upd.drop_last() =~= g.drop_last());
    } else {
        assert(upd.drop_last() =~= g.drop_last().update(c, col));
        lemma_grid_count_update(g.drop_last(), c, col);
    }
}

/// One step of the gravity scan at row `r`: if the cell is occupied and the
/// cell directly below is inside the column and empty, the occupant moves
/// down by exactly one row.
pub open spec fn grav_step<T>(col: Seq<Option<T>>, r: int) -> Seq<Option<T>> {
    if 0 <= r && r + 1 < col.len() && col[r] is Some && col[r + 1] is None {
        col.update(r + 1, col[r]).update(r, None)
    } else {
        col
    }
}

/// The column after the gravity scan has processed rows `len - 1` down to
/// `k`, in that order. Scanning bottom-to-top is what bounds each occupant's
/// fall to a single row per pass.
pub open spec fn grav_scanned<T>(col: Seq<Option<T>>, k: int) -> Seq<Option<T>>
    decreases col.len() - k,
{
    if k >= col.len() {
        col
    } else {
        grav_step(grav_scanned(col, k + 1), k)
    }
}

/// The column after one full gravity pass.
pub open spec fn gravity_spec<T>(col: Seq<Option<T>>) -> Seq<Option<T>> {
    grav_scanned(col, 0)
}

/// What the gravity scan guarantees: the column keeps its length and its
/// occupancy count; rows above the scanned region are untouched; every
/// occupant is the old occupant of the same cell or of the cell one row up
/// (so nothing falls more than one row, and nothing rises); and an occupant
/// of the bottom row never moves.
pub proof fn lemma_grav_scanned_props<T>(col: Seq<Option<T>>, k: int)
    requires
        0 <= k,
    ensures
        grav_scanned(col, k).len() == col.len(),
        col_count(grav_scanned(col, k)) == col_count(col),
        forall|r: int| 0 <= r < k ==> grav_scanned(col, k)[r] == col[r],
        forall|r: int|
            0 <= r < col.len() && (#[trigger] grav_scanned(col, k)[r]) is Some ==> grav_scanned(
                col,
                k,
            )[r] == col[r] || (r - 1 >= k && grav_scanned(col, k)[r] == col[r - 1]),
        col.len() > 0 && col.last() is Some ==> grav_scanned(col, k).last() == col.last(),
    decreases col.len() - k,
{
    if k < col.len() {
        lemma_grav_scanned_props(col, k + 1);
        let mid = grav_scanned(col, k + 1);
        if 0 <= k && k + 1 < mid.len() && mid[k] is Some && mid[k + 1] is None {
            lemma_col_count_update(mid, k + 1, mid[k]);
            lemma_col_count_update(mid.update(k + 1, mid[k]), k, None);
        }
    }
}

/// Read the cell at `(c, r)`.
pub fn grid_get<T: Copy>(g: &Vec<Vec<Option<T>>>, c: usize, r: usize) -> (v: Option<T>)
    requires
        c < g@.len(),
        r < g@[c as int]@.len(),
    ensures
        v == g@[c as int]@[r as int],
{
    g[c][r]
}

/// Write the cell at `(c, r)`, leaving every other cell and all dimensions
/// untouched.
pub fn grid_put<T>(g: &mut Vec<Vec<Option<T>>>, c: usize, r: usize, v: Option<T>)
    requires
        c < old(g)@.len(),
        r < old(g)@[c as int]@.len(),
    ensures
        final(g)@.len() == old(g)@.len(),
        final(g)@[c as int]@ == old(g)@[c as int]@.update(r as int, v),
        forall|i: int| 0 <= i < old(g)@.len() && i != c ==> final(g)@[i] == old(g)@[i],
{
    let col = &mut g[c];
    col.set(r, v);
}

/// A column of `rows` empty cells.
pub fn empty_column<T>(rows: usize) -> (col: Vec<Option<T>>)
    ensures
        col@.len() == rows,
        forall|r: int| 0 <= r < rows ==> (#[trigger] col@[r]) is None,
{
    let mut col: Vec<Option<T>> = Vec::new();
    while col.len() < rows
        invariant
            col@.len() <= rows,
            forall|r: int| 0 <= r < col@.len() ==> (#[trigger] col@[r]) is None,
        decreases rows - col@.len(),
    {
        col.push(None);
    }
    col
}

/// An all-empty grid of the given dimensions.
pub fn empty_grid<T>(cols: usize, rows: usize) -> (g: Vec<Vec<Option<T>>>)
    ensures
        grid_wf(g@, cols as int, rows as int),
        forall|c: int, r: int|
            0 <= c < cols && 0 <= r < rows ==> (#[trigger] g@[c]@[r]) is None,
{
    let mut g: Vec<Vec<Option<T>>> = Vec::new();
    while g.len() < cols
        invariant
            g@.len() <= cols,
            forall|c: int| 0 <= c < g@.len() ==> (#[trigger] g@[c])@.len() == rows,
            forall|c: int, r: int|
                0 <= c < g@.len() && 0 <= r < rows ==> (#[trigger] g@[c]@[r]) is None,
        decreases cols - g@.len(),
    {
        g.push(empty_column(rows));
    }
    g
}

/// Run the gravity scan over one column, bottom row first: each occupant
/// with an empty cell directly below it moves down one row.
pub fn gravity_column<T: Copy>(g: &mut Vec<Vec<Option<T>>>, c: usize)
    requires
        c < old(g)@.len(),
    ensures
        final(g)@.len() == old(g)@.len(),
        final(g)@[c as int]@ == gravity_spec(old(g)@[c as int]@),
        forall|i: int| 0 <= i < old(g)@.len() && i != c ==> final(g)@[i] == old(g)@[i],
{
    let ghost g0 = g@;
    let ghost orig = g@[c as int]@;
    let rows = g[c].len();
    let mut row = rows;
    while row > 0
        invariant
            c < g@.len(),
            g@.len() == g0.len(),
            row <= rows,
            orig.len() == rows,
            g@[c as int]@ == grav_scanned(orig, row as int),
            forall|i: int| 0 <= i < g0.len() && i != c ==> g@[i] == g0[i],
        decreases row,
    {
        row = row - 1;
        proof {
            lemma_grav_scanned_props(orig, row + 1);
        }
        let below = row + 1;
        if below < rows {
            let cur = grid_get(g, c, row);
            if cur.is_some() {
                let b = grid_get(g, c, below);
                if b.is_none() {
                    grid_put(g, c, below, cur);
                    grid_put(g, c, row, None);
                }
            }
        }
        assert(g@[c as int]@ == grav_step(grav_scanned(orig, row + 1), row as int));
    }
    assert(g@[c as int]@ == grav_scanned(orig, 0));
}

/// Every occupant of a grid can be traced to itself.
pub proof fn lemma_came_from_refl<T>(g: Seq<Vec<Option<T>>>)
    ensures
        came_from_at_or_above(g, g),
{
    assert forall|c: int, r: int|
        0 <= c < g.len() && 0 <= r < g[c]@.len() && (#[trigger] g[c]@[r]) is Some implies exists|
        c0: int,
        r0: int,
    |
        0 <= c0 < g.len() && 0 <= r0 < g[c0]@.len() && r0 <= r && (#[trigger] g[c0]@[r0]) == g[c]@[r] by {
        assert(0 <= c < g.len() && 0 <= r < g[c]@.len() && r <= r && g[c]@[r] == g[c]@[r]);
    }
}

/// Tracing occupants back composes across two stages.
pub proof fn lemma_came_from_trans<T>(
    a: Seq<Vec<Option<T>>>,
    b: Seq<Vec<Option<T>>>,
    c: Seq<Vec<Option<T>>>,
)
    requires
        came_from_at_or_above(a, b),
        came_from_at_or_above(b, c),
    ensures
        came_from_at_or_above(a, c),
{
    assert forall|i: int, j: int|
        0 <= i < c.len() && 0 <= j < c[i]@.len() && (#[trigger] c[i]@[j]) is Some implies exists|
        c0: int,
        r0: int,
    |
        0 <= c0 < a.len() && 0 <= r0 < a[c0]@.len() && r0 <= j && (#[trigger] a[c0]@[r0]) == c[i]@[j] by {
        let (c1, r1): (int, int) = choose|c1: int, r1: int|
            0 <= c1 < b.len() && 0 <= r1 < b[c1]@.len() && r1 <= j && (#[trigger] b[c1]@[r1])
                == c[i]@[j];
        assert(b[c1]@[r1] is Some);
        let (c0, r0): (int, int) = choose|c0: int, r0: int|
            0 <= c0 < a.len() && 0 <= r0 < a[c0]@.len() && r0 <= r1 && (#[trigger] a[c0]@[r0])
                == b[c1]@[r1];
        assert(0 <= c0 < a.len() && 0 <= r0 < a[c0]@.len() && r0 <= j && a[c0]@[r0] == c[i]@[j]);
    }
}

/// Bottom-row occupants that survive one stage in place survive the next.
pub proof fn lemma_bottom_stable_trans<T>(
    a: Seq<Vec<Option<T>>>,
    b: Seq<Vec<Option<T>>>,
    c: Seq<Vec<Option<T>>>,
)
    requires
        same_dims(a, b),
        bottom_stable(a, b),
        bottom_stable(b, c),
    ensures
        bottom_stable(a, c),
{
    assert forall|i: int|
        0 <= i < a.len() && (#[trigger] a[i])@.len() > 0 && a[i]@[a[i]@.len() - 1] is Some implies
        c[i]@[a[i]@.len() - 1] == a[i]@[a[i]@.len() - 1] by {
        assert(b[i]@[a[i]@.len() - 1] == a[i]@[a[i]@.len() - 1]);
        assert(b[i]@.len() == a[i]@.len());
    }
}

/// If each column keeps its occupancy count, the whole grid does.
pub proof fn lemma_grid_count_pointwise<T>(g0: Seq<Vec<Option<T>>>, g1: Seq<Vec<Option<T>>>)
    requires
        g1.len() == g0.len(),
        forall|c: int| 0 <= c < g0.len() ==> col_count(#[trigger] g1[c]@) == col_count(g0[c]@),
    ensures
        grid_count(g1) == grid_count(g0),
    decreases g0.len(),
{
    if g0.len() > 0 {
        lemma_grid_count_pointwise(g0.drop_last(), g1.drop_last());
    }
}

/// A grid whose every column is the gravity scan of the old column keeps
/// the occupant count, lifts nothing, and leaves bottom-row occupants in
/// place.
pub proof fn lemma_gravity_pass_props<T>(g0: Seq<Vec<Option<T>>>, g1: Seq<Vec<Option<T>>>)
    requires
        g1.len() == g0.len(),
        forall|c: int| 0 <= c < g0.len() ==> g1[c]@ == gravity_spec(#[trigger] g0[c]@),
    ensures
        same_dims(g0, g1),
        grid_count(g1) == grid_count(g0),
        came_from_at_or_above(g0, g1),
        bottom_stable(g0, g1),
{
    assert forall|c: int| 0 <= c < g0.len() implies (#[trigger] g1[c])@.len() == g0[c]@.len()
        && col_count(g1[c]@) == col_count(g0[c]@) by {
        lemma_grav_scanned_props(g0[c]@, 0);
    }
    lemma_grid_count_pointwise(g0, g1);
    assert forall|c: int, r: int|
        0 <= c < g1.len() && 0 <= r < g1[c]@.len() && (#[trigger] g1[c]@[r]) is Some implies exists|
        c0: int,
        r0: int,
    |
        0 <= c0 < g0.len() && 0 <= r0 < g0[c0]@.len() && r0 <= r && (#[trigger] g0[c0]@[r0])
            == g1[c]@[r] by {
        lemma_grav_scanned_props(g0[c]@, 0);
        if g1[c]@[r] == g0[c]@[r] {
            assert(0 <= c < g0.len() && 0 <= r < g0[c]@.len() && r <= r && g0[c]@[r] == g1[c]@[r]);
        } else {
            assert(g1[c]@[r] == g0[c]@[r - 1]);
            assert(0 <= c < g0.len() && 0 <= r - 1 < g0[c]@.len() && r - 1 <= r && g0[c]@[r - 1]
                == g1[c]@[r]);
        }
    }
    assert forall|c: int|
        0 <= c < g0.len() && (#[trigger] g0[c])@.len() > 0 && g0[c]@[g0[c]@.len() - 1] is Some
            implies g1[c]@[g0[c]@.len() - 1] == g0[c]@[g0[c]@.len() - 1] by {
        lemma_grav_scanned_props(g0[c]@, 0);
    }
}

/// Run the gravity pass over the whole grid, column by column. Columns do
/// not interact during this pass: each column's result is exactly the
/// gravity scan of its own prior contents.
pub fn gravity_pass<T: Copy>(g: &mut Vec<Vec<Option<T>>>)
    ensures
        final(g)@.len() == old(g)@.len(),
        forall|c: int|
            0 <= c < old(g)@.len() ==> final(g)@[c]@ == gravity_spec(#[trigger] old(g)@[c]@),
{
    let cols = g.len();
    let ghost g0 = g@;
    let mut c: usize = 0;
    while c < cols
        invariant
            g@.len() == cols,
            g0.len() == cols,
            c <= cols,
            forall|i: int| 0 <= i < c ==> g@[i]@ == gravity_spec(#[trigger] g0[i]@),
            forall|i: int| c <= i < cols ==> g@[i] == g0[i],
        decreases cols - c,
    {
        gravity_column(g, c);
        c = c + 1;
    }
}

/// The grid as a sequence of column contents: the model the topple scan
/// below is defined over.
pub open spec fn grid_views<T>(g: Seq<Vec<Option<T>>>) -> Seq<Seq<Option<T>>> {
    Seq::new(g.len(), |i: int| g[i]@)
}

/// The direction preferred at one scan position: the bit recorded for that
/// position, or "right first" where none is recorded.
pub open spec fn dir_at(dirs: Map<(int, int), bool>, c: int, r: int) -> bool {
    if dirs.contains_key((c, r)) {
        dirs[(c, r)]
    } else {
        false
    }
}

/// `can_topple_to`, over the column-contents model.
pub open spec fn model_can_topple<T>(
    m: Seq<Seq<Option<T>>>,
    c: int,
    r: int,
    range: int,
    nc: int,
) -> bool {
    &&& 0 <= c < m.len()
    &&& 0 <= r < m[c].len()
    &&& 0 <= range
    &&& 0 <= nc < m.len()
    &&& r + range < m[nc].len()
    &&& m[nc][r + range] is None
    &&& (r == m[c].len() - 1 || m[c][r + 1] is Some)
}

/// The grid after relocating the occupant of `(c, r)` to the empty cell
/// `(nc, r + range)`.
pub open spec fn model_move<T>(
    m: Seq<Seq<Option<T>>>,
    c: int,
    r: int,
    range: int,
    nc: int,
) -> Seq<Seq<Option<T>>> {
    m.update(nc, m[nc].update(r + range, m[c][r])).update(c, m[c].update(r, None))
}

/// One visit of the topple scan at an occupied cell: try the preferred
/// side; if it refuses, try the opposite side once; move on the first side
/// that allows it, else stay.
pub open spec fn topple_cell_step<T>(
    m: Seq<Seq<Option<T>>>,
    c: int,
    r: int,
    range: int,
    left: bool,
) -> Seq<Seq<Option<T>>> {
    if model_can_topple(m, c, r, range, topple_target(c, left)) {
        model_move(m, c, r, range, topple_target(c, left))
    } else if model_can_topple(m, c, r, range, topple_target(c, !left)) {
        model_move(m, c, r, range, topple_target(c, !left))
    } else {
        m
    }
}

/// Column `c` of the topple scan after visiting rows `len - 1` down to `k`,
/// in that order: every occupied cell found gets one visit, with the
/// direction recorded for that position in `dirs`.
pub open spec fn topple_col_scanned<T>(
    m: Seq<Seq<Option<T>>>,
    c: int,
    k: int,
    range: int,
    dirs: Map<(int, int), bool>,
) -> Seq<Seq<Option<T>>>
    decreases m[c].len() - k,
{
    if k >= m[c].len() {
        m
    } else {
        let m1 = topple_col_scanned(m, c, k + 1, range, dirs);
        if 0 <= c < m1.len() && 0 <= k < m1[c].len() && m1[c][k] is Some {
            topple_cell_step(m1, c, k, range, dir_at(dirs, c, k))
        } else {
            m1
        }
    }
}

/// The topple scan after processing columns `0 .. cols_done`, in ascending
/// order, each bottom-to-top.
pub open spec fn topple_scanned<T>(
    m: Seq<Seq<Option<T>>>,
    cols_done: int,
    range: int,
    dirs: Map<(int, int), bool>,
) -> Seq<Seq<Option<T>>>
    decreases cols_done,
{
    if cols_done <= 0 {
        m
    } else {
        topple_col_scanned(
            topple_scanned(m, cols_done - 1, range, dirs),
            cols_done - 1,
            0,
            range,
            dirs,
        )
    }
}

/// The whole topple pass as a function of the old grid, the range, and the
/// direction drawn at each scan position.
pub open spec fn topple_spec<T>(
    m: Seq<Seq<Option<T>>>,
    range: int,
    dirs: Map<(int, int), bool>,
) -> Seq<Seq<Option<T>>> {
    topple_scanned(m, m.len() as int, range, dirs)
}

/// `post` is one allowed outcome of the topple pass on `pre`: exactly the
/// topple scan of `pre` with the directions in `dirs`.
pub open spec fn topple_outcome<T>(
    pre: Seq<Vec<Option<T>>>,
    post: Seq<Vec<Option<T>>>,
    range: int,
    dirs: Map<(int, int), bool>,
) -> bool {
    grid_views(post) == topple_spec(grid_views(pre), range, dirs)
}

/// `post` is one allowed outcome of a full tick on `pre`: the topple scan
/// with the directions in `dirs`, followed by the gravity scan of every
/// column.
pub open spec fn tick_outcome<T>(
    pre: Seq<Vec<Option<T>>>,
    post: Seq<Vec<Option<T>>>,
    range: int,
    dirs: Map<(int, int), bool>,
) -> bool {
    &&& post.len() == pre.len()
    &&& forall|c: int|
        0 <= c < pre.len() ==> post[c]@ == gravity_spec(
            #[trigger] topple_spec(grid_views(pre), range, dirs)[c],
        )
}

/// One visit of the scan keeps the column count and every column's length.
pub proof fn lemma_topple_cell_step_dims<T>(
    m: Seq<Seq<Option<T>>>,
    c: int,
    r: int,
    range: int,
    left: bool,
)
    ensures
        topple_cell_step(m, c, r, range, left).len() == m.len(),
        forall|i: int|
            0 <= i < m.len() ==> (#[trigger] topple_cell_step(m, c, r, range, left)[i]).len()
                == m[i].len(),
{
    let first = topple_target(c, left);
    let second = topple_target(c, !left);
    assert forall|i: int|
        0 <= i < m.len() implies (#[trigger] topple_cell_step(m, c, r, range, left)[i]).len()
        == m[i].len() by {
        if model_can_topple(m, c, r, range, first) {
            assert(topple_cell_step(m, c, r, range, left) == model_move(m, c, r, range, first));
            if i == c {
                assert(model_move(m, c, r, range, first)[i] == m[c].update(r, None));
            } else if i == first {
                assert(model_move(m, c, r, range, first)[i] == m[first].update(
                    r + range,
                    m[c][r],
                ));
            } else {
                assert(model_move(m, c, r, range, first)[i] == m[i]);
            }
        } else if model_can_topple(m, c, r, range, second) {
            assert(topple_cell_step(m, c, r, range, left) == model_move(m, c, r, range, second));
            if i == c {
                assert(model_move(m, c, r, range, second)[i] == m[c].update(r, None));
            } else if i == second {
                assert(model_move(m, c, r, range, second)[i] == m[second].update(
                    r + range,
                    m[c][r],
                ));
            } else {
                assert(model_move(m, c, r, range, second)[i] == m[i]);
            }
        }
    }
}

/// The topple scan only relocates occupants: the column count and every
/// column's length are unchanged.
pub proof fn lemma_topple_col_scanned_dims<T>(
    m: Seq<Seq<Option<T>>>,
    c: int,
    k: int,
    range: int,
    dirs: Map<(int, int), bool>,
)
    ensures
        topple_col_scanned(m, c, k, range, dirs).len() == m.len(),
        forall|i: int|
            0 <= i < m.len() ==> (#[trigger] topple_col_scanned(m, c, k, range, dirs)[i]).len()
                == m[i].len(),
    decreases m[c].len() - k,
{
    if k < m[c].len() {
        lemma_topple_col_scanned_dims(m, c, k + 1, range, dirs);
        let m1 = topple_col_scanned(m, c, k + 1, range, dirs);
        if 0 <= c < m1.len() && 0 <= k < m1[c].len() && m1[c][k] is Some {
            lemma_topple_cell_step_dims(m1, c, k, range, dir_at(dirs, c, k));
        }
    }
}

/// As above, for the whole scan.
pub proof fn lemma_topple_scanned_dims<T>(
    m: Seq<Seq<Option<T>>>,
    cols_done: int,
    range: int,
    dirs: Map<(int, int), bool>,
)
    ensures
        topple_scanned(m, cols_done, range, dirs).len() == m.len(),
        forall|i: int|
            0 <= i < m.len() ==> (#[trigger] topple_scanned(m, cols_done, range, dirs)[i]).len()
                == m[i].len(),
    decreases cols_done,
{
    if cols_done > 0 {
        lemma_topple_scanned_dims(m, cols_done - 1, range, dirs);
        lemma_topple_col_scanned_dims(
            topple_scanned(m, cols_done - 1, range, dirs),
            cols_done - 1,
            0,
            range,
            dirs,
        );
    }
}

/// The column scan reads directions only at its own column, at row `k` and
/// below it in scan order (larger row indices), so directions recorded
/// elsewhere do not change it.
pub proof fn lemma_topple_col_scanned_frame<T>(
    m: Seq<Seq<Option<T>>>,
    c: int,
    k: int,
    range: int,
    dirs1: Map<(int, int), bool>,
    dirs2: Map<(int, int), bool>,
)
    requires
        forall|r: int| k <= r ==> #[trigger] dir_at(dirs1, c, r) == dir_at(dirs2, c, r),
    ensures
        topple_col_scanned(m, c, k, range, dirs1) == topple_col_scanned(m, c, k, range, dirs2),
    decreases m[c].len() - k,
{
    if k < m[c].len() {
        lemma_topple_col_scanned_frame(m, c, k + 1, range, dirs1, dirs2);
    }
}

/// The scan of the first `cols_done` columns reads directions only at
/// those columns.
pub proof fn lemma_topple_scanned_frame<T>(
    m: Seq<Seq<Option<T>>>,
    cols_done: int,
    range: int,
    dirs1: Map<(int, int), bool>,
    dirs2: Map<(int, int), bool>,
)
    requires
        forall|c: int, r: int|
            0 <= c < cols_done ==> #[trigger] dir_at(dirs1, c, r) == dir_at(dirs2, c, r),
    ensures
        topple_scanned(m, cols_done, range, dirs1) == topple_scanned(m, cols_done, range, dirs2),
    decreases cols_done,
{
    if cols_done > 0 {
        lemma_topple_scanned_frame(m, cols_done - 1, range, dirs1, dirs2);
        lemma_topple_col_scanned_frame(
            topple_scanned(m, cols_done - 1, range, dirs1),
            cols_done - 1,
            0,
            range,
            dirs1,
            dirs2,
        );
    }
}

/// After one gravity pass over a column, no occupant has moved up and no
/// occupant has fallen more than one row: the occupant of any cell is the
/// old occupant of the same cell or of the cell directly above it. The
/// column also keeps its length and its occupant count.
pub proof fn lemma_gravity_single_row_fall<T>(col: Seq<Option<T>>)
    ensures
        gravity_spec(col).len() == col.len(),
        col_count(gravity_spec(col)) == col_count(col),
        forall|r: int|
            0 <= r < col.len() && (#[trigger] gravity_spec(col)[r]) is Some ==> gravity_spec(col)[r]
                == col[r] || (r - 1 >= 0 && gravity_spec(col)[r] == col[r - 1]),
{
    lemma_grav_scanned_props(col, 0);
}

/// Relocating one occupant `range` rows down keeps every pass invariant:
/// occupants still trace back to the starting grid at the same or a smaller
/// row, and (for a positive range) bottom-row occupants of the starting grid
/// stay in place.
proof fn lemma_move_keeps_pass_invariants<T>(
    g_start: Seq<Vec<Option<T>>>,
    pre: Seq<Vec<Option<T>>>,
    post: Seq<Vec<Option<T>>>,
    c: int,
    r: int,
    range: int,
    nc: int,
)
    requires
        range >= 0,
        0 <= c < pre.len(),
        0 <= nc < pre.len(),
        nc != c,
        0 <= r < pre[c]@.len(),
        r + range < pre[nc]@.len(),
        pre[nc]@.len() == pre[c]@.len(),
        pre[c]@[r] is Some,
        pre[nc]@[r + range] is None,
        post.len() == pre.len(),
        post[nc]@ == pre[nc]@.update(r + range, pre[c]@[r]),
        post[c]@ == pre[c]@.update(r, None),
        forall|i: int| 0 <= i < pre.len() && i != c && i != nc ==> post[i] == pre[i],
        came_from_at_or_above(g_start, pre),
    ensures
        came_from_at_or_above(g_start, post),
        range >= 1 && same_dims(g_start, pre) && bottom_stable(g_start, pre) ==> bottom_stable(
            g_start,
            post,
        ),
{
    assert forall|i: int, j: int|
        0 <= i < post.len() && 0 <= j < post[i]@.len() && (#[trigger] post[i]@[j]) is Some implies
        exists|c0: int, r0: int|
        0 <= c0 < g_start.len() && 0 <= r0 < g_start[c0]@.len() && r0 <= j
            && (#[trigger] g_start[c0]@[r0]) == post[i]@[j] by {
        if i == nc && j == r + range {
            assert(post[i]@[j] == pre[c]@[r]);
            assert(pre[c]@[r] is Some);
            let (c0, r0): (int, int) = choose|c0: int, r0: int|
                0 <= c0 < g_start.len() && 0 <= r0 < g_start[c0]@.len() && r0 <= r
                    && (#[trigger] g_start[c0]@[r0]) == pre[c]@[r];
            assert(r0 <= j);
            assert(g_start[c0]@[r0] == post[i]@[j]);
        } else {
            assert(post[i]@[j] == pre[i]@[j]);
        }
    }
    if range >= 1 && same_dims(g_start, pre) && bottom_stable(g_start, pre) {
        assert forall|i: int|
            0 <= i < g_start.len() && (#[trigger] g_start[i])@.len() > 0
                && g_start[i]@[g_start[i]@.len() - 1] is Some implies post[i]@[g_start[i]@.len()
            - 1] == g_start[i]@[g_start[i]@.len() - 1] by {
            let last = g_start[i]@.len() - 1;
            assert(pre[i]@[last] == g_start[i]@[last]);
            if i == c {
                assert(r < last);
            }
            if i == nc {
                assert(r + range != last);
            }
        }
    }
}

/// Try to slide the occupant at `(c, r)` one column toward the chosen side
/// and `range` rows down, exactly when the destination exists and is empty
/// and the occupant rests on something. Returns whether the move happened.
pub fn topple_in_direction<T: Copy>(
    g: &mut Vec<Vec<Option<T>>>,
    c: usize,
    r: usize,
    range: usize,
    left: bool,
) -> (moved: bool)
    requires
        c < old(g)@.len(),
        r < old(g)@[c as int]@.len(),
        old(g)@[c as int]@[r as int] is Some,
        r + range <= usize::MAX,
    ensures
        moved == can_topple_to(
            old(g)@,
            c as int,
            r as int,
            range as int,
            topple_target(c as int, left),
        ),
        !moved ==> *final(g) == *old(g),
        moved ==> {
            let nc = topple_target(c as int, left);
            &&& final(g)@.len() == old(g)@.len()
            &&& final(g)@[nc]@ == old(g)@[nc]@.update(r + range, old(g)@[c as int]@[r as int])
            &&& final(g)@[c as int]@ == old(g)@[c as int]@.update(r as int, None)
            &&& forall|i: int|
                0 <= i < old(g)@.len() && i != c && i != nc ==> final(g)@[i] == old(g)@[i]
            &&& grid_count(final(g)@) == grid_count(old(g)@)
        },
{
    let ghost g0 = g@;
    let cols = g.len();
    if left && c == 0 {
        return false;
    }
    let nc = if left {
        c - 1
    } else {
        c + 1
    };
    if nc >= cols {
        return false;
    }
    let nr = r + range;
    let rows_nc = g[nc].len();
    if nr >= rows_nc {
        return false;
    }
    if grid_get(g, nc, nr).is_some() {
        return false;
    }
    let rows_c = g[c].len();
    let rest = r == rows_c - 1 || grid_get(g, c, r + 1).is_some();
    if !rest {
        return false;
    }
    let v = grid_get(g, c, r);
    grid_put(g, nc, nr, v);
    grid_put(g, c, r, None);
    proof {
        assert(nc != c);
        let mid = g0.update(nc as int, final(g)@[nc as int]);
        assert(g@ =~= mid.update(c as int, g@[c as int]));
        lemma_grid_count_update(g0, nc as int, g@[nc as int]);
        lemma_col_count_update(g0[nc as int]@, nr as int, g0[c as int]@[r as int]);
        lemma_grid_count_update(mid, c as int, g@[c as int]);
        lemma_col_count_update(mid[c as int]@, r as int, None);
    }
    true
}

/// The number of rows all columns share (0 for a grid with no columns).
pub open spec fn grid_rows<T>(g: Seq<Vec<Option<T>>>) -> int {
    if g.len() == 0 {
        0
    } else {
        g[0]@.len() as int
    }
}

/// `g` is rectangular: all columns share one length.
pub open spec fn grid_uniform<T>(g: Seq<Vec<Option<T>>>) -> bool {
    forall|c: int| 0 <= c < g.len() ==> (#[trigger] g[c])@.len() == grid_rows(g)
}

/// A column with no empty cell never changes under the gravity scan.
proof fn lemma_grav_scanned_full<T>(col: Seq<Option<T>>, k: int)
    requires
        forall|r: int| 0 <= r < col.len() ==> (#[trigger] col[r]) is Some,
    ensures
        grav_scanned(col, k) == col,
    decreases col.len() - k,
{
    if k < col.len() {
        lemma_grav_scanned_full(col, k + 1);
    }
}

/// A column with no empty cell is a fixpoint of the gravity pass: nothing
/// has anywhere to fall.
pub proof fn lemma_gravity_full_column_fixpoint<T>(col: Seq<Option<T>>)
    requires
        forall|r: int| 0 <= r < col.len() ==> (#[trigger] col[r]) is Some,
    ensures
        gravity_spec(col) == col,
{
    lemma_grav_scanned_full(col, 0);
}

/// A grid with no empty cell admits no topple move, so the column scan
/// leaves it unchanged.
proof fn lemma_topple_col_scanned_full<T>(
    m: Seq<Seq<Option<T>>>,
    c: int,
    k: int,
    range: int,
    dirs: Map<(int, int), bool>,
)
    requires
        forall|i: int, r: int|
            0 <= i < m.len() && 0 <= r < m[i].len() ==> (#[trigger] m[i][r]) is Some,
    ensures
        topple_col_scanned(m, c, k, range, dirs) == m,
    decreases m[c].len() - k,
{
    if k < m[c].len() {
        lemma_topple_col_scanned_full(m, c, k + 1, range, dirs);
    }
}

/// As above, for the whole topple scan.
proof fn lemma_topple_scanned_full<T>(
    m: Seq<Seq<Option<T>>>,
    cols_done: int,
    range: int,
    dirs: Map<(int, int), bool>,
)
    requires
        forall|i: int, r: int|
            0 <= i < m.len() && 0 <= r < m[i].len() ==> (#[trigger] m[i][r]) is Some,
    ensures
        topple_scanned(m, cols_done, range, dirs) == m,
    decreases cols_done,
{
    if cols_done > 0 {
        lemma_topple_scanned_full(m, cols_done - 1, range, dirs);
        lemma_topple_col_scanned_full(m, cols_done - 1, 0, range, dirs);
    }
}

/// A completely full grid is a fixpoint of the tick: with no empty cell
/// there is no topple destination and no gravity destination, so every
/// allowed outcome leaves every column exactly as it was.
pub proof fn lemma_full_grid_tick_fixpoint<T>(
    pre: Seq<Vec<Option<T>>>,
    post: Seq<Vec<Option<T>>>,
    range: int,
    dirs: Map<(int, int), bool>,
)
    requires
        tick_outcome(pre, post, range, dirs),
        forall|c: int, r: int|
            0 <= c < pre.len() && 0 <= r < pre[c]@.len() ==> (#[trigger] pre[c]@[r]) is Some,
    ensures
        forall|c: int| 0 <= c < pre.len() ==> (#[trigger] post[c])@ == pre[c]@,
{
    let m = grid_views(pre);
    assert forall|i: int, r: int|
        0 <= i < m.len() && 0 <= r < m[i].len() implies (#[trigger] m[i][r]) is Some by {
        assert(m[i] == pre[i]@);
    }
    lemma_topple_scanned_full(m, m.len() as int, range, dirs);
    assert forall|c: int| 0 <= c < pre.len() implies (#[trigger] post[c])@ == pre[c]@ by {
        assert(topple_spec(m, range, dirs)[c] == m[c]);
        assert(m[c] == pre[c]@);
        assert(post[c]@ == gravity_spec(pre[c]@));
        lemma_gravity_full_column_fixpoint(pre[c]@);
    }
}

/// Every occupant of `m0` is still present in `m1`, in the same row
/// (possibly another column).
pub open spec fn rows_kept<T>(m0: Seq<Seq<Option<T>>>, m1: Seq<Seq<Option<T>>>) -> bool {
    forall|c: int, r: int|
        0 <= c < m0.len() && 0 <= r < m0[c].len() && (#[trigger] m0[c][r]) is Some
            ==> exists|c2: int|
                0 <= c2 < m1.len() && r < m1[c2].len() && (#[trigger] m1[c2])[r] == m0[c][r]
}

/// Staying in one's row composes across two stages.
proof fn lemma_rows_kept_trans<T>(
    a: Seq<Seq<Option<T>>>,
    b: Seq<Seq<Option<T>>>,
    c: Seq<Seq<Option<T>>>,
)
    requires
        rows_kept(a, b),
        rows_kept(b, c),
    ensures
        rows_kept(a, c),
{
    assert forall|i: int, r: int|
        0 <= i < a.len() && 0 <= r < a[i].len() && (#[trigger] a[i][r]) is Some implies exists|
        c2: int,
    | 0 <= c2 < c.len() && r < c[c2].len() && (#[trigger] c[c2])[r] == a[i][r] by {
        let i1 = choose|i1: int|
            0 <= i1 < b.len() && r < b[i1].len() && (#[trigger] b[i1])[r] == a[i][r];
        assert(b[i1][r] is Some);
        let i2 = choose|i2: int|
            0 <= i2 < c.len() && r < c[i2].len() && (#[trigger] c[i2])[r] == b[i1][r];
        assert(0 <= i2 < c.len() && r < c[i2].len() && c[i2][r] == a[i][r]);
    }
}

/// With a zero range, one visit slides an occupant sideways within its own
/// row at most, so every occupant keeps its row.
proof fn lemma_cell_step_zero_range_rows<T>(m: Seq<Seq<Option<T>>>, c: int, k: int, left: bool)
    ensures
        rows_kept(m, topple_cell_step(m, c, k, 0, left)),
{
    let step = topple_cell_step(m, c, k, 0, left);
    assert forall|i: int, r: int|
        0 <= i < m.len() && 0 <= r < m[i].len() && (#[trigger] m[i][r]) is Some implies exists|
        c2: int,
    | 0 <= c2 < step.len() && r < step[c2].len() && (#[trigger] step[c2])[r] == m[i][r] by {
        if model_can_topple(m, c, k, 0, topple_target(c, left)) || model_can_topple(
            m,
            c,
            k,
            0,
            topple_target(c, !left),
        ) {
            let nc = if model_can_topple(m, c, k, 0, topple_target(c, left)) {
                topple_target(c, left)
            } else {
                topple_target(c, !left)
            };
            assert(step == model_move(m, c, k, 0, nc));
            assert(step[c] == m[c].update(k, None));
            assert(step[nc] == m[nc].update(k, m[c][k]));
            if i == c && r == k {
                assert(step[nc][k] == m[c][k]);
                assert(0 <= nc < step.len() && r < step[nc].len() && step[nc][r] == m[i][r]);
            } else if i == c {
                assert(step[c][r] == m[c][r]);
                assert(0 <= i < step.len() && r < step[i].len() && step[i][r] == m[i][r]);
            } else if i == nc {
                assert(r != k) by {
                    assert(m[nc][k] is None);
                }
                assert(step[nc][r] == m[nc][r]);
                assert(0 <= i < step.len() && r < step[i].len() && step[i][r] == m[i][r]);
            } else {
                assert(step[i] == m[i]);
                assert(0 <= i < step.len() && r < step[i].len() && step[i][r] == m[i][r]);
            }
        } else {
            assert(step == m);
            assert(0 <= i < step.len() && r < step[i].len() && step[i][r] == m[i][r]);
        }
    }
}

/// With a zero range the column scan keeps every occupant in its row.
proof fn lemma_topple_col_scanned_zero_range_rows<T>(
    m: Seq<Seq<Option<T>>>,
    c: int,
    k: int,
    dirs: Map<(int, int), bool>,
)
    ensures
        rows_kept(m, topple_col_scanned(m, c, k, 0, dirs)),
    decreases m[c].len() - k,
{
    if k >= m[c].len() {
        assert(rows_kept(m, m));
    } else {
        lemma_topple_col_scanned_zero_range_rows(m, c, k + 1, dirs);
        let m1 = topple_col_scanned(m, c, k + 1, 0, dirs);
        if 0 <= c < m1.len() && 0 <= k < m1[c].len() && m1[c][k] is Some {
            lemma_cell_step_zero_range_rows(m1, c, k, dir_at(dirs, c, k));
            lemma_rows_kept_trans(m, m1, topple_cell_step(m1, c, k, 0, dir_at(dirs, c, k)));
        }
    }
}

/// With a zero range the whole scan keeps every occupant in its row.
proof fn lemma_topple_scanned_zero_range_rows<T>(
    m: Seq<Seq<Option<T>>>,
    cols_done: int,
    dirs: Map<(int, int), bool>,
)
    ensures
        rows_kept(m, topple_scanned(m, cols_done, 0, dirs)),
    decreases cols_done,
{
    if cols_done <= 0 {
        assert(rows_kept(m, m));
    } else {
        lemma_topple_scanned_zero_range_rows(m, cols_done - 1, dirs);
        let m1 = topple_scanned(m, cols_done - 1, 0, dirs);
        lemma_topple_col_scanned_zero_range_rows(m1, cols_done - 1, 0, dirs);
        lemma_rows_kept_trans(m, m1, topple_col_scanned(m1, cols_done - 1, 0, 0, dirs));
    }
}

/// With a zero topple range, every occupant of the grid is still in its
/// own row after the whole topple pass — in particular a bottom-row
/// occupant stays in the bottom row, only possibly in another column. This
/// is the one case the bottom-stability clauses, stated for positive
/// ranges, leave open.
pub proof fn lemma_topple_spec_zero_range_keeps_rows<T>(
    m: Seq<Seq<Option<T>>>,
    dirs: Map<(int, int), bool>,
)
    ensures
        rows_kept(m, topple_spec(m, 0, dirs)),
{
    lemma_topple_scanned_zero_range_rows(m, m.len() as int, dirs);
}

/// Reading a cell through the column-contents model agrees with reading
/// it through the vector of columns.
proof fn lemma_grid_views_index<T>(g: Seq<Vec<Option<T>>>, i: int)
    requires
        0 <= i < g.len(),
    ensures
        grid_views(g)[i] == g[i]@,
{
}

/// `can_topple_to` and its model twin agree at every real scan position.
proof fn lemma_can_topple_views<T>(g: Seq<Vec<Option<T>>>, c: int, r: int, range: int, nc: int)
    requires
        0 <= c < g.len(),
        0 <= r < g[c]@.len(),
        0 <= range,
    ensures
        model_can_topple(grid_views(g), c, r, range, nc) == can_topple_to(g, c, r, range, nc),
{
    assert(grid_views(g)[c] == g[c]@);
    if 0 <= nc < g.len() {
        assert(grid_views(g)[nc] == g[nc]@);
    }
}

/// One relocation, described cell by cell on the vectors of columns, is
/// exactly `model_move` on the column-contents model.
proof fn lemma_model_move_views<T>(
    pre: Seq<Vec<Option<T>>>,
    post: Seq<Vec<Option<T>>>,
    c: int,
    r: int,
    range: int,
    nc: int,
)
    requires
        0 <= c < pre.len(),
        0 <= nc < pre.len(),
        nc != c,
        post.len() == pre.len(),
        post[nc]@ == pre[nc]@.update(r + range, pre[c]@[r]),
        post[c]@ == pre[c]@.update(r, None),
        forall|i: int| 0 <= i < pre.len() && i != c && i != nc ==> post[i] == pre[i],
    ensures
        grid_views(post) == model_move(grid_views(pre), c, r, range, nc),
{
    let mv = model_move(grid_views(pre), c, r, range, nc);
    assert forall|i: int| 0 <= i < pre.len() implies grid_views(post)[i] == mv[i] by {
        assert(grid_views(pre)[i] == pre[i]@);
        assert(grid_views(pre)[c] == pre[c]@);
        assert(grid_views(pre)[nc] == pre[nc]@);
        if i == c {
            assert(mv[i] == grid_views(pre)[c].update(r, None));
        } else if i == nc {
            assert(mv[i] == grid_views(pre)[nc].update(r + range, grid_views(pre)[c][r]));
        } else {
            assert(mv[i] == grid_views(pre)[i]);
        }
    }
    assert(grid_views(post) =~= mv);
}

/// Run the topple pass: scan column by column, bottom row first, and give
/// every occupant one chance to slide diagonally. The occupant draws a
/// preferred side from the coin; if that side refuses, the opposite side is
/// retried once under the same preconditions. Whatever the coin says, the
/// pass moves occupants only downward (by exactly `range` rows per move),
/// never stacks two occupants, keeps the occupant count, and (for a
/// positive range) never disturbs an occupant of the bottom row.
pub fn topple_pass<T: Copy>(g: &mut Vec<Vec<Option<T>>>, range: usize, coin: &mut Coin)
    requires
        grid_uniform(old(g)@),
        grid_rows(old(g)@) + range <= usize::MAX,
    ensures
        same_dims(old(g)@, final(g)@),
        grid_uniform(final(g)@),
        grid_count(final(g)@) == grid_count(old(g)@),
        came_from_at_or_above(old(g)@, final(g)@),
        range >= 1 ==> bottom_stable(old(g)@, final(g)@),
        exists|dirs: Map<(int, int), bool>|
            topple_outcome(old(g)@, final(g)@, range as int, dirs),
{
    let ghost g0 = g@;
    let ghost mut dirs: Map<(int, int), bool> = Map::empty();
    proof {
        lemma_came_from_refl(g0);
    }
    let cols = g.len();
    let mut c: usize = 0;
    while c < cols
        invariant
            c <= cols,
            g@.len() == cols,
            g0.len() == cols,
            grid_uniform(g0),
            grid_rows(g0) + range <= usize::MAX,
            same_dims(g0, g@),
            grid_count(g@) == grid_count(g0),
            came_from_at_or_above(g0, g@),
            range >= 1 ==> bottom_stable(g0, g@),
            grid_views(g@) == topple_scanned(grid_views(g0), c as int, range as int, dirs),
        decreases cols - c,
    {
        let rows = g[c].len();
        proof {
            lemma_topple_scanned_dims(grid_views(g0), c as int, range as int, dirs);
            lemma_grid_views_index(g0, c as int);
        }
        let mut row = rows;
        while row > 0
            invariant
                c < cols,
                row <= rows,
                g@.len() == cols,
                g0.len() == cols,
                grid_uniform(g0),
                grid_rows(g0) + range <= usize::MAX,
                rows == grid_rows(g0),
                same_dims(g0, g@),
                grid_count(g@) == grid_count(g0),
                came_from_at_or_above(g0, g@),
                range >= 1 ==> bottom_stable(g0, g@),
                grid_views(g@) == topple_col_scanned(
                    topple_scanned(grid_views(g0), c as int, range as int, dirs),
                    c as int,
                    row as int,
                    range as int,
                    dirs,
                ),
            decreases row,
        {
            row = row - 1;
            if grid_get(g, c, row).is_some() {
                let left = coin.flip();
                let ghost dirs0 = dirs;
                proof {
                    dirs = dirs.insert((c as int, row as int), left);
                    lemma_topple_scanned_frame(
                        grid_views(g0),
                        c as int,
                        range as int,
                        dirs0,
                        dirs,
                    );
                    lemma_topple_col_scanned_frame(
                        topple_scanned(grid_views(g0), c as int, range as int, dirs),
                        c as int,
                        row as int + 1,
                        range as int,
                        dirs0,
                        dirs,
                    );
                }
                let ghost pre = g@;
                let ghost m_entry = topple_scanned(grid_views(g0), c as int, range as int, dirs);
                let ghost m1 = topple_col_scanned(
                    m_entry,
                    c as int,
                    row as int + 1,
                    range as int,
                    dirs,
                );
                proof {
                    lemma_topple_scanned_dims(grid_views(g0), c as int, range as int, dirs);
                    lemma_grid_views_index(g0, c as int);
                    lemma_topple_col_scanned_dims(
                        m_entry,
                        c as int,
                        row as int + 1,
                        range as int,
                        dirs,
                    );
                    assert(grid_views(pre) == m1);
                    lemma_grid_views_index(pre, c as int);
                    lemma_can_topple_views(
                        pre,
                        c as int,
                        row as int,
                        range as int,
                        topple_target(c as int, left),
                    );
                    lemma_can_topple_views(
                        pre,
                        c as int,
                        row as int,
                        range as int,
                        topple_target(c as int, !left),
                    );
                }
                let moved = topple_in_direction(g, c, row, range, left);
                proof {
                    if moved {
                        lemma_move_keeps_pass_invariants(
                            g0,
                            pre,
                            g@,
                            c as int,
                            row as int,
                            range as int,
                            topple_target(c as int, left),
                        );
                        lemma_model_move_views(
                            pre,
                            g@,
                            c as int,
                            row as int,
                            range as int,
                            topple_target(c as int, left),
                        );
                    }
                }
                if !moved {
                    let ghost pre2 = g@;
                    let moved2 = topple_in_direction(g, c, row, range, !left);
                    proof {
                        if moved2 {
                            lemma_move_keeps_pass_invariants(
                                g0,
                                pre2,
                                g@,
                                c as int,
                                row as int,
                                range as int,
                                topple_target(c as int, !left),
                            );
                            lemma_model_move_views(
                                pre2,
                                g@,
                                c as int,
                                row as int,
                                range as int,
                                topple_target(c as int, !left),
                            );
                        }
                    }
                }
                proof {
                    assert(grid_views(g@) == topple_cell_step(
                        m1,
                        c as int,
                        row as int,
                        range as int,
                        left,
                    ));
                    assert(m1[c as int][row as int] is Some);
                    assert(dir_at(dirs, c as int, row as int) == left);
                    assert(grid_views(g@) == topple_col_scanned(
                        m_entry,
                        c as int,
                        row as int,
                        range as int,
                        dirs,
                    ));
                }
            } else {
                proof {
                    lemma_topple_scanned_dims(grid_views(g0), c as int, range as int, dirs);
                    lemma_grid_views_index(g0, c as int);
                    let m_entry = topple_scanned(grid_views(g0), c as int, range as int, dirs);
                    lemma_topple_col_scanned_dims(
                        m_entry,
                        c as int,
                        row as int + 1,
                        range as int,
                        dirs,
                    );
                    lemma_grid_views_index(g@, c as int);
                    assert(grid_views(g@)[c as int][row as int] is None);
                    assert(topple_col_scanned(m_entry, c as int, row as int, range as int, dirs)
                        == topple_col_scanned(
                        m_entry,
                        c as int,
                        row as int + 1,
                        range as int,
                        dirs,
                    ));
                }
            }
        }
        c = c + 1;
    }
    proof {
        assert(grid_views(g0).len() == g0.len());
        assert(grid_views(g@) == topple_spec(grid_views(g0), range as int, dirs));
        assert(topple_outcome(g0, g@, range as int, dirs));
    }
}

} // verus!
