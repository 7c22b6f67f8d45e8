//! The game grid and its update rule.

use std::ops::Range;
use vstd::prelude::*;

verus! {

/// The inclusive lower end of the clamped neighborhood along one axis:
/// one below `val`, except at the low edge.
pub open spec fn bound_lo(val: int) -> int {
    if val > 0 {
        val - 1
    } else {
        val
    }
}

/// The exclusive upper end of the clamped neighborhood along one axis:
/// two above `val`, except at the high edge of an axis of length `limit`.
pub open spec fn bound_hi(val: int, limit: int) -> int {
    if val + 1 < limit {
        val + 2
    } else {
        val + 1
    }
}

/// A rectangular field of boolean cells with fixed dimensions, stored
/// row-major in a flat vector. `true` means the cell is alive.
pub struct Grid {
    n_rows: usize,
    n_cols: usize,
    cells: Vec<bool>,
}

impl Grid {
    /// The number of rows, as seen by specifications.
    pub closed spec fn spec_rows(self) -> int {
        self.n_rows as int
    }

    /// The number of columns, as seen by specifications.
    pub closed spec fn spec_cols(self) -> int {
        self.n_cols as int
    }

    /// The grid's internal invariant: the flat store covers every cell.
    pub closed spec fn wf(self) -> bool {
        self.cells@.len() == self.spec_rows() * self.spec_cols()
    }

    /// The state of the cell at `(r, c)`: `true` when it is alive.
    pub closed spec fn cell(self, r: int, c: int) -> bool {
        self.cells@[r * self.spec_cols() + c]
    }

    /// Whether `(r, c)` addresses a cell of this grid.
    pub open spec fn in_bounds(self, r: int, c: int) -> bool {
        0 <= r < self.spec_rows() && 0 <= c < self.spec_cols()
    }

    /// 1 when `(r, c)` is a cell of the grid and alive, 0 otherwise.
    /// Positions off the grid contribute nothing: edges clamp, they do
    /// not wrap.
    pub open spec fn live_at(self, r: int, c: int) -> int {
        if self.in_bounds(r, c) && self.cell(r, c) {
            1
        } else {
            0
        }
    }

    /// The number of live cells among the up-to-8 neighbors of `(r, c)`.
    /// The cell itself is not a neighbor and is never counted.
    pub open spec fn neighbor_count(self, r: int, c: int) -> int {
        self.live_at(r - 1, c - 1) + self.live_at(r - 1, c) + self.live_at(r - 1, c + 1)
            + self.live_at(r, c - 1) + self.live_at(r, c + 1) + self.live_at(r + 1, c - 1)
            + self.live_at(r + 1, c) + self.live_at(r + 1, c + 1)
    }

    /// The state of cell `(r, c)` in the next generation: a live cell
    /// survives with two or three live neighbors, a dead cell comes
    /// alive with exactly three.
    pub open spec fn next_cell(self, r: int, c: int) -> bool {
        if self.cell(r, c) {
            2 <= self.neighbor_count(r, c) <= 3
        } else {
            self.neighbor_count(r, c) == 3
        }
    }

    /// Creates a grid of the given dimensions with every cell dead.
    pub fn new(rows: usize, cols: usize) -> (g: Grid)
        requires
            rows * cols <= usize::MAX,
        ensures
            g.wf(),
            g.spec_rows() == rows,
            g.spec_cols() == cols,
            forall|r: int, c: int| g.in_bounds(r, c) ==> !(#[trigger] g.cell(r, c)),
    {
        let n: usize = rows * cols;
        let mut cells: Vec<bool> = Vec::new();
        let mut k: usize = 0;
        while k < n
            invariant
                k <= n,
                cells@.len() == k,
                forall|t: int| 0 <= t < k ==> !(#[trigger] cells@[t]),
            decreases n - k,
        {
            cells.push(false);
            k = k + 1;
        }
        let g = Grid { n_rows: rows, n_cols: cols, cells };
        proof {
            assert forall|r: int, c: int| g.in_bounds(r, c) implies !(#[trigger] g.cell(r, c)) by {
                lemma_flat_index(r, c, g.spec_rows(), g.spec_cols());
            }
        }
        g
    }

    /// The number of rows.
    pub fn rows(&self) -> (r: usize)
        ensures
            r == self.spec_rows(),
    {
        self.n_rows
    }

    /// The number of columns.
    pub fn cols(&self) -> (c: usize)
        ensures
            c == self.spec_cols(),
    {
        self.n_cols
    }

    /// Reads the state of one cell.
    pub fn get_cell(&self, row: usize, col: usize) -> (alive: bool)
        requires
            self.wf(),
            row < self.spec_rows(),
            col < self.spec_cols(),
        ensures
            alive == self.cell(row as int, col as int),
    {
        proof {
            assert(self.cells@.len() == self.cells.len());
            lemma_flat_index(row as int, col as int, self.spec_rows(), self.spec_cols());
        }
        self.cells[row * self.n_cols + col]
    }

    /// Writes the state of one cell directly, bypassing the update rule.
    /// Every other cell keeps its state.
    pub fn set_cell(&mut self, row: usize, col: usize, is_alive: bool)
        requires
            old(self).wf(),
            row < old(self).spec_rows(),
            col < old(self).spec_cols(),
        ensures
            final(self).wf(),
            final(self).spec_rows() == old(self).spec_rows(),
            final(self).spec_cols() == old(self).spec_cols(),
            final(self).cell(row as int, col as int) == is_alive,
            forall|r: int, c: int|
                old(self).in_bounds(r, c) && (r != row || c != col) ==> #[trigger] final(self).cell(
                    r,
                    c,
                ) == old(self).cell(r, c),
    {
        proof {
            assert(self.cells@.len() == self.cells.len());
            lemma_flat_index(row as int, col as int, self.spec_rows(), self.spec_cols());
        }
        let idx: usize = row * self.n_cols + col;
        self.cells[idx] = is_alive;
        proof {
            assert forall|r: int, c: int|
                old(self).in_bounds(r, c) && (r != row || c != col) implies #[trigger] self.cell(
                r,
                c,
            ) == old(self).cell(r, c) by {
                lemma_flat_index(r, c, self.spec_rows(), self.spec_cols());
                lemma_flat_index_injective(
                    r,
                    c,
                    row as int,
                    col as int,
                    self.spec_rows(),
                    self.spec_cols(),
                );
            }
        }
    }

    /// The half-open range of coordinates to examine along one axis of
    /// length `limit` around coordinate `val`, clamped to the grid: one
    /// below `val` through one above it, cut off at the edges.
    pub fn get_bounds(&self, val: usize, limit: usize) -> (b: Range<usize>)
        requires
            val < limit,
        ensures
            b.start == bound_lo(val as int),
            b.end == bound_hi(val as int, limit as int),
    {
        let start: usize = if val > 0 {
            val - 1
        } else {
            val
        };
        let end: usize = if val + 1 < limit {
            val + 2
        } else {
            val + 1
        };
        Range { start, end }
    }

    /// Counts the live cells among the neighbors of `(row, col)`: the
    /// up-to-8 cells adjacent horizontally, vertically or diagonally,
    /// with no wraparound at the edges and the cell itself excluded.
    pub fn count_neighbors(&self, row: usize, col: usize) -> (n: usize)
        requires
            self.wf(),
            row < self.spec_rows(),
            col < self.spec_cols(),
        ensures
            n == self.neighbor_count(row as int, col as int),
    {
        let mut live_neighbors: usize = 0;

        // Stay in the bounds of the grid along each axis.
        let row_bounds = self.get_bounds(row, self.n_rows);
        let col_bounds = self.get_bounds(col, self.n_cols);
        let rlo: usize = row_bounds.start;
        let rhi: usize = row_bounds.end;
        let clo: usize = col_bounds.start;
        let chi: usize = col_bounds.end;

        let mut i: usize = rlo;
        while i < rhi
            invariant
                self.wf(),
                row < self.spec_rows(),
                col < self.spec_cols(),
                rlo == bound_lo(row as int),
                rhi == bound_hi(row as int, self.spec_rows()),
                clo == bound_lo(col as int),
                chi == bound_hi(col as int, self.spec_cols()),
                rlo <= i <= rhi,
                live_neighbors == rect_sum(*self, row as int, col as int, rlo as int, i as int,
                    clo as int, chi as int),
                live_neighbors <= 3 * (i - rlo),
            decreases rhi - i,
        {
            let mut j: usize = clo;
            while j < chi
                invariant
                    self.wf(),
                    row < self.spec_rows(),
                    col < self.spec_cols(),
                    rlo == bound_lo(row as int),
                    rhi == bound_hi(row as int, self.spec_rows()),
                    clo == bound_lo(col as int),
                    chi == bound_hi(col as int, self.spec_cols()),
                    rlo <= i < rhi,
                    clo <= j <= chi,
                    live_neighbors == rect_sum(*self, row as int, col as int, rlo as int, i as int,
                        clo as int, chi as int) + row_sum(*self, row as int, col as int, i as int,
                        clo as int, j as int),
                    live_neighbors <= 3 * (i - rlo) + (j - clo),
                decreases chi - j,
            {
                // Skip the cell whose neighbors are being counted.
                if !(i == row && j == col) {
                    if self.get_cell(i, j) {
                        live_neighbors = live_neighbors + 1;
                    }
                }
                j = j + 1;
            }
            i = i + 1;
        }
        proof {
            lemma_rect_sum_full(*self, row as int, col as int);
        }
        live_neighbors
    }

    /// Replaces the current generation with the next one: every cell's
    /// new state follows the rule applied to its old state and its old
    /// neighbor count. The whole grid steps at once; no cell's update
    /// sees another cell's already-updated state.
    pub fn update(&mut self)
        requires
            old(self).wf(),
        ensures
            final(self).wf(),
            final(self).spec_rows() == old(self).spec_rows(),
            final(self).spec_cols() == old(self).spec_cols(),
            forall|r: int, c: int|
                old(self).in_bounds(r, c) ==> #[trigger] final(self).cell(r, c) == old(
                    self,
                ).next_cell(r, c),
    {
        let ghost g0 = *self;
        let mut updated: Vec<bool> = Vec::new();
        let mut i: usize = 0;
        while i < self.n_rows
            invariant
                *self == g0,
                self.wf(),
                i <= self.spec_rows(),
                updated@.len() == i * self.spec_cols(),
                forall|r: int, c: int|
                    0 <= r < i && 0 <= c < self.spec_cols() ==> updated@[r * self.spec_cols() + c]
                        == #[trigger] self.next_cell(r, c),
            decreases self.spec_rows() - i,
        {
            let mut j: usize = 0;
            while j < self.n_cols
                invariant
                    *self == g0,
                    self.wf(),
                    i < self.spec_rows(),
                    j <= self.spec_cols(),
                    updated@.len() == i * self.spec_cols() + j,
                    forall|r: int, c: int|
                        0 <= r < self.spec_rows() && 0 <= c < self.spec_cols() && (r < i || (r == i
                            && c < j)) ==> updated@[r * self.spec_cols() + c]
                            == #[trigger] self.next_cell(r, c),
                decreases self.spec_cols() - j,
            {
                let alive = self.get_cell(i, j);
                let live_neighbors: usize = self.count_neighbors(i, j);
                // A live cell survives with two or three live neighbors;
                // a dead cell comes alive with exactly three.
                let next_alive: bool = if alive {
                    2 <= live_neighbors && live_neighbors <= 3
                } else {
                    live_neighbors == 3
                };
                updated.push(next_alive);
                proof {
                    assert forall|r: int, c: int|
                        0 <= r < self.spec_rows() && 0 <= c < self.spec_cols() && (r < i || (r == i
                            && c < j + 1)) implies updated@[r * self.spec_cols() + c]
                        == #[trigger] self.next_cell(r, c) by {
                        lemma_flat_index(r, c, self.spec_rows(), self.spec_cols());
                        if r < i || c < j {
                            lemma_flat_order(r, c, i as int, j as int, self.spec_cols());
                        }
                    }
                }
                j = j + 1;
            }
            proof {
                assert((i + 1) * self.spec_cols() == i * self.spec_cols() + self.spec_cols())
                    by (nonlinear_arith);
            }
            i = i + 1;
        }
        self.cells = updated;
        proof {
            assert forall|r: int, c: int|
                old(self).in_bounds(r, c) implies #[trigger] self.cell(r, c) == old(
                self,
            ).next_cell(r, c) by {
                lemma_flat_index(r, c, self.spec_rows(), self.spec_cols());
            }
        }
    }
}

/// 1 when `(i, j)` is a live cell of `g` other than `(r, c)`, 0
/// otherwise: the contribution of position `(i, j)` to the neighbor
/// count of `(r, c)`.
spec fn nbr_ind(g: Grid, r: int, c: int, i: int, j: int) -> int {
    if i == r && j == c {
        0
    } else {
        g.live_at(i, j)
    }
}

/// The neighbor contributions of row `i`, summed over columns `lo <= j' < j`.
spec fn row_sum(g: Grid, r: int, c: int, i: int, lo: int, j: int) -> int
    decreases j - lo,
{
    if j <= lo {
        0
    } else {
        row_sum(g, r, c, i, lo, j - 1) + nbr_ind(g, r, c, i, j - 1)
    }
}

/// The neighbor contributions of full rows `rlo <= i' < i`, each summed
/// over columns `clo <= j < chi`.
spec fn rect_sum(g: Grid, r: int, c: int, rlo: int, i: int, clo: int, chi: int) -> int
    decreases i - rlo,
{
    if i <= rlo {
        0
    } else {
        rect_sum(g, r, c, rlo, i - 1, clo, chi) + row_sum(g, r, c, i - 1, clo, chi)
    }
}

/// Summing one row over the clamped column range picks up exactly the
/// contributions of columns `c - 1`, `c` and `c + 1`: the columns the
/// clamping drops lie off the grid and contribute nothing.
proof fn lemma_row_sum_full(g: Grid, r: int, c: int, i: int)
    requires
        0 <= c < g.spec_cols(),
    ensures
        row_sum(g, r, c, i, bound_lo(c), bound_hi(c, g.spec_cols())) == nbr_ind(g, r, c, i, c - 1)
            + nbr_ind(g, r, c, i, c) + nbr_ind(g, r, c, i, c + 1),
{
    let lo = bound_lo(c);
    let hi = bound_hi(c, g.spec_cols());
    assert(row_sum(g, r, c, i, lo, lo) == 0);
    if c > 0 && c + 1 < g.spec_cols() {
        assert(row_sum(g, r, c, i, lo, c) == nbr_ind(g, r, c, i, c - 1));
        assert(row_sum(g, r, c, i, lo, c + 1) == row_sum(g, r, c, i, lo, c) + nbr_ind(
            g, r, c, i, c));
        assert(row_sum(g, r, c, i, lo, hi) == row_sum(g, r, c, i, lo, c + 1) + nbr_ind(
            g, r, c, i, c + 1));
    } else if c > 0 {
        assert(nbr_ind(g, r, c, i, c + 1) == 0);
        assert(row_sum(g, r, c, i, lo, c) == nbr_ind(g, r, c, i, c - 1));
        assert(row_sum(g, r, c, i, lo, hi) == row_sum(g, r, c, i, lo, c) + nbr_ind(g, r, c, i, c));
    } else if c + 1 < g.spec_cols() {
        assert(nbr_ind(g, r, c, i, c - 1) == 0);
        assert(row_sum(g, r, c, i, lo, c + 1) == nbr_ind(g, r, c, i, c));
        assert(row_sum(g, r, c, i, lo, hi) == row_sum(g, r, c, i, lo, c + 1) + nbr_ind(
            g, r, c, i, c + 1));
    } else {
        assert(nbr_ind(g, r, c, i, c - 1) == 0);
        assert(nbr_ind(g, r, c, i, c + 1) == 0);
        assert(row_sum(g, r, c, i, lo, hi) == nbr_ind(g, r, c, i, c));
    }
}

/// Summing the clamped row range of clamped column sums yields exactly
/// the neighbor count of `(r, c)`: the rows the clamping drops lie off
/// the grid, and the center cell contributes nothing.
proof fn lemma_rect_sum_full(g: Grid, r: int, c: int)
    requires
        g.in_bounds(r, c),
    ensures
        rect_sum(
            g, r, c,
            bound_lo(r), bound_hi(r, g.spec_rows()),
            bound_lo(c), bound_hi(c, g.spec_cols()),
        ) == g.neighbor_count(r, c),
{
    let rlo = bound_lo(r);
    let rhi = bound_hi(r, g.spec_rows());
    let clo = bound_lo(c);
    let chi = bound_hi(c, g.spec_cols());
    lemma_row_sum_full(g, r, c, r - 1);
    lemma_row_sum_full(g, r, c, r);
    lemma_row_sum_full(g, r, c, r + 1);
    assert(rect_sum(g, r, c, rlo, rlo, clo, chi) == 0);
    if r > 0 && r + 1 < g.spec_rows() {
        assert(rect_sum(g, r, c, rlo, r, clo, chi) == row_sum(g, r, c, r - 1, clo, chi));
        assert(rect_sum(g, r, c, rlo, r + 1, clo, chi) == rect_sum(g, r, c, rlo, r, clo, chi)
            + row_sum(g, r, c, r, clo, chi));
        assert(rect_sum(g, r, c, rlo, rhi, clo, chi) == rect_sum(g, r, c, rlo, r + 1, clo, chi)
            + row_sum(g, r, c, r + 1, clo, chi));
    } else if r > 0 {
        assert(nbr_ind(g, r, c, r + 1, c - 1) == 0);
        assert(nbr_ind(g, r, c, r + 1, c) == 0);
        assert(nbr_ind(g, r, c, r + 1, c + 1) == 0);
        assert(rect_sum(g, r, c, rlo, r, clo, chi) == row_sum(g, r, c, r - 1, clo, chi));
        assert(rect_sum(g, r, c, rlo, rhi, clo, chi) == rect_sum(g, r, c, rlo, r, clo, chi)
            + row_sum(g, r, c, r, clo, chi));
    } else if r + 1 < g.spec_rows() {
        assert(nbr_ind(g, r, c, r - 1, c - 1) == 0);
        assert(nbr_ind(g, r, c, r - 1, c) == 0);
        assert(nbr_ind(g, r, c, r - 1, c + 1) == 0);
        assert(rect_sum(g, r, c, rlo, r + 1, clo, chi) == row_sum(g, r, c, r, clo, chi));
        assert(rect_sum(g, r, c, rlo, rhi, clo, chi) == rect_sum(g, r, c, rlo, r + 1, clo, chi)
            + row_sum(g, r, c, r + 1, clo, chi));
    } else {
        assert(nbr_ind(g, r, c, r - 1, c - 1) == 0);
        assert(nbr_ind(g, r, c, r - 1, c) == 0);
        assert(nbr_ind(g, r, c, r - 1, c + 1) == 0);
        assert(nbr_ind(g, r, c, r + 1, c - 1) == 0);
        assert(nbr_ind(g, r, c, r + 1, c) == 0);
        assert(nbr_ind(g, r, c, r + 1, c + 1) == 0);
        assert(rect_sum(g, r, c, rlo, rhi, clo, chi) == row_sum(g, r, c, r, clo, chi));
    }
}

/// Row-major flattening sends an in-range coordinate pair to an in-range
/// flat index.
proof fn lemma_flat_index(r: int, c: int, rows: int, cols: int)
    by (nonlinear_arith)
    requires
        0 <= r < rows,
        0 <= c < cols,
    ensures
        0 <= r * cols + c < rows * cols,
{
}

/// Row-major flattening respects the row-then-column order on in-range
/// coordinate pairs.
proof fn lemma_flat_order(r: int, c: int, i: int, j: int, cols: int)
    by (nonlinear_arith)
    requires
        0 <= r,
        0 <= c < cols,
        0 <= j,
        r < i || (r == i && c < j),
    ensures
        r * cols + c < i * cols + j,
{
}

/// Row-major flattening sends distinct in-range coordinate pairs to
/// distinct flat indices.
proof fn lemma_flat_index_injective(r1: int, c1: int, r2: int, c2: int, rows: int, cols: int)
    by (nonlinear_arith)
    requires
        0 <= r1 < rows,
        0 <= c1 < cols,
        0 <= r2 < rows,
        0 <= c2 < cols,
        r1 != r2 || c1 != c2,
    ensures
        r1 * cols + c1 != r2 * cols + c2,
{
}

} // verus!
