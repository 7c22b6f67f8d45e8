//! General properties of the update rule, stated and proved once for all
//! grids.

use crate::grid::Grid;
use vstd::prelude::*;

verus! {

/// A neighbor count is never negative and never exceeds 8.
pub proof fn lemma_neighbor_count_bounds(g: Grid, r: int, c: int)
    ensures
        0 <= g.neighbor_count(r, c) <= 8,
{
}

/// A cell is never its own neighbor: the neighbor count of `(r, c)` does
/// not depend on the state of `(r, c)` itself. Two grids of the same
/// dimensions that agree on every cell but `(r, c)` give it the same
/// neighbor count.
pub proof fn lemma_neighbor_count_ignores_center(g1: Grid, g2: Grid, r: int, c: int)
    requires
        g1.spec_rows() == g2.spec_rows(),
        g1.spec_cols() == g2.spec_cols(),
        forall|i: int, j: int|
            g1.in_bounds(i, j) && (i != r || j != c) ==> #[trigger] g1.cell(i, j) == g2.cell(i, j),
    ensures
        g1.neighbor_count(r, c) == g2.neighbor_count(r, c),
{
    assert forall|i: int, j: int| i != r || j != c implies g1.live_at(i, j) == g2.live_at(i, j) by {
        if g1.in_bounds(i, j) {
            assert(g1.cell(i, j) == g2.cell(i, j));
        }
    }
}

/// A corner cell has at most 3 live neighbors: along each axis one side
/// is clamped away.
pub proof fn lemma_corner_neighbor_bound(g: Grid, r: int, c: int)
    requires
        r == 0 || r == g.spec_rows() - 1,
        c == 0 || c == g.spec_cols() - 1,
    ensures
        g.neighbor_count(r, c) <= 3,
{
}

/// A cell on the boundary has at most 5 live neighbors: at least one
/// full row or column of candidates is clamped away.
pub proof fn lemma_edge_neighbor_bound(g: Grid, r: int, c: int)
    requires
        r == 0 || r == g.spec_rows() - 1 || c == 0 || c == g.spec_cols() - 1,
    ensures
        g.neighbor_count(r, c) <= 5,
{
}

/// The update rule is deterministic: two grids of the same dimensions
/// with identical cell states step to identical next states.
pub proof fn lemma_update_deterministic(g1: Grid, g2: Grid)
    requires
        g1.spec_rows() == g2.spec_rows(),
        g1.spec_cols() == g2.spec_cols(),
        forall|r: int, c: int| g1.in_bounds(r, c) ==> #[trigger] g1.cell(r, c) == g2.cell(r, c),
    ensures
        forall|r: int, c: int|
            g1.in_bounds(r, c) ==> #[trigger] g1.next_cell(r, c) == g2.next_cell(r, c),
{
    assert forall|r: int, c: int|
        g1.in_bounds(r, c) implies #[trigger] g1.next_cell(r, c) == g2.next_cell(r, c) by {
        lemma_neighbor_count_ignores_center(g1, g2, r, c);
        assert(g1.cell(r, c) == g2.cell(r, c));
    }
}

/// Every cell of the grid is dead.
pub open spec fn all_dead(g: Grid) -> bool {
    forall|r: int, c: int| g.in_bounds(r, c) ==> !(#[trigger] g.cell(r, c))
}

/// One grid is the successor generation of another: same dimensions, and
/// every cell's state follows the rule applied to the first grid.
pub open spec fn is_step(g1: Grid, g2: Grid) -> bool {
    &&& g2.spec_rows() == g1.spec_rows()
    &&& g2.spec_cols() == g1.spec_cols()
    &&& forall|r: int, c: int|
        g1.in_bounds(r, c) ==> #[trigger] g2.cell(r, c) == g1.next_cell(r, c)
}

/// On an all-dead grid every neighbor count is 0, so no cell comes
/// alive: the next generation is all dead too.
pub proof fn lemma_all_dead_stays_dead(g: Grid)
    requires
        all_dead(g),
    ensures
        forall|r: int, c: int| g.in_bounds(r, c) ==> !(#[trigger] g.next_cell(r, c)),
{
    assert forall|r: int, c: int| g.in_bounds(r, c) implies !(#[trigger] g.next_cell(r, c)) by {
        assert forall|i: int, j: int| g.live_at(i, j) == 0 by {
            if g.in_bounds(i, j) {
                assert(!g.cell(i, j));
            }
        }
        assert(g.neighbor_count(r, c) == 0);
    }
}

/// An all-dead grid stays all dead after any number of generations: in
/// a chain of grids that starts all dead and in which each grid is the
/// successor of the one before it, every grid is all dead.
pub proof fn lemma_all_dead_forever(chain: Seq<Grid>, k: int)
    requires
        chain.len() > 0,
        all_dead(chain[0]),
        forall|t: int| 0 < t < chain.len() ==> #[trigger] is_step(chain[t - 1], chain[t]),
    ensures
        0 <= k < chain.len() ==> all_dead(chain[k]),
    decreases k,
{
    if 0 < k < chain.len() {
        lemma_all_dead_forever(chain, k - 1);
        assert(is_step(chain[k - 1], chain[k]));
        lemma_all_dead_stays_dead(chain[k - 1]);
        assert forall|r: int, c: int|
            chain[k].in_bounds(r, c) implies !(#[trigger] chain[k].cell(r, c)) by {
            assert(chain[k - 1].in_bounds(r, c));
            assert(chain[k].cell(r, c) == chain[k - 1].next_cell(r, c));
        }
    }
}

/// Underpopulation: a live cell with fewer than two live neighbors dies.
pub proof fn lemma_underpopulation(g: Grid, r: int, c: int)
    requires
        g.cell(r, c),
        g.neighbor_count(r, c) < 2,
    ensures
        !g.next_cell(r, c),
{
}

/// Survival: a live cell with two or three live neighbors stays alive.
pub proof fn lemma_survival(g: Grid, r: int, c: int)
    requires
        g.cell(r, c),
        2 <= g.neighbor_count(r, c) <= 3,
    ensures
        g.next_cell(r, c),
{
}

/// Overpopulation: a live cell with more than three live neighbors dies.
pub proof fn lemma_overpopulation(g: Grid, r: int, c: int)
    requires
        g.cell(r, c),
        g.neighbor_count(r, c) > 3,
    ensures
        !g.next_cell(r, c),
{
}

/// Reproduction: a dead cell with exactly three live neighbors comes
/// alive; with any other count it stays dead.
pub proof fn lemma_reproduction(g: Grid, r: int, c: int)
    requires
        !g.cell(r, c),
    ensures
        g.next_cell(r, c) <==> g.neighbor_count(r, c) == 3,
{
}

} // verus!
