use game_of_life::grid::Grid;

/// Sets every listed cell alive.
fn seed(g: &mut Grid, cells: &[(usize, usize)]) {
    for &(r, c) in cells {
        g.set_cell(r, c, true);
    }
}

/// The coordinates of every live cell, in row-major order.
fn live_cells(g: &Grid) -> Vec<(usize, usize)> {
    let mut out = Vec::new();
    for r in 0..g.rows() {
        for c in 0..g.cols() {
            if g.get_cell(r, c) {
                out.push((r, c));
            }
        }
    }
    out
}

/// Applies the stated rule to every cell of a snapshot, independently of
/// the library: count the live cells among the up-to-8 in-grid neighbors,
/// then keep a live cell alive exactly on 2 or 3, and revive a dead cell
/// exactly on 3.
fn rule_derived_next(snapshot: &[Vec<bool>]) -> Vec<Vec<bool>> {
    let rows = snapshot.len();
    let cols = snapshot[0].len();
    let mut next = vec![vec![false; cols]; rows];
    for r in 0..rows {
        for c in 0..cols {
            let mut n: u32 = 0;
            for dr in -1i64..=1 {
                for dc in -1i64..=1 {
                    if dr == 0 && dc == 0 {
                        continue;
                    }
                    let i = r as i64 + dr;
                    let j = c as i64 + dc;
                    if 0 <= i && i < rows as i64 && 0 <= j && j < cols as i64 {
                        if snapshot[i as usize][j as usize] {
                            n += 1;
                        }
                    }
                }
            }
            next[r][c] = if snapshot[r][c] { n == 2 || n == 3 } else { n == 3 };
        }
    }
    next
}

fn snapshot(g: &Grid) -> Vec<Vec<bool>> {
    let mut rows = Vec::new();
    for r in 0..g.rows() {
        let mut row = Vec::new();
        for c in 0..g.cols() {
            row.push(g.get_cell(r, c));
        }
        rows.push(row);
    }
    rows
}

#[test]
fn new_grid_is_all_dead() {
    let g = Grid::new(6, 6);
    assert_eq!(g.rows(), 6);
    assert_eq!(g.cols(), 6);
    assert_eq!(live_cells(&g), vec![]);
}

#[test]
fn set_cell_changes_only_that_cell() {
    let mut g = Grid::new(4, 5);
    g.set_cell(2, 3, true);
    assert!(g.get_cell(2, 3));
    assert_eq!(live_cells(&g), vec![(2, 3)]);
    g.set_cell(2, 3, false);
    assert_eq!(live_cells(&g), vec![]);
}

#[test]
fn get_bounds_clamps_at_edges() {
    let g = Grid::new(6, 6);
    let low = g.get_bounds(0, 6);
    assert_eq!((low.start, low.end), (0, 2));
    let mid = g.get_bounds(3, 6);
    assert_eq!((mid.start, mid.end), (2, 5));
    let high = g.get_bounds(5, 6);
    assert_eq!((high.start, high.end), (4, 6));
    let tiny = g.get_bounds(0, 1);
    assert_eq!((tiny.start, tiny.end), (0, 1));
}

#[test]
fn count_neighbors_never_counts_the_cell_itself() {
    let mut g = Grid::new(5, 5);
    g.set_cell(2, 2, true);
    assert_eq!(g.count_neighbors(2, 2), 0);
}

#[test]
fn count_neighbors_caps_at_eight() {
    let mut g = Grid::new(5, 5);
    for r in 0..5 {
        for c in 0..5 {
            g.set_cell(r, c, true);
        }
    }
    for r in 0..5 {
        for c in 0..5 {
            assert!(g.count_neighbors(r, c) <= 8);
        }
    }
    assert_eq!(g.count_neighbors(2, 2), 8);
}

#[test]
fn corner_has_at_most_three_candidates() {
    let mut g = Grid::new(6, 6);
    for r in 0..6 {
        for c in 0..6 {
            g.set_cell(r, c, true);
        }
    }
    assert_eq!(g.count_neighbors(0, 0), 3);
    assert_eq!(g.count_neighbors(0, 5), 3);
    assert_eq!(g.count_neighbors(5, 0), 3);
    assert_eq!(g.count_neighbors(5, 5), 3);
}

#[test]
fn edge_non_corner_has_at_most_five_candidates() {
    let mut g = Grid::new(6, 6);
    for r in 0..6 {
        for c in 0..6 {
            g.set_cell(r, c, true);
        }
    }
    assert_eq!(g.count_neighbors(0, 2), 5);
    assert_eq!(g.count_neighbors(3, 0), 5);
    assert_eq!(g.count_neighbors(5, 4), 5);
    assert_eq!(g.count_neighbors(2, 5), 5);
}

#[test]
fn update_is_deterministic() {
    let toad = [(2, 2), (2, 3), (2, 4), (3, 1), (3, 2), (3, 3)];
    let mut g1 = Grid::new(6, 6);
    let mut g2 = Grid::new(6, 6);
    seed(&mut g1, &toad);
    seed(&mut g2, &toad);
    for _ in 0..3 {
        g1.update();
        g2.update();
        assert_eq!(live_cells(&g1), live_cells(&g2));
    }
}

#[test]
fn all_dead_grid_stays_all_dead() {
    let mut g = Grid::new(6, 6);
    for _ in 0..5 {
        g.update();
        assert_eq!(live_cells(&g), vec![]);
    }
}

#[test]
fn block_is_a_still_life() {
    let mut g = Grid::new(4, 4);
    let block = [(1, 1), (1, 2), (2, 1), (2, 2)];
    seed(&mut g, &block);
    g.update();
    assert_eq!(live_cells(&g), vec![(1, 1), (1, 2), (2, 1), (2, 2)]);
}

#[test]
fn blinker_oscillates_with_period_two() {
    let mut g = Grid::new(5, 5);
    seed(&mut g, &[(2, 1), (2, 2), (2, 3)]);
    g.update();
    assert_eq!(live_cells(&g), vec![(1, 2), (2, 2), (3, 2)]);
    g.update();
    assert_eq!(live_cells(&g), vec![(2, 1), (2, 2), (2, 3)]);
}

#[test]
fn toad_matches_the_rule_derived_set() {
    let mut g = Grid::new(6, 6);
    seed(&mut g, &[(2, 2), (2, 3), (2, 4), (3, 1), (3, 2), (3, 3)]);
    let before = snapshot(&g);
    let expected = rule_derived_next(&before);
    g.update();
    assert_eq!(snapshot(&g), expected);
}

#[test]
fn toad_oscillates_with_period_two() {
    let mut g = Grid::new(6, 6);
    seed(&mut g, &[(2, 2), (2, 3), (2, 4), (3, 1), (3, 2), (3, 3)]);
    let before = snapshot(&g);
    g.update();
    assert_ne!(snapshot(&g), before);
    g.update();
    assert_eq!(snapshot(&g), before);
}

#[test]
fn isolated_live_cell_dies_of_underpopulation() {
    let mut g = Grid::new(5, 5);
    g.set_cell(2, 2, true);
    assert_eq!(g.count_neighbors(2, 2), 0);
    g.update();
    assert_eq!(live_cells(&g), vec![]);
}

#[test]
fn live_cell_with_eight_neighbors_dies_of_overpopulation() {
    let mut g = Grid::new(5, 5);
    for r in 1..4 {
        for c in 1..4 {
            g.set_cell(r, c, true);
        }
    }
    assert_eq!(g.count_neighbors(2, 2), 8);
    g.update();
    assert!(!g.get_cell(2, 2));
}

#[test]
fn dead_cell_with_three_neighbors_comes_alive() {
    let mut g = Grid::new(5, 5);
    seed(&mut g, &[(1, 1), (1, 2), (1, 3)]);
    assert!(!g.get_cell(2, 2));
    assert_eq!(g.count_neighbors(2, 2), 3);
    g.update();
    assert!(g.get_cell(2, 2));
}

#[test]
fn dead_cell_with_two_neighbors_stays_dead() {
    let mut g = Grid::new(5, 5);
    seed(&mut g, &[(1, 1), (1, 2)]);
    assert_eq!(g.count_neighbors(2, 2), 2);
    g.update();
    assert!(!g.get_cell(2, 2));
}

#[test]
fn dead_cell_with_four_neighbors_stays_dead() {
    let mut g = Grid::new(5, 5);
    seed(&mut g, &[(1, 1), (1, 2), (1, 3), (2, 1)]);
    assert_eq!(g.count_neighbors(2, 2), 4);
    g.update();
    assert!(!g.get_cell(2, 2));
}

#[test]
fn rectangular_grid_clamps_without_wrapping() {
    let mut g = Grid::new(1, 3);
    seed(&mut g, &[(0, 0), (0, 1), (0, 2)]);
    // On a single row nothing wraps: the ends have one neighbor each and
    // die, the middle has two and survives.
    assert_eq!(g.count_neighbors(0, 0), 1);
    assert_eq!(g.count_neighbors(0, 1), 2);
    g.update();
    assert_eq!(live_cells(&g), vec![(0, 1)]);
    g.update();
    assert_eq!(live_cells(&g), vec![]);
}
