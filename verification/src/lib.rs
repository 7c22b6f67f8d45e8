//! Conway's Game of Life on a fixed-size, edge-clamped (non-wrapping) grid.
//!
//! The [`grid::Grid`] type holds a rectangular field of boolean cells and
//! computes successive generations under the classic rules: a live cell
//! survives with two or three live neighbors, a dead cell comes alive with
//! exactly three. Cells on the boundary simply have fewer neighbors; nothing
//! wraps around to the opposite edge.
//!
//! The [`laws`] module states and proves the general properties of the
//! update rule: neighbor counts are bounded, the rule is deterministic, an
//! all-dead grid stays dead, and each clause of the rule behaves as stated.

pub mod grid;
pub mod laws;
