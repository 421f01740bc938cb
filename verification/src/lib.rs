//! A Minesweeper rules engine: grid generation, mine placement, the per-cell
//! state machine and neighbour counting, with every operation carrying a
//! machine-checked contract.
//!
//! A position is a pair `(row, col)` with `row < height` and `col < width`;
//! cells are stored row by row, so the cell at `(row, col)` has the linear
//! index `row * width + col`. Neighbourhoods follow the same convention on
//! boards of every shape.

pub mod cell;
pub mod random;
pub mod board;
pub mod api;
