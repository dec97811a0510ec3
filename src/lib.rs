//! A generalised two-state cellular automaton (Life-like rules) on a square
//! grid without wrap-around, stepped one cell at a time by a pull protocol.
pub mod cell;
pub mod grid;
pub mod habitat;
pub mod rules;
pub mod viewport;

pub use cell::{Cell, CellState};
pub use grid::{CellGrid, ConstructionError};
pub use habitat::Habitat;
pub use rules::RuleTable;
