use vstd::prelude::*;

verus! {

/// The state of one cell of the grid.
#[derive(Clone, Copy, Debug, PartialEq, Eq, Structural)]
pub enum CellState {
    Live,
    Dead,
}

/// One slot of the grid: the state of the current generation and the state
/// staged for the next one.
#[derive(Clone, Copy, Debug, PartialEq, Eq, Structural)]
pub struct Cell {
    pub state: CellState,
    pub buffer: CellState,
}

/// 1 for a live cell, 0 for a dead one.
pub open spec fn live_value(s: CellState) -> int {
    if s is Live {
        1
    } else {
        0
    }
}

} // verus!
