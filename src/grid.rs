use vstd::prelude::*;
use vstd::arithmetic::div_mod::{lemma_fundamental_div_mod, lemma_fundamental_div_mod_converse};

use crate::cell::{live_value, Cell, CellState};

verus! {

/// Why a grid could not be built.
#[derive(Clone, Copy, Debug, PartialEq, Eq, Structural)]
pub enum ConstructionError {
    /// The grid side is zero.
    ZeroSide,
    /// An initial live cell lies outside the grid.
    CellOutOfRange,
}

/// 1 if `(r, c)` lies in the `n` by `n` grid and the cell there is alive in
/// `cur`, else 0.
pub open spec fn live_at(cur: Seq<CellState>, n: int, r: int, c: int) -> int {
    if 0 <= r < n && 0 <= c < n {
        live_value(cur[r * n + c])
    } else {
        0
    }
}

/// The number of live cells among the eight that touch cell `idx` of the
/// `n` by `n` grid `cur`; positions off the grid count for nothing.
pub open spec fn neighbor_count(cur: Seq<CellState>, n: int, idx: int) -> int {
    let r = idx / n;
    let c = idx % n;
    live_at(cur, n, r - 1, c - 1) + live_at(cur, n, r - 1, c) + live_at(cur, n, r - 1, c + 1)
        + live_at(cur, n, r, c - 1) + live_at(cur, n, r, c + 1)
        + live_at(cur, n, r + 1, c - 1) + live_at(cur, n, r + 1, c) + live_at(cur, n, r + 1, c + 1)
}

/// Whether one of the pairs is `(r, c)`.
pub open spec fn lists_cell(pairs: Seq<(usize, usize)>, r: int, c: int) -> bool {
    exists|j: int| 0 <= j < pairs.len() && pairs[j].0 == r && pairs[j].1 == c
}

/// Whether every pair lies in the `n` by `n` grid.
pub open spec fn all_in_range(pairs: Seq<(usize, usize)>, n: int) -> bool {
    forall|j: int| 0 <= j < pairs.len() ==> pairs[j].0 < n && pairs[j].1 < n
}

/// The `n` by `n` grid in which exactly the listed cells are alive.
pub open spec fn initial_cells(n: int, pairs: Seq<(usize, usize)>) -> Seq<CellState> {
    Seq::new(
        (n * n) as nat,
        |i: int|
            if lists_cell(pairs, i / n, i % n) {
                CellState::Live
            } else {
                CellState::Dead
            },
    )
}

/// Row and column of a linear index, and the facts about its neighbours'
/// indices that the edge tests rest on.
pub proof fn lemma_cell_position(n: int, idx: int)
    requires
        0 < n,
        0 <= idx < n * n,
    ensures
        idx == (idx / n) * n + idx % n,
        0 <= idx / n < n,
        0 <= idx % n < n,
        n <= n * n,
        (idx / n - 1) * n == (idx / n) * n - n,
        (idx / n + 1) * n == (idx / n) * n + n,
        (idx < n) == (idx / n == 0),
        (idx >= n * n - n) == (idx / n == n - 1),
        idx % n < n - 1 && idx / n < n - 1 ==> idx + n + 1 < n * n,
{
    let r = idx / n;
    let c = idx % n;
    lemma_fundamental_div_mod(idx, n);
    assert(idx == r * n + c) by (nonlinear_arith)
        requires
            idx == n * r + c,
    ;
    assert(0 <= r < n) by (nonlinear_arith)
        requires
            idx == r * n + c,
            0 <= c < n,
            0 <= idx < n * n,
    ;
    assert(n <= n * n) by (nonlinear_arith)
        requires
            0 < n,
    ;
    assert((r - 1) * n == r * n - n) by (nonlinear_arith);
    assert((r + 1) * n == r * n + n) by (nonlinear_arith);
    assert((idx < n) == (r == 0)) by (nonlinear_arith)
        requires
            idx == r * n + c,
            0 <= c < n,
            0 <= r,
    ;
    assert((idx >= n * n - n) == (r == n - 1)) by (nonlinear_arith)
        requires
            idx == r * n + c,
            0 <= c < n,
            0 <= r < n,
    ;
    assert(c < n - 1 && r < n - 1 ==> idx + n + 1 < n * n) by (nonlinear_arith)
        requires
            idx == r * n + c,
            0 <= c,
            0 <= r,
    ;
}

/// The linear index of cell `(r, c)`, and back.
pub proof fn lemma_index_of(n: int, r: int, c: int)
    requires
        0 <= r < n,
        0 <= c < n,
    ensures
        0 <= r * n + c < n * n,
        (r * n + c) / n == r,
        (r * n + c) % n == c,
{
    assert(0 <= r * n + c < n * n) by (nonlinear_arith)
        requires
            0 <= r < n,
            0 <= c < n,
    ;
    lemma_fundamental_div_mod_converse(r * n + c, n, r, c);
}

/// The corner cell 0 of a grid whose side is at least 2 has exactly three
/// neighbours on the grid, cells 1, `n` and `n + 1`, and only they count.
pub proof fn lemma_corner_neighbors(cur: Seq<CellState>, n: int)
    requires
        n >= 2,
        cur.len() == n * n,
    ensures
        neighbor_count(cur, n, 0) == live_value(cur[1]) + live_value(cur[n]) + live_value(cur[n + 1]),
{
    lemma_fundamental_div_mod_converse(0, n, 0, 0);
    assert(1 * n + 1 == n + 1);
    assert(0 * n + 1 == 1);
    assert(1 * n + 0 == n);
}

/// A square grid holding the current generation and, beside it, the
/// generation being computed.
pub struct CellGrid {
    side: usize,
    cells: Vec<Cell>,
}

impl CellGrid {
    /// The length of a side.
    pub closed spec fn side_spec(&self) -> int {
        self.side as int
    }

    /// The current generation, by linear index `row * side + col`.
    pub closed spec fn current(&self) -> Seq<CellState> {
        self.cells@.map_values(|c: Cell| c.state)
    }

    /// The generation being computed, by linear index.
    pub closed spec fn pending(&self) -> Seq<CellState> {
        self.cells@.map_values(|c: Cell| c.buffer)
    }

    /// The side is positive and both generations hold `side * side` cells.
    pub open spec fn wf(&self) -> bool {
        &&& self.side_spec() > 0
        &&& self.side_spec() * self.side_spec() <= usize::MAX
        &&& self.current().len() == self.side_spec() * self.side_spec()
        &&& self.pending().len() == self.side_spec() * self.side_spec()
    }

    /// The number of live neighbours of cell `idx` in the current generation.
    pub open spec fn neighbors_spec(&self, idx: int) -> int {
        neighbor_count(self.current(), self.side_spec(), idx)
    }
    /// A `side` by `side` grid in which exactly the listed `(row, col)`
    /// cells are alive, in both generations. A zero side, or a listed cell
    /// off the grid, is refused.
    pub fn new(side: u32, cell_pairs: Vec<(usize, usize)>) -> (r: Result<CellGrid, ConstructionError>)
        requires
            side as int * side as int <= usize::MAX,
        ensures
            r is Ok <==> (side > 0 && all_in_range(cell_pairs@, side as int)),
            side == 0 <==> r == Err::<CellGrid, ConstructionError>(ConstructionError::ZeroSide),
            (side > 0 && !all_in_range(cell_pairs@, side as int)) <==> r == Err::<CellGrid, ConstructionError>(
                ConstructionError::CellOutOfRange,
            ),
            r is Ok ==> ({
                let g = r->Ok_0;
                &&& g.wf()
                &&& g.side_spec() == side
                &&& g.current() == initial_cells(side as int, cell_pairs@)
                &&& g.pending() == initial_cells(side as int, cell_pairs@)
            }),
    {
        if side == 0 {
            return Err(ConstructionError::ZeroSide);
        }
        let n = side as usize;
        let ghost pairs = cell_pairs@;
        let mut j: usize = 0;
        while j < cell_pairs.len()
            invariant
                pairs == cell_pairs@,
                n == side as usize,
                0 < side,
                j <= pairs.len(),
                forall|m: int| 0 <= m < j ==> pairs[m].0 < n && pairs[m].1 < n,
            decreases pairs.len() - j,
        {
            let (row, col) = cell_pairs[j];
            if row >= n || col >= n {
                assert(!(pairs[j as int].0 < n && pairs[j as int].1 < n));
                return Err(ConstructionError::CellOutOfRange);
            }
            j = j + 1;
        }
        let total = n * n;
        let dead = Cell { state: CellState::Dead, buffer: CellState::Dead };
        let mut cells: Vec<Cell> = Vec::with_capacity(total);
        let mut i: usize = 0;
        while i < total
            invariant
                i <= total,
                cells@.len() == i,
                forall|m: int| 0 <= m < i ==> cells@[m] == dead,
            decreases total - i,
        {
            cells.push(dead);
            i = i + 1;
        }
        let live = Cell { state: CellState::Live, buffer: CellState::Live };
        let mut j: usize = 0;
        while j < cell_pairs.len()
            invariant
                pairs == cell_pairs@,
                all_in_range(pairs, n as int),
                0 < n,
                total == n * n,
                j <= pairs.len(),
                cells@.len() == total,
                forall|m: int|
                    0 <= m < total ==> cells@[m] == (if (exists|k: int|
                        0 <= k < j && pairs[k].0 == m / (n as int) && pairs[k].1 == m % (n as int)) {
                        live
                    } else {
                        dead
                    }),
            decreases pairs.len() - j,
        {
            let (row, col) = cell_pairs[j];
            proof {
                lemma_index_of(n as int, row as int, col as int);
            }
            let at = row * n + col;
            cells.set(at, live);
            proof {
                assert forall|m: int| 0 <= m < total implies cells@[m] == (if (exists|k: int|
                    0 <= k < j + 1 && pairs[k].0 == m / (n as int) && pairs[k].1 == m % (n as int)) {
                    live
                } else {
                    dead
                }) by {
                    if m == at {
                        assert(0 <= j < j + 1 && pairs[j as int].0 == m / (n as int) && pairs[j as int].1 == m
                            % (n as int));
                    } else {
                        if pairs[j as int].0 == m / (n as int) && pairs[j as int].1 == m % (n as int) {
                            lemma_fundamental_div_mod(m, n as int);
                            assert(m == (n as int) * (m / (n as int)) + m % (n as int));
                            assert((row as int) * (n as int) == (n as int) * (row as int)) by (nonlinear_arith);
                        }
                    }
                }
            }
            j = j + 1;
        }
        let g = CellGrid { side: n, cells };
        proof {
            assert(g.current() =~= initial_cells(side as int, pairs));
            assert(g.pending() =~= initial_cells(side as int, pairs));
        }
        Ok(g)
    }

    /// The length of a side.
    pub fn side(&self) -> (r: usize)
        ensures
            r as int == self.side_spec(),
    {
        self.side
    }

    /// The number of cells.
    pub fn cell_count(&self) -> (r: usize)
        requires
            self.wf(),
        ensures
            r as int == self.current().len(),
    {
        self.cells.len()
    }

    /// The state of cell `idx` in the current generation.
    pub fn read(&self, idx: usize) -> (r: CellState)
        requires
            self.wf(),
            idx < self.current().len(),
        ensures
            r == self.current()[idx as int],
    {
        self.cells[idx].state
    }

    /// The slot of cell `idx`: its current state and its staged one.
    pub fn cell(&self, idx: usize) -> (r: Cell)
        requires
            self.wf(),
            idx < self.current().len(),
        ensures
            r.state == self.current()[idx as int],
            r.buffer == self.pending()[idx as int],
    {
        self.cells[idx]
    }

    /// 1 if cell `i` is alive in the current generation, else 0.
    fn live_count(&self, i: usize) -> (r: u8)
        requires
            self.wf(),
            i < self.current().len(),
        ensures
            r as int == live_value(self.current()[i as int]),
    {
        match self.cells[i].state {
            CellState::Live => 1,
            CellState::Dead => 0,
        }
    }

    /// The number of live neighbours of cell `idx` in the current
    /// generation. Edges are found from the linear index, and a neighbour
    /// off the grid is never looked at.
    pub fn live_neighbors(&self, idx: usize) -> (r: u8)
        requires
            self.wf(),
            idx < self.current().len(),
        ensures
            r as int == self.neighbors_spec(idx as int),
            r <= 8,
    {
        let n = self.side;
        let on_end = idx % n == n - 1;
        let on_start = idx % n == 0;
        let at_top = idx < n;
        proof {
            lemma_cell_position(n as int, idx as int);
            assert(self.cells@.len() == self.current().len());
        }
        let at_bottom = idx >= self.cells.len() - n;
        let ghost cur = self.current();
        let ghost r = idx as int / n as int;
        let ghost c = idx as int % n as int;
        let mut count: u8 = 0;
        if !on_end {
            if !at_top {
                count = count + self.live_count(idx - n + 1);
            }
            count = count + self.live_count(idx + 1);
            if !at_bottom {
                count = count + self.live_count(idx + n + 1);
            }
        }
        assert(count == live_at(cur, n as int, r - 1, c + 1) + live_at(cur, n as int, r, c + 1)
            + live_at(cur, n as int, r + 1, c + 1));
        let ghost right = count as int;
        if !on_start {
            if !at_top {
                count = count + self.live_count(idx - n - 1);
            }
            count = count + self.live_count(idx - 1);
            if !at_bottom {
                count = count + self.live_count(idx + n - 1);
            }
        }
        assert(count - right == live_at(cur, n as int, r - 1, c - 1) + live_at(cur, n as int, r, c - 1)
            + live_at(cur, n as int, r + 1, c - 1));
        if !at_top {
            count = count + self.live_count(idx - n);
        }
        if !at_bottom {
            count = count + self.live_count(idx + n);
        }
        count
    }

    /// Writes `state` as the next value of cell `idx`; the current
    /// generation is left as it is.
    pub fn stage_next(&mut self, idx: usize, state: CellState)
        requires
            old(self).wf(),
            idx < old(self).current().len(),
        ensures
            final(self).wf(),
            final(self).side_spec() == old(self).side_spec(),
            final(self).current() == old(self).current(),
            final(self).pending() == old(self).pending().update(idx as int, state),
    {
        let mut slot = self.cells[idx];
        slot.buffer = state;
        self.cells.set(idx, slot);
        proof {
            assert(self.current() =~= old(self).current());
            assert(self.pending() =~= old(self).pending().update(idx as int, state));
        }
    }

    /// Makes the computed generation the current one. The computed one is
    /// kept, so a second call changes nothing.
    pub fn commit(&mut self)
        requires
            old(self).wf(),
        ensures
            final(self).wf(),
            final(self).side_spec() == old(self).side_spec(),
            final(self).current() == old(self).pending(),
            final(self).pending() == old(self).pending(),
    {
        let mut i: usize = 0;
        while i < self.cells.len()
            invariant
                self.side_spec() == old(self).side_spec(),
                self.cells@.len() == old(self).cells@.len(),
                i <= self.cells@.len(),
                forall|j: int| 0 <= j < i ==> self.cells@[j].state == old(self).cells@[j].buffer,
                forall|j: int| 0 <= j < self.cells@.len() ==> self.cells@[j].buffer == old(self).cells@[j].buffer,
                forall|j: int| i <= j < self.cells@.len() ==> self.cells@[j] == old(self).cells@[j],
            decreases self.cells@.len() - i,
        {
            let mut slot = self.cells[i];
            slot.state = slot.buffer;
            self.cells.set(i, slot);
            i = i + 1;
        }
        proof {
            assert(self.current() =~= old(self).pending());
            assert(self.pending() =~= old(self).pending());
        }
    }
}

} // verus!
