use vstd::prelude::*;
use vstd::arithmetic::div_mod::lemma_fundamental_div_mod_converse;

use crate::cell::{Cell, CellState};
use crate::grid::{initial_cells, neighbor_count, all_in_range, CellGrid, ConstructionError};
use crate::rules::{names_count, RuleTable, MAX_NEIGHBORS};
use crate::viewport::{contains, in_square};

verus! {

/// What cell `i` of the `n` by `n` generation `cur` becomes under `rules`.
pub open spec fn next_cell_state(rules: RuleTable, cur: Seq<CellState>, n: int, i: int) -> CellState {
    rules.next_spec(cur[i], neighbor_count(cur, n, i))
}

/// The generation that follows `cur` under `rules`, every cell computed
/// from `cur` alone.
pub open spec fn next_generation(rules: RuleTable, cur: Seq<CellState>, n: int) -> Seq<CellState> {
    Seq::new(cur.len(), |i: int| next_cell_state(rules, cur, n, i))
}

/// An automaton placed at `(x, y)` on a canvas: its grid, its rule table and
/// the cursor of the pull protocol.
pub struct Habitat {
    x: u32,
    y: u32,
    size: u32,
    idx: usize,
    rules: RuleTable,
    grid: CellGrid,
}

impl Habitat {
    /// Where the grid's top-left cell stands on the canvas.
    pub closed spec fn origin(&self) -> (u32, u32) {
        (self.x, self.y)
    }

    /// The length of a side of the grid.
    pub closed spec fn side_spec(&self) -> int {
        self.size as int
    }

    /// The linear index that the next pull reads.
    pub closed spec fn cursor(&self) -> int {
        self.idx as int
    }

    /// The rule table.
    pub closed spec fn rules_spec(&self) -> RuleTable {
        self.rules
    }

    /// The current generation.
    pub closed spec fn current(&self) -> Seq<CellState> {
        self.grid.current()
    }

    /// The generation being computed.
    pub closed spec fn pending(&self) -> Seq<CellState> {
        self.grid.pending()
    }

    /// The number of cells.
    pub open spec fn cell_total(&self) -> int {
        self.side_spec() * self.side_spec()
    }

    /// The grid is well formed with this side, the rule table has its nine
    /// entries and the cursor is on the grid.
    pub closed spec fn wf(&self) -> bool {
        &&& self.grid.wf()
        &&& self.rules.wf()
        &&& self.grid.side_spec() == self.size as int
        &&& self.idx < self.grid.current().len()
    }

    /// What a well-formed habitat guarantees to its callers.
    pub proof fn lemma_wf(&self)
        requires
            self.wf(),
        ensures
            self.side_spec() > 0,
            self.cell_total() <= usize::MAX,
            self.current().len() == self.cell_total(),
            self.pending().len() == self.cell_total(),
            0 <= self.cursor() < self.cell_total(),
            self.rules_spec().wf(),
    {
    }

    /// The same placement, side and rules.
    pub open spec fn same_setup(&self, other: Habitat) -> bool {
        &&& self.origin() == other.origin()
        &&& self.side_spec() == other.side_spec()
        &&& self.rules_spec() == other.rules_spec()
    }

    /// `self` is what committing `before` gives: the computed generation
    /// becomes the current one and stays as the computed one too.
    pub open spec fn committed_from(&self, before: Habitat) -> bool {
        &&& self.wf()
        &&& self.same_setup(before)
        &&& self.cursor() == before.cursor()
        &&& self.current() == before.pending()
        &&& self.pending() == before.pending()
    }

    /// `self` is what staging the cell under the cursor of `before` gives.
    pub open spec fn staged_from(&self, before: Habitat) -> bool {
        &&& self.wf()
        &&& self.same_setup(before)
        &&& self.current() == before.current()
        &&& self.pending() == before.pending().update(
            before.cursor(),
            next_cell_state(before.rules_spec(), before.current(), before.side_spec(), before.cursor()),
        )
    }

    /// `self` is what a full cycle of pulls from the cursor of `before`
    /// gives: every cell's next state staged from the generation current
    /// before the first pull, and the cursor back where it started.
    pub open spec fn cycled_from(&self, before: Habitat) -> bool {
        &&& self.wf()
        &&& self.same_setup(before)
        &&& self.cursor() == before.cursor()
        &&& self.current() == before.current()
        &&& self.pending() == next_generation(before.rules_spec(), before.current(), before.side_spec())
    }

    /// A habitat at `(x, y)` whose `size` by `size` grid has exactly the
    /// listed `(row, col)` cells alive, with the rule table that the count
    /// lists give and the cursor at 0.
    pub fn new(
        x: u32,
        y: u32,
        size: u32,
        cell_pairs: Vec<(usize, usize)>,
        birth_indices: Vec<usize>,
        survival_indices: Vec<usize>,
    ) -> (r: Result<Habitat, ConstructionError>)
        requires
            size as int * size as int <= usize::MAX,
        ensures
            r is Ok <==> (size > 0 && all_in_range(cell_pairs@, size as int)),
            size == 0 <==> r == Err::<Habitat, ConstructionError>(ConstructionError::ZeroSide),
            (size > 0 && !all_in_range(cell_pairs@, size as int)) <==> r == Err::<Habitat, ConstructionError>(
                ConstructionError::CellOutOfRange,
            ),
            r is Ok ==> ({
                let h = r->Ok_0;
                &&& h.wf()
                &&& h.origin() == (x, y)
                &&& h.side_spec() == size
                &&& h.cursor() == 0
                &&& h.current() == initial_cells(size as int, cell_pairs@)
                &&& h.pending() == initial_cells(size as int, cell_pairs@)
                &&& forall|k: int|
                    0 <= k <= MAX_NEIGHBORS ==> h.rules_spec().born_with(k) == names_count(birth_indices@, k)
                &&& forall|k: int|
                    0 <= k <= MAX_NEIGHBORS ==> h.rules_spec().survives_with(k) == names_count(
                        survival_indices@,
                        k,
                    )
            }),
    {
        let grid = match CellGrid::new(size, cell_pairs) {
            Ok(g) => g,
            Err(e) => {
                return Err(e);
            },
        };
        let rules = RuleTable::new(birth_indices, survival_indices);
        proof {
            let n = size as int;
            assert(n * n > 0) by (nonlinear_arith)
                requires
                    n > 0,
            ;
        }
        Ok(Habitat { x, y, size, idx: 0, rules, grid })
    }

    /// Whether pixel `i` of a canvas `canvas_width` pixels wide falls on
    /// this habitat's square.
    pub fn is_in_habitat(&self, i: usize, canvas_width: u32) -> (r: bool)
        requires
            canvas_width > 0,
        ensures
            r == in_square(
                i as int,
                canvas_width as int,
                self.origin().0 as int,
                self.origin().1 as int,
                self.side_spec(),
            ),
    {
        contains(i, canvas_width, (self.x, self.y), self.size)
    }

    /// Computes the next state of the cell under the cursor from the current
    /// generation and stages it. Neither the current generation nor the
    /// cursor changes.
    pub fn run_life_round(&mut self)
        requires
            old(self).wf(),
        ensures
            final(self).staged_from(*old(self)),
            final(self).cursor() == old(self).cursor(),
    {
        let i = self.idx;
        let count = self.grid.live_neighbors(i);
        let state = self.grid.read(i);
        let next = self.rules.next_state(state, count);
        self.grid.stage_next(i, next);
    }

    /// Returns the slot under the cursor as it was, stages that cell's next
    /// state and moves the cursor on by one, wrapping after the last cell.
    pub fn next_cell(&mut self) -> (r: Cell)
        requires
            old(self).wf(),
        ensures
            r.state == old(self).current()[old(self).cursor()],
            r.buffer == old(self).pending()[old(self).cursor()],
            final(self).staged_from(*old(self)),
            final(self).cursor() == (old(self).cursor() + 1) % old(self).cell_total(),
    {
        let a = self.grid.cell(self.idx);
        self.run_life_round();
        let total = self.grid.cell_count();
        self.idx = (self.idx + 1) % total;
        a
    }

    /// Pulls every cell once, starting at the cursor: returns the current
    /// states in the order pulled, leaves the cursor where it started and
    /// every cell's next state staged, each computed from the generation
    /// that was current before the first pull.
    pub fn pull_cycle(&mut self) -> (r: Vec<CellState>)
        requires
            old(self).wf(),
        ensures
            final(self).cycled_from(*old(self)),
            r@.len() == old(self).cell_total(),
            forall|k: int|
                0 <= k < r@.len() ==> r@[k] == old(self).current()[(old(self).cursor() + k) % old(self).cell_total()],
    {
        let total = self.grid.cell_count();
        let ghost start = self.cursor();
        let ghost cur = self.current();
        let ghost first = self.pending();
        let ghost rules = self.rules_spec();
        let ghost n = self.side_spec();
        let mut out: Vec<CellState> = Vec::with_capacity(total);
        let mut k: usize = 0;
        proof {
            lemma_mod_once(start, total as int);
            self.lemma_wf();
        }
        while k < total
            invariant
                self.wf(),
                self.same_setup(*old(self)),
                start == old(self).cursor(),
                cur == old(self).current(),
                first == old(self).pending(),
                rules == old(self).rules_spec(),
                n == old(self).side_spec(),
                total == cur.len(),
                total == first.len(),
                total == self.cell_total(),
                0 <= start < total,
                k <= total,
                self.current() == cur,
                self.cursor() == (start + k) % (total as int),
                out@.len() == k,
                forall|m: int| 0 <= m < k ==> out@[m] == cur[(start + m) % (total as int)],
                forall|i: int|
                    0 <= i < total ==> self.pending()[i] == (if (exists|m: int|
                        0 <= m < k && #[trigger] wrap_index(start, m, total as int) == i) {
                        next_cell_state(rules, cur, n, i)
                    } else {
                        first[i]
                    }),
            decreases total - k,
        {
            let ghost before = *self;
            proof {
                lemma_mod_once(start + k, total as int);
                lemma_mod_once(start + k + 1, total as int);
                lemma_mod_once(self.cursor() + 1, total as int);
            }
            let c = self.next_cell();
            out.push(c.state);
            proof {
                let at = (start + k) % (total as int);
                assert forall|i: int| 0 <= i < total implies self.pending()[i] == (if (exists|m: int|
                    0 <= m < k + 1 && #[trigger] wrap_index(start, m, total as int) == i) {
                    next_cell_state(rules, cur, n, i)
                } else {
                    first[i]
                }) by {
                    if i == at {
                        assert(0 <= k < k + 1 && wrap_index(start, k as int, total as int) == i);
                    } else {
                        if exists|m: int| 0 <= m < k + 1 && #[trigger] wrap_index(start, m, total as int) == i {
                            let m = choose|m: int| 0 <= m < k + 1 && #[trigger] wrap_index(start, m, total as int) == i;
                            assert(m != k);
                        }
                    }
                }
            }
            k = k + 1;
        }
        proof {
            lemma_mod_once(start + total, total as int);
            assert forall|i: int| 0 <= i < total implies self.pending()[i] == next_cell_state(
                rules,
                cur,
                n,
                i,
            ) by {
                let m = if i >= start {
                    i - start
                } else {
                    i + total - start
                };
                lemma_mod_once(start + m, total as int);
                assert(0 <= m < total && wrap_index(start, m, total as int) == i);
            }
            assert(self.pending() =~= next_generation(rules, cur, n));
        }
        out
    }

    /// The length of a side of the grid.
    pub fn side(&self) -> (r: u32)
        ensures
            r as int == self.side_spec(),
    {
        self.size
    }

    /// The linear index that the next pull reads.
    pub fn position(&self) -> (r: usize)
        ensures
            r as int == self.cursor(),
    {
        self.idx
    }

    /// The state of cell `idx` in the current generation.
    pub fn read(&self, idx: usize) -> (r: CellState)
        requires
            self.wf(),
            idx < self.cell_total(),
        ensures
            r == self.current()[idx as int],
    {
        self.grid.read(idx)
    }

    /// The grid, for reading.
    pub fn grid(&self) -> (r: &CellGrid)
        requires
            self.wf(),
        ensures
            r.wf(),
            r.current() == self.current(),
            r.pending() == self.pending(),
            r.side_spec() == self.side_spec(),
    {
        &self.grid
    }

    /// Makes the computed generation the current one. Called once after
    /// every full cycle of pulls.
    pub fn flip_cells(&mut self)
        requires
            old(self).wf(),
        ensures
            final(self).committed_from(*old(self)),
    {
        self.grid.commit();
    }
}

/// The index that the pull `m` steps after one at `start` reads.
spec fn wrap_index(start: int, m: int, total: int) -> int {
    (start + m) % total
}

/// Reduction modulo `t` of a value below `2 * t`.
proof fn lemma_mod_once(a: int, t: int)
    requires
        0 < t,
        0 <= a < 2 * t,
    ensures
        a % t == (if a < t {
            a
        } else {
            a - t
        }),
{
    if a < t {
        lemma_fundamental_div_mod_converse(a, t, 0, a);
    } else {
        lemma_fundamental_div_mod_converse(a, t, 1, a - t);
    }
}

/// A full cycle of pulls followed by one commit advances the current
/// generation by exactly one step of the rule, and the cursor ends where it
/// began.
pub proof fn lemma_generation_step(start: Habitat, staged: Habitat, next: Habitat)
    requires
        start.wf(),
        staged.cycled_from(start),
        next.committed_from(staged),
    ensures
        next.current() == next_generation(start.rules_spec(), start.current(), start.side_spec()),
        next.cursor() == start.cursor(),
        next.same_setup(start),
{
}

/// Committing a second time with no pull in between changes nothing: the
/// current generation stays as the first commit left it.
pub proof fn lemma_double_commit(first: Habitat, second: Habitat, third: Habitat)
    requires
        first.wf(),
        second.committed_from(first),
        third.committed_from(second),
    ensures
        third.current() == second.current(),
        third.pending() == second.pending(),
{
}

} // verus!
