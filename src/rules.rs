use vstd::prelude::*;

use crate::cell::CellState;

verus! {

/// The largest number of live neighbours a cell can have.
pub const MAX_NEIGHBORS: usize = 8;

/// A generalised birth/survival rule: `birth[k]` says whether a dead cell with
/// `k` live neighbours comes alive, `survival[k]` whether a live cell with `k`
/// live neighbours stays alive.
pub struct RuleTable {
    birth: Vec<bool>,
    survival: Vec<bool>,
}

/// Whether the list of neighbour counts names `k`.
pub open spec fn names_count(counts: Seq<usize>, k: int) -> bool {
    exists|j: int| 0 <= j < counts.len() && counts[j] == k
}

impl RuleTable {
    /// Both tables have one entry for each count from 0 to 8.
    pub open spec fn wf(&self) -> bool {
        &&& self.birth_table().len() == MAX_NEIGHBORS + 1
        &&& self.survival_table().len() == MAX_NEIGHBORS + 1
    }

    /// The birth flags, by neighbour count.
    pub closed spec fn birth_table(&self) -> Seq<bool> {
        self.birth@
    }

    /// The survival flags, by neighbour count.
    pub closed spec fn survival_table(&self) -> Seq<bool> {
        self.survival@
    }

    /// Whether a dead cell with `k` live neighbours comes alive.
    pub open spec fn born_with(&self, k: int) -> bool {
        self.birth_table()[k]
    }

    /// Whether a live cell with `k` live neighbours stays alive.
    pub open spec fn survives_with(&self, k: int) -> bool {
        self.survival_table()[k]
    }

    /// The state that follows `current` for a cell with `k` live neighbours.
    pub open spec fn next_spec(&self, current: CellState, k: int) -> CellState {
        let alive = if current is Live {
            self.survives_with(k)
        } else {
            self.born_with(k)
        };
        if alive {
            CellState::Live
        } else {
            CellState::Dead
        }
    }

    /// A table with exactly the flags that the count lists name; counts
    /// above 8 and repeated counts are ignored.
    pub fn new(birth_indices: Vec<usize>, survival_indices: Vec<usize>) -> (r: RuleTable)
        ensures
            r.wf(),
            r.birth_table().len() == MAX_NEIGHBORS + 1,
            r.survival_table().len() == MAX_NEIGHBORS + 1,
            forall|k: int| 0 <= k <= MAX_NEIGHBORS ==> r.born_with(k) == names_count(birth_indices@, k),
            forall|k: int| 0 <= k <= MAX_NEIGHBORS ==> r.survives_with(k) == names_count(survival_indices@, k),
    {
        RuleTable { birth: count_flags(&birth_indices), survival: count_flags(&survival_indices) }
    }

    /// The state that follows `current` for a cell with `live_neighbors`
    /// live neighbours. It reads nothing but the table and its arguments.
    pub fn next_state(&self, current: CellState, live_neighbors: u8) -> (r: CellState)
        requires
            self.wf(),
            live_neighbors as usize <= MAX_NEIGHBORS,
        ensures
            r == self.next_spec(current, live_neighbors as int),
    {
        let k = live_neighbors as usize;
        let alive = match current {
            CellState::Live => self.survival[k],
            CellState::Dead => self.birth[k],
        };
        if alive {
            CellState::Live
        } else {
            CellState::Dead
        }
    }
}

/// Nine flags, the `k`th set exactly when `counts` names `k`.
fn count_flags(counts: &Vec<usize>) -> (r: Vec<bool>)
    ensures
        r@.len() == MAX_NEIGHBORS + 1,
        forall|k: int| 0 <= k <= MAX_NEIGHBORS ==> r@[k] == names_count(counts@, k),
{
    let mut flags: Vec<bool> = Vec::new();
    let mut k: usize = 0;
    while k <= MAX_NEIGHBORS
        invariant
            k <= MAX_NEIGHBORS + 1,
            flags@.len() == k,
            forall|m: int| 0 <= m < k ==> !flags@[m],
        decreases MAX_NEIGHBORS + 1 - k,
    {
        flags.push(false);
        k = k + 1;
    }
    let mut j: usize = 0;
    while j < counts.len()
        invariant
            j <= counts@.len(),
            flags@.len() == MAX_NEIGHBORS + 1,
            forall|m: int|
                0 <= m <= MAX_NEIGHBORS ==> flags@[m] == (exists|i: int|
                    0 <= i < j && counts@[i] == m),
        decreases counts@.len() - j,
    {
        let c = counts[j];
        if c <= MAX_NEIGHBORS {
            flags.set(c, true);
        }
        proof {
            assert forall|m: int| 0 <= m <= MAX_NEIGHBORS implies flags@[m] == (exists|i: int|
                0 <= i < j + 1 && counts@[i] == m) by {
                if counts@[j as int] == m {
                    assert(0 <= j < j + 1 && counts@[j as int] == m);
                }
            }
        }
        j = j + 1;
    }
    flags
}

} // verus!
