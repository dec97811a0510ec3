use lifelike::viewport::contains;
use lifelike::{CellGrid, CellState, ConstructionError, Habitat, RuleTable};

fn classic(side: u32, cells: Vec<(usize, usize)>) -> Habitat {
    Habitat::new(16, 16, side, cells, vec![3], vec![2, 3]).unwrap()
}

fn live_cells(h: &Habitat) -> Vec<(usize, usize)> {
    let n = h.side() as usize;
    let mut out = Vec::new();
    for i in 0..n * n {
        if h.read(i) == CellState::Live {
            out.push((i / n, i % n));
        }
    }
    out
}

fn one_generation(h: &mut Habitat) {
    let n = h.side() as usize;
    for _ in 0..n * n {
        h.next_cell();
    }
    h.flip_cells();
}

#[test]
fn end_to_end_vertical_blinker() {
    let mut h = classic(3, vec![(0, 1), (1, 1), (2, 1)]);
    one_generation(&mut h);
    assert_eq!(live_cells(&h), vec![(1, 0), (1, 1), (1, 2)]);
    one_generation(&mut h);
    assert_eq!(live_cells(&h), vec![(0, 1), (1, 1), (2, 1)]);
}

#[test]
fn blinker_has_period_two_on_larger_grid() {
    let mut h = classic(5, vec![(2, 1), (2, 2), (2, 3)]);
    one_generation(&mut h);
    assert_eq!(live_cells(&h), vec![(1, 2), (2, 2), (3, 2)]);
    one_generation(&mut h);
    assert_eq!(live_cells(&h), vec![(2, 1), (2, 2), (2, 3)]);
}

#[test]
fn corner_counts_three_positions() {
    let mut all = Vec::new();
    for r in 0..3 {
        for c in 0..3 {
            all.push((r, c));
        }
    }
    let g = CellGrid::new(3, all).unwrap();
    assert_eq!(g.live_neighbors(0), 3);
    assert_eq!(g.live_neighbors(2), 3);
    assert_eq!(g.live_neighbors(6), 3);
    assert_eq!(g.live_neighbors(8), 3);
    assert_eq!(g.live_neighbors(1), 5);
    assert_eq!(g.live_neighbors(3), 5);
    assert_eq!(g.live_neighbors(4), 8);
}

#[test]
fn lone_corner_cell_dies_and_grid_has_no_wraparound() {
    let g = CellGrid::new(4, vec![(0, 0)]).unwrap();
    assert_eq!(g.live_neighbors(3), 0);
    assert_eq!(g.live_neighbors(12), 0);
    assert_eq!(g.live_neighbors(15), 0);
    assert_eq!(g.live_neighbors(5), 1);
    let mut h = classic(4, vec![(0, 0)]);
    one_generation(&mut h);
    assert!(live_cells(&h).is_empty());
}

#[test]
fn one_by_one_grid_has_no_neighbors() {
    let g = CellGrid::new(1, vec![(0, 0)]).unwrap();
    assert_eq!(g.live_neighbors(0), 0);
    let mut h = Habitat::new(0, 0, 1, vec![(0, 0)], vec![0], vec![0]).unwrap();
    assert_eq!(h.next_cell().state, CellState::Live);
    assert_eq!(h.position(), 0);
    h.flip_cells();
    assert_eq!(h.read(0), CellState::Live);
}

#[test]
fn staged_values_read_only_the_current_generation() {
    // An in-place update would see (0,1) already dead when it reaches (1,1).
    let mut h = classic(3, vec![(0, 1), (1, 1), (2, 1)]);
    let pulled = h.pull_cycle();
    assert_eq!(pulled.len(), 9);
    for i in 0..9 {
        assert_eq!(h.read(i), pulled[i]);
    }
    let g = h.grid();
    let expected_live = [3usize, 4, 5];
    for i in 0..9 {
        let staged = g.cell(i).buffer;
        let want = if expected_live.contains(&i) { CellState::Live } else { CellState::Dead };
        assert_eq!(staged, want);
    }
    assert_eq!(live_cells(&h), vec![(0, 1), (1, 1), (2, 1)]);
}

#[test]
fn full_cycle_returns_each_cell_once_from_cursor() {
    let mut h = classic(3, vec![(0, 0), (1, 2), (2, 1)]);
    for _ in 0..4 {
        h.next_cell();
    }
    assert_eq!(h.position(), 4);
    let before: Vec<CellState> = (0..9).map(|i| h.read(i)).collect();
    let mut seen = Vec::new();
    for _ in 0..9 {
        seen.push(h.next_cell().state);
    }
    assert_eq!(h.position(), 4);
    for k in 0..9 {
        assert_eq!(seen[k], before[(4 + k) % 9]);
    }
    let cycle = h.pull_cycle();
    assert_eq!(h.position(), 4);
    assert_eq!(cycle, seen);
}

#[test]
fn double_commit_leaves_current_unchanged() {
    let mut h = classic(3, vec![(0, 1), (1, 1), (2, 1)]);
    one_generation(&mut h);
    let after_first = live_cells(&h);
    h.flip_cells();
    assert_eq!(live_cells(&h), after_first);
    assert_eq!(after_first, vec![(1, 0), (1, 1), (1, 2)]);
}

#[test]
fn commit_on_fresh_habitat_keeps_initial_cells() {
    let mut h = classic(4, vec![(1, 1), (3, 2)]);
    h.flip_cells();
    assert_eq!(live_cells(&h), vec![(1, 1), (3, 2)]);
}

#[test]
fn rule_table_is_deterministic() {
    let t = RuleTable::new(vec![3], vec![2, 3]);
    let first: Vec<CellState> = (0..=8u8).map(|k| t.next_state(CellState::Dead, k)).collect();
    let rev: Vec<CellState> = (0..=8u8).rev().map(|k| t.next_state(CellState::Dead, k)).collect();
    for k in 0..=8usize {
        assert_eq!(first[k], rev[8 - k]);
        assert_eq!(first[k], t.next_state(CellState::Dead, k as u8));
    }
    assert_eq!(t.next_state(CellState::Dead, 3), CellState::Live);
    assert_eq!(t.next_state(CellState::Dead, 2), CellState::Dead);
    assert_eq!(t.next_state(CellState::Live, 2), CellState::Live);
    assert_eq!(t.next_state(CellState::Live, 3), CellState::Live);
    assert_eq!(t.next_state(CellState::Live, 4), CellState::Dead);
    assert_eq!(t.next_state(CellState::Live, 1), CellState::Dead);
}

#[test]
fn rule_table_ignores_duplicates_and_large_counts() {
    let t = RuleTable::new(vec![3, 3, 9, 100, 8], vec![0, 0, 12]);
    assert_eq!(t.next_state(CellState::Dead, 3), CellState::Live);
    assert_eq!(t.next_state(CellState::Dead, 8), CellState::Live);
    assert_eq!(t.next_state(CellState::Dead, 4), CellState::Dead);
    assert_eq!(t.next_state(CellState::Live, 0), CellState::Live);
    assert_eq!(t.next_state(CellState::Live, 8), CellState::Dead);
}

#[test]
fn zero_side_is_refused() {
    assert_eq!(CellGrid::new(0, vec![]).err(), Some(ConstructionError::ZeroSide));
    assert_eq!(
        Habitat::new(0, 0, 0, vec![(0, 0)], vec![3], vec![2, 3]).err(),
        Some(ConstructionError::ZeroSide)
    );
}

#[test]
fn cell_off_grid_is_refused() {
    assert_eq!(CellGrid::new(3, vec![(0, 0), (3, 0)]).err(), Some(ConstructionError::CellOutOfRange));
    assert_eq!(
        Habitat::new(0, 0, 3, vec![(1, 5)], vec![3], vec![2, 3]).err(),
        Some(ConstructionError::CellOutOfRange)
    );
}

#[test]
fn new_grid_has_listed_cells_in_both_generations() {
    let g = CellGrid::new(3, vec![(2, 0), (2, 0), (0, 2)]).unwrap();
    assert_eq!(g.side(), 3);
    assert_eq!(g.cell_count(), 9);
    for i in 0..9 {
        let c = g.cell(i);
        let want = if i == 6 || i == 2 { CellState::Live } else { CellState::Dead };
        assert_eq!(c.state, want);
        assert_eq!(c.buffer, want);
        assert_eq!(g.read(i), want);
    }
}

#[test]
fn stage_and_commit_on_grid() {
    let mut g = CellGrid::new(2, vec![(0, 0)]).unwrap();
    g.stage_next(3, CellState::Live);
    assert_eq!(g.read(3), CellState::Dead);
    assert_eq!(g.cell(3).buffer, CellState::Live);
    g.commit();
    assert_eq!(g.read(3), CellState::Live);
    assert_eq!(g.read(0), CellState::Live);
}

#[test]
fn next_cell_returns_pre_update_value() {
    let mut h = classic(3, vec![(0, 0)]);
    let c = h.next_cell();
    assert_eq!(c.state, CellState::Live);
    assert_eq!(h.read(0), CellState::Live);
    assert_eq!(h.grid().cell(0).buffer, CellState::Dead);
    assert_eq!(h.position(), 1);
}

#[test]
fn run_life_round_stages_without_moving() {
    let mut h = classic(3, vec![(0, 1), (1, 1), (2, 1)]);
    for _ in 0..3 {
        h.next_cell();
    }
    h.run_life_round();
    assert_eq!(h.position(), 3);
    assert_eq!(h.grid().cell(3).buffer, CellState::Live);
    assert_eq!(h.read(3), CellState::Dead);
}

#[test]
fn viewport_square_membership() {
    // canvas 10 wide, square of side 3 at (2, 1)
    assert!(contains(12, 10, (2, 1), 3));
    assert!(contains(34, 10, (2, 1), 3));
    assert!(!contains(35, 10, (2, 1), 3));
    assert!(!contains(11, 10, (2, 1), 3));
    assert!(!contains(42, 10, (2, 1), 3));
    assert!(!contains(2, 10, (2, 1), 3));
    assert!(!contains(0, 10, (0, 0), 0));
    assert!(contains(0, 10, (0, 0), 1));
}

#[test]
fn habitat_counts_its_pixels() {
    let h = classic(3, vec![]);
    let width = 40u32;
    let inside = (0..40 * 40).filter(|&i| h.is_in_habitat(i, width)).count();
    assert_eq!(inside, 9);
    assert!(h.is_in_habitat(16 * 40 + 16, width));
    assert!(!h.is_in_habitat(16 * 40 + 19, width));
}
