use sandbox_grid::cell::{
    Cell, Color, LiveCell, LiveCellInstructions, LiveCellMoveInstruction, LiveCellState,
    SandCellState, StaticCell,
};
use sandbox_grid::grid::{CellGrid, GridError};
use sandbox_grid::neighbor::LiveCellApi;
use sandbox_grid::sweep::PlannedMove;

fn sand_state() -> LiveCellState {
    LiveCellState::SandState(SandCellState::new())
}

fn sand_at(frame: u64) -> Cell {
    Cell::Live(LiveCell { state: sand_state(), last_frame_updated: frame })
}

fn wall() -> Cell {
    Cell::Static(StaticCell::new(Color::new(0, 255, 0, 255)))
}

fn one_chunk() -> CellGrid {
    CellGrid::new([0, 0], 1, 1, 4).unwrap()
}

fn all_left(g: &CellGrid) -> Vec<bool> {
    vec![true; g.tile_count()]
}

fn all_right(g: &CellGrid) -> Vec<bool> {
    vec![false; g.tile_count()]
}

#[test]
fn straight_fall() {
    let mut g = one_chunk();
    g.spawn_live_cell([0, 0], sand_state());
    g.update_with_directions(1, &vec![]);
    assert_eq!(g.get_cell([0, 0]), Some(Cell::Empty));
    assert_eq!(g.get_cell([0, 1]), Some(sand_at(1)));
}

#[test]
fn blocked_then_diagonal_right() {
    let mut g = one_chunk();
    g.spawn_live_cell([0, 0], sand_state());
    g.set_cell([0, 1], wall());
    let d = all_right(&g);
    g.update_with_directions(1, &d);
    assert_eq!(g.get_cell([0, 0]), Some(Cell::Empty));
    assert_eq!(g.get_cell([1, 1]), Some(sand_at(1)));
    assert_eq!(g.get_cell([0, 1]), Some(wall()));
}

#[test]
fn blocked_then_diagonal_left_is_edge() {
    // (-1, 1) lies in no allocated chunk: it is a barrier, so the grain stays.
    let mut g = one_chunk();
    g.spawn_live_cell([0, 0], sand_state());
    g.set_cell([0, 1], wall());
    let d = all_left(&g);
    g.update_with_directions(1, &d);
    assert_eq!(g.get_cell([0, 0]), Some(sand_at(1)));
    assert_eq!(g.get_cell([-1, 1]), None);
    assert_eq!(g.get_cell([1, 1]), Some(Cell::Empty));
}

#[test]
fn blocked_on_both_diagonals_stays_and_is_stamped() {
    let mut g = CellGrid::new([0, 0], 1, 1, 4).unwrap();
    g.spawn_live_cell([1, 0], sand_state());
    g.set_cell([0, 1], wall());
    g.set_cell([1, 1], wall());
    g.set_cell([2, 1], wall());
    let left = all_left(&g);
    g.update_with_directions(1, &left);
    assert_eq!(g.get_cell([1, 0]), Some(sand_at(1)));
    let right = all_right(&g);
    g.update_with_directions(2, &right);
    assert_eq!(g.get_cell([1, 0]), Some(sand_at(2)));
}

#[test]
fn cross_chunk_fall() {
    let mut g = CellGrid::new([0, 0], 1, 2, 4).unwrap();
    g.spawn_live_cell([0, 3], sand_state());
    assert_eq!(g.get_cell([0, 4]), Some(Cell::Empty));
    g.update_with_directions(1, &vec![]);
    assert_eq!(g.get_cell([0, 3]), Some(Cell::Empty));
    assert_eq!(g.get_cell([0, 4]), Some(sand_at(1)));
}

#[test]
fn cross_chunk_fall_with_negative_coordinates() {
    let mut g = CellGrid::new([-1, -1], 2, 2, 4).unwrap();
    g.spawn_live_cell([-1, -1], sand_state());
    g.update_with_directions(3, &vec![]);
    assert_eq!(g.get_cell([-1, -1]), Some(Cell::Empty));
    assert_eq!(g.get_cell([-1, 0]), Some(sand_at(3)));
}

#[test]
fn grain_does_not_leave_the_bottom_edge() {
    let mut g = one_chunk();
    g.spawn_live_cell([2, 3], sand_state());
    let d = all_right(&g);
    g.update_with_directions(1, &d);
    assert_eq!(g.get_cell([2, 3]), Some(sand_at(1)));
    assert_eq!(g.get_cell([2, 4]), None);
}

#[test]
fn grain_falls_to_the_floor_over_frames() {
    let mut g = one_chunk();
    g.spawn_live_cell([3, 0], sand_state());
    for frame in 1..=6u64 {
        g.update_with_directions(frame, &vec![]);
    }
    assert_eq!(g.get_cell([3, 3]), Some(sand_at(6)));
    for y in 0..3 {
        assert_eq!(g.get_cell([3, y]), Some(Cell::Empty));
    }
}

#[test]
fn each_cell_moves_at_most_once_per_frame() {
    let mut g = CellGrid::new([0, 0], 1, 1, 8).unwrap();
    g.spawn_live_cell([3, 0], sand_state());
    g.update_with_directions(1, &vec![]);
    // One frame moves the grain one tile, though it lands on a tile the
    // sweep reaches later.
    assert_eq!(g.get_cell([3, 1]), Some(sand_at(1)));
    assert_eq!(g.get_cell([3, 2]), Some(Cell::Empty));
    let plan = g.plan(1, &vec![]);
    assert!(plan.iter().all(|e| e.is_none()));
    let plan = g.plan(2, &vec![]);
    assert_eq!(plan.iter().filter(|e| e.is_some()).count(), 1);
}

#[test]
fn stacked_grains_each_move_once() {
    let mut g = one_chunk();
    g.spawn_live_cell([1, 0], sand_state());
    g.spawn_live_cell([1, 1], sand_state());
    let d = all_right(&g);
    g.update_with_directions(2, &d);
    assert_eq!(g.get_cell([1, 2]), Some(sand_at(2)));
    assert_eq!(g.get_cell([2, 1]), Some(sand_at(2)));
    assert_eq!(g.get_cell([1, 0]), Some(Cell::Empty));
    assert_eq!(g.get_cell([1, 1]), Some(Cell::Empty));
}

#[test]
fn two_grains_aiming_at_one_tile_keep_both() {
    let mut g = CellGrid::new([0, 0], 1, 1, 4).unwrap();
    g.spawn_live_cell([0, 0], sand_state());
    g.spawn_live_cell([2, 0], sand_state());
    g.set_cell([0, 1], wall());
    g.set_cell([2, 1], wall());
    // (0,0) steps right and (2,0) steps left: both into (1,1).
    let mut d = vec![false; g.tile_count()];
    d[2] = true;
    g.update_with_directions(2, &d);
    assert_eq!(g.get_cell([1, 1]), Some(sand_at(2)));
    assert_eq!(g.get_cell([2, 0]), Some(sand_at(2)));
    assert_eq!(g.get_cell([0, 0]), Some(Cell::Empty));
}

#[test]
fn determinism_of_two_runs() {
    let build = || {
        let mut g = CellGrid::new([0, 0], 2, 2, 4).unwrap();
        for x in 0..8 {
            g.spawn_live_cell([x, 0], sand_state());
            g.spawn_live_cell([x, 2], sand_state());
        }
        g.set_cell([3, 5], wall());
        g
    };
    let mut a = build();
    let mut b = build();
    let draws: Vec<bool> = (0..a.tile_count()).map(|i| i % 3 == 0).collect();
    for frame in 1..=5u64 {
        a.update_with_directions(frame, &draws);
        b.update_with_directions(frame, &draws);
    }
    for x in 0..8 {
        for y in 0..8 {
            assert_eq!(a.get_cell([x, y]), b.get_cell([x, y]));
        }
    }
}

#[test]
fn random_update_straight_fall() {
    let mut g = one_chunk();
    g.spawn_live_cell([2, 1], sand_state());
    g.update(1);
    assert_eq!(g.get_cell([2, 1]), Some(Cell::Empty));
    assert_eq!(g.get_cell([2, 2]), Some(sand_at(1)));
}

#[test]
fn already_stamped_cell_is_skipped() {
    let mut g = one_chunk();
    g.set_cell([0, 0], sand_at(5));
    g.update_with_directions(5, &vec![]);
    assert_eq!(g.get_cell([0, 0]), Some(sand_at(5)));
}

#[test]
fn neighbor_view_resolves_negative_offsets() {
    let mut g = CellGrid::new([-1, -1], 2, 2, 4).unwrap();
    g.set_cell([-1, -1], wall());
    g.set_cell([-4, 3], wall());
    let api = LiveCellApi { grid: &g, tile_position: [0, 0] };
    assert_eq!(api.get_cell([-1, -1]), wall());
    assert!(!api.is_empty([-1, -1]));
    assert!(api.is_empty([0, -1]));
    assert_eq!(api.get_cell([-4, 3]), wall());
    assert_eq!(g.get_cell([-4, 3]), Some(wall()));
    // Beyond the region: a barrier.
    assert_eq!(api.get_cell([-5, 0]), Cell::Static(StaticCell::new(Color::new(0, 0, 0, 0))));
    assert!(!api.is_empty([0, 4]));
}

#[test]
fn set_cell_outside_region_is_ignored() {
    let mut g = one_chunk();
    g.set_cell([4, 0], wall());
    g.set_cell([-1, 0], wall());
    assert_eq!(g.get_cell([4, 0]), None);
    let r = g.render();
    assert_eq!(r, vec![([0, 0], false)]);
}

#[test]
fn render_clears_dirty_flags() {
    let mut g = CellGrid::new([0, 0], 2, 1, 4).unwrap();
    g.set_cell([5, 2], wall());
    let first = g.render();
    assert_eq!(first, vec![([0, 0], false), ([1, 0], true)]);
    let second = g.render();
    assert_eq!(second, vec![([0, 0], false), ([1, 0], false)]);
}

#[test]
fn render_after_update_reports_touched_chunks() {
    let mut g = CellGrid::new([0, 0], 1, 2, 4).unwrap();
    g.spawn_live_cell([0, 3], sand_state());
    g.render();
    g.update_with_directions(1, &vec![]);
    assert_eq!(g.render(), vec![([0, 0], true), ([0, 1], true)]);
    assert_eq!(g.render(), vec![([0, 0], false), ([0, 1], false)]);
}

#[test]
fn switch_exchanges_cells() {
    let mut g = one_chunk();
    let grain = LiveCell { state: sand_state(), last_frame_updated: 0 };
    g.set_cell([0, 0], Cell::Live(grain));
    g.set_cell([1, 0], wall());
    let m = PlannedMove {
        source: (0, 0, 0, 0),
        cell: grain,
        instructions: LiveCellInstructions::new()
            .with_move_instruction(Some(LiveCellMoveInstruction::Switch([1, 0]))),
    };
    g.apply_planned_move(4, m);
    assert_eq!(g.get_cell([0, 0]), Some(wall()));
    assert_eq!(g.get_cell([1, 0]), Some(sand_at(4)));
}

#[test]
fn zero_offset_move_is_refused() {
    let mut g = one_chunk();
    let grain = LiveCell { state: sand_state(), last_frame_updated: 0 };
    g.set_cell([2, 2], Cell::Live(grain));
    let m = PlannedMove {
        source: (0, 0, 2, 2),
        cell: grain,
        instructions: LiveCellInstructions::new()
            .with_move_instruction(Some(LiveCellMoveInstruction::Replace([0, 0]))),
    };
    g.apply_planned_move(7, m);
    assert_eq!(g.get_cell([2, 2]), Some(sand_at(7)));
}

#[test]
fn replace_into_taken_tile_is_refused() {
    let mut g = one_chunk();
    let grain = LiveCell { state: sand_state(), last_frame_updated: 0 };
    g.set_cell([2, 2], Cell::Live(grain));
    g.set_cell([2, 3], wall());
    let m = PlannedMove {
        source: (0, 0, 2, 2),
        cell: grain,
        instructions: LiveCellInstructions::new()
            .with_move_instruction(Some(LiveCellMoveInstruction::Replace([0, 1]))),
    };
    g.apply_planned_move(7, m);
    assert_eq!(g.get_cell([2, 2]), Some(sand_at(7)));
    assert_eq!(g.get_cell([2, 3]), Some(wall()));
}

#[test]
fn recolor_instruction_changes_color() {
    let mut g = one_chunk();
    let grain = LiveCell { state: sand_state(), last_frame_updated: 0 };
    g.set_cell([1, 1], Cell::Live(grain));
    let red = Color::new(255, 0, 0, 255);
    let m = PlannedMove {
        source: (0, 0, 1, 1),
        cell: grain,
        instructions: LiveCellInstructions::new().with_new_color_instruction(Some(red)),
    };
    g.apply_planned_move(1, m);
    let c = g.get_cell([1, 1]).unwrap();
    // The rule's color changes; every live cell is still painted black.
    assert_eq!(c.get_color(), Color::new(0, 0, 0, 255));
    assert_eq!(
        c,
        Cell::Live(LiveCell {
            state: LiveCellState::SandState(SandCellState { color: red }),
            last_frame_updated: 1
        })
    );
}

#[test]
fn planned_move_outside_region_is_ignored() {
    let mut g = one_chunk();
    let grain = LiveCell { state: sand_state(), last_frame_updated: 0 };
    let m = PlannedMove {
        source: (1, 0, 0, 0),
        cell: grain,
        instructions: LiveCellInstructions::new(),
    };
    g.apply_planned_move(1, m);
    assert_eq!(g.render(), vec![([0, 0], false)]);
}

#[test]
fn stale_plan_entry_is_ignored() {
    let mut g = one_chunk();
    let grain = LiveCell { state: sand_state(), last_frame_updated: 0 };
    let m = PlannedMove {
        source: (0, 0, 0, 0),
        cell: grain,
        instructions: LiveCellInstructions::new()
            .with_move_instruction(Some(LiveCellMoveInstruction::Replace([0, 1]))),
    };
    g.apply_planned_move(1, m);
    assert_eq!(g.get_cell([0, 0]), Some(Cell::Empty));
    assert_eq!(g.get_cell([0, 1]), Some(Cell::Empty));
}

#[test]
fn construction_errors() {
    assert_eq!(CellGrid::new([0, 0], 1, 1, 0).err(), Some(GridError::InvalidChunkSize));
    assert_eq!(CellGrid::new([0, 0], 0, 1, 4).err(), Some(GridError::EmptyRegion));
    assert_eq!(CellGrid::new([0, 0], 3, 0, 4).err(), Some(GridError::EmptyRegion));
    assert_eq!(CellGrid::new([i32::MAX, 0], 1, 1, 4).err(), Some(GridError::RegionTooLarge));
    assert_eq!(CellGrid::new([0, 0], 70_000, 70_000, 1).err(), Some(GridError::RegionTooLarge));
    assert_eq!(CellGrid::new([0, 0], 1, 1, usize::MAX).err(), Some(GridError::RegionTooLarge));
}

#[test]
fn fresh_grid_is_empty_and_clean() {
    let g = CellGrid::new([2, -3], 5, 3, 4).unwrap();
    assert_eq!(g.origin(), [2, -3]);
    assert_eq!((g.width(), g.height(), g.chunk_size()), (5, 3, 4));
    assert_eq!(g.tile_count(), 240);
    assert_eq!(g.get_cell([8, -12]), Some(Cell::Empty));
    assert_eq!(g.get_cell([27, -1]), Some(Cell::Empty));
    assert_eq!(g.get_cell([28, -1]), None);
    assert_eq!(g.get_cell([8, -13]), None);
}

#[test]
fn sweep_order_alternates_by_frame() {
    let mut g = CellGrid::new([0, 0], 2, 1, 2).unwrap();
    g.set_cell([0, 0], sand_at(0));
    g.set_cell([3, 1], sand_at(0));
    let even = g.plan(2, &vec![]);
    assert_eq!(even.len(), 8);
    assert_eq!(even[0].unwrap().source, (0, 0, 0, 0));
    assert_eq!(even[7].unwrap().source, (1, 0, 1, 1));
    let odd = g.plan(3, &vec![]);
    // Odd frames walk the chunks and the cells of each row right to left.
    assert!(odd[0].is_none());
    assert_eq!(odd[2].unwrap().source, (1, 0, 1, 1));
    assert_eq!(odd[5].unwrap().source, (0, 0, 0, 0));
    assert_eq!(odd.iter().filter(|e| e.is_some()).count(), 2);
}

#[test]
fn colors_of_cells() {
    assert_eq!(Cell::Empty.get_color(), Color::new(0, 0, 0, 0));
    assert_eq!(wall().get_color(), Color::new(0, 255, 0, 255));
    assert_eq!(sand_at(0).get_color(), Color::new(0, 0, 0, 255));
    let tinted = Cell::Live(LiveCell {
        state: LiveCellState::SandState(SandCellState { color: Color::new(1, 2, 3, 4) }),
        last_frame_updated: 0,
    });
    assert_eq!(tinted.get_color(), Color::new(0, 0, 0, 255));
    assert!(Cell::Empty.is_empty());
    assert!(!wall().is_empty());
}

#[test]
fn sand_rule_directly() {
    let mut g = one_chunk();
    g.set_cell([1, 2], wall());
    let api = LiveCellApi { grid: &g, tile_position: [1, 1] };
    let s = SandCellState::new();
    let r = s.update(&api, true);
    assert_eq!(r.move_instruction, Some(LiveCellMoveInstruction::Replace([-1, 1])));
    assert_eq!(r.new_color_instruction, None);
    let r = s.update(&api, false);
    assert_eq!(r.move_instruction, Some(LiveCellMoveInstruction::Replace([1, 1])));
    let api = LiveCellApi { grid: &g, tile_position: [1, 0] };
    let r = sand_state().update(&api, false);
    assert_eq!(r.move_instruction, Some(LiveCellMoveInstruction::Replace([0, 1])));
}

#[test]
fn chunk_cells_for_rendering() {
    let mut g = CellGrid::new([-1, 0], 2, 1, 4).unwrap();
    g.set_cell([-3, 2], wall());
    let ch = g.chunk([-1, 0]).unwrap();
    assert_eq!(ch.cells().len(), 4);
    assert_eq!(ch.cells()[1][2], wall());
    assert_eq!(ch.cells()[0][0], Cell::Empty);
    assert!(ch.is_dirty());
    assert!(!g.chunk([0, 0]).unwrap().is_dirty());
    assert!(g.chunk([1, 0]).is_none());
    assert!(g.chunk([-1, 1]).is_none());
}

#[test]
fn frames_keep_the_number_of_grains() {
    let count = |g: &CellGrid| {
        let mut n = 0;
        for x in -4..8 {
            for y in -4..8 {
                if let Some(Cell::Live(_)) = g.get_cell([x, y]) {
                    n += 1;
                }
            }
        }
        n
    };
    let mut g = CellGrid::new([-1, -1], 2, 2, 4).unwrap();
    for x in -4..4 {
        g.spawn_live_cell([x, -4], sand_state());
        g.spawn_live_cell([x, 3], sand_state());
    }
    g.set_cell([0, 0], wall());
    assert_eq!(count(&g), 16);
    for frame in 1..=10u64 {
        g.update(frame);
        assert_eq!(count(&g), 16);
    }
    // The bottom row was full from the start: every grain there stayed.
    for x in -4..4 {
        assert_eq!(g.get_cell([x, 3]), Some(sand_at(10)));
    }
}
