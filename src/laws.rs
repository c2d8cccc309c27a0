use vstd::prelude::*;
use crate::cell::{Cell, LiveCellMoveInstruction};
use crate::grid::GridView;
use crate::sand::sand_move;
use crate::cell::LiveCell;
use crate::sweep::{
    apply_move, apply_prefix, as_pos, moved_cell, move_target, plan, same_region, step, sweep_pos,
    PlannedMove,
};

verus! {

/// The grid after one frame per entry of `frames`, frame `i` drawing its
/// left/right choices from `draws[i]`.
pub open spec fn run(g: GridView, frames: Seq<u64>, draws: Seq<Seq<bool>>) -> GridView
    decreases frames.len(),
{
    if frames.len() == 0 {
        g
    } else {
        let i = frames.len() - 1;
        step(run(g, frames.take(i), draws.take(i)), frames[i], draws[i])
    }
}

/// Determinism: two runs from the same grid, over the same frames and the
/// same left/right draws, end in the same grid.
pub proof fn lemma_runs_agree(a: GridView, b: GridView, frames: Seq<u64>, draws: Seq<Seq<bool>>)
    requires
        a == b,
        draws.len() == frames.len(),
    ensures
        run(a, frames, draws) == run(b, frames, draws),
    decreases frames.len(),
{
    if frames.len() > 0 {
        let i = frames.len() - 1;
        lemma_runs_agree(a, b, frames.take(i), draws.take(i));
    }
}

proof fn lemma_flip(a: int, b: int, m: int)
    requires
        m - 1 - a == m - 1 - b,
    ensures
        a == b,
{
}

/// Distinct steps of a frame's sweep visit distinct tiles.
pub proof fn lemma_sweep_injective(g: GridView, frame: int, k1: int, k2: int)
    requires
        g.wf(),
        0 <= k1 < g.tile_count(),
        0 <= k2 < g.tile_count(),
        sweep_pos(g, frame, k1) == sweep_pos(g, frame, k2),
    ensures
        k1 == k2,
{
    let n = g.chunk_size;
    let per_chunk = n * n;
    let per_row = g.width * per_chunk;
    assert(per_chunk >= 1 && per_row >= 1) by (nonlinear_arith)
        requires n >= 1, g.width >= 1, per_chunk == n * n, per_row == g.width * per_chunk;
    let in_row1 = k1 % per_row;
    let in_row2 = k2 % per_row;
    let in_chunk1 = in_row1 % per_chunk;
    let in_chunk2 = in_row2 % per_chunk;
    if frame % 2 != 0 {
        lemma_flip(in_row1 / per_chunk, in_row2 / per_chunk, g.width);
        lemma_flip(in_chunk1 % n, in_chunk2 % n, n);
    }
    vstd::arithmetic::div_mod::lemma_fundamental_div_mod(in_chunk1, n);
    vstd::arithmetic::div_mod::lemma_fundamental_div_mod(in_chunk2, n);
    vstd::arithmetic::div_mod::lemma_fundamental_div_mod(in_row1, per_chunk);
    vstd::arithmetic::div_mod::lemma_fundamental_div_mod(in_row2, per_chunk);
    vstd::arithmetic::div_mod::lemma_fundamental_div_mod(k1, per_row);
    vstd::arithmetic::div_mod::lemma_fundamental_div_mod(k2, per_row);
}

/// At most one evaluation per cell: within one frame, no two entries of the
/// evaluation phase come from the same tile.
pub proof fn lemma_evaluated_at_most_once(g: GridView, frame: u64, draws: Seq<bool>, j1: int, j2: int)
    requires
        g.wf(),
        0 <= j1 < g.tile_count(),
        0 <= j2 < g.tile_count(),
        j1 != j2,
        plan(g, frame, draws)[j1] is Some,
        plan(g, frame, draws)[j2] is Some,
    ensures
        plan(g, frame, draws)[j1].unwrap().source != plan(g, frame, draws)[j2].unwrap().source,
{
    crate::sweep::lemma_sweep_in_range(g, frame as int, j1);
    crate::sweep::lemma_sweep_in_range(g, frame as int, j2);
    crate::grid::lemma_wf_bounds(g);
    if plan(g, frame, draws)[j1].unwrap().source == plan(g, frame, draws)[j2].unwrap().source {
        lemma_sweep_injective(g, frame as int, j1, j2);
    }
}

/// A cell that an entry has moved carries the frame's stamp, while every
/// entry was evaluated on a cell without it: no later entry of the same
/// frame can take a moved cell for its own and move it again.
pub proof fn lemma_moved_cell_not_replanned(g: GridView, frame: u64, draws: Seq<bool>, j: int, earlier: PlannedMove)
    requires
        g.wf(),
        0 <= j < g.tile_count(),
        plan(g, frame, draws)[j] is Some,
    ensures
        plan(g, frame, draws)[j].unwrap().cell.last_frame_updated != frame,
        moved_cell(earlier, frame) != Cell::Live(plan(g, frame, draws)[j].unwrap().cell),
{
}

/// Boundary containment, for the shipped rule: sand only ever asks to move
/// into an allocated tile.
pub proof fn lemma_sand_targets_allocated(g: GridView, x: int, y: int, go_left: bool)
    requires
        g.wf(),
    ensures
        match sand_move(g, x, y, go_left) {
            Some(LiveCellMoveInstruction::Replace(o)) => g.locate(x + o[0], y + o[1]).is_some(),
            Some(LiveCellMoveInstruction::Switch(o)) => g.locate(x + o[0], y + o[1]).is_some(),
            None => true,
        },
{
}

/// Boundary containment, for any rule: a move whose target is not allocated
/// leaves the cell where it stood, stamped, and touches nothing else.
pub proof fn lemma_unallocated_target_stays(g: GridView, frame: u64, m: PlannedMove)
    requires
        g.wf(),
        g.in_range(as_pos(m.source)),
        g.cell_at(as_pos(m.source)) == Cell::Live(m.cell),
        match m.instructions.move_instruction {
            Some(LiveCellMoveInstruction::Replace(o)) => move_target(g, as_pos(m.source), o).is_none(),
            Some(LiveCellMoveInstruction::Switch(o)) => move_target(g, as_pos(m.source), o).is_none(),
            None => true,
        },
    ensures
        apply_move(g, frame, Some(m)) == g.set_at(as_pos(m.source), moved_cell(m, frame)),
{
}

/// Floor division: the chunk that holds an absolute tile has chunk
/// coordinate `floor(x / N)`, the local coordinate is the non-negative
/// remainder, and the two give the tile back.
pub proof fn lemma_floor_division(g: GridView, x: int, y: int)
    requires
        g.wf(),
        g.locate(x, y) is Some,
    ensures
        g.origin_x + g.locate(x, y).unwrap().0 == x / g.chunk_size,
        g.origin_y + g.locate(x, y).unwrap().1 == y / g.chunk_size,
        g.locate(x, y).unwrap().2 == x % g.chunk_size,
        g.locate(x, y).unwrap().3 == y % g.chunk_size,
        g.absolute(g.locate(x, y).unwrap()) == (x, y),
{
    let n = g.chunk_size;
    let rx = x - g.origin_x * n;
    let ry = y - g.origin_y * n;
    vstd::arithmetic::div_mod::lemma_fundamental_div_mod(x, n);
    vstd::arithmetic::div_mod::lemma_fundamental_div_mod(y, n);
    vstd::arithmetic::div_mod::lemma_fundamental_div_mod(rx, n);
    vstd::arithmetic::div_mod::lemma_fundamental_div_mod(ry, n);
    assert(rx == n * (x / n - g.origin_x) + x % n) by (nonlinear_arith)
        requires rx == x - g.origin_x * n, x == n * (x / n) + x % n;
    assert(ry == n * (y / n - g.origin_y) + y % n) by (nonlinear_arith)
        requires ry == y - g.origin_y * n, y == n * (y / n) + y % n;
    vstd::arithmetic::div_mod::lemma_fundamental_div_mod_converse(rx, n, x / n - g.origin_x, x % n);
    vstd::arithmetic::div_mod::lemma_fundamental_div_mod_converse(ry, n, y / n - g.origin_y, y % n);
    assert((g.origin_x + (x / n - g.origin_x)) * n == n * (x / n)) by (nonlinear_arith);
    assert((g.origin_y + (y / n - g.origin_y)) * n == n * (y / n)) by (nonlinear_arith);
}

/// What a rule reads at an offset from its tile is what the grid holds at
/// the absolute tile: after writing `cell` at `(x, y)`, a live cell at
/// `(px, py)` reads `cell` at offset `(x - px, y - py)`, across any chunk
/// boundary.
pub proof fn lemma_offset_reads_written(g: GridView, x: int, y: int, cell: Cell, px: int, py: int)
    requires
        g.wf(),
        g.locate(x, y) is Some,
    ensures
        g.with_tile(x, y, cell).neighbor_cell(px + (x - px), py + (y - py)) == cell,
        g.with_tile(x, y, cell).tile(x, y) == Some(cell),
{
    let p = g.locate(x, y).unwrap();
    crate::grid::lemma_wf_bounds(g);
    assert(g.set_at(p, cell).chunks[p.0][p.1].cells[p.2][p.3] == cell) by {
        crate::grid::lemma_div_under(x - g.origin_x * g.chunk_size, g.width, g.chunk_size);
        crate::grid::lemma_div_under(y - g.origin_y * g.chunk_size, g.height, g.chunk_size);
        assert(g.chunks[p.0][p.1].is_square(g.chunk_size));
    }
}

/// Rendering clears every dirty flag: a second render right after a first
/// reports no chunk as dirty and changes nothing.
pub proof fn lemma_render_idempotent(g: GridView)
    requires
        g.wf(),
    ensures
        forall|i: int| 0 <= i < g.width * g.height ==> !(#[trigger] g.rendered().render_entry(i)).1,
        g.rendered().rendered() == g.rendered(),
{
    let r = g.rendered();
    assert forall|i: int| 0 <= i < g.width * g.height implies !(#[trigger] r.render_entry(i)).1 by {
        crate::grid::lemma_div_under(i, g.width, g.height);
    }
    assert forall|c: int| 0 <= c < g.width implies #[trigger] r.rendered().chunks[c] =~= r.chunks[c] by {}
    assert(r.rendered().chunks =~= r.chunks);
}

/// Every tile of the region is visited by some step of a frame's sweep.
pub proof fn lemma_sweep_onto(g: GridView, frame: int, s: (int, int, int, int)) -> (k: int)
    requires
        g.wf(),
        g.in_range(s),
    ensures
        0 <= k < g.tile_count(),
        sweep_pos(g, frame, k) == s,
{
    let n = g.chunk_size;
    let w = g.width;
    let h = g.height;
    let per_chunk = n * n;
    let per_row = w * per_chunk;
    let even = frame % 2 == 0;
    let cs = if even { s.0 } else { w - 1 - s.0 };
    let ls = if even { s.2 } else { n - 1 - s.2 };
    let in_chunk = s.3 * n + ls;
    let in_row = cs * per_chunk + in_chunk;
    let k = s.1 * per_row + in_row;
    assert(0 <= in_chunk < per_chunk) by (nonlinear_arith)
        requires 0 <= s.3 < n, 0 <= ls < n, per_chunk == n * n, in_chunk == s.3 * n + ls;
    assert(0 <= in_row < per_row) by (nonlinear_arith)
        requires 0 <= cs < w, 0 <= in_chunk < per_chunk, per_row == w * per_chunk, in_row == cs * per_chunk + in_chunk;
    assert(0 <= k < g.tile_count()) by (nonlinear_arith)
        requires 0 <= s.1 < h, 0 <= in_row < per_row, g.tile_count() == (w * n) * (h * n),
            per_row == w * (n * n), k == s.1 * per_row + in_row;
    vstd::arithmetic::div_mod::lemma_fundamental_div_mod_converse(k, per_row, s.1, in_row);
    vstd::arithmetic::div_mod::lemma_fundamental_div_mod_converse(in_row, per_chunk, cs, in_chunk);
    vstd::arithmetic::div_mod::lemma_fundamental_div_mod_converse(in_chunk, n, s.3, ls);
    k
}

/// Writing one tile leaves every other tile as it was.
pub proof fn lemma_set_at_other(g: GridView, p: (int, int, int, int), cell: Cell, s: (int, int, int, int))
    requires
        g.wf(),
        g.in_range(p),
        g.in_range(s),
        p != s,
    ensures
        g.set_at(p, cell).cell_at(s) == g.cell_at(s),
{
    assert(g.chunks[p.0][p.1].is_square(g.chunk_size));
    assert(g.chunks[s.0][s.1].is_square(g.chunk_size));
}

/// A located tile lies in the region.
pub proof fn lemma_locate_in_range(g: GridView, x: int, y: int)
    requires
        g.wf(),
        g.locate(x, y) is Some,
    ensures
        g.in_range(g.locate(x, y).unwrap()),
{
    crate::grid::lemma_wf_bounds(g);
    crate::grid::lemma_div_under(x - g.origin_x * g.chunk_size, g.width, g.chunk_size);
    crate::grid::lemma_div_under(y - g.origin_y * g.chunk_size, g.height, g.chunk_size);
}

/// Applying one entry keeps the grid well formed and its region unchanged.
pub proof fn lemma_apply_move_wf(g: GridView, frame: u64, e: Option<PlannedMove>)
    requires
        g.wf(),
        e matches Some(m) ==> g.in_range(as_pos(m.source)),
    ensures
        apply_move(g, frame, e).wf(),
        same_region(apply_move(g, frame, e), g),
{
    if let Some(m) = e {
        let p = as_pos(m.source);
        if g.cell_at(p) == Cell::Live(m.cell) {
            let moved = moved_cell(m, frame);
            crate::grid::lemma_set_at_wf(g, p, moved);
            crate::grid::lemma_set_at_wf(g, p, Cell::Empty);
            let o = match m.instructions.move_instruction {
                Some(LiveCellMoveInstruction::Replace(o)) => o,
                Some(LiveCellMoveInstruction::Switch(o)) => o,
                None => [0i32, 0i32],
            };
            if let Some(q) = move_target(g, p, o) {
                let xy = g.absolute(p);
                lemma_locate_in_range(g, xy.0 + o[0], xy.1 + o[1]);
                crate::grid::lemma_set_at_wf(g.set_at(p, Cell::Empty), q, moved);
                crate::grid::lemma_set_at_wf(g, p, g.cell_at(q));
                crate::grid::lemma_set_at_wf(g.set_at(p, g.cell_at(q)), q, moved);
            }
        }
    }
}

/// The tile of a live cell whose three tiles below (straight and both
/// diagonals) are all taken or unallocated when the frame begins.
pub open spec fn boxed_in(g: GridView, s: (int, int, int, int)) -> bool {
    let xy = g.absolute(s);
    &&& g.neighbor_cell(xy.0, xy.1 + 1) != Cell::Empty
    &&& g.neighbor_cell(xy.0 - 1, xy.1 + 1) != Cell::Empty
    &&& g.neighbor_cell(xy.0 + 1, xy.1 + 1) != Cell::Empty
}

proof fn lemma_prefix_keeps_boxed_in(
    g: GridView,
    frame: u64,
    draws: Seq<bool>,
    s: (int, int, int, int),
    l: LiveCell,
    ks: int,
    k: nat,
)
    requires
        g.wf(),
        g.in_range(s),
        g.cell_at(s) == Cell::Live(l),
        boxed_in(g, s),
        0 <= ks < g.tile_count(),
        sweep_pos(g, frame as int, ks) == s,
        k <= g.tile_count(),
    ensures
        apply_prefix(g, frame, plan(g, frame, draws), k).wf(),
        same_region(apply_prefix(g, frame, plan(g, frame, draws), k), g),
        apply_prefix(g, frame, plan(g, frame, draws), k).cell_at(s) == (if k > ks {
            Cell::Live(LiveCell { state: l.state, last_frame_updated: frame })
        } else {
            Cell::Live(l)
        }),
    decreases k,
{
    if k > 0 {
        let moves = plan(g, frame, draws);
        let j = k - 1;
        lemma_prefix_keeps_boxed_in(g, frame, draws, s, l, ks, (k - 1) as nat);
        let a = apply_prefix(g, frame, moves, (k - 1) as nat);
        crate::sweep::lemma_plan_in_range(g, frame, draws);
        assert(match moves[j] {
            Some(m) => g.in_range(as_pos(m.source)),
            None => true,
        });
        lemma_apply_move_wf(a, frame, moves[j]);
        if j == ks {
            assert(moves[j] == crate::sweep::plan_entry(g, frame, draws, j));
            if l.last_frame_updated == frame {
                assert(moves[j].is_none());
            } else {
                let m = moves[j].unwrap();
                assert(m.cell == l);
                let xy = g.absolute(s);
                assert(m.instructions.move_instruction == sand_move(g, xy.0, xy.1, crate::sweep::draw_at(draws, j)));
                assert(m.instructions.move_instruction.is_none());
                assert(as_pos(m.source) == s);
                assert(a.chunks[s.0][s.1].is_square(a.chunk_size));
            }
        }
        if let Some(m) = moves[j] {
            let p = as_pos(m.source);
            crate::sweep::lemma_sweep_in_range(g, frame as int, j);
            crate::grid::lemma_wf_bounds(g);
            assert(p == sweep_pos(g, frame as int, j));
            if p == s {
                lemma_sweep_injective(g, frame as int, j, ks);
            } else if a.cell_at(p) == Cell::Live(m.cell) {
                let moved = moved_cell(m, frame);
                lemma_set_at_other(a, p, moved, s);
                lemma_set_at_other(a, p, Cell::Empty, s);
                match m.instructions.move_instruction {
                    Some(LiveCellMoveInstruction::Replace(o)) => {
                        if let Some(q) = move_target(a, p, o) {
                            let xy = a.absolute(p);
                            lemma_locate_in_range(a, xy.0 + o[0], xy.1 + o[1]);
                            if a.cell_at(q) == Cell::Empty {
                                crate::grid::lemma_set_at_wf(a, p, Cell::Empty);
                                lemma_set_at_other(a.set_at(p, Cell::Empty), q, moved, s);
                            }
                        }
                    },
                    _ => {},
                }
            }
        }
    }
}

/// Boundary containment over a whole frame: a live cell boxed in below
/// (by taken tiles or by the edge of the allocated region) stays on its
/// tile and comes out stamped with the frame.
pub proof fn lemma_boxed_in_cell_stays(
    g: GridView,
    frame: u64,
    draws: Seq<bool>,
    s: (int, int, int, int),
    l: LiveCell,
)
    requires
        g.wf(),
        g.in_range(s),
        g.cell_at(s) == Cell::Live(l),
        boxed_in(g, s),
    ensures
        step(g, frame, draws).wf(),
        step(g, frame, draws).cell_at(s) == Cell::Live(LiveCell { state: l.state, last_frame_updated: frame }),
{
    let ks = lemma_sweep_onto(g, frame as int, s);
    lemma_prefix_keeps_boxed_in(g, frame, draws, s, l, ks, g.tile_count() as nat);
}

pub open spec fn live_indicator(c: Cell) -> int {
    if c is Live {
        1
    } else {
        0
    }
}

/// The number of live cells among the first `k` tiles in sweep order.
pub open spec fn live_count_upto(g: GridView, k: int) -> int
    decreases k,
{
    if k <= 0 {
        0
    } else {
        live_count_upto(g, k - 1) + live_indicator(g.cell_at(sweep_pos(g, 0, k - 1)))
    }
}

/// The number of live cells in the grid.
pub open spec fn live_count(g: GridView) -> int {
    live_count_upto(g, g.tile_count())
}

proof fn lemma_set_at_same(g: GridView, p: (int, int, int, int), cell: Cell)
    requires
        g.wf(),
        g.in_range(p),
    ensures
        g.set_at(p, cell).cell_at(p) == cell,
{
    assert(g.chunks[p.0][p.1].is_square(g.chunk_size));
}

proof fn lemma_count_set_at_upto(g: GridView, p: (int, int, int, int), cell: Cell, kp: int, k: int)
    requires
        g.wf(),
        g.in_range(p),
        0 <= kp < g.tile_count(),
        sweep_pos(g, 0, kp) == p,
        0 <= k <= g.tile_count(),
    ensures
        live_count_upto(g.set_at(p, cell), k) == live_count_upto(g, k) + (if kp < k {
            live_indicator(cell) - live_indicator(g.cell_at(p))
        } else {
            0
        }),
    decreases k,
{
    if k > 0 {
        lemma_count_set_at_upto(g, p, cell, kp, k - 1);
        let i = k - 1;
        let g2 = g.set_at(p, cell);
        assert(sweep_pos(g2, 0, i) == sweep_pos(g, 0, i));
        crate::sweep::lemma_sweep_in_range(g, 0, i);
        if i == kp {
            lemma_set_at_same(g, p, cell);
        } else {
            if sweep_pos(g, 0, i) == p {
                lemma_sweep_injective(g, 0, i, kp);
            }
            lemma_set_at_other(g, p, cell, sweep_pos(g, 0, i));
        }
    }
}

/// Writing `cell` over the cell at `p` changes the live count by the
/// difference of their live indicators.
pub proof fn lemma_count_set_at(g: GridView, p: (int, int, int, int), cell: Cell)
    requires
        g.wf(),
        g.in_range(p),
    ensures
        live_count(g.set_at(p, cell)) == live_count(g) + live_indicator(cell) - live_indicator(g.cell_at(p)),
{
    let kp = lemma_sweep_onto(g, 0, p);
    lemma_count_set_at_upto(g, p, cell, kp, g.tile_count());
}

/// Applying one entry keeps the number of live cells.
pub proof fn lemma_apply_move_keeps_count(g: GridView, frame: u64, e: Option<PlannedMove>)
    requires
        g.wf(),
        e matches Some(m) ==> g.in_range(as_pos(m.source)),
    ensures
        live_count(apply_move(g, frame, e)) == live_count(g),
{
    if let Some(m) = e {
        let p = as_pos(m.source);
        if g.cell_at(p) == Cell::Live(m.cell) {
            let moved = moved_cell(m, frame);
            lemma_count_set_at(g, p, moved);
            let o = match m.instructions.move_instruction {
                Some(LiveCellMoveInstruction::Replace(o)) => o,
                Some(LiveCellMoveInstruction::Switch(o)) => o,
                None => [0i32, 0i32],
            };
            if let Some(q) = move_target(g, p, o) {
                let xy = g.absolute(p);
                lemma_locate_in_range(g, xy.0 + o[0], xy.1 + o[1]);
                match m.instructions.move_instruction {
                    Some(LiveCellMoveInstruction::Replace(_)) => {
                        if g.cell_at(q) == Cell::Empty {
                            let g1 = g.set_at(p, Cell::Empty);
                            lemma_count_set_at(g, p, Cell::Empty);
                            crate::grid::lemma_set_at_wf(g, p, Cell::Empty);
                            lemma_set_at_other(g, p, Cell::Empty, q);
                            lemma_count_set_at(g1, q, moved);
                        }
                    },
                    Some(LiveCellMoveInstruction::Switch(_)) => {
                        let other = g.cell_at(q);
                        let g1 = g.set_at(p, other);
                        lemma_count_set_at(g, p, other);
                        crate::grid::lemma_set_at_wf(g, p, other);
                        if q == p {
                            lemma_set_at_same(g, p, other);
                        } else {
                            lemma_set_at_other(g, p, other, q);
                        }
                        lemma_count_set_at(g1, q, moved);
                    },
                    None => {},
                }
            }
        }
    }
}

proof fn lemma_prefix_keeps_count(g: GridView, frame: u64, draws: Seq<bool>, k: nat)
    requires
        g.wf(),
        k <= g.tile_count(),
    ensures
        apply_prefix(g, frame, plan(g, frame, draws), k).wf(),
        same_region(apply_prefix(g, frame, plan(g, frame, draws), k), g),
        live_count(apply_prefix(g, frame, plan(g, frame, draws), k)) == live_count(g),
    decreases k,
{
    if k > 0 {
        let moves = plan(g, frame, draws);
        let j = k - 1;
        lemma_prefix_keeps_count(g, frame, draws, (k - 1) as nat);
        let a = apply_prefix(g, frame, moves, (k - 1) as nat);
        crate::sweep::lemma_plan_in_range(g, frame, draws);
        assert(match moves[j] {
            Some(m) => g.in_range(as_pos(m.source)),
            None => true,
        });
        lemma_apply_move_wf(a, frame, moves[j]);
        lemma_apply_move_keeps_count(a, frame, moves[j]);
    }
}

/// No live cell vanishes or appears in a frame: the live count before and
/// after a frame is the same, whatever the draws, and the allocated region
/// is unchanged.
pub proof fn lemma_step_keeps_live_count(g: GridView, frame: u64, draws: Seq<bool>)
    requires
        g.wf(),
    ensures
        step(g, frame, draws).wf(),
        same_region(step(g, frame, draws), g),
        live_count(step(g, frame, draws)) == live_count(g),
{
    lemma_prefix_keeps_count(g, frame, draws, g.tile_count() as nat);
}

} // verus!
