use vstd::prelude::*;
use crate::cell::{Cell, LiveCell, LiveCellInstructions, LiveCellMoveInstruction};
use crate::grid::{lemma_div_under, lemma_wf_bounds, CellGrid, GridView};
use crate::neighbor::LiveCellApi;
use crate::sand::rule_spec;

verus! {

/// One evaluated live cell: where it stood (chunk index, local index), what
/// it was, and what its rule asked for.
#[derive(Clone, Copy, Debug)]
pub struct PlannedMove {
    pub source: (usize, usize, usize, usize),
    pub cell: LiveCell,
    pub instructions: LiveCellInstructions,
}

/// The tile visited at step `k` of a frame's sweep: chunk rows from the top,
/// chunks of a row left to right on even frames and right to left on odd
/// ones, then the chunk's rows from the top, cells of a row in the same
/// direction as the chunks.
pub open spec fn sweep_pos(g: GridView, frame: int, k: int) -> (int, int, int, int) {
    let n = g.chunk_size;
    let per_chunk = n * n;
    let per_row = g.width * per_chunk;
    let chunk_row = k / per_row;
    let in_row = k % per_row;
    let chunk_step = in_row / per_chunk;
    let in_chunk = in_row % per_chunk;
    let local_row = in_chunk / n;
    let cell_step = in_chunk % n;
    if frame % 2 == 0 {
        (chunk_step, chunk_row, cell_step, local_row)
    } else {
        (g.width - 1 - chunk_step, chunk_row, n - 1 - cell_step, local_row)
    }
}

pub open spec fn as_index(p: (int, int, int, int)) -> (usize, usize, usize, usize) {
    (p.0 as usize, p.1 as usize, p.2 as usize, p.3 as usize)
}

pub open spec fn as_pos(p: (usize, usize, usize, usize)) -> (int, int, int, int) {
    (p.0 as int, p.1 as int, p.2 as int, p.3 as int)
}

/// The draw for sweep step `k`: `true` (left) where `draws` has a `true`
/// there, `false` (right) past its end.
pub open spec fn draw_at(draws: Seq<bool>, k: int) -> bool {
    k < draws.len() && draws[k]
}

/// Step `k` of the evaluation phase: the rule of the tile visited there is
/// run against the grid as it stood when the frame began, if that tile holds
/// a live cell not yet stamped with this frame.
pub open spec fn plan_entry(g: GridView, frame: u64, draws: Seq<bool>, k: int) -> Option<PlannedMove> {
    let p = sweep_pos(g, frame as int, k);
    match g.cell_at(p) {
        Cell::Live(l) => if l.last_frame_updated != frame {
            let xy = g.absolute(p);
            Some(
                PlannedMove {
                    source: as_index(p),
                    cell: l,
                    instructions: rule_spec(l.state, g, xy.0, xy.1, draw_at(draws, k)),
                },
            )
        } else {
            None
        },
        _ => None,
    }
}

/// The evaluation phase: one entry per sweep step.
pub open spec fn plan(g: GridView, frame: u64, draws: Seq<bool>) -> Seq<Option<PlannedMove>> {
    Seq::new(g.tile_count() as nat, |k: int| plan_entry(g, frame, draws, k))
}

/// Where a move with `offset` from tile `p` lands; `None` for a zero
/// offset, which is refused, and where no chunk is allocated.
pub open spec fn move_target(g: GridView, p: (int, int, int, int), offset: [i32; 2]) -> Option<(int, int, int, int)> {
    if offset[0] == 0 && offset[1] == 0 {
        None
    } else {
        let xy = g.absolute(p);
        g.locate(xy.0 + offset[0], xy.1 + offset[1])
    }
}

/// The moved cell: recolored if asked, and stamped with the frame.
pub open spec fn moved_cell(m: PlannedMove, frame: u64) -> Cell {
    Cell::Live(
        LiveCell {
            state: match m.instructions.new_color_instruction {
                Some(c) => m.cell.state.recolored_spec(c),
                None => m.cell.state,
            },
            last_frame_updated: frame,
        },
    )
}

/// The apply phase for one entry. Nothing happens unless the source still
/// holds the evaluated cell. `Replace` moves into an empty target and leaves
/// the source empty; `Switch` exchanges source and target. Where the target
/// is refused, missing or (for `Replace`) taken, or no move was asked for,
/// the cell stays. The cell is stamped with the frame in every case.
pub open spec fn apply_move(g: GridView, frame: u64, e: Option<PlannedMove>) -> GridView {
    match e {
        None => g,
        Some(m) => {
            let p = as_pos(m.source);
            if g.cell_at(p) != Cell::Live(m.cell) {
                g
            } else {
                let moved = moved_cell(m, frame);
                match m.instructions.move_instruction {
                    Some(LiveCellMoveInstruction::Replace(o)) => match move_target(g, p, o) {
                        Some(q) => if g.cell_at(q) == Cell::Empty {
                            g.set_at(p, Cell::Empty).set_at(q, moved)
                        } else {
                            g.set_at(p, moved)
                        },
                        None => g.set_at(p, moved),
                    },
                    Some(LiveCellMoveInstruction::Switch(o)) => match move_target(g, p, o) {
                        Some(q) => g.set_at(p, g.cell_at(q)).set_at(q, moved),
                        None => g.set_at(p, moved),
                    },
                    None => g.set_at(p, moved),
                }
            }
        },
    }
}

/// The grid after applying the first `k` entries of `moves` in order.
pub open spec fn apply_prefix(g: GridView, frame: u64, moves: Seq<Option<PlannedMove>>, k: nat) -> GridView
    decreases k,
{
    if k == 0 {
        g
    } else {
        apply_move(apply_prefix(g, frame, moves, (k - 1) as nat), frame, moves[k - 1])
    }
}

/// One frame: evaluate every due live cell against the grid as the frame
/// found it, then apply the entries in sweep order.
pub open spec fn step(g: GridView, frame: u64, draws: Seq<bool>) -> GridView {
    apply_prefix(g, frame, plan(g, frame, draws), g.tile_count() as nat)
}

/// The same region: chunk size, origin and extent.
pub open spec fn same_region(a: GridView, b: GridView) -> bool {
    &&& a.chunk_size == b.chunk_size
    &&& a.origin_x == b.origin_x
    &&& a.origin_y == b.origin_y
    &&& a.width == b.width
    &&& a.height == b.height
}

/// Every sweep step of a frame visits a tile of the region.
pub proof fn lemma_sweep_in_range(g: GridView, frame: int, k: int)
    requires
        g.wf(),
        0 <= k < g.tile_count(),
    ensures
        g.in_range(sweep_pos(g, frame, k)),
{
    lemma_wf_bounds(g);
    let n = g.chunk_size;
    let w = g.width;
    let h = g.height;
    let per_chunk = n * n;
    let per_row = w * per_chunk;
    assert(g.tile_count() == h * per_row && per_chunk >= 1 && per_row >= 1) by (nonlinear_arith)
        requires g.tile_count() == (w * n) * (h * n), per_chunk == n * n, per_row == w * per_chunk, n >= 1, w >= 1;
    lemma_div_under(k, h, per_row);
    lemma_div_under(k % per_row, w, per_chunk);
    lemma_div_under((k % per_row) % per_chunk, n, n);
}

/// Absolute coordinates of a tile of the region fit in `i32`.
pub proof fn lemma_absolute_bounds(g: GridView, p: (int, int, int, int))
    requires
        g.wf(),
        g.in_range(p),
    ensures
        i32::MIN <= (g.origin_x + p.0) * g.chunk_size <= g.absolute(p).0 <= i32::MAX,
        i32::MIN <= (g.origin_y + p.1) * g.chunk_size <= g.absolute(p).1 <= i32::MAX,
{
    lemma_wf_bounds(g);
    let n = g.chunk_size;
    assert(g.origin_x * n <= (g.origin_x + p.0) * n && (g.origin_x + p.0) * n + n <= (g.origin_x + g.width) * n) by (nonlinear_arith)
        requires 0 <= p.0 < g.width, n >= 1;
    assert(g.origin_y * n <= (g.origin_y + p.1) * n && (g.origin_y + p.1) * n + n <= (g.origin_y + g.height) * n) by (nonlinear_arith)
        requires 0 <= p.1 < g.height, n >= 1;
}

impl CellGrid {
    /// The evaluation phase of a frame: runs the rule of every live cell not
    /// yet stamped with `current_frame`, in sweep order, against the grid as
    /// it stands, and records what each asked for. Step `k` of the sweep
    /// takes its left/right draw from `directions[k]`.
    pub fn plan(&self, current_frame: u64, directions: &Vec<bool>) -> (r: Vec<Option<PlannedMove>>)
        requires
            self.inv(),
        ensures
            r@ == plan(self@, current_frame, directions@),
    {
        let ghost g = self@;
        proof {
            lemma_wf_bounds(g);
            assert(1 <= g.chunk_size * g.chunk_size <= g.width * (g.chunk_size * g.chunk_size) <= g.tile_count()) by (nonlinear_arith)
                requires g.tile_count() == (g.width * g.chunk_size) * (g.height * g.chunk_size), g.chunk_size >= 1, g.width >= 1, g.height >= 1;
        }
        let total = self.tile_count();
        let n = self.chunk_size();
        let w = self.width();
        let origin = self.origin();
        let per_chunk = n * n;
        let per_row = w * per_chunk;
        let even = current_frame % 2 == 0;
        let mut out: Vec<Option<PlannedMove>> = Vec::new();
        let mut k: usize = 0;
        while k < total
            invariant
                self.inv(),
                g == self@,
                total == g.tile_count(),
                n == g.chunk_size,
                w == g.width,
                origin[0] == g.origin_x,
                origin[1] == g.origin_y,
                per_chunk == n * n,
                per_row == w * per_chunk,
                per_chunk >= 1,
                per_row >= 1,
                even == (current_frame % 2 == 0),
                k <= total,
                out@.len() == k,
                forall|j: int| 0 <= j < k ==> #[trigger] out@[j] == plan_entry(g, current_frame, directions@, j),
            decreases total - k,
        {
            let chunk_row = k / per_row;
            let in_row = k % per_row;
            let chunk_step = in_row / per_chunk;
            let in_chunk = in_row % per_chunk;
            let local_row = in_chunk / n;
            let cell_step = in_chunk % n;
            proof {
                lemma_sweep_in_range(g, current_frame as int, k as int);
            }
            let p: (usize, usize, usize, usize) = if even {
                (chunk_step, chunk_row, cell_step, local_row)
            } else {
                (w - 1 - chunk_step, chunk_row, n - 1 - cell_step, local_row)
            };
            assert(as_pos(p) == sweep_pos(g, current_frame as int, k as int));
            let entry = match self.cell_at(p) {
                Cell::Live(l) => {
                    if l.last_frame_updated != current_frame {
                        proof {
                            lemma_absolute_bounds(g, as_pos(p));
                        }
                        let x = ((origin[0] as i64 + p.0 as i64) * n as i64 + p.2 as i64) as i32;
                        let y = ((origin[1] as i64 + p.1 as i64) * n as i64 + p.3 as i64) as i32;
                        let api = LiveCellApi { grid: self, tile_position: [x, y] };
                        let go_left = k < directions.len() && directions[k];
                        let instructions = l.state.update(&api, go_left);
                        Some(PlannedMove { source: p, cell: l, instructions })
                    } else {
                        None
                    }
                },
                _ => None,
            };
            out.push(entry);
            k = k + 1;
        }
        proof {
            assert(out@ =~= plan(g, current_frame, directions@));
        }
        out
    }
}

/// Every entry of a plan names a tile of the region.
pub proof fn lemma_plan_in_range(g: GridView, frame: u64, draws: Seq<bool>)
    requires
        g.wf(),
    ensures
        forall|j: int|
            0 <= j < plan(g, frame, draws).len() ==> match #[trigger] plan(g, frame, draws)[j] {
                Some(m) => g.in_range(as_pos(m.source)),
                None => true,
            },
{
    assert forall|j: int| 0 <= j < plan(g, frame, draws).len() implies match #[trigger] plan(g, frame, draws)[j] {
        Some(m) => g.in_range(as_pos(m.source)),
        None => true,
    } by {
        lemma_sweep_in_range(g, frame as int, j);
        lemma_wf_bounds(g);
    }
}

/// Relies on `rand::random::<bool>`: a draw from the thread-local generator;
/// nothing is known of its value.
#[verifier::external_body]
fn random_draw() -> (r: bool) {
    rand::random::<bool>()
}

impl CellGrid {
    fn move_target(&self, p: (usize, usize, usize, usize), offset: [i32; 2]) -> (r: Option<(usize, usize, usize, usize)>)
        requires
            self.inv(),
            self@.in_range(as_pos(p)),
        ensures
            match r {
                Some(q) => move_target(self@, as_pos(p), offset) == Some(as_pos(q)) && self@.in_range(as_pos(q)),
                None => move_target(self@, as_pos(p), offset).is_none(),
            },
    {
        if offset[0] == 0 && offset[1] == 0 {
            return None;
        }
        proof {
            lemma_absolute_bounds(self@, as_pos(p));
        }
        let n = self.chunk_size() as i64;
        let origin = self.origin();
        let x = (origin[0] as i64 + p.0 as i64) * n + p.2 as i64;
        let y = (origin[1] as i64 + p.1 as i64) * n + p.3 as i64;
        self.locate(x + offset[0] as i64, y + offset[1] as i64)
    }

    fn apply_move(&mut self, current_frame: u64, e: Option<PlannedMove>)
        requires
            old(self).inv(),
            e matches Some(m) ==> old(self)@.in_range(as_pos(m.source)),
        ensures
            final(self).inv(),
            final(self)@ == apply_move(old(self)@, current_frame, e),
            same_region(final(self)@, old(self)@),
    {
        let m = match e {
            None => return,
            Some(m) => m,
        };
        let p = m.source;
        if self.cell_at(p) != Cell::Live(m.cell) {
            return;
        }
        let state = match m.instructions.new_color_instruction {
            Some(c) => m.cell.state.recolored(c),
            None => m.cell.state,
        };
        let moved = Cell::Live(LiveCell { state, last_frame_updated: current_frame });
        match m.instructions.move_instruction {
            Some(LiveCellMoveInstruction::Replace(o)) => match self.move_target(p, o) {
                Some(q) => {
                    if self.cell_at(q).is_empty() {
                        self.set_at(p, Cell::Empty);
                        self.set_at(q, moved);
                    } else {
                        self.set_at(p, moved);
                    }
                },
                None => self.set_at(p, moved),
            },
            Some(LiveCellMoveInstruction::Switch(o)) => match self.move_target(p, o) {
                Some(q) => {
                    let other = self.cell_at(q);
                    self.set_at(p, other);
                    self.set_at(q, moved);
                },
                None => self.set_at(p, moved),
            },
            None => self.set_at(p, moved),
        }
    }

    /// The apply phase for one planned move; does nothing where its source
    /// lies outside the region.
    pub fn apply_planned_move(&mut self, current_frame: u64, planned: PlannedMove)
        requires
            old(self).inv(),
        ensures
            final(self).inv(),
            old(self)@.in_range(as_pos(planned.source)) ==> final(self)@ == apply_move(
                old(self)@,
                current_frame,
                Some(planned),
            ),
            !old(self)@.in_range(as_pos(planned.source)) ==> final(self)@ == old(self)@,
    {
        let p = planned.source;
        let n = self.chunk_size();
        if p.0 < self.width() && p.1 < self.height() && p.2 < n && p.3 < n {
            self.apply_move(current_frame, Some(planned));
        }
    }

    /// Steps the simulation by one frame with the left/right draws given:
    /// step `k` of the sweep takes `directions[k]` (`true` is left), and
    /// `false` past the end.
    pub fn update_with_directions(&mut self, current_frame: u64, directions: &Vec<bool>)
        requires
            old(self).inv(),
        ensures
            final(self).inv(),
            final(self)@ == step(old(self)@, current_frame, directions@),
    {
        let ghost g0 = self@;
        let moves = self.plan(current_frame, directions);
        proof {
            lemma_plan_in_range(g0, current_frame, directions@);
        }
        let mut k: usize = 0;
        while k < moves.len()
            invariant
                self.inv(),
                g0.wf(),
                moves@ == plan(g0, current_frame, directions@),
                moves@.len() == g0.tile_count(),
                same_region(self@, g0),
                0 <= k <= moves@.len(),
                self@ == apply_prefix(g0, current_frame, moves@, k as nat),
                forall|j: int|
                    0 <= j < plan(g0, current_frame, directions@).len() ==> match #[trigger] plan(g0, current_frame, directions@)[j] {
                        Some(m) => g0.in_range(as_pos(m.source)),
                        None => true,
                    },
            decreases moves@.len() - k,
        {
            proof {
                assert(match plan(g0, current_frame, directions@)[k as int] {
                    Some(m) => g0.in_range(as_pos(m.source)),
                    None => true,
                });
            }
            self.apply_move(current_frame, moves[k]);
            k = k + 1;
        }
    }

    /// Steps the simulation by one frame, drawing each left/right choice at
    /// random.
    pub fn update(&mut self, current_frame: u64)
        requires
            old(self).inv(),
        ensures
            final(self).inv(),
            exists|d: Seq<bool>| d.len() == old(self)@.tile_count() && final(self)@ == step(old(self)@, current_frame, d),
    {
        let total = self.tile_count();
        let mut draws: Vec<bool> = Vec::new();
        let mut k: usize = 0;
        while k < total
            invariant
                k <= total,
                draws@.len() == k,
            decreases total - k,
        {
            draws.push(random_draw());
            k = k + 1;
        }
        self.update_with_directions(current_frame, &draws);
    }
}

} // verus!
