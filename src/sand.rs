use vstd::prelude::*;
use crate::cell::{
    default_sand_color, Cell, Color, LiveCellInstructions, LiveCellMoveInstruction, LiveCellState,
    SandCellState,
};
use crate::grid::GridView;
use crate::neighbor::LiveCellApi;

verus! {

/// The horizontal direction of a diagonal step: left when `go_left`.
pub open spec fn direction(go_left: bool) -> int {
    if go_left {
        -1
    } else {
        1
    }
}

/// The granular-fall rule at absolute tile `(x, y)`: straight down into an
/// empty tile; else diagonally down on the side that `go_left` picks, if that
/// tile is empty; else stay.
pub open spec fn sand_move(g: GridView, x: int, y: int, go_left: bool) -> Option<LiveCellMoveInstruction> {
    if g.neighbor_cell(x, y + 1) == Cell::Empty {
        Some(LiveCellMoveInstruction::Replace([0i32, 1i32]))
    } else if g.neighbor_cell(x + direction(go_left), y + 1) == Cell::Empty {
        Some(LiveCellMoveInstruction::Replace([direction(go_left) as i32, 1i32]))
    } else {
        None
    }
}

/// What the rule `state` returns for the cell at absolute tile `(x, y)`.
pub open spec fn rule_spec(state: LiveCellState, g: GridView, x: int, y: int, go_left: bool) -> LiveCellInstructions {
    match state {
        LiveCellState::SandState(_) => LiveCellInstructions {
            move_instruction: sand_move(g, x, y, go_left),
            new_color_instruction: None,
        },
    }
}

impl SandCellState {
    /// A grain of the default color.
    pub fn new() -> (s: SandCellState)
        ensures
            s.color == default_sand_color(),
    {
        SandCellState { color: Color { r: 0, g: 0, b: 0, a: 255 } }
    }

    /// Falls straight down if it can, else diagonally down towards the side
    /// that `go_left` picks (the caller draws it at random); never recolors.
    pub fn update(&self, api: &LiveCellApi, go_left: bool) -> (r: LiveCellInstructions)
        requires
            api.grid.inv(),
        ensures
            r.move_instruction == sand_move(
                api.grid@,
                api.tile_position[0] as int,
                api.tile_position[1] as int,
                go_left,
            ),
            r.new_color_instruction.is_none(),
    {
        let mut m: Option<LiveCellMoveInstruction> = None;
        if api.is_empty([0, 1]) {
            m = Some(LiveCellMoveInstruction::Replace([0, 1]));
        } else {
            let d: i32 = if go_left { -1 } else { 1 };
            if api.is_empty([d, 1]) {
                m = Some(LiveCellMoveInstruction::Replace([d, 1]));
            }
        }
        LiveCellInstructions::new().with_move_instruction(m)
    }
}

impl LiveCellState {
    /// Evaluates the rule against its neighborhood; `go_left` is the random
    /// draw a rule may use to break a left/right tie.
    pub fn update(&self, api: &LiveCellApi, go_left: bool) -> (r: LiveCellInstructions)
        requires
            api.grid.inv(),
        ensures
            r == rule_spec(*self, api.grid@, api.tile_position[0] as int, api.tile_position[1] as int, go_left),
    {
        match self {
            LiveCellState::SandState(s) => s.update(api, go_left),
        }
    }
}

} // verus!
