use vstd::prelude::*;

verus! {

/// An RGBA color, one byte per channel.
#[derive(Clone, Copy, PartialEq, Eq, Structural, Debug)]
pub struct Color {
    pub r: u8,
    pub g: u8,
    pub b: u8,
    pub a: u8,
}

impl Color {
    pub fn new(r: u8, g: u8, b: u8, a: u8) -> (c: Color)
        ensures
            c == (Color { r, g, b, a }),
    {
        Color { r, g, b, a }
    }
}

/// Fully transparent black: the color of an empty tile and of the barrier
/// that stands beyond the allocated region.
pub open spec fn transparent() -> Color {
    Color { r: 0, g: 0, b: 0, a: 0 }
}

/// An inert, colored cell.
#[derive(Clone, Copy, PartialEq, Eq, Structural, Debug)]
pub struct StaticCell {
    pub color: Color,
}

impl StaticCell {
    pub fn new(color: Color) -> (s: StaticCell)
        ensures
            s.color == color,
    {
        StaticCell { color }
    }
}

/// State of the granular-fall rule.
#[derive(Clone, Copy, PartialEq, Eq, Structural, Debug)]
pub struct SandCellState {
    pub color: Color,
}

/// The color a freshly made grain of sand has: opaque black.
pub open spec fn default_sand_color() -> Color {
    Color { r: 0, g: 0, b: 0, a: 255 }
}

/// The rule that governs a live cell. Each variant is one rule.
#[derive(Clone, Copy, PartialEq, Eq, Structural, Debug)]
pub enum LiveCellState {
    SandState(SandCellState),
}

impl LiveCellState {
    /// The same rule with its color replaced.
    pub open spec fn recolored_spec(self, color: Color) -> LiveCellState {
        match self {
            LiveCellState::SandState(_) => LiveCellState::SandState(SandCellState { color }),
        }
    }

    pub fn recolored(&self, color: Color) -> (r: LiveCellState)
        ensures
            r == self.recolored_spec(color),
    {
        match self {
            LiveCellState::SandState(_) => LiveCellState::SandState(SandCellState { color }),
        }
    }
}

/// A cell governed by a rule, stamped with the frame it last took part in.
#[derive(Clone, Copy, PartialEq, Eq, Structural, Debug)]
pub struct LiveCell {
    pub state: LiveCellState,
    pub last_frame_updated: u64,
}

/// The state of one tile.
#[derive(Clone, Copy, PartialEq, Eq, Structural, Debug)]
pub enum Cell {
    Empty,
    Static(StaticCell),
    Live(LiveCell),
}

/// The color every live cell is painted with: opaque black.
pub open spec fn live_color() -> Color {
    Color { r: 0, g: 0, b: 0, a: 255 }
}

/// What a barrier beyond the allocated region reads as: opaque to every rule.
pub open spec fn barrier() -> Cell {
    Cell::Static(StaticCell { color: transparent() })
}

impl Cell {
    pub open spec fn color_spec(self) -> Color {
        match self {
            Cell::Empty => transparent(),
            Cell::Static(s) => s.color,
            Cell::Live(_) => live_color(),
        }
    }

    /// The color a renderer paints this cell with: every live cell is
    /// painted opaque black, whatever its rule's own color.
    pub fn get_color(&self) -> (c: Color)
        ensures
            c == self.color_spec(),
    {
        match self {
            Cell::Empty => Color { r: 0, g: 0, b: 0, a: 0 },
            Cell::Static(s) => s.color,
            Cell::Live(_) => Color { r: 0, g: 0, b: 0, a: 255 },
        }
    }

    pub fn is_empty(&self) -> (r: bool)
        ensures
            r == (*self == Cell::Empty),
    {
        match self {
            Cell::Empty => true,
            _ => false,
        }
    }
}

/// Where a live cell asks to go, relative to its own tile.
#[derive(Clone, Copy, PartialEq, Eq, Debug)]
pub enum LiveCellMoveInstruction {
    /// Move into the target tile, leaving the source empty.
    Replace([i32; 2]),
    /// Exchange contents with the target tile.
    Switch([i32; 2]),
}

/// What a rule returns for one evaluation: an optional move and an optional
/// new color.
#[derive(Clone, Copy, PartialEq, Eq, Debug)]
pub struct LiveCellInstructions {
    pub move_instruction: Option<LiveCellMoveInstruction>,
    pub new_color_instruction: Option<Color>,
}

impl LiveCellInstructions {
    /// No move and no recolor.
    pub fn new() -> (r: LiveCellInstructions)
        ensures
            r.move_instruction.is_none(),
            r.new_color_instruction.is_none(),
    {
        LiveCellInstructions { move_instruction: None, new_color_instruction: None }
    }

    pub fn with_move_instruction(self, move_instruction: Option<LiveCellMoveInstruction>) -> (r:
        LiveCellInstructions)
        ensures
            r.move_instruction == move_instruction,
            r.new_color_instruction == self.new_color_instruction,
    {
        LiveCellInstructions { move_instruction, ..self }
    }

    pub fn with_new_color_instruction(self, new_color_instruction: Option<Color>) -> (r:
        LiveCellInstructions)
        ensures
            r.move_instruction == self.move_instruction,
            r.new_color_instruction == new_color_instruction,
    {
        LiveCellInstructions { new_color_instruction, ..self }
    }
}

} // verus!
