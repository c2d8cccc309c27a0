use vstd::prelude::*;
use crate::cell::{Cell, Color, StaticCell};
use crate::grid::CellGrid;

verus! {

/// A read-only window on the grid for the rule of one live cell: it
/// addresses tiles by their offset from that cell, across chunk boundaries.
pub struct LiveCellApi<'a> {
    pub grid: &'a CellGrid,
    pub tile_position: [i32; 2],
}

impl<'a> LiveCellApi<'a> {
    /// What the rule reads at `tile_offset`: the cell there, or a barrier
    /// where no chunk is allocated.
    pub open spec fn cell_spec(self, tile_offset: [i32; 2]) -> Cell {
        self.grid@.neighbor_cell(
            self.tile_position[0] + tile_offset[0],
            self.tile_position[1] + tile_offset[1],
        )
    }

    pub fn get_cell(&self, tile_offset: [i32; 2]) -> (c: Cell)
        requires
            self.grid.inv(),
        ensures
            c == self.cell_spec(tile_offset),
    {
        let x = self.tile_position[0] as i64 + tile_offset[0] as i64;
        let y = self.tile_position[1] as i64 + tile_offset[1] as i64;
        match self.grid.locate(x, y) {
            Some(p) => self.grid.cell_at(p),
            None => Cell::Static(StaticCell::new(Color::new(0, 0, 0, 0))),
        }
    }

    pub fn is_empty(&self, tile_offset: [i32; 2]) -> (r: bool)
        requires
            self.grid.inv(),
        ensures
            r == (self.cell_spec(tile_offset) == Cell::Empty),
    {
        self.get_cell(tile_offset).is_empty()
    }
}

} // verus!
