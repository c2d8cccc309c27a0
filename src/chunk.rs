use vstd::prelude::*;
use crate::cell::Cell;

verus! {

/// A square block of cells, `cells[x][y]`, with a flag that tells a renderer
/// that something in it changed.
pub struct CellChunk {
    cells: Vec<Vec<Cell>>,
    dirty: bool,
}

/// The mathematical content of a chunk.
pub struct ChunkView {
    pub cells: Seq<Seq<Cell>>,
    pub dirty: bool,
}

impl ChunkView {
    /// Every column holds `n` cells and there are `n` columns.
    pub open spec fn is_square(self, n: int) -> bool {
        &&& self.cells.len() == n
        &&& forall|x: int| 0 <= x < n ==> #[trigger] self.cells[x].len() == n
    }

    pub open spec fn with_cell(self, x: int, y: int, cell: Cell) -> ChunkView {
        ChunkView { cells: self.cells.update(x, self.cells[x].update(y, cell)), dirty: true }
    }

    pub open spec fn cleaned(self) -> ChunkView {
        ChunkView { cells: self.cells, dirty: false }
    }
}

impl View for CellChunk {
    type V = ChunkView;

    closed spec fn view(&self) -> ChunkView {
        ChunkView { cells: self.cells@.map_values(|col: Vec<Cell>| col@), dirty: self.dirty }
    }
}

/// A square of `n` by `n` empty cells.
pub open spec fn empty_chunk(n: int) -> ChunkView {
    ChunkView { cells: Seq::new(n as nat, |x: int| Seq::new(n as nat, |y: int| Cell::Empty)), dirty: false }
}

impl CellChunk {
    /// A chunk of `size` by `size` empty cells that is not dirty.
    pub fn new(size: usize) -> (c: CellChunk)
        ensures
            c@ == empty_chunk(size as int),
    {
        let mut cells: Vec<Vec<Cell>> = Vec::new();
        let mut x: usize = 0;
        while x < size
            invariant
                x <= size,
                cells@.len() == x,
                forall|i: int| 0 <= i < x ==> #[trigger] cells@[i]@ == Seq::new(size as nat, |y: int| Cell::Empty),
            decreases size - x,
        {
            let mut col: Vec<Cell> = Vec::new();
            let mut y: usize = 0;
            while y < size
                invariant
                    y <= size,
                    col@ == Seq::new(y as nat, |j: int| Cell::Empty),
                decreases size - y,
            {
                col.push(Cell::Empty);
                y = y + 1;
                assert(col@ =~= Seq::new(y as nat, |j: int| Cell::Empty));
            }
            cells.push(col);
            x = x + 1;
        }
        let c = CellChunk { cells, dirty: false };
        assert(c@.cells =~= empty_chunk(size as int).cells);
        c
    }

    pub fn get_cell(&self, cell_position: [u32; 2]) -> (c: Cell)
        requires
            (cell_position[0] as int) < self@.cells.len(),
            (cell_position[1] as int) < self@.cells[cell_position[0] as int].len(),
        ensures
            c == self@.cells[cell_position[0] as int][cell_position[1] as int],
    {
        let x = cell_position[0] as usize;
        let y = cell_position[1] as usize;
        proof {
            assert(self@.cells[x as int] == self.cells@[x as int]@);
        }
        self.cells[x][y]
    }

    /// Writes one cell and marks the chunk dirty.
    pub fn set_cell(&mut self, cell_position: [u32; 2], cell: Cell)
        requires
            (cell_position[0] as int) < old(self)@.cells.len(),
            (cell_position[1] as int) < old(self)@.cells[cell_position[0] as int].len(),
        ensures
            final(self)@ == old(self)@.with_cell(cell_position[0] as int, cell_position[1] as int, cell),
    {
        let x = cell_position[0] as usize;
        let y = cell_position[1] as usize;
        proof {
            assert(old(self)@.cells[x as int] == old(self).cells@[x as int]@);
        }
        self.cells[x].set(y, cell);
        self.dirty = true;
        proof {
            assert(final(self)@.cells =~= old(self)@.with_cell(x as int, y as int, cell).cells);
        }
    }

    /// The cells, `cells[x][y]`.
    pub fn cells(&self) -> (r: &Vec<Vec<Cell>>)
        ensures
            r@.map_values(|col: Vec<Cell>| col@) == self@.cells,
    {
        &self.cells
    }

    pub fn is_dirty(&self) -> (r: bool)
        ensures
            r == self@.dirty,
    {
        self.dirty
    }

    /// Reports whether the chunk was dirty and clears the flag.
    pub fn render(&mut self) -> (was_dirty: bool)
        ensures
            was_dirty == old(self)@.dirty,
            final(self)@ == old(self)@.cleaned(),
    {
        let was_dirty = self.dirty;
        self.dirty = false;
        was_dirty
    }
}

} // verus!
