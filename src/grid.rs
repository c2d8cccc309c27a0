use vstd::prelude::*;
use crate::cell::{barrier, Cell, LiveCell, LiveCellState};
use crate::chunk::{empty_chunk, CellChunk, ChunkView};

verus! {

/// Why a grid could not be built.
#[derive(Clone, Copy, PartialEq, Eq, Structural, Debug)]
pub enum GridError {
    /// The chunk size is zero.
    InvalidChunkSize,
    /// The region holds no chunk.
    EmptyRegion,
    /// Tile coordinates of the region do not fit in `i32`, or it holds more
    /// than `u32::MAX` tiles.
    RegionTooLarge,
}

/// A rectangular world of `width` by `height` chunks of `chunk_size` by
/// `chunk_size` tiles; the chunk at `chunks[c][r]` has chunk coordinate
/// `(origin_x + c, origin_y + r)`.
pub struct CellGrid {
    chunk_size: usize,
    origin_x: i32,
    origin_y: i32,
    width: usize,
    height: usize,
    chunks: Vec<Vec<CellChunk>>,
}

/// The mathematical content of a grid.
pub struct GridView {
    pub chunk_size: int,
    pub origin_x: int,
    pub origin_y: int,
    pub width: int,
    pub height: int,
    pub chunks: Seq<Seq<ChunkView>>,
}

/// The region's tile coordinates fit in `i32` and its tile count in `u32`.
pub open spec fn region_fits(origin_x: int, origin_y: int, width: int, height: int, n: int) -> bool {
    &&& n <= 0x1_0000_0000
    &&& width <= 0x1_0000_0000
    &&& height <= 0x1_0000_0000
    &&& i32::MIN <= origin_x * n
    &&& (origin_x + width) * n <= i32::MAX + 1
    &&& i32::MIN <= origin_y * n
    &&& (origin_y + height) * n <= i32::MAX + 1
    &&& (width * n) * (height * n) <= u32::MAX
}

/// A grid of empty, clean chunks.
pub open spec fn fresh_grid(origin_x: int, origin_y: int, width: int, height: int, n: int) -> GridView {
    GridView {
        chunk_size: n,
        origin_x,
        origin_y,
        width,
        height,
        chunks: Seq::new(width as nat, |c: int| Seq::new(height as nat, |r: int| empty_chunk(n))),
    }
}

impl GridView {
    pub open spec fn wf(self) -> bool {
        &&& self.chunk_size >= 1
        &&& self.width >= 1
        &&& self.height >= 1
        &&& region_fits(self.origin_x, self.origin_y, self.width, self.height, self.chunk_size)
        &&& self.chunks.len() == self.width
        &&& forall|c: int| 0 <= c < self.width ==> #[trigger] self.chunks[c].len() == self.height
        &&& forall|c: int, r: int|
            0 <= c < self.width && 0 <= r < self.height ==> #[trigger] self.chunks[c][r].is_square(
                self.chunk_size,
            )
    }

    /// Chunk index and local index of an absolute tile: the chunk
    /// coordinate is the floor of the tile coordinate divided by the chunk
    /// size, the local coordinate the non-negative remainder.
    pub open spec fn locate(self, x: int, y: int) -> Option<(int, int, int, int)> {
        let n = self.chunk_size;
        let rx = x - self.origin_x * n;
        let ry = y - self.origin_y * n;
        if 0 <= rx < self.width * n && 0 <= ry < self.height * n {
            Some((rx / n, ry / n, rx % n, ry % n))
        } else {
            None
        }
    }

    pub open spec fn cell_at(self, p: (int, int, int, int)) -> Cell {
        self.chunks[p.0][p.1].cells[p.2][p.3]
    }

    /// Absolute coordinates of a tile given by chunk index and local index.
    pub open spec fn absolute(self, p: (int, int, int, int)) -> (int, int) {
        ((self.origin_x + p.0) * self.chunk_size + p.2, (self.origin_y + p.1) * self.chunk_size + p.3)
    }

    /// The cell at an absolute tile; `None` outside the allocated region.
    pub open spec fn tile(self, x: int, y: int) -> Option<Cell> {
        match self.locate(x, y) {
            Some(p) => Some(self.cell_at(p)),
            None => None,
        }
    }

    /// What a rule reads at an absolute tile: its cell, or a barrier where
    /// no chunk is allocated.
    pub open spec fn neighbor_cell(self, x: int, y: int) -> Cell {
        match self.tile(x, y) {
            Some(c) => c,
            None => barrier(),
        }
    }

    /// Writes one cell and marks its chunk dirty.
    pub open spec fn set_at(self, p: (int, int, int, int), cell: Cell) -> GridView {
        GridView {
            chunks: self.chunks.update(
                p.0,
                self.chunks[p.0].update(p.1, self.chunks[p.0][p.1].with_cell(p.2, p.3, cell)),
            ),
            ..self
        }
    }

    /// Writes the cell at an absolute tile; nothing changes outside the
    /// allocated region.
    pub open spec fn with_tile(self, x: int, y: int, cell: Cell) -> GridView {
        match self.locate(x, y) {
            Some(p) => self.set_at(p, cell),
            None => self,
        }
    }

    /// The same grid with every dirty flag cleared.
    pub open spec fn rendered(self) -> GridView {
        GridView {
            chunks: Seq::new(
                self.width as nat,
                |c: int| Seq::new(self.height as nat, |r: int| self.chunks[c][r].cleaned()),
            ),
            ..self
        }
    }

    /// The grid with the dirty flags of the first `i` chunks in render
    /// order cleared.
    pub open spec fn rendered_below(self, i: int) -> GridView {
        GridView {
            chunks: Seq::new(
                self.width as nat,
                |c: int|
                    Seq::new(
                        self.height as nat,
                        |r: int|
                            if c * self.height + r < i {
                                self.chunks[c][r].cleaned()
                            } else {
                                self.chunks[c][r]
                            },
                    ),
            ),
            ..self
        }
    }

    /// The chunk coordinate of chunk index `i` in render order (by column,
    /// then by row), with its dirty flag.
    pub open spec fn render_entry(self, i: int) -> ([i32; 2], bool) {
        let c = i / self.height;
        let r = i % self.height;
        ([(self.origin_x + c) as i32, (self.origin_y + r) as i32], self.chunks[c][r].dirty)
    }

    /// A chunk index and local index inside the region.
    pub open spec fn in_range(self, p: (int, int, int, int)) -> bool {
        &&& 0 <= p.0 < self.width
        &&& 0 <= p.1 < self.height
        &&& 0 <= p.2 < self.chunk_size
        &&& 0 <= p.3 < self.chunk_size
    }

    pub open spec fn tile_count(self) -> int {
        (self.width * self.chunk_size) * (self.height * self.chunk_size)
    }
}

/// The views of a column of chunks.
pub open spec fn column_view(col: Seq<CellChunk>) -> Seq<ChunkView> {
    Seq::new(col.len(), |r: int| col[r]@)
}

impl View for CellGrid {
    type V = GridView;

    closed spec fn view(&self) -> GridView {
        GridView {
            chunk_size: self.chunk_size as int,
            origin_x: self.origin_x as int,
            origin_y: self.origin_y as int,
            width: self.width as int,
            height: self.height as int,
            chunks: self.chunks@.map_values(|col: Vec<CellChunk>| column_view(col@)),
        }
    }
}

impl CellGrid {
    pub open spec fn inv(&self) -> bool {
        self@.wf()
    }

    /// Builds an empty grid over the rectangle of `width` by `height` chunks
    /// whose first chunk has chunk coordinate `origin`.
    pub fn new(origin: [i32; 2], width: usize, height: usize, chunk_size: usize) -> (r: Result<
        CellGrid,
        GridError,
    >)
        ensures
            chunk_size == 0 <==> r == Err::<CellGrid, GridError>(GridError::InvalidChunkSize),
            chunk_size > 0 && (width == 0 || height == 0) <==> r == Err::<CellGrid, GridError>(
                GridError::EmptyRegion,
            ),
            chunk_size > 0 && width > 0 && height > 0 && !region_fits(
                origin[0] as int,
                origin[1] as int,
                width as int,
                height as int,
                chunk_size as int,
            ) <==> r == Err::<CellGrid, GridError>(GridError::RegionTooLarge),
            r matches Ok(g) ==> g.inv() && g@ == fresh_grid(
                origin[0] as int,
                origin[1] as int,
                width as int,
                height as int,
                chunk_size as int,
            ),
    {
        if chunk_size == 0 {
            return Err(GridError::InvalidChunkSize);
        }
        if width == 0 || height == 0 {
            return Err(GridError::EmptyRegion);
        }
        let big: usize = 0xffff_ffff;
        if chunk_size > big || width > big || height > big {
            if chunk_size as u128 > 0x1_0000_0000 || width as u128 > 0x1_0000_0000 || height as u128
                > 0x1_0000_0000 {
                return Err(GridError::RegionTooLarge);
            }
        }
        let n = chunk_size as i128;
        let ox = origin[0] as i128;
        let oy = origin[1] as i128;
        let w = width as i128;
        let h = height as i128;
        proof {
            assert(-0x8000_0000 * 0x1_0000_0000 <= ox * n <= 0x8000_0000 * 0x1_0000_0000) by (nonlinear_arith)
                requires
                    -0x8000_0000 <= ox < 0x8000_0000,
                    1 <= n <= 0x1_0000_0000,
            ;
            assert(0 <= (ox + w) * n <= 0x2_0000_0000 * 0x1_0000_0000 || -0x1_0000_0000
                * 0x8000_0000 <= (ox + w) * n <= 0) by (nonlinear_arith)
                requires
                    -0x8000_0000 <= ox < 0x8000_0000,
                    1 <= w <= 0x1_0000_0000,
                    1 <= n <= 0x1_0000_0000,
            ;
            assert(-0x8000_0000 * 0x1_0000_0000 <= oy * n <= 0x8000_0000 * 0x1_0000_0000) by (nonlinear_arith)
                requires
                    -0x8000_0000 <= oy < 0x8000_0000,
                    1 <= n <= 0x1_0000_0000,
            ;
            assert(0 <= (oy + h) * n <= 0x2_0000_0000 * 0x1_0000_0000 || -0x1_0000_0000
                * 0x8000_0000 <= (oy + h) * n <= 0) by (nonlinear_arith)
                requires
                    -0x8000_0000 <= oy < 0x8000_0000,
                    1 <= h <= 0x1_0000_0000,
                    1 <= n <= 0x1_0000_0000,
            ;
        }
        if ox * n < -0x8000_0000 || (ox + w) * n > 0x8000_0000 || oy * n < -0x8000_0000 || (oy + h)
            * n > 0x8000_0000 {
            return Err(GridError::RegionTooLarge);
        }
        proof {
            assert(1 <= w * n <= 0x1_0000_0000) by (nonlinear_arith)
                requires
                    -0x8000_0000 <= ox,
                    (ox + w) * n <= 0x8000_0000,
                    ox * n >= -0x8000_0000,
                    1 <= w,
                    1 <= n,
            ;
            assert(1 <= h * n <= 0x1_0000_0000) by (nonlinear_arith)
                requires
                    -0x8000_0000 <= oy,
                    (oy + h) * n <= 0x8000_0000,
                    oy * n >= -0x8000_0000,
                    1 <= h,
                    1 <= n,
            ;
            assert((w * n) * (h * n) <= 0x1_0000_0000 * 0x1_0000_0000) by (nonlinear_arith)
                requires
                    1 <= w * n <= 0x1_0000_0000,
                    1 <= h * n <= 0x1_0000_0000,
            ;
        }
        if (w * n) * (h * n) > 0xffff_ffff {
            return Err(GridError::RegionTooLarge);
        }
        let ghost fresh = fresh_grid(origin[0] as int, origin[1] as int, width as int, height as int, chunk_size as int);
        let mut chunks: Vec<Vec<CellChunk>> = Vec::new();
        let mut c: usize = 0;
        while c < width
            invariant
                c <= width,
                chunks@.len() == c,
                fresh == fresh_grid(origin[0] as int, origin[1] as int, width as int, height as int, chunk_size as int),
                forall|i: int|
                    0 <= i < c ==> column_view(#[trigger] chunks@[i]@)
                        == fresh.chunks[i],
            decreases width - c,
        {
            let mut col: Vec<CellChunk> = Vec::new();
            let mut r: usize = 0;
            while r < height
                invariant
                    r <= height,
                    col@.len() == r,
                    forall|j: int| 0 <= j < r ==> (#[trigger] col@[j])@ == empty_chunk(chunk_size as int),
                decreases height - r,
            {
                col.push(CellChunk::new(chunk_size));
                r = r + 1;
            }
            assert(column_view(col@) =~= fresh.chunks[c as int]);
            chunks.push(col);
            c = c + 1;
        }
        let g = CellGrid {
            chunk_size,
            origin_x: origin[0],
            origin_y: origin[1],
            width,
            height,
            chunks,
        };
        assert(g@.chunks =~= fresh.chunks);
        Ok(g)
    }

    /// The chunk size, in tiles.
    pub fn chunk_size(&self) -> (n: usize)
        ensures
            n == self@.chunk_size,
    {
        self.chunk_size
    }

    /// The chunk coordinate of the first chunk.
    pub fn origin(&self) -> (o: [i32; 2])
        ensures
            o[0] == self@.origin_x,
            o[1] == self@.origin_y,
    {
        [self.origin_x, self.origin_y]
    }

    /// The region's width, in chunks.
    pub fn width(&self) -> (w: usize)
        ensures
            w == self@.width,
    {
        self.width
    }

    /// The region's height, in chunks.
    pub fn height(&self) -> (h: usize)
        ensures
            h == self@.height,
    {
        self.height
    }

    /// The number of tiles in the region.
    pub fn tile_count(&self) -> (t: usize)
        requires
            self.inv(),
        ensures
            t == self@.tile_count(),
    {
        proof {
            lemma_wf_bounds(self@);
        }
        (self.width * self.chunk_size) * (self.height * self.chunk_size)
    }

    pub(crate) fn locate(&self, x: i64, y: i64) -> (r: Option<(usize, usize, usize, usize)>)
        requires
            self.inv(),
            -0x1_0000_0000_0000 <= x <= 0x1_0000_0000_0000,
            -0x1_0000_0000_0000 <= y <= 0x1_0000_0000_0000,
        ensures
            match r {
                Some(p) => self@.locate(x as int, y as int) == Some(
                    (p.0 as int, p.1 as int, p.2 as int, p.3 as int),
                ) && self@.in_range((p.0 as int, p.1 as int, p.2 as int, p.3 as int)),
                None => self@.locate(x as int, y as int).is_none(),
            },
    {
        proof {
            lemma_wf_bounds(self@);
        }
        let n = self.chunk_size as i64;
        let rx = x - self.origin_x as i64 * n;
        let ry = y - self.origin_y as i64 * n;
        let wn = (self.width * self.chunk_size) as i64;
        let hn = (self.height * self.chunk_size) as i64;
        if rx < 0 || rx >= wn || ry < 0 || ry >= hn {
            return None;
        }
        let c = (rx as u64 / n as u64) as usize;
        let r = (ry as u64 / n as u64) as usize;
        let lx = (rx as u64 % n as u64) as usize;
        let ly = (ry as u64 % n as u64) as usize;
        proof {
            lemma_div_under(rx as int, self@.width, n as int);
            lemma_div_under(ry as int, self@.height, n as int);
        }
        Some((c, r, lx, ly))
    }

    pub(crate) fn cell_at(&self, p: (usize, usize, usize, usize)) -> (c: Cell)
        requires
            self.inv(),
            self@.in_range((p.0 as int, p.1 as int, p.2 as int, p.3 as int)),
        ensures
            c == self@.cell_at((p.0 as int, p.1 as int, p.2 as int, p.3 as int)),
    {
        proof {
            lemma_wf_bounds(self@);
            lemma_view_index(self, p.0 as int, p.1 as int);
        }
        self.chunks[p.0][p.1].get_cell([p.2 as u32, p.3 as u32])
    }

    pub(crate) fn set_at(&mut self, p: (usize, usize, usize, usize), cell: Cell)
        requires
            old(self).inv(),
            old(self)@.in_range((p.0 as int, p.1 as int, p.2 as int, p.3 as int)),
        ensures
            final(self).inv(),
            final(self)@ == old(self)@.set_at((p.0 as int, p.1 as int, p.2 as int, p.3 as int), cell),
    {
        proof {
            lemma_wf_bounds(old(self)@);
            lemma_view_index(old(self), p.0 as int, p.1 as int);
        }
        let ghost q = (p.0 as int, p.1 as int, p.2 as int, p.3 as int);
        self.chunks[p.0][p.1].set_cell([p.2 as u32, p.3 as u32], cell);
        proof {
            let expected = old(self)@.set_at(q, cell);
            assert(column_view(self.chunks@[q.0]@) =~= expected.chunks[q.0]);
            assert(self@.chunks =~= expected.chunks);
            assert(self@ == expected);
            lemma_set_at_wf(old(self)@, q, cell);
        }
    }

    /// The cell at an absolute tile, `None` where no chunk is allocated.
    pub fn get_cell(&self, grid_position: [i32; 2]) -> (c: Option<Cell>)
        requires
            self.inv(),
        ensures
            c == self@.tile(grid_position[0] as int, grid_position[1] as int),
    {
        match self.locate(grid_position[0] as i64, grid_position[1] as i64) {
            Some(p) => Some(self.cell_at(p)),
            None => None,
        }
    }

    /// Writes the cell at an absolute tile and marks its chunk dirty; does
    /// nothing where no chunk is allocated.
    pub fn set_cell(&mut self, grid_position: [i32; 2], cell: Cell)
        requires
            old(self).inv(),
        ensures
            final(self).inv(),
            final(self)@ == old(self)@.with_tile(grid_position[0] as int, grid_position[1] as int, cell),
    {
        match self.locate(grid_position[0] as i64, grid_position[1] as i64) {
            Some(p) => self.set_at(p, cell),
            None => {},
        }
    }

    /// The chunk with chunk coordinate `chunk_position`, for a renderer to
    /// read its cells; `None` where no chunk is allocated.
    pub fn chunk(&self, chunk_position: [i32; 2]) -> (r: Option<&CellChunk>)
        requires
            self.inv(),
        ensures
            r.is_some() == (self@.origin_x <= chunk_position[0] < self@.origin_x + self@.width
                && self@.origin_y <= chunk_position[1] < self@.origin_y + self@.height),
            r matches Some(ch) ==> ch@ == self@.chunks[chunk_position[0] - self@.origin_x][chunk_position[1]
                - self@.origin_y],
    {
        let c = chunk_position[0] as i64 - self.origin_x as i64;
        let r = chunk_position[1] as i64 - self.origin_y as i64;
        if c < 0 || r < 0 || c >= self.width as i64 || r >= self.height as i64 {
            return None;
        }
        proof {
            lemma_wf_bounds(self@);
            lemma_view_index(self, c as int, r as int);
        }
        Some(&self.chunks[c as usize][r as usize])
    }

    /// Hands out every chunk's coordinate with its dirty flag, by column and
    /// then by row, and clears all the flags.
    pub fn render(&mut self) -> (r: Vec<([i32; 2], bool)>)
        requires
            old(self).inv(),
        ensures
            final(self).inv(),
            final(self)@ == old(self)@.rendered(),
            r@.len() == old(self)@.width * old(self)@.height,
            forall|i: int| 0 <= i < r@.len() ==> #[trigger] r@[i] == old(self)@.render_entry(i),
    {
        proof {
            lemma_wf_bounds(self@);
        }
        let ghost g0 = self@;
        let total = self.width * self.height;
        let h = self.height;
        let mut out: Vec<([i32; 2], bool)> = Vec::new();
        let mut i: usize = 0;
        proof {
            assert forall|c: int| 0 <= c < g0.width implies #[trigger] g0.rendered_below(0).chunks[c] =~= g0.chunks[c] by {
                assert(c * g0.height >= 0) by (nonlinear_arith) requires c >= 0, g0.height >= 0;
            }
            assert(g0.rendered_below(0).chunks =~= g0.chunks);
        }
        while i < total
            invariant
                self.inv(),
                g0.wf(),
                total == g0.width * g0.height,
                h == g0.height,
                i <= total,
                out@.len() == i,
                forall|j: int| 0 <= j < i ==> #[trigger] out@[j] == g0.render_entry(j),
                self@ == g0.rendered_below(i as int),
            decreases total - i,
        {
            let c = i / h;
            let r = i % h;
            proof {
                lemma_div_under(i as int, g0.width, h as int);
                lemma_view_index(self, c as int, r as int);
            }
            let ghost prev = self@;
            let ghost prev_chunks = self.chunks@;
            proof {
                lemma_shape(self);
            }
            let dirty = self.chunks[c][r].render();
            out.push(([(self.origin_x as i64 + c as i64) as i32, (self.origin_y as i64 + r as i64) as i32], dirty));
            proof {
                vstd::arithmetic::div_mod::lemma_fundamental_div_mod(i as int, h as int);
                let next = g0.rendered_below(i + 1);
                assert forall|c2: int| 0 <= c2 < g0.width implies #[trigger] self@.chunks[c2] =~= next.chunks[c2] by {
                    assert forall|r2: int| 0 <= r2 < h implies #[trigger] self@.chunks[c2][r2] == next.chunks[c2][r2] by {
                        lemma_index_unique(c2, r2, c as int, r as int, h as int);
                        assert(prev_chunks[c2]@.len() == h);
                        assert(self.chunks@[c2]@.len() == h);
                        lemma_view_index_raw(self, c2, r2);
                        assert(prev.chunks[c2][r2] == prev_chunks[c2]@[r2]@);
                        if c2 != c || r2 != r {
                            assert(self.chunks@[c2]@[r2] == prev_chunks[c2]@[r2]);
                        } else {
                            assert(self@.chunks[c2][r2] == prev.chunks[c2][r2].cleaned());
                        }
                    }
                }
                assert(self@.chunks =~= next.chunks);
                lemma_rendered_below_wf(g0, i + 1);
            }
            i = i + 1;
        }
        proof {
            assert forall|c: int| 0 <= c < g0.width implies #[trigger] self@.chunks[c] =~= g0.rendered().chunks[c] by {
                assert(c * g0.height + g0.height <= g0.width * g0.height) by (nonlinear_arith)
                    requires 0 <= c < g0.width, 0 <= g0.height;
            }
            assert(self@.chunks =~= g0.rendered().chunks);
        }
        out
    }

    /// Places a new live cell governed by `state` at an absolute tile, with
    /// a frame stamp of zero; does nothing where no chunk is allocated.
    pub fn spawn_live_cell(&mut self, grid_position: [i32; 2], state: LiveCellState)
        requires
            old(self).inv(),
        ensures
            final(self).inv(),
            final(self)@ == old(self)@.with_tile(
                grid_position[0] as int,
                grid_position[1] as int,
                Cell::Live(LiveCell { state, last_frame_updated: 0 }),
            ),
    {
        self.set_cell(grid_position, Cell::Live(LiveCell { state, last_frame_updated: 0 }));
    }
}

/// Sizes that follow from a well-formed grid.
pub proof fn lemma_wf_bounds(g: GridView)
    requires
        g.wf(),
    ensures
        1 <= g.width * g.chunk_size <= u32::MAX,
        1 <= g.height * g.chunk_size <= u32::MAX,
        g.chunk_size <= g.width * g.chunk_size,
        g.chunk_size <= g.height * g.chunk_size,
        g.width <= g.width * g.chunk_size,
        g.height <= g.height * g.chunk_size,
        g.width * g.height <= g.tile_count(),
        g.chunk_size * g.chunk_size <= g.tile_count(),
        1 <= g.tile_count() <= u32::MAX,
        -0x8000_0000 <= g.origin_x * g.chunk_size <= 0x8000_0000,
        g.origin_x + g.width <= 0x8000_0000,
        g.origin_y + g.height <= 0x8000_0000,
        -0x8000_0000 <= g.origin_y * g.chunk_size <= 0x8000_0000,
{
    let n = g.chunk_size;
    let w = g.width;
    let h = g.height;
    assert(1 <= w * n && w <= w * n && n <= w * n) by (nonlinear_arith)
        requires 1 <= w, 1 <= n;
    assert(1 <= h * n && h <= h * n && n <= h * n) by (nonlinear_arith)
        requires 1 <= h, 1 <= n;
    assert(w * n <= (w * n) * (h * n) && h * n <= (w * n) * (h * n)) by (nonlinear_arith)
        requires 1 <= w * n, 1 <= h * n;
    assert(w * h <= (w * n) * (h * n) && n * n <= (w * n) * (h * n)) by (nonlinear_arith)
        requires 1 <= w, 1 <= h, 1 <= n;
    assert(g.origin_x * n < 0x8000_0000) by (nonlinear_arith)
        requires (g.origin_x + w) * n <= 0x8000_0000, 1 <= w, 1 <= n;
    assert(g.origin_x + w <= 0x8000_0000) by (nonlinear_arith)
        requires (g.origin_x + w) * n <= 0x8000_0000, 1 <= n;
    assert(g.origin_y + h <= 0x8000_0000) by (nonlinear_arith)
        requires (g.origin_y + h) * n <= 0x8000_0000, 1 <= n;
    assert(g.origin_y * n < 0x8000_0000) by (nonlinear_arith)
        requires (g.origin_y + h) * n <= 0x8000_0000, 1 <= h, 1 <= n;
}

proof fn lemma_shape(g: &CellGrid)
    requires
        g.inv(),
    ensures
        g.chunks@.len() == g@.width,
        forall|c: int| 0 <= c < g@.width ==> (#[trigger] g.chunks@[c])@.len() == g@.height,
{
    assert forall|c: int| 0 <= c < g@.width implies (#[trigger] g.chunks@[c])@.len() == g@.height by {
        assert(g@.chunks[c].len() == g@.height);
    }
}

proof fn lemma_view_index_raw(g: &CellGrid, c: int, r: int)
    requires
        0 <= c < g.chunks@.len(),
        0 <= r < g.chunks@[c]@.len(),
    ensures
        g@.chunks[c][r] == g.chunks@[c]@[r]@,
{
}

proof fn lemma_rendered_below_wf(g: GridView, i: int)
    requires
        g.wf(),
    ensures
        g.rendered_below(i).wf(),
        g.rendered().wf(),
{
    let g2 = g.rendered_below(i);
    assert forall|c: int, r: int| 0 <= c < g2.width && 0 <= r < g2.height implies #[trigger] g2.chunks[c][r].is_square(g2.chunk_size) by {
        assert(g.chunks[c][r].is_square(g.chunk_size));
    }
    let g3 = g.rendered();
    assert forall|c: int, r: int| 0 <= c < g3.width && 0 <= r < g3.height implies #[trigger] g3.chunks[c][r].is_square(g3.chunk_size) by {
        assert(g.chunks[c][r].is_square(g.chunk_size));
    }
}

proof fn lemma_view_index(g: &CellGrid, c: int, r: int)
    requires
        g.inv(),
        0 <= c < g@.width,
        0 <= r < g@.height,
    ensures
        g.chunks@.len() == g@.width,
        g.chunks@[c]@.len() == g@.height,
        g@.chunks[c][r] == g.chunks@[c]@[r]@,
        g@.chunks[c][r].is_square(g@.chunk_size),
        forall|x: int| 0 <= x < g@.chunk_size ==> #[trigger] g@.chunks[c][r].cells[x].len() == g@.chunk_size,
{
    assert(g@.chunks[c].len() == g@.height);
    assert(g@.chunks[c] == column_view(g.chunks@[c]@));
}

proof fn lemma_index_unique(c: int, r: int, c2: int, r2: int, h: int)
    requires
        0 <= c,
        0 <= c2,
        0 <= r < h,
        0 <= r2 < h,
    ensures
        (c * h + r == c2 * h + r2) == (c == c2 && r == r2),
{
    if c < c2 {
        assert(c * h + h <= c2 * h) by (nonlinear_arith) requires c < c2, 0 <= h;
    } else if c2 < c {
        assert(c2 * h + h <= c * h) by (nonlinear_arith) requires c2 < c, 0 <= h;
    }
}

/// A value below `count * n` splits into a quotient below `count` and a
/// remainder below `n`.
pub proof fn lemma_div_under(v: int, count: int, n: int)
    requires
        0 <= v < count * n,
        1 <= n,
    ensures
        0 <= v / n < count,
        0 <= v % n < n,
{
    assert(0 <= v / n < count) by (nonlinear_arith)
        requires 0 <= v < count * n, 1 <= n;
}

/// Writing a cell keeps a grid well formed.
pub proof fn lemma_set_at_wf(g: GridView, p: (int, int, int, int), cell: Cell)
    requires
        g.wf(),
        g.in_range(p),
    ensures
        g.set_at(p, cell).wf(),
{
    let g2 = g.set_at(p, cell);
    assert forall|c: int, r: int| 0 <= c < g2.width && 0 <= r < g2.height implies #[trigger] g2.chunks[c][r].is_square(g2.chunk_size) by {
        assert(g.chunks[c][r].is_square(g.chunk_size));
        if c == p.0 && r == p.1 {
            let ch = g.chunks[c][r];
            assert forall|x: int| 0 <= x < g.chunk_size implies #[trigger] g2.chunks[c][r].cells[x].len() == g.chunk_size by {
                assert(ch.cells[x].len() == g.chunk_size);
            }
        }
    }
}

} // verus!
