//! The canvas data model: colored cells arranged in a rectangular grid.

use vstd::prelude::*;

verus! {

/// The largest width or height a board may have; the project file format
/// stores each dimension as four decimal digits.
pub const MAX_DIM: usize = 9999;

/// An RGB color with one byte per channel.
#[derive(Clone, Copy, PartialEq, Eq, Structural, Debug)]
pub struct Rgb {
    pub r: u8,
    pub g: u8,
    pub b: u8,
}

/// The default color of a fresh canvas cell: white.
pub open spec fn white() -> Rgb {
    Rgb { r: 255, g: 255, b: 255 }
}

/// One grid position: a foreground color, a background color and the
/// character displayed there.
#[derive(Clone, Copy, PartialEq, Eq, Structural, Debug)]
pub struct Cell {
    pub color: Rgb,
    pub backcolor: Rgb,
    pub symbol: char,
}

/// The cell a fresh canvas is filled with: white on white, blank symbol.
pub open spec fn default_cell() -> Cell {
    Cell { color: white(), backcolor: white(), symbol: ' ' }
}

/// Two boards hold the same picture: equal dimensions, equal cells.
pub open spec fn board_eq(a: &Board, b: &Board) -> bool {
    &&& a.width == b.width
    &&& a.height == b.height
    &&& a.cells@ == b.cells@
}

/// The drawing grid: `width * height` cells in row-major order.
pub struct Board {
    pub width: usize,
    pub height: usize,
    pub cells: Vec<Cell>,
}

impl Board {
    /// The board invariant: positive dimensions within the file-format
    /// limit, and exactly one cell per position.
    pub open spec fn wf(&self) -> bool {
        &&& 0 < self.width <= MAX_DIM
        &&& 0 < self.height <= MAX_DIM
        &&& self.cells@.len() == self.width * self.height
    }

    /// The row-major index of position `(x, y)`.
    pub open spec fn spec_index_of(&self, x: int, y: int) -> int {
        y * self.width + x
    }

    /// The cell stored at position `(x, y)`.
    pub open spec fn cell_at(&self, x: int, y: int) -> Cell {
        self.cells@[self.spec_index_of(x, y)]
    }

    /// Whether `(x, y)` lies on the board.
    pub open spec fn in_range(&self, x: int, y: int) -> bool {
        0 <= x < self.width && 0 <= y < self.height
    }

    /// All cells hold the given value.
    pub open spec fn all_cells(&self, c: Cell) -> bool {
        forall|i: int| 0 <= i < self.cells@.len() ==> self.cells@[i] == c
    }

    /// Row-major indices of distinct in-range positions stay inside the
    /// cell vector and respect the grid layout.
    pub proof fn lemma_index_of_in_bounds(&self, x: int, y: int)
        requires
            self.wf(),
            self.in_range(x, y),
        ensures
            0 <= self.spec_index_of(x, y) < self.cells@.len(),
            self.cells@.len() <= MAX_DIM * MAX_DIM,
    {
        assert(self.width * self.height <= MAX_DIM * MAX_DIM) by (nonlinear_arith)
            requires
                0 < self.width <= MAX_DIM,
                0 < self.height <= MAX_DIM,
        ;
        let w = self.width as int;
        let h = self.height as int;
        assert(y * w + x < h * w) by (nonlinear_arith)
            requires
                0 <= x < w,
                0 <= y < h,
        ;
        assert(y * w + x >= 0) by (nonlinear_arith)
            requires
                0 <= x,
                0 <= y,
                w > 0,
        ;
        assert(h * w == w * h) by (nonlinear_arith);
    }

    /// A fresh board of default cells.
    pub fn new(width: usize, height: usize) -> (board: Board)
        requires
            0 < width <= MAX_DIM,
            0 < height <= MAX_DIM,
        ensures
            board.wf(),
            board.width == width,
            board.height == height,
            board.all_cells(default_cell()),
    {
        Board::filled(
            width,
            height,
            Cell {
                color: Rgb { r: 255, g: 255, b: 255 },
                backcolor: Rgb { r: 255, g: 255, b: 255 },
                symbol: ' ',
            },
        )
    }

    /// A board of the given size with every cell set to `cell`.
    pub fn filled(width: usize, height: usize, cell: Cell) -> (board: Board)
        requires
            0 < width <= MAX_DIM,
            0 < height <= MAX_DIM,
        ensures
            board.wf(),
            board.width == width,
            board.height == height,
            board.all_cells(cell),
    {
        proof {
            assert(width * height <= MAX_DIM * MAX_DIM) by (nonlinear_arith)
                requires
                    0 < width <= MAX_DIM,
                    0 < height <= MAX_DIM,
            ;
        }
        let n: usize = width * height;
        let mut cells: Vec<Cell> = Vec::new();
        let mut i: usize = 0;
        while i < n
            invariant
                i <= n,
                cells@.len() == i,
                forall|j: int| 0 <= j < i ==> cells@[j] == cell,
            decreases n - i,
        {
            cells.push(cell);
            i += 1;
        }
        Board { width, height, cells }
    }

    /// The row-major index of `(x, y)`, present exactly when the position
    /// lies on the board. Never panics, whatever the coordinates.
    pub fn cell_id(&self, x: usize, y: usize) -> (r: Option<usize>)
        requires
            self.wf(),
        ensures
            r.is_some() <==> self.in_range(x as int, y as int),
            r.is_some() ==> r.unwrap() == self.spec_index_of(x as int, y as int)
                && r.unwrap() < self.cells@.len(),
    {
        if x < self.width && y < self.height {
            proof {
                self.lemma_index_of_in_bounds(x as int, y as int);
            }
            Some(y * self.width + x)
        } else {
            None
        }
    }

    /// The cell at `(x, y)`, or `None` off the board. Never panics.
    pub fn get(&self, x: usize, y: usize) -> (r: Option<Cell>)
        requires
            self.wf(),
        ensures
            r.is_some() <==> self.in_range(x as int, y as int),
            r.is_some() ==> r.unwrap() == self.cell_at(x as int, y as int),
    {
        match self.cell_id(x, y) {
            Some(i) => Some(self.cells[i]),
            None => None,
        }
    }

    /// Writes `cell` at `(x, y)`; a silent no-op off the board. Never
    /// panics.
    pub fn set(&mut self, x: usize, y: usize, cell: Cell)
        requires
            old(self).wf(),
        ensures
            final(self).wf(),
            final(self).width == old(self).width,
            final(self).height == old(self).height,
            old(self).in_range(x as int, y as int) ==> final(self).cells@
                == old(self).cells@.update(old(self).spec_index_of(x as int, y as int), cell),
            !old(self).in_range(x as int, y as int) ==> *final(self) == *old(self),
    {
        let id = self.cell_id(x, y);
        match id {
            Some(i) => {
                self.cells.set(i, cell);
            },
            None => {},
        }
    }

    /// A cell-by-cell copy of this board.
    pub fn duplicate(&self) -> (r: Board)
        requires
            self.wf(),
        ensures
            r.wf(),
            r.width == self.width,
            r.height == self.height,
            r.cells@ == self.cells@,
    {
        let mut cells: Vec<Cell> = Vec::new();
        let n: usize = self.cells.len();
        let mut i: usize = 0;
        while i < n
            invariant
                i <= n,
                n == self.cells@.len(),
                cells@.len() == i,
                forall|j: int| 0 <= j < i ==> cells@[j] == self.cells@[j],
            decreases n - i,
        {
            cells.push(self.cells[i]);
            i += 1;
        }
        proof {
            assert(cells@ =~= self.cells@);
        }
        Board { width: self.width, height: self.height, cells }
    }
}

} // verus!
