//! The board: a grid of cells, stored row by row.

use vstd::prelude::*;

verus! {

/// The largest number of cells a board may hold.
///
/// Three bytes are rendered per cell, and the rendered buffer has to be
/// addressable with 32 bits.
pub const MAX_CELLS: u32 = 0x5555_5555;

/// Why a board could not be made.
#[derive(Debug, Clone, Copy, PartialEq, Eq, Structural)]
pub enum BoardError {
    /// The width or the height is zero.
    ZeroDimension,
    /// The board would hold more than [`MAX_CELLS`] cells.
    TooLarge,
    /// The number of cells given is not `width * height`.
    LengthMismatch,
    /// The chance of a live cell is not a ratio between 0 and 1.
    InvalidProbability,
    /// The board is smaller than the shape that was to be placed on it.
    TooSmall,
}

/// The mathematical model of a board.
pub struct BoardView {
    pub width: nat,
    pub height: nat,
    /// Row-major: the cell at `(x, y)` is `cells[y * width + x]`.
    pub cells: Seq<bool>,
}

/// Whether `width` by `height` are the dimensions of a board.
pub open spec fn valid_dimensions(width: int, height: int) -> bool {
    0 < width && 0 < height && width * height <= MAX_CELLS
}

/// The row-major position of the cell at `(x, y)` on a board `width` wide.
pub open spec fn cell_index(x: int, y: int, width: int) -> int {
    y * width + x
}

impl BoardView {
    /// The invariant of every board.
    pub open spec fn wf(self) -> bool {
        &&& valid_dimensions(self.width as int, self.height as int)
        &&& self.cells.len() == self.width * self.height
    }

    /// The state of the cell at `(x, y)`.
    pub open spec fn cell(self, x: int, y: int) -> bool
        recommends
            0 <= x < self.width,
            0 <= y < self.height,
    {
        self.cells[cell_index(x, y, self.width as int)]
    }

    /// The board of the given dimensions on which no cell is alive.
    pub open spec fn dead(width: nat, height: nat) -> BoardView {
        BoardView { width, height, cells: Seq::new(width * height, |i: int| false) }
    }

    /// Whether no cell of the board is alive.
    pub open spec fn all_dead(self) -> bool {
        forall|i: int| 0 <= i < self.cells.len() ==> !self.cells[i]
    }
}

/// Every cell of a board has a row-major position below `width * height`,
/// and the coordinates can be read back from it.
pub proof fn lemma_cell_index(x: int, y: int, width: int, height: int)
    requires
        0 <= x < width,
        0 <= y < height,
    ensures
        0 <= cell_index(x, y, width) < width * height,
        cell_index(x, y, width) % width == x,
        cell_index(x, y, width) / width == y,
{
    assert(0 <= y * width + x < width * height) by (nonlinear_arith)
        requires
            0 <= x < width,
            0 <= y < height,
    ;
    vstd::arithmetic::div_mod::lemma_fundamental_div_mod_converse(y * width + x, width, y, x);
}

/// Every position below `width * height` is that of the cell in column
/// `i % width` and row `i / width`.
pub proof fn lemma_index_coordinates(i: int, width: int, height: int)
    requires
        0 < width,
        0 <= i < width * height,
    ensures
        0 <= i % width < width,
        0 <= i / width < height,
        cell_index(i % width, i / width, width) == i,
{
    vstd::arithmetic::div_mod::lemma_fundamental_div_mod(i, width);
    vstd::arithmetic::div_mod::lemma_mod_bound(i, width);
    let q: int = i / width;
    assert(0 <= q < height) by (nonlinear_arith)
        requires
            0 < width,
            0 <= i < width * height,
            i == width * q + i % width,
            0 <= i % width < width,
    ;
    assert(q * width == width * q) by (nonlinear_arith);
}

/// The row-major position of the cell at `(x, y)` on a board `width` wide.
pub fn index(x: u32, y: u32, width: u32) -> (i: u64)
    ensures
        i == cell_index(x as int, y as int, width as int),
{
    assert(y * width + x <= 0xffff_ffff_ffff_ffff) by (nonlinear_arith)
        requires
            0 <= x <= 0xffff_ffff,
            0 <= y <= 0xffff_ffff,
            0 <= width <= 0xffff_ffff,
    ;
    (y as u64) * (width as u64) + (x as u64)
}

/// One generation: `width * height` cells on a torus.
#[derive(Debug, PartialEq, Eq)]
pub struct Board {
    width: u32,
    height: u32,
    cells: Vec<bool>,
}

impl View for Board {
    type V = BoardView;

    closed spec fn view(&self) -> BoardView {
        BoardView { width: self.width as nat, height: self.height as nat, cells: self.cells@ }
    }
}

impl Board {
    #[verifier::type_invariant]
    spec fn inv(self) -> bool {
        self@.wf()
    }

    /// The number of columns.
    pub fn width(&self) -> (width: u32)
        ensures
            width == self@.width,
            self@.wf(),
    {
        proof {
            use_type_invariant(self);
        }
        self.width
    }

    /// The number of rows.
    pub fn height(&self) -> (height: u32)
        ensures
            height == self@.height,
            self@.wf(),
    {
        proof {
            use_type_invariant(self);
        }
        self.height
    }

    /// The all-dead board of the given dimensions.
    pub fn new(width: u32, height: u32) -> (made: Result<Board, BoardError>)
        ensures
            made is Ok <==> valid_dimensions(width as int, height as int),
            match made {
                Ok(board) => valid_dimensions(width as int, height as int) && board@
                    == BoardView::dead(width as nat, height as nat),
                Err(BoardError::ZeroDimension) => width == 0 || height == 0,
                Err(BoardError::TooLarge) => width > 0 && height > 0 && width * height > MAX_CELLS,
                Err(BoardError::LengthMismatch) => false,
                Err(BoardError::InvalidProbability) => false,
                Err(BoardError::TooSmall) => false,
            },
    {
        if width == 0 || height == 0 {
            return Err(BoardError::ZeroDimension);
        }
        assert(width * height <= 0xffff_ffff * 0xffff_ffff) by (nonlinear_arith)
            requires
                0 <= width <= 0xffff_ffff,
                0 <= height <= 0xffff_ffff,
        ;
        let count: u64 = (width as u64) * (height as u64);
        if count > MAX_CELLS as u64 {
            return Err(BoardError::TooLarge);
        }
        let cells: Vec<bool> = vec![false; count as usize];
        assert(cells@ =~= Seq::new((width * height) as nat, |i: int| false));
        Ok(Board { width, height, cells })
    }

    /// The board of the given dimensions that holds the given cells, row by row.
    pub fn from_cells(width: u32, height: u32, cells: Vec<bool>) -> (made: Result<
        Board,
        BoardError,
    >)
        ensures
            made is Ok <==> valid_dimensions(width as int, height as int) && cells@.len() == width
                * height,
            match made {
                Ok(board) => valid_dimensions(width as int, height as int) && cells@.len() == width
                    * height && board@ == (BoardView {
                    width: width as nat,
                    height: height as nat,
                    cells: cells@,
                }),
                Err(BoardError::ZeroDimension) => width == 0 || height == 0,
                Err(BoardError::TooLarge) => width > 0 && height > 0 && width * height > MAX_CELLS,
                Err(BoardError::LengthMismatch) => valid_dimensions(width as int, height as int)
                    && cells@.len() != width * height,
                Err(BoardError::InvalidProbability) => false,
                Err(BoardError::TooSmall) => false,
            },
    {
        if width == 0 || height == 0 {
            return Err(BoardError::ZeroDimension);
        }
        assert(width * height <= 0xffff_ffff * 0xffff_ffff) by (nonlinear_arith)
            requires
                0 <= width <= 0xffff_ffff,
                0 <= height <= 0xffff_ffff,
        ;
        let count: u64 = (width as u64) * (height as u64);
        if count > MAX_CELLS as u64 {
            return Err(BoardError::TooLarge);
        }
        if cells.len() != count as usize {
            return Err(BoardError::LengthMismatch);
        }
        Ok(Board { width, height, cells })
    }

    /// The board that holds the given cells, for callers that have
    /// established the invariant themselves.
    pub(crate) fn from_parts(width: u32, height: u32, cells: Vec<bool>) -> (board: Board)
        requires
            valid_dimensions(width as int, height as int),
            cells@.len() == width * height,
        ensures
            board@ == (BoardView { width: width as nat, height: height as nat, cells: cells@ }),
    {
        Board { width, height, cells }
    }

    /// The number of cells, `width * height`.
    pub fn len(&self) -> (count: usize)
        ensures
            count == self@.cells.len(),
            count == self@.width * self@.height,
            self@.wf(),
    {
        proof {
            use_type_invariant(self);
        }
        self.cells.len()
    }

    /// The cells, row by row.
    pub fn cells(&self) -> (cells: &Vec<bool>)
        ensures
            cells@ == self@.cells,
            self@.wf(),
    {
        proof {
            use_type_invariant(self);
        }
        &self.cells
    }

    /// The state of the cell at `(x, y)`.
    pub fn at(&self, x: u32, y: u32) -> (alive: bool)
        requires
            x < self@.width,
            y < self@.height,
        ensures
            alive == self@.cell(x as int, y as int),
    {
        proof {
            use_type_invariant(self);
            lemma_cell_index(x as int, y as int, self.width as int, self.height as int);
        }
        self.cells[index(x, y, self.width) as usize]
    }

    /// The state of the cell at a row-major position.
    pub fn at_index(&self, i: usize) -> (alive: bool)
        requires
            i < self@.cells.len(),
        ensures
            alive == self@.cells[i as int],
    {
        self.cells[i]
    }

    /// Whether no cell is alive.
    pub fn is_dead(&self) -> (dead: bool)
        ensures
            dead == self@.all_dead(),
    {
        let mut i: usize = 0;
        while i < self.cells.len()
            invariant
                i <= self.cells.len(),
                forall|j: int| 0 <= j < i ==> !self.cells@[j],
            decreases self.cells.len() - i,
        {
            if self.cells[i] {
                assert(self@.cells[i as int]);
                return false;
            }
            i += 1;
        }
        true
    }
}

impl Clone for Board {
    fn clone(&self) -> (copy: Board)
        ensures
            copy@ == self@,
    {
        proof {
            use_type_invariant(self);
        }
        let cells: Vec<bool> = self.cells.clone();
        Board { width: self.width, height: self.height, cells }
    }
}

} // verus!
