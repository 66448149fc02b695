//! The transition rule: one generation to the next, on a torus.

use vstd::prelude::*;
use crate::board::{cell_index, lemma_cell_index, valid_dimensions, Board, BoardView, MAX_CELLS};

verus! {

/// The coordinate `delta` away from `coord` on an axis of length `dim` whose
/// two ends are joined.
pub open spec fn wrap(coord: int, delta: int, dim: int) -> int {
    (coord + delta + dim) % dim
}

/// 1 where the cell at `(x, y)` is alive, 0 where it is dead.
pub open spec fn population(board: BoardView, x: int, y: int) -> nat {
    if board.cell(x, y) {
        1
    } else {
        0
    }
}

/// 1 where the neighbor of `(x, y)` at offset `(dx, dy)` is alive, 0 where
/// it is dead. Both axes wrap.
pub open spec fn neighbor(board: BoardView, x: int, y: int, dx: int, dy: int) -> nat {
    population(board, wrap(x, dx, board.width as int), wrap(y, dy, board.height as int))
}

/// The number of live cells among the eight positions around `(x, y)`.
///
/// On a board fewer than three cells wide or high one cell stands at several
/// of the eight positions, and is counted at each.
pub open spec fn neighbor_count(board: BoardView, x: int, y: int) -> nat {
    neighbor(board, x, y, -1, -1) + neighbor(board, x, y, 0, -1) + neighbor(board, x, y, 1, -1)
        + neighbor(board, x, y, -1, 0) + neighbor(board, x, y, 1, 0) + neighbor(
        board,
        x,
        y,
        -1,
        1,
    ) + neighbor(board, x, y, 0, 1) + neighbor(board, x, y, 1, 1)
}

/// The rule B3/S23: what becomes of a cell with the given number of live
/// neighbors.
pub open spec fn next_state(alive: bool, neighbors: nat) -> bool {
    neighbors == 3 || (alive && neighbors == 2)
}

/// The generation that follows `board`.
pub open spec fn step_spec(board: BoardView) -> BoardView {
    BoardView {
        width: board.width,
        height: board.height,
        cells: Seq::new(
            board.cells.len(),
            |i: int|
                next_state(
                    board.cells[i],
                    neighbor_count(board, i % (board.width as int), i / (board.width as int)),
                ),
        ),
    }
}

/// `board` after `n` generations.
pub open spec fn step_n(board: BoardView, n: nat) -> BoardView
    decreases n,
{
    if n == 0 {
        board
    } else {
        step_spec(step_n(board, (n - 1) as nat))
    }
}

/// Wrapping by at most one axis length lands on the axis, one length up or
/// down where the sum leaves it.
pub proof fn lemma_wrap(coord: int, delta: int, dim: int)
    requires
        0 <= coord < dim,
        -dim <= delta <= dim,
    ensures
        0 <= wrap(coord, delta, dim) < dim,
        wrap(coord, delta, dim) == if coord + delta < 0 {
            coord + delta + dim
        } else if coord + delta >= dim {
            coord + delta - dim
        } else {
            coord + delta
        },
{
    let sum: int = coord + delta + dim;
    if coord + delta < 0 {
        vstd::arithmetic::div_mod::lemma_fundamental_div_mod_converse(sum, dim, 0, sum);
    } else if coord + delta >= dim {
        vstd::arithmetic::div_mod::lemma_fundamental_div_mod_converse(sum, dim, 2, sum - 2 * dim);
    } else {
        vstd::arithmetic::div_mod::lemma_fundamental_div_mod_converse(sum, dim, 1, sum - dim);
    }
}

/// The coordinate one step back (`delta` -1), in place (0) or one step on
/// (1) from `coord`, on an axis of length `dim` whose two ends are joined.
fn wrapped(coord: u32, delta: i8, dim: u32) -> (to: u32)
    requires
        coord < dim <= MAX_CELLS,
        -1 <= delta <= 1,
    ensures
        to == wrap(coord as int, delta as int, dim as int),
        to < dim,
{
    proof {
        lemma_wrap(coord as int, delta as int, dim as int);
    }
    let sum: u32 = if delta < 0 {
        coord + dim - 1
    } else if delta == 0 {
        coord + dim
    } else {
        coord + dim + 1
    };
    sum % dim
}

/// 1 where the neighbor of `(x, y)` at offset `(dx, dy)` is alive, else 0.
fn neighbor_at(board: &Board, x: u32, y: u32, dx: i8, dy: i8) -> (n: u8)
    requires
        x < board@.width,
        y < board@.height,
        -1 <= dx <= 1,
        -1 <= dy <= 1,
    ensures
        n == neighbor(board@, x as int, y as int, dx as int, dy as int),
        n <= 1,
{
    let width: u32 = board.width();
    let height: u32 = board.height();
    proof {
        lemma_dimension_bounds(width as int, height as int);
    }
    let nx: u32 = wrapped(x, dx, width);
    let ny: u32 = wrapped(y, dy, height);
    if board.at(nx, ny) {
        1
    } else {
        0
    }
}

/// Neither dimension of a board exceeds the bound on its cells.
pub proof fn lemma_dimension_bounds(width: int, height: int)
    requires
        valid_dimensions(width, height),
    ensures
        width <= MAX_CELLS,
        height <= MAX_CELLS,
{
    assert(width <= width * height && height <= width * height) by (nonlinear_arith)
        requires
            0 < width,
            0 < height,
    ;
}

/// The number of live cells among the eight positions around `(x, y)`.
pub fn count_neighbors(board: &Board, x: u32, y: u32) -> (n: u8)
    requires
        x < board@.width,
        y < board@.height,
    ensures
        n == neighbor_count(board@, x as int, y as int),
        n <= 8,
{
    let a: u8 = neighbor_at(board, x, y, -1, -1);
    let b: u8 = neighbor_at(board, x, y, 0, -1);
    let c: u8 = neighbor_at(board, x, y, 1, -1);
    let d: u8 = neighbor_at(board, x, y, -1, 0);
    let e: u8 = neighbor_at(board, x, y, 1, 0);
    let f: u8 = neighbor_at(board, x, y, -1, 1);
    let g: u8 = neighbor_at(board, x, y, 0, 1);
    let h: u8 = neighbor_at(board, x, y, 1, 1);
    a + b + c + d + e + f + g + h
}

/// What becomes of a cell with the given number of live neighbors.
pub fn rule(alive: bool, neighbors: u8) -> (next: bool)
    ensures
        next == next_state(alive, neighbors as nat),
{
    neighbors == 3 || (alive && neighbors == 2)
}

/// The generation that follows `board`. The board itself is left as it is.
pub fn step(board: &Board) -> (next: Board)
    ensures
        next@ == step_spec(board@),
{
    let width: u32 = board.width();
    let height: u32 = board.height();
    let count: usize = board.len();
    let mut cells: Vec<bool> = Vec::with_capacity(count);
    let mut y: u32 = 0;
    while y < height
        invariant
            y <= height,
            board@.wf(),
            width == board@.width,
            height == board@.height,
            cells@.len() == y * width,
            cells@.len() <= board@.cells.len(),
            forall|i: int| 0 <= i < cells@.len() ==> cells@[i] == step_spec(board@).cells[i],
        decreases height - y,
    {
        let mut x: u32 = 0;
        while x < width
            invariant
                x <= width,
                y < height,
                board@.wf(),
                width == board@.width,
                height == board@.height,
                cells@.len() == y * width + x,
                cells@.len() <= board@.cells.len(),
                forall|i: int| 0 <= i < cells@.len() ==> cells@[i] == step_spec(board@).cells[i],
            decreases width - x,
        {
            proof {
                lemma_cell_index(x as int, y as int, width as int, height as int);
            }
            let alive: bool = board.at(x, y);
            let neighbors: u8 = count_neighbors(board, x, y);
            cells.push(rule(alive, neighbors));
            x += 1;
        }
        assert((y + 1) * width == y * width + width) by (nonlinear_arith);
        y += 1;
    }
    assert(height * width == width * height) by (nonlinear_arith);
    assert(cells@ =~= step_spec(board@).cells);
    Board::from_parts(width, height, cells)
}

/// The rule, case by case: a live cell with two or three live neighbors
/// stays alive, a dead cell with exactly three becomes alive, and every
/// other cell is dead in the next generation.
pub proof fn lemma_rule(alive: bool, neighbors: nat)
    ensures
        alive && (neighbors == 2 || neighbors == 3) ==> next_state(alive, neighbors),
        alive && neighbors != 2 && neighbors != 3 ==> !next_state(alive, neighbors),
        !alive && neighbors == 3 ==> next_state(alive, neighbors),
        !alive && neighbors != 3 ==> !next_state(alive, neighbors),
{
}

/// A step keeps the dimensions of the board, and decides each cell by the
/// rule from the cell and its eight neighbors.
pub proof fn lemma_step_cell(board: BoardView, x: int, y: int)
    requires
        board.wf(),
        0 <= x < board.width,
        0 <= y < board.height,
    ensures
        step_spec(board).wf(),
        step_spec(board).width == board.width,
        step_spec(board).height == board.height,
        step_spec(board).cell(x, y) == next_state(board.cell(x, y), neighbor_count(board, x, y)),
{
    lemma_cell_index(x, y, board.width as int, board.height as int);
}

/// Any number of steps keeps the dimensions of the board.
pub proof fn lemma_step_n_wf(board: BoardView, n: nat)
    requires
        board.wf(),
    ensures
        step_n(board, n).wf(),
        step_n(board, n).width == board.width,
        step_n(board, n).height == board.height,
    decreases n,
{
    if n > 0 {
        lemma_step_n_wf(board, (n - 1) as nat);
    }
}

/// Every neighbor of a cell of the board is a cell of the board.
pub proof fn lemma_neighbor_on_board(board: BoardView, x: int, y: int, dx: int, dy: int)
    requires
        board.wf(),
        0 <= x < board.width,
        0 <= y < board.height,
        -1 <= dx <= 1,
        -1 <= dy <= 1,
    ensures
        0 <= wrap(x, dx, board.width as int) < board.width,
        0 <= wrap(y, dy, board.height as int) < board.height,
        0 <= cell_index(
            wrap(x, dx, board.width as int),
            wrap(y, dy, board.height as int),
            board.width as int,
        ) < board.cells.len(),
{
    lemma_wrap(x, dx, board.width as int);
    lemma_wrap(y, dy, board.height as int);
    lemma_cell_index(
        wrap(x, dx, board.width as int),
        wrap(y, dy, board.height as int),
        board.width as int,
        board.height as int,
    );
}

/// The first and the last column are neighbors: a cell of column 0 counts
/// the cells of the last column in the rows next to its own as its western
/// neighbors, and a cell of the last column counts those of column 0 as its
/// eastern neighbors.
pub proof fn lemma_columns_wrap(board: BoardView, y: int, dy: int)
    requires
        board.wf(),
        0 <= y < board.height,
        -1 <= dy <= 1,
    ensures
        neighbor(board, 0, y, -1, dy) == population(
            board,
            board.width - 1,
            wrap(y, dy, board.height as int),
        ),
        neighbor(board, board.width - 1, y, 1, dy) == population(
            board,
            0,
            wrap(y, dy, board.height as int),
        ),
        board.cell(board.width - 1, wrap(y, dy, board.height as int)) ==> neighbor_count(
            board,
            0,
            y,
        ) >= 1,
        board.cell(0, wrap(y, dy, board.height as int)) ==> neighbor_count(
            board,
            board.width - 1,
            y,
        ) >= 1,
{
    lemma_wrap(0, -1, board.width as int);
    lemma_wrap(board.width - 1, 1, board.width as int);
}

/// The first and the last row are neighbors, as the first and the last
/// column are.
pub proof fn lemma_rows_wrap(board: BoardView, x: int, dx: int)
    requires
        board.wf(),
        0 <= x < board.width,
        -1 <= dx <= 1,
    ensures
        neighbor(board, x, 0, dx, -1) == population(
            board,
            wrap(x, dx, board.width as int),
            board.height - 1,
        ),
        neighbor(board, x, board.height - 1, dx, 1) == population(
            board,
            wrap(x, dx, board.width as int),
            0,
        ),
        board.cell(wrap(x, dx, board.width as int), board.height - 1) ==> neighbor_count(
            board,
            x,
            0,
        ) >= 1,
        board.cell(wrap(x, dx, board.width as int), 0) ==> neighbor_count(
            board,
            x,
            board.height - 1,
        ) >= 1,
{
    lemma_wrap(0, -1, board.height as int);
    lemma_wrap(board.height - 1, 1, board.height as int);
}

/// On a board without a live cell no cell has a live neighbor.
pub proof fn lemma_dead_neighbors(board: BoardView, x: int, y: int)
    requires
        board.wf(),
        board.all_dead(),
        0 <= x < board.width,
        0 <= y < board.height,
    ensures
        neighbor_count(board, x, y) == 0,
{
    lemma_neighbor_on_board(board, x, y, -1, -1);
    lemma_neighbor_on_board(board, x, y, 0, -1);
    lemma_neighbor_on_board(board, x, y, 1, -1);
    lemma_neighbor_on_board(board, x, y, -1, 0);
    lemma_neighbor_on_board(board, x, y, 1, 0);
    lemma_neighbor_on_board(board, x, y, -1, 1);
    lemma_neighbor_on_board(board, x, y, 0, 1);
    lemma_neighbor_on_board(board, x, y, 1, 1);
}

/// A board without a live cell stays as it is.
pub proof fn lemma_step_dead(board: BoardView)
    requires
        board.wf(),
        board.all_dead(),
    ensures
        step_spec(board) == board,
        step_spec(board).all_dead(),
{
    assert forall|i: int| 0 <= i < board.cells.len() implies step_spec(board).cells[i]
        == board.cells[i] by {
        crate::board::lemma_index_coordinates(i, board.width as int, board.height as int);
        lemma_dead_neighbors(board, i % (board.width as int), i / (board.width as int));
    }
    assert(step_spec(board).cells =~= board.cells);
}

} // verus!
