//! The motif detector: a 5x5 window slides over the torus, and where its
//! pattern is in the library its live cells are marked.

use vstd::prelude::*;
use crate::board::{cell_index, lemma_cell_index, Board, BoardView};
use crate::life::lemma_dimension_bounds;
use crate::pattern::{encode, encode_spec, PatternLibrary, SHAPE_CELLS};

verus! {

/// The row-major position, on a torus `width` by `height`, of cell `k` of
/// the window anchored at `(ax, ay)`. The window is scanned row by row.
pub open spec fn window_index(width: int, height: int, ax: int, ay: int, k: int) -> int {
    cell_index((ax + k % 5) % width, (ay + k / 5) % height, width)
}

/// The 5x5 window anchored at `(ax, ay)`, row by row.
pub open spec fn window(board: BoardView, ax: int, ay: int) -> Seq<bool> {
    Seq::new(
        SHAPE_CELLS as nat,
        |k: int| board.cells[window_index(board.width as int, board.height as int, ax, ay, k)],
    )
}

/// Whether the pattern of the window anchored at `(ax, ay)` is in the library.
pub open spec fn matches_at(board: BoardView, library: Set<nat>, ax: int, ay: int) -> bool {
    library.contains(encode_spec(window(board, ax, ay)))
}

/// Whether the cell at position `i` lies in the window anchored at `(ax, ay)`.
pub open spec fn in_window(board: BoardView, ax: int, ay: int, i: int) -> bool {
    exists|k: int|
        0 <= k < SHAPE_CELLS && #[trigger] window_index(
            board.width as int,
            board.height as int,
            ax,
            ay,
            k,
        ) == i
}

/// Whether the window anchored at `(ax, ay)` marks the cell at position `i`:
/// the window matches, and the cell is a live cell of it.
pub open spec fn marks(board: BoardView, library: Set<nat>, ax: int, ay: int, i: int) -> bool {
    matches_at(board, library, ax, ay) && board.cells[i] && in_window(board, ax, ay, i)
}

/// Whether some window anchored on the board marks the cell at position `i`.
pub open spec fn marked(board: BoardView, library: Set<nat>, i: int) -> bool {
    exists|ax: int, ay: int|
        0 <= ax < board.width && 0 <= ay < board.height && #[trigger] marks(
            board,
            library,
            ax,
            ay,
            i,
        )
}

/// The positions of the cells that belong to a detected motif.
pub open spec fn detect_spec(board: BoardView, library: Set<nat>) -> Set<int> {
    Set::new(|i: int| 0 <= i < board.cells.len() && marked(board, library, i))
}

/// Every cell of a window is a cell of the board.
pub proof fn lemma_window_index(width: int, height: int, ax: int, ay: int, k: int)
    requires
        0 < width,
        0 < height,
        0 <= ax,
        0 <= ay,
        0 <= k < SHAPE_CELLS,
    ensures
        0 <= (ax + k % 5) % width < width,
        0 <= (ay + k / 5) % height < height,
        0 <= window_index(width, height, ax, ay, k) < width * height,
{
    vstd::arithmetic::div_mod::lemma_mod_bound(ax + k % 5, width);
    vstd::arithmetic::div_mod::lemma_mod_bound(ay + k / 5, height);
    lemma_cell_index((ax + k % 5) % width, (ay + k / 5) % height, width, height);
}

/// Only live cells are detected.
pub proof fn lemma_detected_cells_live(board: BoardView, library: Set<nat>, i: int)
    requires
        detect_spec(board, library).contains(i),
    ensures
        0 <= i < board.cells.len(),
        board.cells[i],
{
}

/// On a board without a live cell nothing is detected.
pub proof fn lemma_detect_dead(board: BoardView, library: Set<nat>)
    requires
        board.all_dead(),
    ensures
        detect_spec(board, library) == Set::<int>::empty(),
{
}

/// A set of cells of a board, by their row-major positions.
#[derive(Debug)]
pub struct Detection {
    flags: Vec<bool>,
}

impl View for Detection {
    type V = Set<int>;

    closed spec fn view(&self) -> Set<int> {
        Set::new(|i: int| 0 <= i < self.flags@.len() && self.flags@[i])
    }
}

impl Detection {
    /// The set of the positions at which `flags` holds `true`.
    pub fn from_flags(flags: Vec<bool>) -> (detection: Detection)
        ensures
            detection@ == Set::new(|i: int| 0 <= i < flags@.len() && flags@[i]),
    {
        Detection { flags }
    }

    /// Whether the cell at position `i` is in the set.
    pub fn contains(&self, i: usize) -> (found: bool)
        ensures
            found == self@.contains(i as int),
    {
        i < self.flags.len() && self.flags[i]
    }

    /// Whether the set is empty.
    pub fn is_empty(&self) -> (empty: bool)
        ensures
            empty == (self@ == Set::<int>::empty()),
    {
        let mut i: usize = 0;
        while i < self.flags.len()
            invariant
                i <= self.flags.len(),
                forall|j: int| 0 <= j < i ==> !self.flags@[j],
            decreases self.flags.len() - i,
        {
            if self.flags[i] {
                assert(self@.contains(i as int));
                return false;
            }
            i += 1;
        }
        assert(self@ =~= Set::<int>::empty());
        true
    }

    /// The positions in the set, in ascending order.
    pub fn indices(&self) -> (indices: Vec<usize>)
        ensures
            forall|j: int| 0 <= j < indices@.len() ==> self@.contains(#[trigger] indices@[j] as int),
            forall|i: int|
                self@.contains(i) ==> exists|j: int|
                    0 <= j < indices@.len() && #[trigger] indices@[j] == i,
            forall|j: int, k: int|
                0 <= j < k < indices@.len() ==> #[trigger] indices@[j] < #[trigger] indices@[k],
    {
        let mut indices: Vec<usize> = Vec::new();
        let mut i: usize = 0;
        while i < self.flags.len()
            invariant
                i <= self.flags.len(),
                forall|j: int|
                    0 <= j < indices@.len() ==> self@.contains(#[trigger] indices@[j] as int)
                        && indices@[j] < i,
                forall|c: int|
                    0 <= c < i && self@.contains(c) ==> exists|j: int|
                        0 <= j < indices@.len() && #[trigger] indices@[j] == c,
                forall|j: int, k: int|
                    0 <= j < k < indices@.len() ==> #[trigger] indices@[j] < #[trigger] indices@[k],
            decreases self.flags.len() - i,
        {
            if self.flags[i] {
                let ghost before: Seq<usize> = indices@;
                indices.push(i);
                assert forall|c: int| 0 <= c < i + 1 && self@.contains(c) implies exists|j: int|
                    0 <= j < indices@.len() && #[trigger] indices@[j] == c by {
                    if c < i {
                        let j: int = choose|j: int|
                            0 <= j < before.len() && #[trigger] before[j] == c;
                        assert(indices@[j] == c);
                    } else {
                        assert(indices@[before.len() as int] == c);
                    }
                }
            }
            i += 1;
        }
        indices
    }
}

/// The pattern of the window anchored at `(ax, ay)`.
pub fn window_pattern(board: &Board, ax: u32, ay: u32) -> (pattern: u32)
    requires
        ax < board@.width,
        ay < board@.height,
    ensures
        pattern == encode_spec(window(board@, ax as int, ay as int)),
{
    let width: u32 = board.width();
    let height: u32 = board.height();
    proof {
        lemma_dimension_bounds(width as int, height as int);
    }
    let mut shape: [bool; 25] = [false; 25];
    let mut k: usize = 0;
    while k < SHAPE_CELLS
        invariant
            k <= SHAPE_CELLS,
            board@.wf(),
            width == board@.width,
            height == board@.height,
            ax < width <= crate::board::MAX_CELLS,
            ay < height <= crate::board::MAX_CELLS,
            forall|j: int|
                0 <= j < k ==> shape@[j] == board@.cells[window_index(
                    width as int,
                    height as int,
                    ax as int,
                    ay as int,
                    j,
                )],
        decreases SHAPE_CELLS - k,
    {
        proof {
            lemma_window_index(width as int, height as int, ax as int, ay as int, k as int);
        }
        let x: u32 = (ax + (k % 5) as u32) % width;
        let y: u32 = (ay + (k / 5) as u32) % height;
        shape[k] = board.at(x, y);
        k += 1;
    }
    assert(shape@ =~= window(board@, ax as int, ay as int));
    encode(&shape)
}

/// Sets the flag of every live cell of the window anchored at `(ax, ay)`.
fn flag_window(board: &Board, flags: &mut Vec<bool>, ax: u32, ay: u32)
    requires
        ax < board@.width,
        ay < board@.height,
        old(flags)@.len() == board@.cells.len(),
    ensures
        final(flags)@.len() == old(flags)@.len(),
        forall|i: int|
            0 <= i < old(flags)@.len() ==> final(flags)@[i] == (old(flags)@[i] || (board@.cells[i]
                && in_window(board@, ax as int, ay as int, i))),
{
    let width: u32 = board.width();
    let height: u32 = board.height();
    proof {
        lemma_dimension_bounds(width as int, height as int);
    }
    let mut k: usize = 0;
    while k < SHAPE_CELLS
        invariant
            k <= SHAPE_CELLS,
            board@.wf(),
            width == board@.width,
            height == board@.height,
            ax < width <= crate::board::MAX_CELLS,
            ay < height <= crate::board::MAX_CELLS,
            flags@.len() == old(flags)@.len() == board@.cells.len(),
            forall|i: int|
                0 <= i < flags@.len() ==> flags@[i] == (old(flags)@[i] || (board@.cells[i]
                    && exists|j: int|
                    0 <= j < k && #[trigger] window_index(
                        width as int,
                        height as int,
                        ax as int,
                        ay as int,
                        j,
                    ) == i)),
        decreases SHAPE_CELLS - k,
    {
        proof {
            lemma_window_index(width as int, height as int, ax as int, ay as int, k as int);
        }
        let x: u32 = (ax + (k % 5) as u32) % width;
        let y: u32 = (ay + (k / 5) as u32) % height;
        let at: usize = crate::board::index(x, y, width) as usize;
        if board.at_index(at) {
            flags[at] = true;
        }
        k += 1;
    }
}

/// Whether the anchor `(ax, ay)` comes before `(x, y)` when anchors are
/// taken row by row.
pub open spec fn anchor_before(ax: int, ay: int, x: int, y: int) -> bool {
    ay < y || (ay == y && ax < x)
}

/// Whether a window anchored before `(x, y)` marks the cell at position `i`.
pub open spec fn marked_before(
    board: BoardView,
    library: Set<nat>,
    x: int,
    y: int,
    i: int,
) -> bool {
    exists|ax: int, ay: int|
        0 <= ax < board.width && 0 <= ay < board.height && anchor_before(ax, ay, x, y)
            && #[trigger] marks(board, library, ax, ay, i)
}

/// The cells that belong to a motif of the library: every window of the
/// torus is compared, and each live cell of a matching window is in the
/// result.
pub fn detect(board: &Board, library: &PatternLibrary) -> (detection: Detection)
    ensures
        detection@ == detect_spec(board@, library@),
{
    let width: u32 = board.width();
    let height: u32 = board.height();
    let count: usize = board.len();
    let mut flags: Vec<bool> = vec![false; count];
    let mut y: u32 = 0;
    while y < height
        invariant
            y <= height,
            board@.wf(),
            width == board@.width,
            height == board@.height,
            flags@.len() == board@.cells.len(),
            forall|i: int|
                0 <= i < flags@.len() ==> flags@[i] == marked_before(
                    board@,
                    library@,
                    0,
                    y as int,
                    i,
                ),
        decreases height - y,
    {
        let mut x: u32 = 0;
        while x < width
            invariant
                x <= width,
                y < height,
                board@.wf(),
                width == board@.width,
                height == board@.height,
                flags@.len() == board@.cells.len(),
                forall|i: int|
                    0 <= i < flags@.len() ==> flags@[i] == marked_before(
                        board@,
                        library@,
                        x as int,
                        y as int,
                        i,
                    ),
            decreases width - x,
        {
            let pattern: u32 = window_pattern(board, x, y);
            let matched: bool = library.contains(pattern);
            let ghost before: Seq<bool> = flags@;
            if matched {
                flag_window(board, &mut flags, x, y);
            }
            proof {
                assert forall|i: int| 0 <= i < flags@.len() implies flags@[i] == marked_before(
                    board@,
                    library@,
                    x + 1,
                    y as int,
                    i,
                ) by {
                    assert(flags@[i] == (before[i] || marks(board@, library@, x as int, y as int, i)));
                }
            }
            x += 1;
        }
        y += 1;
    }
    let detection: Detection = Detection::from_flags(flags);
    detection
}

} // verus!
