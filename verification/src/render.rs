//! The compositor: a history and a set of detected cells become an RGB
//! buffer, three bytes to the cell, row by row.

use vstd::prelude::*;
use crate::board::{Board, BoardView};
use crate::detect::{detect, detect_spec, Detection};
use crate::history::{History, HistoryView};
use crate::pattern::PatternLibrary;

verus! {

/// The gray level of the background, and of each channel of white.
pub const WHITE: u8 = 255;

/// The difference in gray level between one generation and the next older.
pub const SHADE_STEP: u8 = 12;

/// The position of the newest generation, among those from position `from`
/// on, in which the cell at position `i` is alive; the number of
/// generations where there is none.
pub open spec fn newest_live(generations: Seq<BoardView>, i: int, from: nat) -> nat
    decreases generations.len() - from,
{
    if from >= generations.len() {
        generations.len()
    } else if generations[from as int].cells[i] {
        from
    } else {
        newest_live(generations, i, from + 1)
    }
}

/// The gray level of a cell last alive in the generation at position `rank`:
/// black for the newest, `SHADE_STEP` lighter for each generation back, and
/// never lighter than white.
pub open spec fn shade_spec(rank: nat) -> u8 {
    if rank * SHADE_STEP > WHITE {
        WHITE
    } else {
        (rank * SHADE_STEP) as u8
    }
}

/// The gray level of the cell at position `i` when only the generations
/// from position `from` on are drawn: that of the newest generation in
/// which the cell is alive, white where there is none.
pub open spec fn gray(generations: Seq<BoardView>, i: int, from: nat) -> u8 {
    let rank: nat = newest_live(generations, i, from);
    if rank < generations.len() {
        shade_spec(rank)
    } else {
        WHITE
    }
}

/// Channel `c` of red: red 255, green 0, blue 0.
pub open spec fn red(c: int) -> u8 {
    if c == 0 {
        255
    } else {
        0
    }
}

/// Byte `j` of the composed buffer: channel `j % 3` of cell `j / 3`. A cell
/// is gray by the newest generation in which it is alive; a detected cell
/// is red instead unless it is white.
pub open spec fn compose_byte(history: HistoryView, detected: Set<int>, j: int) -> u8 {
    let level: u8 = gray(history.generations, j / 3, 0);
    if detected.contains(j / 3) && level != WHITE {
        red(j % 3)
    } else {
        level
    }
}

/// The composed buffer: three bytes for each cell, row by row.
pub open spec fn compose_spec(history: HistoryView, detected: Set<int>) -> Seq<u8> {
    Seq::new(3 * (history.width * history.height), |j: int| compose_byte(history, detected, j))
}

/// The cells detected in the newest generation of a history; none where the
/// history is empty.
pub open spec fn detected_in(history: HistoryView, library: Set<nat>) -> Set<int> {
    if history.generations.len() == 0 {
        Set::empty()
    } else {
        detect_spec(history.generations[0], library)
    }
}

/// The newest generation in which a cell is alive: the cell is alive in
/// it, and dead in every newer generation from position `from` on.
pub proof fn lemma_newest_live(generations: Seq<BoardView>, i: int, from: nat)
    requires
        from <= generations.len(),
    ensures
        from <= newest_live(generations, i, from) <= generations.len(),
        newest_live(generations, i, from) < generations.len() ==> generations[newest_live(
            generations,
            i,
            from,
        ) as int].cells[i],
        forall|g: int|
            from <= g < newest_live(generations, i, from) ==> !(#[trigger] generations[g]).cells[i],
    decreases generations.len() - from,
{
    if from < generations.len() && !generations[from as int].cells[i] {
        lemma_newest_live(generations, i, from + 1);
    }
}

/// The gray level of a cell last alive in the generation at position `rank`.
pub fn shade(rank: usize) -> (level: u8)
    ensures
        level == shade_spec(rank as nat),
{
    if rank > 21 {
        WHITE
    } else {
        (rank * 12) as u8
    }
}

/// Paints every live cell of `board` in the given gray level.
fn paint(board: &Board, buffer: &mut Vec<u8>, level: u8)
    requires
        old(buffer)@.len() == 3 * board@.cells.len(),
    ensures
        final(buffer)@.len() == old(buffer)@.len(),
        forall|j: int|
            0 <= j < old(buffer)@.len() ==> final(buffer)@[j] == if board@.cells[j / 3] {
                level
            } else {
                old(buffer)@[j]
            },
{
    let count: usize = board.len();
    let total: usize = buffer.len();
    let mut i: usize = 0;
    while i < count
        invariant
            i <= count,
            count == board@.cells.len(),
            3 * count == total,
            buffer@.len() == 3 * count,
            buffer@.len() == old(buffer)@.len(),
            forall|j: int|
                0 <= j < 3 * i ==> buffer@[j] == if board@.cells[j / 3] {
                    level
                } else {
                    old(buffer)@[j]
                },
            forall|j: int| 3 * i <= j < buffer@.len() ==> buffer@[j] == old(buffer)@[j],
        decreases count - i,
    {
        if board.at_index(i) {
            buffer[3 * i] = level;
            buffer[3 * i + 1] = level;
            buffer[3 * i + 2] = level;
        }
        i += 1;
    }
}

/// The RGB buffer of a history and a set of detected cells.
///
/// The background is white. A cell is drawn in the gray of the newest
/// generation in which it is alive: black for the newest generation of the
/// history, lighter by [`SHADE_STEP`] for each generation back. A detected
/// cell is red, unless it is white: the background is never painted over.
pub fn compose(history: &History, detection: &Detection) -> (buffer: Vec<u8>)
    ensures
        buffer@ == compose_spec(history@, detection@),
{
    let width: u32 = history.width();
    let height: u32 = history.height();
    let count: usize = (width as usize) * (height as usize);
    let mut buffer: Vec<u8> = vec![WHITE; 3 * count];
    let mut from: usize = history.len();
    while from > 0
        invariant
            from <= history@.generations.len(),
            history@.wf(),
            count == history@.width * history@.height,
            buffer@.len() == 3 * count,
            forall|j: int|
                0 <= j < buffer@.len() ==> buffer@[j] == gray(
                    history@.generations,
                    j / 3,
                    from as nat,
                ),
        decreases from,
    {
        from -= 1;
        match history.generation(from) {
            Some(board) => {
                paint(board, &mut buffer, shade(from));
            },
            None => {},
        }
    }
    let mut i: usize = 0;
    while i < count
        invariant
            i <= count,
            count == history@.width * history@.height,
            3 * count <= usize::MAX,
            buffer@.len() == 3 * count,
            forall|j: int| 0 <= j < 3 * i ==> buffer@[j] == compose_byte(history@, detection@, j),
            forall|j: int|
                3 * i <= j < buffer@.len() ==> buffer@[j] == gray(history@.generations, j / 3, 0),
        decreases count - i,
    {
        if detection.contains(i) && buffer[3 * i] != WHITE {
            buffer[3 * i] = 255;
            buffer[3 * i + 1] = 0;
            buffer[3 * i + 2] = 0;
        }
        i += 1;
    }
    buffer
}

/// The RGB buffer of a history, with the motifs of the library in its
/// newest generation marked in red.
pub fn render_buffer(history: &History, library: &PatternLibrary) -> (buffer: Vec<u8>)
    ensures
        buffer@ == compose_spec(history@, detected_in(history@, library@)),
{
    let detection: Detection = match history.head() {
        Some(board) => detect(board, library),
        None => Detection::from_flags(Vec::new()),
    };
    compose(history, &detection)
}

} // verus!
