//! The history: the last generations of one simulation, newest first.

use vstd::prelude::*;
use crate::board::{valid_dimensions, Board, BoardError, BoardView, MAX_CELLS};
use crate::life::{step, step_n, step_spec};

verus! {

/// The largest number of generations a history holds.
pub const CAPACITY: usize = 10;

/// The mathematical model of a history.
pub struct HistoryView {
    pub width: nat,
    pub height: nat,
    /// The generations held, the newest at position 0.
    pub generations: Seq<BoardView>,
}

impl HistoryView {
    /// The invariant of every history: at most [`CAPACITY`] boards, all of
    /// the dimensions of the history.
    pub open spec fn wf(self) -> bool {
        &&& valid_dimensions(self.width as int, self.height as int)
        &&& self.generations.len() <= CAPACITY
        &&& forall|i: int|
            0 <= i < self.generations.len() ==> {
                &&& (#[trigger] self.generations[i]).wf()
                &&& self.generations[i].width == self.width
                &&& self.generations[i].height == self.height
            }
    }

    /// The history after `board` has been put in front: where that makes
    /// more than [`CAPACITY`] generations, the oldest is dropped.
    pub open spec fn push(self, board: BoardView) -> HistoryView {
        let grown: Seq<BoardView> = seq![board] + self.generations;
        HistoryView {
            width: self.width,
            height: self.height,
            generations: if grown.len() > CAPACITY {
                grown.drop_last()
            } else {
                grown
            },
        }
    }

    /// The history after one step of the simulation: the successor of the
    /// newest generation is put in front. An empty history stays empty.
    pub open spec fn advance(self) -> HistoryView {
        if self.generations.len() == 0 {
            self
        } else {
            self.push(step_spec(self.generations[0]))
        }
    }

    /// The history after `n` steps of the simulation.
    pub open spec fn advance_n(self, n: nat) -> HistoryView
        decreases n,
    {
        if n == 0 {
            self
        } else {
            self.advance_n((n - 1) as nat).advance()
        }
    }
}

/// A bounded record of one simulation.
#[derive(Debug)]
pub struct History {
    width: u32,
    height: u32,
    boards: Vec<Board>,
}

impl View for History {
    type V = HistoryView;

    closed spec fn view(&self) -> HistoryView {
        HistoryView {
            width: self.width as nat,
            height: self.height as nat,
            generations: Seq::new(self.boards@.len(), |i: int| self.boards@[i]@),
        }
    }
}

impl History {
    #[verifier::type_invariant]
    spec fn inv(self) -> bool {
        self@.wf()
    }

    /// The empty history of boards of the given dimensions.
    pub fn new(width: u32, height: u32) -> (made: Result<History, BoardError>)
        ensures
            made is Ok <==> valid_dimensions(width as int, height as int),
            match made {
                Ok(history) => valid_dimensions(width as int, height as int) && history@ == (
                HistoryView {
                    width: width as nat,
                    height: height as nat,
                    generations: Seq::<BoardView>::empty(),
                }),
                Err(BoardError::ZeroDimension) => width == 0 || height == 0,
                Err(BoardError::TooLarge) => width > 0 && height > 0 && width * height > MAX_CELLS,
                Err(BoardError::LengthMismatch) => false,
                Err(BoardError::InvalidProbability) => false,
                Err(BoardError::TooSmall) => false,
            },
    {
        if width == 0 || height == 0 {
            return Err(BoardError::ZeroDimension);
        }
        assert(width * height <= 0xffff_ffff * 0xffff_ffff) by (nonlinear_arith)
            requires
                0 <= width <= 0xffff_ffff,
                0 <= height <= 0xffff_ffff,
        ;
        if (width as u64) * (height as u64) > MAX_CELLS as u64 {
            return Err(BoardError::TooLarge);
        }
        let history: History = History { width, height, boards: Vec::new() };
        assert(history@.generations =~= Seq::<BoardView>::empty());
        Ok(history)
    }

    /// The number of columns of every board of the history.
    pub fn width(&self) -> (width: u32)
        ensures
            width == self@.width,
            self@.wf(),
    {
        proof {
            use_type_invariant(self);
        }
        self.width
    }

    /// The number of rows of every board of the history.
    pub fn height(&self) -> (height: u32)
        ensures
            height == self@.height,
            self@.wf(),
    {
        proof {
            use_type_invariant(self);
        }
        self.height
    }

    /// The number of generations held.
    pub fn len(&self) -> (count: usize)
        ensures
            count == self@.generations.len(),
            count <= CAPACITY,
            self@.wf(),
    {
        proof {
            use_type_invariant(self);
        }
        self.boards.len()
    }

    /// Whether no generation is held.
    pub fn is_empty(&self) -> (empty: bool)
        ensures
            empty == (self@.generations.len() == 0),
    {
        self.boards.len() == 0
    }

    /// Puts `board` in front. Where that makes more than [`CAPACITY`]
    /// generations, the oldest is dropped.
    pub fn push(&mut self, board: Board)
        requires
            board@.width == old(self)@.width,
            board@.height == old(self)@.height,
        ensures
            final(self)@ == old(self)@.push(board@),
    {
        proof {
            use_type_invariant(&*self);
        }
        let ghost before: HistoryView = self@;
        let count: usize = board.len();
        assert(count == self.width * self.height);
        let mut boards: Vec<Board> = Vec::new();
        core::mem::swap(&mut self.boards, &mut boards);
        if boards.len() >= CAPACITY {
            boards.pop();
        }
        boards.insert(0, board);
        proof {
            assert forall|i: int| 0 <= i < boards@.len() implies (#[trigger] boards@[i])@.wf()
                && boards@[i]@.width == self.width && boards@[i]@.height == self.height by {
                if i > 0 {
                    assert(before.generations[i - 1].wf());
                }
            }
        }
        self.boards = boards;
        assert(self@.generations =~= before.push(board@).generations);
    }

    /// The newest generation, if there is one.
    pub fn head(&self) -> (newest: Option<&Board>)
        ensures
            match newest {
                Some(board) => self@.generations.len() > 0 && board@ == self@.generations[0],
                None => self@.generations.len() == 0,
            },
    {
        if self.boards.len() == 0 {
            None
        } else {
            Some(&self.boards[0])
        }
    }

    /// The generation at position `i`, the newest being at position 0.
    pub fn generation(&self, i: usize) -> (found: Option<&Board>)
        ensures
            match found {
                Some(board) => i < self@.generations.len() && board@ == self@.generations[i as int],
                None => i >= self@.generations.len(),
            },
    {
        if i < self.boards.len() {
            Some(&self.boards[i])
        } else {
            None
        }
    }

    /// The generations behind the newest, from the second newest to the
    /// oldest.
    pub fn iter_trail(&self) -> (trail: Vec<&Board>)
        ensures
            trail@.len() == if self@.generations.len() == 0 {
                0
            } else {
                self@.generations.len() - 1
            },
            forall|i: int| 0 <= i < trail@.len() ==> (#[trigger] trail@[i])@ == self@.generations[i + 1],
    {
        let mut trail: Vec<&Board> = Vec::new();
        let mut i: usize = 1;
        while i < self.boards.len()
            invariant
                1 <= i,
                i <= self.boards.len() || (i == 1 && self.boards.len() == 0),
                trail@.len() == i - 1,
                forall|j: int|
                    0 <= j < trail@.len() ==> (#[trigger] trail@[j])@ == self@.generations[j + 1],
            decreases self.boards.len() - i,
        {
            trail.push(&self.boards[i]);
            i += 1;
        }
        trail
    }
}

/// One step of the simulation: the successor of the newest generation is
/// put in front of the history. An empty history is handed back as it is.
pub fn advance(history: History) -> (next: History)
    ensures
        next@ == history@.advance(),
{
    let mut history: History = history;
    let successor: Option<Board> = if history.len() == 0 {
        None
    } else {
        match history.head() {
            Some(newest) => Some(step(newest)),
            None => None,
        }
    };
    match successor {
        Some(board) => {
            history.push(board);
        },
        None => {},
    }
    history
}

/// Putting a board in front keeps the invariant: the board is then the
/// newest generation, every other generation is one place older, and the
/// history never grows beyond its capacity.
pub proof fn lemma_push(history: HistoryView, board: BoardView)
    requires
        history.wf(),
        board.wf(),
        board.width == history.width,
        board.height == history.height,
    ensures
        history.push(board).wf(),
        history.push(board).width == history.width,
        history.push(board).height == history.height,
        history.push(board).generations.len() == if history.generations.len() < CAPACITY {
            history.generations.len() + 1
        } else {
            CAPACITY as nat
        },
        history.push(board).generations[0] == board,
        forall|i: int|
            1 <= i < history.push(board).generations.len() ==> history.push(board).generations[i]
                == history.generations[i - 1],
{
}

/// After `n` steps a history that held a board holds the last generations
/// of the simulation, newest first: position `i` holds the first board
/// stepped `n - i` times, and behind those stand the boards that the
/// history held before, as far as the capacity reaches.
pub proof fn lemma_advance_n(history: HistoryView, n: nat)
    requires
        history.wf(),
        history.generations.len() > 0,
    ensures
        history.advance_n(n).wf(),
        history.advance_n(n).width == history.width,
        history.advance_n(n).height == history.height,
        history.advance_n(n).generations.len() == if history.generations.len() + n < CAPACITY {
            history.generations.len() + n
        } else {
            CAPACITY as nat
        },
        forall|i: int|
            0 <= i < history.advance_n(n).generations.len() ==> #[trigger] history.advance_n(
                n,
            ).generations[i] == if i <= n {
                step_n(history.generations[0], (n - i) as nat)
            } else {
                history.generations[i - n]
            },
    decreases n,
{
    if n > 0 {
        let before: HistoryView = history.advance_n((n - 1) as nat);
        lemma_advance_n(history, (n - 1) as nat);
        let head: BoardView = before.generations[0];
        crate::life::lemma_step_n_wf(history.generations[0], n);
        lemma_push(before, step_spec(head));
    }
}

/// After more than ten steps a history that held a board is full: it holds
/// the ten newest generations, the newest at position 0 and the oldest
/// retained at position 9.
pub proof fn lemma_history_bound(history: HistoryView, n: nat)
    requires
        history.wf(),
        history.generations.len() > 0,
        n > CAPACITY,
    ensures
        history.advance_n(n).generations.len() == CAPACITY,
        forall|i: int|
            0 <= i < CAPACITY ==> #[trigger] history.advance_n(n).generations[i] == step_n(
                history.generations[0],
                (n - i) as nat,
            ),
{
    lemma_advance_n(history, n);
}

} // verus!
