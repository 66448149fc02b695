use game_of_life::board::{Board, BoardError};
use game_of_life::history::{advance, History, CAPACITY};
use game_of_life::life::step;

fn marked_board(mark: usize) -> Board {
    let mut cells: Vec<bool> = vec![false; 30];
    cells[mark] = true;
    Board::from_cells(6, 5, cells).unwrap()
}

fn blinker_board() -> Board {
    let mut cells: Vec<bool> = vec![false; 100];
    cells[44] = true;
    cells[54] = true;
    cells[64] = true;
    Board::from_cells(10, 10, cells).unwrap()
}

#[test]
fn new_history_is_empty() {
    let history: History = History::new(6, 5).unwrap();
    assert_eq!(history.len(), 0);
    assert!(history.is_empty());
    assert_eq!(history.width(), 6);
    assert_eq!(history.height(), 5);
    assert!(history.head().is_none());
    assert!(history.generation(0).is_none());
    assert!(history.iter_trail().is_empty());
}

#[test]
fn new_history_rejects_bad_dimensions() {
    assert_eq!(History::new(0, 5).err(), Some(BoardError::ZeroDimension));
    assert_eq!(History::new(6, 0).err(), Some(BoardError::ZeroDimension));
    assert_eq!(History::new(65536, 65536).err(), Some(BoardError::TooLarge));
}

#[test]
fn capacity_is_ten() {
    assert_eq!(CAPACITY, 10);
}

#[test]
fn push_puts_the_board_in_front() {
    let mut history: History = History::new(6, 5).unwrap();
    history.push(marked_board(0));
    assert_eq!(history.len(), 1);
    assert!(!history.is_empty());
    assert_eq!(history.head(), Some(&marked_board(0)));
    history.push(marked_board(1));
    assert_eq!(history.len(), 2);
    assert_eq!(history.head(), Some(&marked_board(1)));
    assert_eq!(history.generation(0), Some(&marked_board(1)));
    assert_eq!(history.generation(1), Some(&marked_board(0)));
    assert_eq!(history.generation(2), None);
}

#[test]
fn push_drops_the_oldest_beyond_the_capacity() {
    let mut history: History = History::new(6, 5).unwrap();
    for mark in 0..10 {
        history.push(marked_board(mark));
        assert_eq!(history.len(), mark + 1);
    }
    assert_eq!(history.generation(9), Some(&marked_board(0)));
    history.push(marked_board(10));
    assert_eq!(history.len(), 10);
    assert_eq!(history.head(), Some(&marked_board(10)));
    assert_eq!(history.generation(9), Some(&marked_board(1)));
    for mark in 11..25 {
        history.push(marked_board(mark));
        assert_eq!(history.len(), 10);
        for i in 0..10 {
            assert_eq!(history.generation(i), Some(&marked_board(mark - i)));
        }
    }
}

#[test]
fn trail_runs_from_the_second_newest_to_the_oldest() {
    let mut history: History = History::new(6, 5).unwrap();
    history.push(marked_board(0));
    assert!(history.iter_trail().is_empty());
    history.push(marked_board(1));
    history.push(marked_board(2));
    history.push(marked_board(3));
    let trail: Vec<&Board> = history.iter_trail();
    assert_eq!(trail, vec![&marked_board(2), &marked_board(1), &marked_board(0)]);
}

#[test]
fn trail_of_a_full_history_has_nine_boards() {
    let mut history: History = History::new(6, 5).unwrap();
    for mark in 0..12 {
        history.push(marked_board(mark));
    }
    let trail: Vec<&Board> = history.iter_trail();
    assert_eq!(trail.len(), 9);
    assert_eq!(trail[0], &marked_board(10));
    assert_eq!(trail[8], &marked_board(2));
}

#[test]
fn advance_puts_the_next_generation_in_front() {
    let mut history: History = History::new(10, 10).unwrap();
    history.push(blinker_board());
    let history: History = advance(history);
    assert_eq!(history.len(), 2);
    assert_eq!(history.head(), Some(&step(&blinker_board())));
    assert_eq!(history.generation(1), Some(&blinker_board()));
}

#[test]
fn advance_leaves_an_empty_history_empty() {
    let history: History = advance(History::new(10, 10).unwrap());
    assert!(history.is_empty());
    assert_eq!(history.width(), 10);
    assert_eq!(history.height(), 10);
}

#[test]
fn history_is_full_after_more_than_ten_steps() {
    let mut history: History = History::new(10, 10).unwrap();
    history.push(blinker_board());
    let mut expected: Vec<Board> = vec![blinker_board()];
    for steps in 1..=25usize {
        history = advance(history);
        let next: Board = step(&expected[0]);
        expected.insert(0, next);
        assert_eq!(history.len(), if steps < 9 { steps + 1 } else { 10 });
        for i in 0..history.len() {
            assert_eq!(history.generation(i), Some(&expected[i]));
        }
        if steps > 10 {
            assert_eq!(history.len(), 10);
            assert!(history.generation(9).is_some());
            assert!(history.generation(10).is_none());
        }
    }
}

#[test]
fn history_keeps_the_ten_newest_of_a_glider() {
    let mut cells: Vec<bool> = vec![false; 64];
    for (x, y) in [(2usize, 1usize), (3, 2), (1, 3), (2, 3), (3, 3)] {
        cells[y * 8 + x] = true;
    }
    let first: Board = Board::from_cells(8, 8, cells).unwrap();
    let mut history: History = History::new(8, 8).unwrap();
    history.push(first.clone());
    for _ in 0..11 {
        history = advance(history);
    }
    // Eleven steps on, position 9 holds the board after two steps.
    let second: Board = step(&step(&first));
    assert_eq!(history.len(), 10);
    assert_eq!(history.generation(9), Some(&second));
    let mut newest: Board = first;
    for _ in 0..11 {
        newest = step(&newest);
    }
    assert_eq!(history.head(), Some(&newest));
}
