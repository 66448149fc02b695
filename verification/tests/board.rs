use game_of_life::board::{index, Board, BoardError, MAX_CELLS};

#[test]
fn new_board_is_dead_and_has_its_dimensions() {
    let board: Board = Board::new(4, 3).unwrap();
    assert_eq!(board.width(), 4);
    assert_eq!(board.height(), 3);
    assert_eq!(board.len(), 12);
    assert_eq!(board.cells(), &vec![false; 12]);
    assert!(board.is_dead());
}

#[test]
fn new_board_rejects_zero_width() {
    assert_eq!(Board::new(0, 4).err(), Some(BoardError::ZeroDimension));
}

#[test]
fn new_board_rejects_zero_height() {
    assert_eq!(Board::new(4, 0).err(), Some(BoardError::ZeroDimension));
}

#[test]
fn new_board_rejects_zero_before_size() {
    assert_eq!(Board::new(0, u32::MAX).err(), Some(BoardError::ZeroDimension));
}

#[test]
fn new_board_rejects_too_many_cells() {
    assert_eq!(MAX_CELLS, u32::MAX / 3);
    assert_eq!(Board::new(MAX_CELLS + 1, 1).err(), Some(BoardError::TooLarge));
    assert_eq!(Board::new(65536, 65536).err(), Some(BoardError::TooLarge));
    assert_eq!(Board::new(u32::MAX, u32::MAX).err(), Some(BoardError::TooLarge));
}

#[test]
fn from_cells_keeps_the_cells() {
    let cells: Vec<bool> = vec![true, false, false, false, true, true];
    let board: Board = Board::from_cells(3, 2, cells.clone()).unwrap();
    assert_eq!(board.cells(), &cells);
    assert!(board.at(0, 0));
    assert!(!board.at(1, 0));
    assert!(!board.at(2, 0));
    assert!(!board.at(0, 1));
    assert!(board.at(1, 1));
    assert!(board.at(2, 1));
    assert!(board.at_index(4));
    assert!(!board.at_index(3));
    assert!(!board.is_dead());
}

#[test]
fn from_cells_rejects_a_wrong_length() {
    assert_eq!(
        Board::from_cells(3, 2, vec![false; 5]).err(),
        Some(BoardError::LengthMismatch)
    );
    assert_eq!(
        Board::from_cells(3, 2, vec![false; 7]).err(),
        Some(BoardError::LengthMismatch)
    );
}

#[test]
fn from_cells_rejects_bad_dimensions_first() {
    assert_eq!(
        Board::from_cells(0, 2, Vec::new()).err(),
        Some(BoardError::ZeroDimension)
    );
    assert_eq!(
        Board::from_cells(65536, 65536, Vec::new()).err(),
        Some(BoardError::TooLarge)
    );
}

#[test]
fn index_is_row_major() {
    assert_eq!(index(0, 0, 10), 0);
    assert_eq!(index(3, 0, 10), 3);
    assert_eq!(index(3, 2, 10), 23);
    assert_eq!(index(9, 9, 10), 99);
    assert_eq!(
        index(u32::MAX, u32::MAX, u32::MAX),
        u64::from(u32::MAX) * u64::from(u32::MAX) + u64::from(u32::MAX)
    );
}

#[test]
fn clone_is_equal_to_the_board() {
    let board: Board = Board::from_cells(2, 2, vec![true, false, false, true]).unwrap();
    let copy: Board = board.clone();
    assert_eq!(copy, board);
    assert_eq!(copy.width(), 2);
    assert_eq!(copy.height(), 2);
}
