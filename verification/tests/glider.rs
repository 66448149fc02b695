use game_of_life::board::{Board, BoardError};
use game_of_life::detect::detect;
use game_of_life::glider::place;
use game_of_life::life::step;
use game_of_life::pattern::{bent_glider, straight_glider, PatternLibrary};

fn live_positions(board: &Board) -> Vec<(u32, u32)> {
    let mut live: Vec<(u32, u32)> = Vec::new();
    for y in 0..board.height() {
        for x in 0..board.width() {
            if board.at(x, y) {
                live.push((x, y));
            }
        }
    }
    live
}

#[test]
fn place_puts_the_first_cell_of_the_shape_at_the_place() {
    let board: Board = place(&straight_glider(), 9, 8, 2, 3).unwrap();
    assert_eq!(board.width(), 9);
    assert_eq!(board.height(), 8);
    assert_eq!(
        live_positions(&board),
        vec![(4, 4), (5, 5), (3, 6), (4, 6), (5, 6)]
    );
}

#[test]
fn place_wraps_around_both_edges() {
    let board: Board = place(&straight_glider(), 6, 5, 4, 3).unwrap();
    // Offsets (2,1) (3,2) (1,3) (2,3) (3,3) from (4,3), modulo (6,5).
    assert_eq!(
        live_positions(&board),
        vec![(1, 0), (0, 1), (1, 1), (5, 1), (0, 4)]
    );
}

#[test]
fn place_beyond_the_board_goes_around_it() {
    let near: Board = place(&bent_glider(), 7, 6, 3, 2).unwrap();
    assert_eq!(place(&bent_glider(), 7, 6, 10, 8).unwrap(), near);
    assert_eq!(place(&bent_glider(), 7, 6, 3 + 7 * 1000, 2 + 6 * 999).unwrap(), near);
    assert_eq!(
        place(&bent_glider(), 7, 6, u32::MAX, u32::MAX).unwrap(),
        place(&bent_glider(), 7, 6, u32::MAX % 7, u32::MAX % 6).unwrap()
    );
}

#[test]
fn place_of_a_full_shape_fills_a_square() {
    let board: Board = place(&[true; 25], 6, 6, 1, 1).unwrap();
    for y in 0..6u32 {
        for x in 0..6u32 {
            assert_eq!(board.at(x, y), x >= 1 && y >= 1);
        }
    }
}

#[test]
fn place_rejects_a_board_smaller_than_the_shape() {
    assert_eq!(place(&straight_glider(), 4, 5, 0, 0).err(), Some(BoardError::TooSmall));
    assert_eq!(place(&straight_glider(), 5, 4, 0, 0).err(), Some(BoardError::TooSmall));
    assert_eq!(place(&straight_glider(), 1, 1, 0, 0).err(), Some(BoardError::TooSmall));
    assert!(place(&straight_glider(), 5, 5, 0, 0).is_ok());
}

#[test]
fn place_rejects_bad_dimensions() {
    assert_eq!(place(&straight_glider(), 0, 5, 0, 0).err(), Some(BoardError::ZeroDimension));
    assert_eq!(place(&straight_glider(), 5, 0, 0, 0).err(), Some(BoardError::ZeroDimension));
    assert_eq!(
        place(&straight_glider(), 65536, 65536, 0, 0).err(),
        Some(BoardError::TooLarge)
    );
}

#[test]
fn placed_glider_travels_wherever_it_starts() {
    for (width, height) in [(5u32, 5u32), (5, 9), (8, 5), (6, 7)] {
        for y0 in 0..height {
            for x0 in 0..width {
                let mut board: Board = place(&straight_glider(), width, height, x0, y0).unwrap();
                for _ in 0..4 {
                    board = step(&board);
                }
                let moved: Board =
                    place(&straight_glider(), width, height, (x0 + 1) % width, (y0 + 1) % height)
                        .unwrap();
                assert_eq!(board, moved);
            }
        }
    }
}

#[test]
fn bent_glider_becomes_the_straight_glider() {
    let bent: Board = place(&bent_glider(), 9, 9, 3, 4).unwrap();
    assert_eq!(step(&bent), place(&straight_glider(), 9, 9, 3, 4).unwrap());
}

#[test]
fn straight_glider_becomes_the_bent_glider_in_three_steps() {
    let mut board: Board = place(&straight_glider(), 9, 9, 3, 4).unwrap();
    for _ in 0..3 {
        board = step(&board);
    }
    assert_eq!(board, place(&bent_glider(), 9, 9, 4, 5).unwrap());
}

#[test]
fn boat_stands_still() {
    let mut boat: [bool; 25] = [false; 25];
    for k in [8usize, 12, 14, 17, 18] {
        boat[k] = true;
    }
    let board: Board = place(&boat, 6, 6, 0, 0).unwrap();
    let mut later: Board = step(&board);
    assert_eq!(later, board);
    for _ in 0..3 {
        later = step(&later);
    }
    assert_eq!(later, board);
    assert!(detect(&board, &PatternLibrary::gliders()).is_empty());
}

#[test]
fn placed_gliders_are_detected_cell_for_cell() {
    let library: PatternLibrary = PatternLibrary::gliders();
    for shape in [straight_glider(), bent_glider()] {
        for (width, height) in [(5u32, 5u32), (7, 6), (12, 5)] {
            for y0 in 0..height {
                for x0 in 0..width {
                    let board: Board = place(&shape, width, height, x0, y0).unwrap();
                    let live: Vec<usize> =
                        (0..board.len()).filter(|i| board.at_index(*i)).collect();
                    assert_eq!(live.len(), 5);
                    assert_eq!(detect(&board, &library).indices(), live);
                }
            }
        }
    }
}
