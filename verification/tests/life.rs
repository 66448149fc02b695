use game_of_life::board::Board;
use game_of_life::life::{count_neighbors, rule, step};

fn board_with(width: u32, height: u32, live: &[(u32, u32)]) -> Board {
    let mut cells: Vec<bool> = vec![false; (width * height) as usize];
    for &(x, y) in live {
        cells[(y * width + x) as usize] = true;
    }
    Board::from_cells(width, height, cells).unwrap()
}

fn live_cells(board: &Board) -> Vec<(u32, u32)> {
    let mut live: Vec<(u32, u32)> = Vec::new();
    for y in 0..board.height() {
        for x in 0..board.width() {
            if board.at(x, y) {
                live.push((x, y));
            }
        }
    }
    live
}

#[test]
fn rule_is_b3_s23() {
    for n in 0u8..=8 {
        assert_eq!(rule(true, n), n == 2 || n == 3, "live cell with {} neighbors", n);
        assert_eq!(rule(false, n), n == 3, "dead cell with {} neighbors", n);
    }
}

#[test]
fn blinker_oscillates() {
    let vertical: Board = board_with(10, 10, &[(4, 4), (4, 5), (4, 6)]);
    let horizontal: Board = step(&vertical);
    assert_eq!(live_cells(&horizontal), vec![(3, 5), (4, 5), (5, 5)]);
    let again: Board = step(&horizontal);
    assert_eq!(live_cells(&again), vec![(4, 4), (4, 5), (4, 6)]);
    assert_eq!(again, vertical);
}

#[test]
fn step_leaves_its_input_alone() {
    let board: Board = board_with(10, 10, &[(4, 4), (4, 5), (4, 6)]);
    let copy: Board = board.clone();
    let _next: Board = step(&board);
    assert_eq!(board, copy);
}

#[test]
fn step_is_deterministic() {
    let board: Board = board_with(7, 6, &[(0, 0), (1, 0), (6, 5), (3, 3), (3, 4), (2, 4)]);
    assert_eq!(step(&board), step(&board));
}

#[test]
fn step_keeps_the_dimensions() {
    let next: Board = step(&board_with(7, 3, &[(1, 1)]));
    assert_eq!(next.width(), 7);
    assert_eq!(next.height(), 3);
    assert_eq!(next.len(), 21);
}

#[test]
fn dead_board_stays_dead() {
    let board: Board = Board::new(6, 5).unwrap();
    let next: Board = step(&board);
    assert!(next.is_dead());
    assert_eq!(next, board);
}

#[test]
fn first_column_counts_the_last_column() {
    let board: Board = board_with(6, 5, &[(5, 2)]);
    assert_eq!(count_neighbors(&board, 0, 1), 1);
    assert_eq!(count_neighbors(&board, 0, 2), 1);
    assert_eq!(count_neighbors(&board, 0, 3), 1);
    assert_eq!(count_neighbors(&board, 0, 0), 0);
    assert_eq!(count_neighbors(&board, 0, 4), 0);
    assert_eq!(count_neighbors(&board, 1, 2), 0);
}

#[test]
fn last_column_counts_the_first_column() {
    let board: Board = board_with(6, 5, &[(0, 2)]);
    assert_eq!(count_neighbors(&board, 5, 1), 1);
    assert_eq!(count_neighbors(&board, 5, 2), 1);
    assert_eq!(count_neighbors(&board, 5, 3), 1);
    assert_eq!(count_neighbors(&board, 4, 2), 0);
}

#[test]
fn corners_are_neighbors() {
    let board: Board = board_with(6, 5, &[(5, 4)]);
    assert_eq!(count_neighbors(&board, 0, 0), 1);
    let other: Board = board_with(6, 5, &[(0, 0)]);
    assert_eq!(count_neighbors(&other, 5, 4), 1);
    assert_eq!(count_neighbors(&other, 0, 4), 1);
    assert_eq!(count_neighbors(&other, 5, 0), 1);
}

#[test]
fn blinker_across_the_edge() {
    let vertical: Board = board_with(6, 6, &[(0, 1), (0, 2), (0, 3)]);
    let horizontal: Board = step(&vertical);
    assert_eq!(live_cells(&horizontal), vec![(0, 2), (1, 2), (5, 2)]);
    assert_eq!(step(&horizontal), vertical);
}

#[test]
fn neighbor_count_of_a_full_board_is_eight() {
    let board: Board = Board::from_cells(4, 4, vec![true; 16]).unwrap();
    assert_eq!(count_neighbors(&board, 0, 0), 8);
    assert_eq!(count_neighbors(&board, 2, 3), 8);
    assert!(step(&board).is_dead());
}

#[test]
fn single_cell_board_counts_itself_eight_times() {
    let board: Board = Board::from_cells(1, 1, vec![true]).unwrap();
    assert_eq!(count_neighbors(&board, 0, 0), 8);
    assert!(step(&board).is_dead());
}

#[test]
fn two_wide_board_counts_a_cell_at_each_position() {
    let board: Board = board_with(2, 3, &[(1, 1)]);
    // (1, 1) is both the western and the eastern neighbor of (0, y).
    assert_eq!(count_neighbors(&board, 0, 1), 2);
    assert_eq!(count_neighbors(&board, 0, 0), 2);
    assert_eq!(count_neighbors(&board, 1, 0), 1);
    assert_eq!(count_neighbors(&board, 1, 1), 0);
}

#[test]
fn block_is_a_still_life() {
    let block: Board = board_with(6, 6, &[(2, 2), (3, 2), (2, 3), (3, 3)]);
    assert_eq!(step(&block), block);
}

#[test]
fn lonely_cells_die_and_three_neighbors_give_birth() {
    let board: Board = board_with(8, 8, &[(1, 1), (2, 1), (1, 2), (6, 6)]);
    let next: Board = step(&board);
    assert_eq!(live_cells(&next), vec![(1, 1), (2, 1), (1, 2), (2, 2)]);
}

#[test]
fn glider_travels_one_cell_in_four_steps() {
    let glider: [(u32, u32); 5] = [(2, 1), (3, 2), (1, 3), (2, 3), (3, 3)];
    let placed: Vec<(u32, u32)> = glider.iter().map(|&(x, y)| (x + 2, y + 3)).collect();
    let moved: Vec<(u32, u32)> = glider.iter().map(|&(x, y)| (x + 3, y + 4)).collect();
    let mut board: Board = board_with(12, 11, &placed);
    for _ in 0..4 {
        board = step(&board);
    }
    assert_eq!(board, board_with(12, 11, &moved));
}

#[test]
fn glider_travels_across_the_edges() {
    let glider: [(u32, u32); 5] = [(2, 1), (3, 2), (1, 3), (2, 3), (3, 3)];
    let width: u32 = 7;
    let height: u32 = 6;
    for y0 in 0..height {
        for x0 in 0..width {
            let placed: Vec<(u32, u32)> = glider
                .iter()
                .map(|&(x, y)| ((x + x0) % width, (y + y0) % height))
                .collect();
            let moved: Vec<(u32, u32)> = glider
                .iter()
                .map(|&(x, y)| ((x + x0 + 1) % width, (y + y0 + 1) % height))
                .collect();
            let mut board: Board = board_with(width, height, &placed);
            for _ in 0..4 {
                board = step(&board);
            }
            assert_eq!(board, board_with(width, height, &moved));
        }
    }
}

#[test]
fn glider_travels_on_the_smallest_board_that_holds_it() {
    let glider: [(u32, u32); 5] = [(2, 1), (3, 2), (1, 3), (2, 3), (3, 3)];
    let moved: Vec<(u32, u32)> = glider.iter().map(|&(x, y)| ((x + 1) % 5, (y + 1) % 5)).collect();
    let mut board: Board = board_with(5, 5, &glider);
    for _ in 0..4 {
        board = step(&board);
    }
    assert_eq!(board, board_with(5, 5, &moved));
}

#[test]
fn glider_generations_one_by_one() {
    let mut board: Board = board_with(9, 9, &[(4, 3), (5, 4), (3, 5), (4, 5), (5, 5)]);
    board = step(&board);
    assert_eq!(live_cells(&board), vec![(3, 4), (5, 4), (4, 5), (5, 5), (4, 6)]);
    board = step(&board);
    assert_eq!(live_cells(&board), vec![(5, 4), (3, 5), (5, 5), (4, 6), (5, 6)]);
    board = step(&board);
    assert_eq!(live_cells(&board), vec![(4, 4), (5, 5), (6, 5), (4, 6), (5, 6)]);
    board = step(&board);
    assert_eq!(live_cells(&board), vec![(5, 4), (6, 5), (4, 6), (5, 6), (6, 6)]);
}
