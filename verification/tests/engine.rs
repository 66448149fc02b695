use game_of_life::board::Board;
use game_of_life::engine::frame;
use game_of_life::history::History;
use game_of_life::life::step;
use game_of_life::pattern::{straight_glider, PatternLibrary};
use game_of_life::render::render_buffer;

fn glider_history() -> History {
    let shape: [bool; 25] = straight_glider();
    let mut cells: Vec<bool> = vec![false; 64];
    for k in 0..25usize {
        if shape[k] {
            cells[(k / 5 + 1) * 8 + (k % 5 + 2)] = true;
        }
    }
    let mut history: History = History::new(8, 8).unwrap();
    history.push(Board::from_cells(8, 8, cells).unwrap());
    history
}

#[test]
fn frame_that_does_not_step_keeps_the_history() {
    let library: PatternLibrary = PatternLibrary::gliders();
    let expected: Vec<u8> = render_buffer(&glider_history(), &library);
    let (history, buffer): (History, Vec<u8>) = frame(glider_history(), &library, false);
    assert_eq!(history.len(), 1);
    assert_eq!(history.head(), glider_history().head());
    assert_eq!(buffer, expected);
    let red: usize = buffer.chunks(3).filter(|p| *p == [255u8, 0, 0]).count();
    assert_eq!(red, 5);
}

#[test]
fn frame_that_steps_draws_the_next_generation() {
    let library: PatternLibrary = PatternLibrary::gliders();
    let first: Board = glider_history().head().unwrap().clone();
    let (history, buffer): (History, Vec<u8>) = frame(glider_history(), &library, true);
    assert_eq!(history.len(), 2);
    assert_eq!(history.head(), Some(&step(&first)));
    assert_eq!(history.generation(1), Some(&first));
    assert_eq!(buffer, render_buffer(&history, &library));
    // The second generation of the glider is not in the library: its cells
    // are black, and those that the first generation alone held are gray.
    let black: usize = buffer.chunks(3).filter(|p| *p == [0u8, 0, 0]).count();
    let gray: usize = buffer.chunks(3).filter(|p| *p == [12u8, 12, 12]).count();
    let white: usize = buffer.chunks(3).filter(|p| *p == [255u8, 255, 255]).count();
    assert_eq!(black, 5);
    assert_eq!(gray, 2);
    assert_eq!(white, 64 - 7);
}

#[test]
fn frame_on_an_empty_history_is_white() {
    let library: PatternLibrary = PatternLibrary::gliders();
    let (history, buffer): (History, Vec<u8>) = frame(History::new(3, 3).unwrap(), &library, true);
    assert!(history.is_empty());
    assert_eq!(buffer, vec![255u8; 27]);
}
