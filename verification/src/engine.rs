//! One frame of the engine: step the simulation if asked to, and draw it.

use vstd::prelude::*;
use crate::history::{advance, History, HistoryView};
use crate::pattern::PatternLibrary;
use crate::render::{compose_spec, detected_in, render_buffer};

verus! {

/// The history after a frame: one step on where the frame steps, else as it
/// was.
pub open spec fn frame_history(history: HistoryView, should_step: bool) -> HistoryView {
    if should_step {
        history.advance()
    } else {
        history
    }
}

/// One frame: the simulation is stepped where `should_step` says so, and
/// the history that results is drawn, with the motifs of the library in its
/// newest generation marked. The history and its picture are handed back.
pub fn frame(history: History, library: &PatternLibrary, should_step: bool) -> (next: (
    History,
    Vec<u8>,
))
    ensures
        next.0@ == frame_history(history@, should_step),
        next.1@ == compose_spec(next.0@, detected_in(next.0@, library@)),
{
    let history: History = if should_step {
        advance(history)
    } else {
        history
    };
    let buffer: Vec<u8> = render_buffer(&history, library);
    (history, buffer)
}

} // verus!
