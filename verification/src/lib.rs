//! Conway's Game of Life on a torus, with a bounded history of generations,
//! a matcher for 5x5 glider motifs and an RGB compositor for the result.
//!
//! Every executable function carries a contract over the mathematical model
//! of its data: a board is a [`board::BoardView`], a history a
//! [`history::HistoryView`], a pattern library a set of numbers and a
//! detection result a set of cell positions.
//!
//! - [`board`]: the grid and its cells.
//! - [`life`]: the transition rule, and what holds of it at the edges.
//! - [`history`]: the last ten generations, newest first.
//! - [`pattern`]: shapes, their 25-bit patterns and the library of gliders.
//! - [`detect`]: the sliding window that finds the patterns of a library.
//! - [`glider`]: shapes placed on a board, and the glider on its way.
//! - [`render`]: the RGB buffer of a history.
//! - [`seed`]: the random first generation.
//! - [`engine`]: one frame, from a history to the next and its picture.
//! - [`shader`]: what is shared with the side that draws the picture.

pub mod board;
pub mod detect;
pub mod engine;
pub mod glider;
pub mod history;
pub mod life;
pub mod pattern;
pub mod render;
pub mod seed;
pub mod shader;
