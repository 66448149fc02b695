//! The first generation: every cell alive with a given chance.

use rand::Rng;
use vstd::prelude::*;
use crate::board::{valid_dimensions, Board, BoardError, MAX_CELLS};

verus! {

/// `rand::rngs::ThreadRng`, the handle that `rand::thread_rng` gives out.
/// Nothing is known of what it holds.
#[verifier::external_type_specification]
#[verifier::external_body]
pub struct ExThreadRng(rand::rngs::ThreadRng);

/// `rand::thread_rng`: a handle to the random number generator of the
/// calling thread, which the system seeds. Nothing is claimed of it. It
/// panics where the system has no randomness to seed it with.
#[verifier::external_body]
fn thread_rng() -> (rng: rand::rngs::ThreadRng) {
    rand::thread_rng()
}

/// `rand::Rng::gen_ratio`: `true` with a chance of `numerator` in
/// `denominator`. It panics where the denominator is zero or smaller than
/// the numerator, which the precondition rules out, and where the system
/// fails to reseed the generator, which nothing here can rule out. It
/// always gives `false` for a numerator of zero and `true` for a numerator
/// equal to the denominator; of any other draw nothing is claimed.
#[verifier::external_body]
fn gen_ratio(rng: &mut rand::rngs::ThreadRng, numerator: u32, denominator: u32) -> (hit: bool)
    requires
        denominator > 0,
        numerator <= denominator,
    ensures
        numerator == 0 ==> !hit,
        numerator == denominator ==> hit,
{
    rng.gen_ratio(numerator, denominator)
}

/// Whether `numerator` in `denominator` is a chance: a ratio between 0 and 1.
pub open spec fn valid_probability(numerator: int, denominator: int) -> bool {
    0 <= numerator <= denominator && 0 < denominator
}

/// A random board: each cell is alive with a chance of `numerator` in
/// `denominator`, independently of the others.
///
/// With a chance of 0 no cell is alive, with a chance of 1 every cell is.
/// The draws come from the random number generator of the calling thread,
/// and with it depend on the system's source of randomness.
pub fn initialize(width: u32, height: u32, numerator: u32, denominator: u32) -> (made: Result<
    Board,
    BoardError,
>)
    ensures
        made is Ok <==> valid_dimensions(width as int, height as int) && valid_probability(
            numerator as int,
            denominator as int,
        ),
        match made {
            Ok(board) => {
                &&& valid_dimensions(width as int, height as int)
                &&& valid_probability(numerator as int, denominator as int)
                &&& board@.wf()
                &&& board@.width == width
                &&& board@.height == height
                &&& numerator == 0 ==> board@.all_dead()
                &&& numerator == denominator ==> forall|i: int|
                    0 <= i < board@.cells.len() ==> board@.cells[i]
            },
            Err(BoardError::ZeroDimension) => width == 0 || height == 0,
            Err(BoardError::TooLarge) => width > 0 && height > 0 && width * height > MAX_CELLS,
            Err(BoardError::InvalidProbability) => valid_dimensions(width as int, height as int)
                && !valid_probability(numerator as int, denominator as int),
            Err(BoardError::LengthMismatch) => false,
            Err(BoardError::TooSmall) => false,
        },
{
    if width == 0 || height == 0 {
        return Err(BoardError::ZeroDimension);
    }
    assert(width * height <= 0xffff_ffff * 0xffff_ffff) by (nonlinear_arith)
        requires
            0 <= width <= 0xffff_ffff,
            0 <= height <= 0xffff_ffff,
    ;
    let count: u64 = (width as u64) * (height as u64);
    if count > MAX_CELLS as u64 {
        return Err(BoardError::TooLarge);
    }
    if denominator == 0 || numerator > denominator {
        return Err(BoardError::InvalidProbability);
    }
    let count: usize = count as usize;
    let mut rng: rand::rngs::ThreadRng = thread_rng();
    let mut cells: Vec<bool> = Vec::with_capacity(count);
    let mut i: usize = 0;
    while i < count
        invariant
            i <= count,
            cells@.len() == i,
            denominator > 0,
            numerator <= denominator,
            numerator == 0 ==> forall|j: int| 0 <= j < i ==> !cells@[j],
            numerator == denominator ==> forall|j: int| 0 <= j < i ==> cells@[j],
        decreases count - i,
    {
        let alive: bool = gen_ratio(&mut rng, numerator, denominator);
        cells.push(alive);
        i += 1;
    }
    Ok(Board::from_parts(width, height, cells))
}

} // verus!
