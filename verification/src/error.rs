//! Error values shared across the library's public constructors.

use vstd::prelude::*;

verus! {

/// The ways a caller-supplied value can be rejected.
#[derive(Copy, Clone, Debug, PartialEq, Eq, Structural)]
pub enum GameError {
    /// Coordinates fall outside the board.
    InvalidCoords,
    /// A declared mine count exceeds the board's cell count.
    TooManyMines,
    /// A grid's dimensions do not match the declared board size.
    InvalidBoardShape,
    /// The game has ended and accepts no further moves.
    AlreadyEnded,
}

} // verus!
