//! The traits a board variant implements.
use vstd::prelude::*;

verus! {

/// A variant: a board that can be read from a position string and that
/// generates its moves.
pub trait Variant: Board + MoveGen {
    /// The variant's name.
    const NAME: String;
}

/// A side of a board.
pub trait Side {}

/// A board state that can be read from a position string.
pub trait Board: Sized {
    /// The variant's move.
    type Move;

    /// Why a position string was refused.
    type Error;

    /// Reads a board from a position string.
    fn from_fen(fen: String) -> Result<Self, Self::Error>;
}

/// Generation of pseudo-legal moves for the side to move.
pub trait MoveGen {
    /// The variant's move.
    type Move;

    /// The board is consistent enough to generate from.
    spec fn valid(&self) -> bool;

    /// Moves that capture nothing.
    fn gen_quiet(&self) -> Vec<Self::Move>
        requires
            self.valid(),
    ;

    /// Moves that capture.
    fn gen_noisy(&self) -> Vec<Self::Move>
        requires
            self.valid(),
    ;
}

} // verus!
