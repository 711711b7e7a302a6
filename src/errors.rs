//! Errors that a move can meet.
use vstd::prelude::*;

verus! {

/// Why a move was refused.
#[derive(Clone, Copy, Debug, PartialEq, Eq)]
pub enum MoveError {
    /// Move made on other player's cell.
    OtherPlayersCell,
    /// Move made when it is not player's turn.
    NotCurrentPlayerMove,
    /// Move made outside board.
    MoveOutsideBoard,
    /// The explosions of the previous move have not settled yet.
    MoveNotComplete,
    /// The game is over.
    GameOver,
}

} // verus!
