//! Rules engine for the board game Reversi: coordinates, the 8x8 board with
//! legal-move computation and disk flipping, and a game state machine with
//! history and undo.

pub mod board;
pub mod game;

use vstd::prelude::*;
use board::{Coord, Direction};

verus! {

/// The errors that may be generated by running a Reversi game.
#[derive(Debug, Clone, Copy, PartialEq, Eq, Structural)]
pub enum ReversiError {
    /// A coordinate was requested with a row or column outside `0..8`.
    OutOfBoundCoord(usize, usize),
    /// Stepping from a coordinate in a direction would leave the board.
    OutOfBoundStep(Coord, Direction),
    /// A move was attempted on a cell that is already taken.
    CellAlreadyTaken(Coord),
    /// A disk was looked for in a cell which is empty.
    EmptyCell(Coord),
    /// A move was attempted on a cell where it captures nothing.
    IllegalMove(Coord),
    /// There is no turn to undo.
    NoUndo,
    /// A move was attempted after the game ended.
    EndedGame,
}

/// The short description of each kind of error.
pub open spec fn description_of(e: ReversiError) -> Seq<char> {
    match e {
        ReversiError::OutOfBoundCoord(_, _) => "Out of bound coordinates"@,
        ReversiError::OutOfBoundStep(_, _) => "Out of bound step"@,
        ReversiError::CellAlreadyTaken(_) => "The cell you want to move to is already taken"@,
        ReversiError::EmptyCell(_) => "The cell you want is empty"@,
        ReversiError::IllegalMove(_) => "Illegal move"@,
        ReversiError::NoUndo => "Undoing is not possible"@,
        ReversiError::EndedGame => "The game is already ended"@,
    }
}

impl ReversiError {
    /// A short description of the kind of error.
    pub fn description(&self) -> (r: &'static str)
        ensures
            r@ == description_of(*self),
    {
        match *self {
            ReversiError::OutOfBoundCoord(_, _) => "Out of bound coordinates",
            ReversiError::OutOfBoundStep(_, _) => "Out of bound step",
            ReversiError::CellAlreadyTaken(_) => "The cell you want to move to is already taken",
            ReversiError::EmptyCell(_) => "The cell you want is empty",
            ReversiError::IllegalMove(_) => "Illegal move",
            ReversiError::NoUndo => "Undoing is not possible",
            ReversiError::EndedGame => "The game is already ended",
        }
    }
}

/// There are two sides in Reversi: `Dark` and `Light`.
#[derive(Debug, Clone, Copy, PartialEq, Eq, Structural)]
pub enum Side {
    Dark,
    Light,
}

/// The opposite of a side.
pub open spec fn opp(s: Side) -> Side {
    match s {
        Side::Dark => Side::Light,
        Side::Light => Side::Dark,
    }
}

impl Side {
    /// Get self's opposite side.
    pub fn opposite(&self) -> (r: Side)
        ensures
            r == opp(*self),
            r != *self,
    {
        match *self {
            Side::Dark => Side::Light,
            Side::Light => Side::Dark,
        }
    }
}

/// Taking the opposite side twice gives the side back, and no side is its own
/// opposite.
pub proof fn lemma_opposite_involution(s: Side)
    ensures
        opp(opp(s)) == s,
        opp(s) != s,
{
}

} // verus!
