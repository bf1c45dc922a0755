//! Pieces: kind, position, side, alive flag, first-move flag.
//!
//! Captured pieces are never removed from the board's collection; they are
//! only marked dead, so indices stay stable and serve as piece identity.

use vstd::prelude::*;

use crate::position::Position;

verus! {

/// The closed set of piece kinds; a kind never changes after creation.
#[derive(Clone, Copy, Debug, PartialEq, Eq, Structural)]
pub enum FigureType {
    Pawn,
    King,
    Queen,
    Bishop,
    Knight,
    Rook,
}

/// One piece. `white` is its side, `alive` is cleared on capture, and
/// `first_move` is cleared the first time its position is mutated; it gates
/// the pawn's double step.
#[derive(Clone, Copy, Debug, PartialEq, Eq, Structural)]
pub struct Figure {
    pub kind: FigureType,
    pub position: Position,
    pub white: bool,
    pub alive: bool,
    pub first_move: bool,
}

/// `f` after relocating to `p`: the position changes and the first-move
/// flag is cleared; everything else is kept.
pub open spec fn moved_to(f: Figure, p: Position) -> Figure {
    Figure { position: p, first_move: false, ..f }
}

/// `f` after being captured: only the alive flag is cleared.
pub open spec fn killed(f: Figure) -> Figure {
    Figure { alive: false, ..f }
}

impl Figure {
    /// Builds a live figure of the given kind, position and side.
    pub fn new(kind: FigureType, position: Position, white: bool, first_move: bool) -> (r: Figure)
        ensures
            r == (Figure { kind, position, white, alive: true, first_move }),
    {
        Figure { kind, position, white, alive: true, first_move }
    }

    /// Relocates the figure and clears its first-move flag.
    pub fn set_position(&mut self, x: i32, y: i32)
        ensures
            *final(self) == moved_to(*old(self), Position { x, y }),
    {
        self.position.x = x;
        self.position.y = y;
        self.first_move = false;
    }
}

} // verus!
