//! Integer grid coordinates.
//!
//! A `Position` is a plain coordinate pair. The valid board range is
//! `[0, 8)` on both axes, but a `Position` itself does not enforce it:
//! move generation may legitimately enumerate off-board squares, and
//! consumers clip afterwards.

use vstd::prelude::*;

verus! {

/// A square on (or off) the board, identified by its coordinates alone.
#[derive(Clone, Copy, Debug, PartialEq, Eq, Structural)]
pub struct Position {
    pub x: i32,
    pub y: i32,
}

/// True when `p` lies on the 8x8 board.
pub open spec fn in_bounds(p: Position) -> bool {
    0 <= p.x < 8 && 0 <= p.y < 8
}

/// Coordinates the generator can safely step away from: every offset a piece
/// can reach is at most 7 squares, so this keeps all arithmetic inside `i32`.
pub open spec fn coord_in_range(c: int) -> bool {
    -0x4000_0000 <= c <= 0x4000_0000
}

/// The position with the given coordinates; a spec-level `Position::new`.
pub open spec fn pos_at(x: int, y: int) -> Position {
    Position { x: x as i32, y: y as i32 }
}

impl Position {
    /// Builds the position with the given coordinates.
    pub fn new(x: i32, y: i32) -> (r: Position)
        ensures
            r == (Position { x, y }),
    {
        Position { x, y }
    }
}

} // verus!
