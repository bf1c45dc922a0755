//! The turn rule: white moves on even rounds, black on odd rounds.

use vstd::prelude::*;

verus! {

/// Turn parity: the side `white` is to move in round `round`. The round
/// counter's parity is the single source of truth for whose interaction
/// requests are accepted.
pub open spec fn side_to_move(white: bool, round: int) -> bool {
    white == (round % 2 == 0)
}

/// True when the side `white` is to move in round `round`.
pub fn is_figures_turn(white: bool, round: i32) -> (r: bool)
    ensures
        r == side_to_move(white, round as int),
{
    white == (round % 2 == 0)
}

} // verus!
