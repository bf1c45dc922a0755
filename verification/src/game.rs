//! Process-lifetime game state: one board and the human player's chosen
//! side.
//!
//! The core itself is single-threaded: callers that share a `Game` across
//! threads put each part behind a lock of their own and hold at most one of
//! the two locks at a time. All board reads and mutations then go through
//! the board's lock.

use vstd::prelude::*;

use crate::board::init_figures;
use crate::board::Board;

verus! {

/// The human player's chosen side.
#[derive(Clone, Copy, Debug)]
pub struct Player {
    pub white: bool,
}

impl Default for Player {
    /// A fresh player preference: not white until chosen otherwise.
    fn default() -> (r: Player)
        ensures
            r.white == false,
    {
        Player { white: false }
    }
}

impl Player {
    /// Overwrites the stored side preference.
    pub fn set_white(&mut self, white: bool)
        ensures
            final(self).white == white,
    {
        self.white = white;
    }
}

/// The whole game: the board and the player preference, created once at
/// process start and alive for the process lifetime.
pub struct Game {
    pub board: Board,
    pub player: Player,
}

impl Game {
    /// A fresh game: the standard initial position and a default player.
    pub fn init() -> (r: Game)
        ensures
            r.board.figures@ == init_figures(),
            r.board.round == 0,
            r.board.last_interacted_position is None,
            r.board.wf(),
            r.player.white == false,
    {
        Game { board: Board::init(), player: Player::default() }
    }
}

} // verus!
