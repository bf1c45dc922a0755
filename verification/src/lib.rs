//! Rules core of a two-player chess game: board representation, per-piece
//! pseudo-legal move generation, turn enforcement, capture resolution, and a
//! click-driven selection state machine.
//!
//! The core knows nothing about rendering or transport: it consumes coordinates
//! and returns snapshots and move-option sets. Callers that share a board
//! across threads wrap it in a lock of their own.

pub mod board;
pub mod figure;
pub mod game;
pub mod interact;
pub mod laws;
pub mod moves;
pub mod position;
pub mod threat;
pub mod turn;

pub use board::Board;
pub use figure::Figure;
pub use figure::FigureType;
pub use game::Game;
pub use game::Player;
pub use moves::MoveOptions;
pub use position::Position;
pub use turn::is_figures_turn;
