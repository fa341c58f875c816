//! A chess rules engine: board representation, move legality (including
//! castling, en passant and promotion), check detection, legal-move
//! generation, and endgame classification (checkmate, stalemate, draws).
//!
//! The engine performs no I/O and never searches for moves: it is a pure
//! legality and state oracle for a presentation or session layer.

mod check_and_mate;
mod check_move;
mod checkmate;
mod core_struct;
mod game;
mod laws;
mod move_execution;
mod move_generation;
mod move_validation;
mod network;
mod utils;

pub use check_and_mate::{DrawReason, EndgameStatus, WinReason};
pub use core_struct::{Board, Color, Piece};
pub use game::{Game, GameState, PromotionPiece};
pub use move_generation::is_valid_position;
pub use move_validation::MoveError;
pub use network::{ClientMessage, ServerMessage};
pub use utils::{parse_move, BiRange};
