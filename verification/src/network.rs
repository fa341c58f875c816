//! The message vocabularies a network session layer exchanges with the
//! engine's results. The engine only supplies and consumes these values; the
//! session layer that moves them over a wire lives outside the engine.

use vstd::prelude::*;

use crate::check_and_mate::EndgameStatus;
use crate::game::PromotionPiece;

verus! {

/// What a client sends to the server hosting its match.
#[derive(Debug, Clone, Copy, PartialEq, Eq)]
pub enum ClientMessage {
    SendMove((usize, usize), (usize, usize), Option<PromotionPiece>),
    Resign,
    OfferDraw,
    AcceptDraw,
    DeclineDraw,
}

/// What the server sends back to a client.
#[derive(Debug, Clone, Copy, PartialEq, Eq)]
pub enum ServerMessage {
    MoveAccepted,
    MoveRejected,
    OpponentMove((usize, usize), (usize, usize), Option<PromotionPiece>),
    OfferDraw,
    AcceptDraw,
    DeclineDraw,
    GameOver(EndgameStatus),
}

} // verus!
