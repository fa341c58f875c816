//! The move shape rules and the simple commit path under their older names:
//! `check_*` read the mover's color from the side to move rather than from the
//! board, `check_move` is the full validator, and `make_move` commits a
//! validated move against an externally held match state.

use vstd::prelude::*;

use crate::core_struct::{at, in_bounds, Board, Color, Piece};
use crate::game::{commit_state, ep_after, rights_after, GameState};
use crate::move_execution::{
    apply_grid, apply_ix, lemma_apply_preserves_wf, restored, undoable,
};
use crate::move_validation::{
    bishop_move_ok, castle_ok, ep_coherent, king_adjacent, knight_move_ok, lemma_gates_undoable,
    pawn_move_ok, queen_move_ok, rook_move_ok, spec_validate, MoveError,
};

verus! {

impl Board {
    /// Shape rule for a pawn of the side to move; same rule as
    /// [`Board::is_valid_pawn_move`] with the color taken from the turn.
    pub fn check_pawn_move(
        &self,
        start: (usize, usize),
        end: (usize, usize),
        game_state: &GameState,
    ) -> (r: bool)
        requires
            self@.dims(),
            in_bounds(start.0 as int, start.1 as int),
            in_bounds(end.0 as int, end.1 as int),
        ensures
            r == pawn_move_ok(
                self@.grid,
                game_state.en_passant,
                game_state.turn,
                start.0 as int,
                start.1 as int,
                end.0 as int,
                end.1 as int,
            ),
    {
        let color = game_state.turn;

        if color == Color::White {
            if start.0 + 1 == end.0 && (start.1 == end.1 + 1 || start.1 + 1 == end.1)
                && self.piece_at(end.0, end.1).is_some() {
                return true;
            }
            if let Some((file, en_passant_color)) = game_state.en_passant {
                if start.0 + 1 == end.0 && start.0 == 4 && (start.1 == end.1 + 1 || start.1 + 1
                    == end.1) && end.1 == file && en_passant_color == Color::Black {
                    return true;
                }
            }
            if end.1 != start.1 {
                return false;
            }
            if start.0 == 1 && end.0 == 3 && self.piece_at(2, start.1).is_none() && self.piece_at(
                3,
                start.1,
            ).is_none() {
                return true;
            }
            if start.0 + 1 == end.0 && self.piece_at(end.0, end.1).is_none() {
                return true;
            }
            false
        } else {
            if start.0 == end.0 + 1 && (start.1 == end.1 + 1 || start.1 + 1 == end.1)
                && self.piece_at(end.0, end.1).is_some() {
                return true;
            }
            if let Some((file, en_passant_color)) = game_state.en_passant {
                if start.0 == end.0 + 1 && start.0 == 3 && (start.1 == end.1 + 1 || start.1 + 1
                    == end.1) && end.1 == file && en_passant_color == Color::White {
                    return true;
                }
            }
            if end.1 != start.1 {
                return false;
            }
            if start.0 == 6 && end.0 == 4 && self.piece_at(5, start.1).is_none() && self.piece_at(
                4,
                start.1,
            ).is_none() {
                return true;
            }
            if start.0 == end.0 + 1 && self.piece_at(end.0, end.1).is_none() {
                return true;
            }
            false
        }
    }

    /// Shape rule for a knight; same as [`Board::is_valid_knight_move`].
    pub fn check_knight_move(&self, start: (usize, usize), end: (usize, usize)) -> (r: bool)
        ensures
            r == knight_move_ok(start.0 as int, start.1 as int, end.0 as int, end.1 as int),
    {
        self.is_valid_knight_move(start, end)
    }

    /// Shape rule for a bishop; same as [`Board::is_valid_bishop_move`].
    pub fn check_bishop_move(&self, start: (usize, usize), end: (usize, usize)) -> (r: bool)
        requires
            self@.dims(),
            in_bounds(start.0 as int, start.1 as int),
            in_bounds(end.0 as int, end.1 as int),
        ensures
            r == bishop_move_ok(
                self@.grid,
                start.0 as int,
                start.1 as int,
                end.0 as int,
                end.1 as int,
            ),
    {
        self.is_valid_bishop_move(start, end)
    }

    /// Shape rule for a rook; same as [`Board::is_valid_rook_move`].
    pub fn check_rook_move(&self, start: (usize, usize), end: (usize, usize)) -> (r: bool)
        requires
            self@.dims(),
            in_bounds(start.0 as int, start.1 as int),
            in_bounds(end.0 as int, end.1 as int),
        ensures
            r == rook_move_ok(
                self@.grid,
                start.0 as int,
                start.1 as int,
                end.0 as int,
                end.1 as int,
            ),
    {
        self.is_valid_rook_move(start, end)
    }

    /// Shape rule for a queen; same as [`Board::is_valid_queen_move`].
    pub fn check_queen_move(&self, start: (usize, usize), end: (usize, usize)) -> (r: bool)
        requires
            self@.dims(),
            in_bounds(start.0 as int, start.1 as int),
            in_bounds(end.0 as int, end.1 as int),
        ensures
            r == queen_move_ok(
                self@.grid,
                start.0 as int,
                start.1 as int,
                end.0 as int,
                end.1 as int,
            ),
    {
        self.is_valid_queen_move(start, end)
    }

    /// Shape rule for the side to move's king: one square in any direction, or
    /// castling for the side to move with every castling condition checked.
    pub fn check_king_move(
        &mut self,
        start: (usize, usize),
        end: (usize, usize),
        game_state: &GameState,
    ) -> (r: bool)
        requires
            old(self)@.dims(),
            in_bounds(start.0 as int, start.1 as int),
            in_bounds(end.0 as int, end.1 as int),
        ensures
            r == (king_adjacent(start.0 as int, start.1 as int, end.0 as int, end.1 as int)
                || castle_ok(
                old(self)@,
                *game_state,
                game_state.turn,
                start.0 as int,
                start.1 as int,
                end.0 as int,
                end.1 as int,
            )),
            final(self)@.grid == old(self)@.grid,
            final(self)@.dims(),
            old(self)@.wf() ==> restored(old(self)@, final(self)@),
    {
        let x_diff = if start.0 >= end.0 {
            start.0 - end.0
        } else {
            end.0 - start.0
        };
        let y_diff = if start.1 >= end.1 {
            start.1 - end.1
        } else {
            end.1 - start.1
        };
        if x_diff <= 1 && y_diff <= 1 {
            return true;
        }
        self.castle_check(game_state.turn, start, end, game_state)
    }

    /// Full move legality; answers exactly as [`Board::is_valid_move`]. The
    /// side to move's color coincides with the moving piece's color once the
    /// turn gate has passed, so the two validators agree on every input.
    pub fn check_move(
        &mut self,
        start: (usize, usize),
        end: (usize, usize),
        game_state: &GameState,
    ) -> (r: Result<(), MoveError>)
        requires
            old(self)@.wf(),
            ep_coherent(old(self)@, *game_state),
        ensures
            r == spec_validate(
                old(self)@,
                *game_state,
                start.0 as int,
                start.1 as int,
                end.0 as int,
                end.1 as int,
            ),
            final(self)@.grid == old(self)@.grid,
            restored(old(self)@, final(self)@),
    {
        self.is_valid_move(start, end, game_state)
    }

    /// Validate a move and, on success, commit it: castling rights and the
    /// en-passant window are updated from the piece about to leave `start`,
    /// the turn flips, and the move is applied to the board. A rejected move
    /// changes neither the board's position nor the match state.
    pub fn make_move(
        &mut self,
        start: (usize, usize),
        end: (usize, usize),
        game_state: &mut GameState,
    ) -> (r: Result<(), MoveError>)
        requires
            old(self)@.wf(),
            ep_coherent(old(self)@, *old(game_state)),
        ensures
            r is Ok <==> spec_validate(
                old(self)@,
                *old(game_state),
                start.0 as int,
                start.1 as int,
                end.0 as int,
                end.1 as int,
            ) is Ok,
            r is Err ==> r == spec_validate(
                old(self)@,
                *old(game_state),
                start.0 as int,
                start.1 as int,
                end.0 as int,
                end.1 as int,
            ) && final(self)@.grid == old(self)@.grid && restored(old(self)@, final(self)@)
                && *final(game_state) == *old(game_state),
            r is Ok ==> final(self)@.grid == apply_grid(
                old(self)@.grid,
                start.0 as int,
                start.1 as int,
                end.0 as int,
                end.1 as int,
            ) && final(self)@.wf() && *final(game_state) == commit_state(
                old(self)@.grid,
                *old(game_state),
                start.0 as int,
                start.1 as int,
                end.0 as int,
                end.1 as int,
            ),
    {
        let r = self.check_move(start, end, game_state);
        if let Err(e) = r {
            return Err(e);
        }
        let ghost v0 = old(self)@;
        let ghost v1 = self@;
        let ghost sr = start.0 as int;
        let ghost sc = start.1 as int;
        let ghost er = end.0 as int;
        let ghost ec = end.1 as int;
        // the validator accepted the move, so the gates below cannot fire;
        // rights and window are read from the still-unmoved piece
        if self.piece_at(start.0, start.1) == Some(Piece::King(Color::White)) {
            game_state.white_castle_king_side = false;
            game_state.white_castle_queen_side = false;
        } else if self.piece_at(start.0, start.1) == Some(Piece::Rook(Color::White)) {
            if start.0 == 0 && start.1 == 0 {
                game_state.white_castle_queen_side = false;
            } else if start.0 == 0 && start.1 == 7 {
                game_state.white_castle_king_side = false;
            }
        } else if self.piece_at(start.0, start.1) == Some(Piece::King(Color::Black)) {
            game_state.black_castle_king_side = false;
            game_state.black_castle_queen_side = false;
        } else if self.piece_at(start.0, start.1) == Some(Piece::Rook(Color::Black)) {
            if start.0 == 7 && start.1 == 0 {
                game_state.black_castle_queen_side = false;
            } else if start.0 == 7 && start.1 == 7 {
                game_state.black_castle_king_side = false;
            }
        }
        if self.piece_at(start.0, start.1) == Some(Piece::Pawn(Color::White)) && start.0 == 1
            && end.0 == 3 {
            game_state.en_passant = Some((start.1, Color::White));
        } else if self.piece_at(start.0, start.1) == Some(Piece::Pawn(Color::Black)) && start.0 == 6
            && end.0 == 4 {
            game_state.en_passant = Some((start.1, Color::Black));
        } else {
            game_state.en_passant = None;
        }
        game_state.turn = match game_state.turn {
            Color::White => Color::Black,
            Color::Black => Color::White,
        };
        proof {
            lemma_gates_undoable(v0, *old(game_state), sr, sc, er, ec);
            assert(undoable(v1, sr, sc, er, ec));
            assert(start != end) by {
                if start == end {
                    assert(sr == er && sc == ec);
                }
            }
            lemma_apply_preserves_wf(v1, sr, sc, er, ec);
        }
        self.move_piece(start, end);
        Ok(())
    }
}

} // verus!
