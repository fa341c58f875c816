//! Check detection under its older names: `verify_check` answers the same
//! question as `Board::is_king_in_check`, and the two reduced attack patterns
//! that have no ordinary move-shape rule are exposed as predicates of their
//! own.

use vstd::prelude::*;

use crate::check_and_mate::{check_result, pawn_attacks};
use crate::core_struct::{in_bounds, Board, Color};
use crate::move_validation::{king_adjacent, MoveError};

verus! {

impl Board {
    /// A pawn of `color` on `start` gives check to a king on `end`: only the
    /// two forward diagonals; never en passant, never a straight advance.
    pub fn check_pawn_check(&self, start: (usize, usize), end: (usize, usize), color: Color) -> (r:
        bool)
        requires
            in_bounds(start.0 as int, start.1 as int),
            in_bounds(end.0 as int, end.1 as int),
        ensures
            r == pawn_attacks(color, start.0 as int, start.1 as int, end.0 as int, end.1 as int),
    {
        if color == Color::White {
            start.0 + 1 == end.0 && (start.1 == end.1 + 1 || start.1 + 1 == end.1)
        } else {
            start.0 == end.0 + 1 && (start.1 == end.1 + 1 || start.1 + 1 == end.1)
        }
    }

    /// A king on `start` gives check to a king on `end`: one square away at
    /// most; castling can never give check this way.
    pub fn check_king_check(&self, start: (usize, usize), end: (usize, usize)) -> (r: bool)
        ensures
            r == king_adjacent(start.0 as int, start.1 as int, end.0 as int, end.1 as int),
    {
        let x_diff = if start.0 >= end.0 {
            start.0 - end.0
        } else {
            end.0 - start.0
        };
        let y_diff = if start.1 >= end.1 {
            start.1 - end.1
        } else {
            end.1 - start.1
        };
        x_diff <= 1 && y_diff <= 1
    }

    /// Whether `color`'s king is attacked; same answer as
    /// [`Board::is_king_in_check`].
    pub fn verify_check(&self, color: Color) -> (r: Result<bool, MoveError>)
        requires
            self@.dims(),
        ensures
            r == check_result(self@, color),
    {
        self.is_king_in_check(color)
    }
}

} // verus!
