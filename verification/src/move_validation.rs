//! Per-piece-kind move shape rules: reachability and blocking predicates for
//! pawns, knights, bishops, rooks, queens and kings, together with the
//! categorical errors a move can be rejected with.
//!
//! Each executable check is specified against a spec-level predicate over the
//! board's grid; the full validator combines them with the turn, occupancy and
//! king-safety rules.

use vstd::prelude::*;

use crate::check_and_mate::{
    attacks, check_result, in_check, king_bucket, king_square, lemma_check_congruence,
    pawn_attacks,
};
use crate::core_struct::{at, in_bounds, pid, piece_of, Board, BoardView, Color, Piece};
use crate::game::GameState;
use crate::move_execution::{
    apply_view, lemma_apply_preserves_wf, lemma_apply_then_revert, lemma_king_step_roundtrip_grid,
    restored, taken_rec, undoable,
};

verus! {

/// Why a move (or a promotion request) is rejected. The first nine are
/// ordinary, recoverable rejections; `KingNotFound` and `MultipleKings`
/// signal a corrupted board and never occur under the engine's own mutation
/// discipline.
#[derive(Debug, Clone, Copy, PartialEq, Eq, Structural)]
pub enum MoveError {
    OutOfBounds,
    EmptySource,
    WrongSideToMove,
    OccupiedByOwnColor,
    ShapeIllegal,
    LeavesKingInCheck,
    PromotionPending,
    GameAlreadyOver,
    NoPromotionPending,
    WrongSideForPromotion,
    KingNotFound,
    MultipleKings,
}

/// Distance between two coordinates.
pub open spec fn dist(a: int, b: int) -> int {
    if a >= b {
        a - b
    } else {
        b - a
    }
}

/// `x` lies strictly between `a` and `b`, in whichever order they stand.
pub open spec fn between(a: int, b: int, x: int) -> bool {
    (a < x && x < b) || (b < x && x < a)
}

/// The row of the `k`-th square on the open diagonal from `sr` toward `er`.
pub open spec fn diag_step(s: int, e: int, k: int) -> int {
    if e > s {
        s + k
    } else {
        s - k
    }
}

/// A pawn move of `color` from `(sr, sc)` to `(er, ec)` is shape-legal: a
/// diagonal capture onto an occupied square, an en-passant capture matching
/// the en-passant window `ep`, a double step from the starting rank through
/// two empty squares, or a single forward step onto an empty square.
pub open spec fn pawn_move_ok(
    g: Seq<Option<Piece>>,
    ep: Option<(usize, Color)>,
    color: Color,
    sr: int,
    sc: int,
    er: int,
    ec: int,
) -> bool {
    if color == Color::White {
        ||| (er == sr + 1 && (sc == ec + 1 || sc + 1 == ec) && at(g, er, ec) is Some)
        ||| (match ep {
            Some(t) => er == sr + 1 && sr == 4 && (sc == ec + 1 || sc + 1 == ec) && ec == t.0
                && t.1 == Color::Black,
            None => false,
        })
        ||| (ec == sc && sr == 1 && er == 3 && at(g, 2, sc) is None && at(g, 3, sc) is None)
        ||| (ec == sc && er == sr + 1 && at(g, er, ec) is None)
    } else {
        ||| (sr == er + 1 && (sc == ec + 1 || sc + 1 == ec) && at(g, er, ec) is Some)
        ||| (match ep {
            Some(t) => sr == er + 1 && sr == 3 && (sc == ec + 1 || sc + 1 == ec) && ec == t.0
                && t.1 == Color::White,
            None => false,
        })
        ||| (ec == sc && sr == 6 && er == 4 && at(g, 5, sc) is None && at(g, 4, sc) is None)
        ||| (ec == sc && sr == er + 1 && at(g, er, ec) is None)
    }
}

/// A knight move is shape-legal: the coordinate deltas are (1, 2) or (2, 1).
pub open spec fn knight_move_ok(sr: int, sc: int, er: int, ec: int) -> bool {
    (dist(sr, er) == 1 && dist(sc, ec) == 2) || (dist(sr, er) == 2 && dist(sc, ec) == 1)
}

/// A bishop move is shape-legal: equal coordinate deltas, and no occupied
/// square strictly between start and end on the diagonal.
pub open spec fn bishop_move_ok(g: Seq<Option<Piece>>, sr: int, sc: int, er: int, ec: int) -> bool {
    dist(sr, er) == dist(sc, ec) && (forall|k: int|
        1 <= k < dist(sr, er) ==> at(g, #[trigger] diag_step(sr, er, k), diag_step(sc, ec, k))
            is None)
}

/// A rook move is shape-legal: along one row or one column, with no occupied
/// square strictly between start and end.
pub open spec fn rook_move_ok(g: Seq<Option<Piece>>, sr: int, sc: int, er: int, ec: int) -> bool {
    &&& (sr == er || sc == ec)
    &&& (sr == er ==> forall|x: int| between(sc, ec, x) ==> #[trigger] at(g, sr, x) is None)
    &&& (sc == ec ==> forall|x: int| between(sr, er, x) ==> #[trigger] at(g, x, sc) is None)
}

/// A queen move is shape-legal: a bishop move or a rook move.
pub open spec fn queen_move_ok(g: Seq<Option<Piece>>, sr: int, sc: int, er: int, ec: int) -> bool {
    bishop_move_ok(g, sr, sc, er, ec) || rook_move_ok(g, sr, sc, er, ec)
}

/// A plain king step is shape-legal: at most one square in each direction.
pub open spec fn king_adjacent(sr: int, sc: int, er: int, ec: int) -> bool {
    dist(sr, er) <= 1 && dist(sc, ec) <= 1
}

impl Board {
    /// Shape rule for a pawn standing on `start`, whose color is read from the
    /// board.
    pub fn is_valid_pawn_move(
        &self,
        start: (usize, usize),
        end: (usize, usize),
        game_state: &GameState,
    ) -> (r: bool)
        requires
            self@.dims(),
            in_bounds(start.0 as int, start.1 as int),
            in_bounds(end.0 as int, end.1 as int),
            at(self@.grid, start.0 as int, start.1 as int) is Some,
        ensures
            r == pawn_move_ok(
                self@.grid,
                game_state.en_passant,
                at(self@.grid, start.0 as int, start.1 as int)->0.color_spec(),
                start.0 as int,
                start.1 as int,
                end.0 as int,
                end.1 as int,
            ),
    {
        let color = self.piece_at(start.0, start.1).unwrap().color();

        if color == Color::White {
            // a normal diagonal capture
            if start.0 + 1 == end.0 && (start.1 == end.1 + 1 || start.1 + 1 == end.1)
                && self.piece_at(end.0, end.1).is_some() {
                return true;
            }
            // an en-passant capture
            if let Some((file, en_passant_color)) = game_state.en_passant {
                if start.0 + 1 == end.0 && start.0 == 4 && (start.1 == end.1 + 1 || start.1 + 1
                    == end.1) && end.1 == file && en_passant_color == Color::Black {
                    return true;
                }
            }
            // otherwise pawns only move straight ahead
            if end.1 != start.1 {
                return false;
            }
            // a double step from the starting rank
            if start.0 == 1 && end.0 == 3 && self.piece_at(2, start.1).is_none() && self.piece_at(
                3,
                start.1,
            ).is_none() {
                return true;
            }
            // a single step onto an empty square
            if start.0 + 1 == end.0 && self.piece_at(end.0, end.1).is_none() {
                return true;
            }
            false
        } else {
            if start.0 == end.0 + 1 && (start.1 == end.1 + 1 || start.1 + 1 == end.1)
                && self.piece_at(end.0, end.1).is_some() {
                return true;
            }
            if let Some((file, en_passant_color)) = game_state.en_passant {
                if start.0 == end.0 + 1 && start.0 == 3 && (start.1 == end.1 + 1 || start.1 + 1
                    == end.1) && end.1 == file && en_passant_color == Color::White {
                    return true;
                }
            }
            if end.1 != start.1 {
                return false;
            }
            if start.0 == 6 && end.0 == 4 && self.piece_at(5, start.1).is_none() && self.piece_at(
                4,
                start.1,
            ).is_none() {
                return true;
            }
            if start.0 == end.0 + 1 && self.piece_at(end.0, end.1).is_none() {
                return true;
            }
            false
        }
    }

    /// Shape rule for a knight: only the end square's offset matters.
    pub fn is_valid_knight_move(&self, start: (usize, usize), end: (usize, usize)) -> (r: bool)
        ensures
            r == knight_move_ok(start.0 as int, start.1 as int, end.0 as int, end.1 as int),
    {
        let x_diff = if start.0 >= end.0 {
            start.0 - end.0
        } else {
            end.0 - start.0
        };
        let y_diff = if start.1 >= end.1 {
            start.1 - end.1
        } else {
            end.1 - start.1
        };
        (x_diff == 1 && y_diff == 2) || (x_diff == 2 && y_diff == 1)
    }

    /// Shape rule for a bishop: a diagonal with nothing strictly between.
    pub fn is_valid_bishop_move(&self, start: (usize, usize), end: (usize, usize)) -> (r: bool)
        requires
            self@.dims(),
            in_bounds(start.0 as int, start.1 as int),
            in_bounds(end.0 as int, end.1 as int),
        ensures
            r == bishop_move_ok(
                self@.grid,
                start.0 as int,
                start.1 as int,
                end.0 as int,
                end.1 as int,
            ),
    {
        let x_diff = if start.0 >= end.0 {
            start.0 - end.0
        } else {
            end.0 - start.0
        };
        let y_diff = if start.1 >= end.1 {
            start.1 - end.1
        } else {
            end.1 - start.1
        };
        if x_diff != y_diff {
            return false;
        }
        let mut k: usize = 1;
        while k < x_diff
            invariant
                self@.dims(),
                in_bounds(start.0 as int, start.1 as int),
                in_bounds(end.0 as int, end.1 as int),
                x_diff == dist(start.0 as int, end.0 as int),
                x_diff == dist(start.1 as int, end.1 as int),
                1 <= k,
                forall|j: int|
                    1 <= j < k ==> at(
                        self@.grid,
                        #[trigger] diag_step(start.0 as int, end.0 as int, j),
                        diag_step(start.1 as int, end.1 as int, j),
                    ) is None,
            decreases x_diff - k,
        {
            let rr = if end.0 > start.0 {
                start.0 + k
            } else {
                start.0 - k
            };
            let cc = if end.1 > start.1 {
                start.1 + k
            } else {
                start.1 - k
            };
            if self.piece_at(rr, cc).is_some() {
                proof {
                    assert(rr as int == diag_step(start.0 as int, end.0 as int, k as int));
                    assert(cc as int == diag_step(start.1 as int, end.1 as int, k as int));
                    assert(at(
                        self@.grid,
                        diag_step(start.0 as int, end.0 as int, k as int),
                        diag_step(start.1 as int, end.1 as int, k as int),
                    ) is Some);
                }
                return false;
            }
            k = k + 1;
        }
        true
    }

    /// Shape rule for a rook: one row or one column with nothing strictly
    /// between.
    pub fn is_valid_rook_move(&self, start: (usize, usize), end: (usize, usize)) -> (r: bool)
        requires
            self@.dims(),
            in_bounds(start.0 as int, start.1 as int),
            in_bounds(end.0 as int, end.1 as int),
        ensures
            r == rook_move_ok(
                self@.grid,
                start.0 as int,
                start.1 as int,
                end.0 as int,
                end.1 as int,
            ),
    {
        if start.0 != end.0 && start.1 != end.1 {
            return false;
        }
        if start.0 == end.0 {
            let lo = if start.1 < end.1 {
                start.1
            } else {
                end.1
            };
            let hi = if start.1 < end.1 {
                end.1
            } else {
                start.1
            };
            let mut x = lo + 1;
            while x < hi
                invariant
                    self@.dims(),
                    in_bounds(start.0 as int, start.1 as int),
                    in_bounds(end.0 as int, end.1 as int),
                    lo < x,
                    hi < 8,
                    lo == if start.1 < end.1 {
                        start.1
                    } else {
                        end.1
                    },
                    hi == if start.1 < end.1 {
                        end.1
                    } else {
                        start.1
                    },
                    forall|j: int|
                        lo < j < x ==> at(self@.grid, start.0 as int, j) is None,
                decreases hi - x,
            {
                if self.piece_at(start.0, x).is_some() {
                    return false;
                }
                x = x + 1;
            }
        } else {
            let lo = if start.0 < end.0 {
                start.0
            } else {
                end.0
            };
            let hi = if start.0 < end.0 {
                end.0
            } else {
                start.0
            };
            let mut x = lo + 1;
            while x < hi
                invariant
                    self@.dims(),
                    in_bounds(start.0 as int, start.1 as int),
                    in_bounds(end.0 as int, end.1 as int),
                    lo < x,
                    hi < 8,
                    lo == if start.0 < end.0 {
                        start.0
                    } else {
                        end.0
                    },
                    hi == if start.0 < end.0 {
                        end.0
                    } else {
                        start.0
                    },
                    forall|j: int|
                        lo < j < x ==> at(self@.grid, j, start.1 as int) is None,
                decreases hi - x,
            {
                if self.piece_at(x, start.1).is_some() {
                    return false;
                }
                x = x + 1;
            }
        }
        true
    }

    /// Shape rule for a queen: a bishop move or a rook move.
    pub fn is_valid_queen_move(&self, start: (usize, usize), end: (usize, usize)) -> (r: bool)
        requires
            self@.dims(),
            in_bounds(start.0 as int, start.1 as int),
            in_bounds(end.0 as int, end.1 as int),
        ensures
            r == queen_move_ok(
                self@.grid,
                start.0 as int,
                start.1 as int,
                end.0 as int,
                end.1 as int,
            ),
    {
        self.is_valid_bishop_move(start, end) || self.is_valid_rook_move(start, end)
    }
}


/// The en-passant window names a real pawn: when the state says a pawn of
/// some color has just double-stepped on some file, that pawn stands on the
/// square such a double step reaches. The game facade maintains this.
pub open spec fn ep_coherent(v: BoardView, st: GameState) -> bool {
    match st.en_passant {
        Some(t) => {
            &&& t.0 < 8
            &&& (t.1 == Color::White ==> at(v.grid, 3, t.0 as int) == Some(
                Piece::Pawn(Color::White),
            ))
            &&& (t.1 == Color::Black ==> at(v.grid, 4, t.0 as int) == Some(
                Piece::Pawn(Color::Black),
            ))
        },
        None => true,
    }
}

/// Castling legality for `color`, all conditions together: the king stands
/// untouched on its home square and moves to the castle destination, the
/// matching right is still held, every square between king and rook is empty
/// and the rook is on its corner, the king is not currently in check, and the
/// square the king passes over is not attacked (tested on the speculatively
/// applied one-step move). The destination square's safety is the full
/// validator's final king-safety test.
pub open spec fn castle_ok(
    v: BoardView,
    st: GameState,
    color: Color,
    sr: int,
    sc: int,
    er: int,
    ec: int,
) -> bool {
    &&& (at(v.grid, sr, sc) == Some(Piece::King(color)))
    &&& (check_result(v, color) == Ok::<bool, MoveError>(false))
    &&& if color == Color::White {
        &&& sr == 0 && sc == 4
        &&& ({
            ||| (er == 0 && ec == 6 && st.white_castle_king_side && at(v.grid, 0, 5) is None && at(
                v.grid,
                0,
                6,
            ) is None && at(v.grid, 0, 7) == Some(Piece::Rook(Color::White)) && check_result(
                apply_view(v, 0, 4, 0, 5),
                color,
            ) == Ok::<bool, MoveError>(false))
            ||| (er == 0 && ec == 2 && st.white_castle_queen_side && at(v.grid, 0, 3) is None && at(
                v.grid,
                0,
                2,
            ) is None && at(v.grid, 0, 1) is None && at(v.grid, 0, 0) == Some(
                Piece::Rook(Color::White),
            ) && check_result(apply_view(v, 0, 4, 0, 3), color) == Ok::<bool, MoveError>(false))
        })
    } else {
        &&& sr == 7 && sc == 4
        &&& ({
            ||| (er == 7 && ec == 6 && st.black_castle_king_side && at(v.grid, 7, 5) is None && at(
                v.grid,
                7,
                6,
            ) is None && at(v.grid, 7, 7) == Some(Piece::Rook(Color::Black)) && check_result(
                apply_view(v, 7, 4, 7, 5),
                color,
            ) == Ok::<bool, MoveError>(false))
            ||| (er == 7 && ec == 2 && st.black_castle_queen_side && at(v.grid, 7, 3) is None && at(
                v.grid,
                7,
                2,
            ) is None && at(v.grid, 7, 1) is None && at(v.grid, 7, 0) == Some(
                Piece::Rook(Color::Black),
            ) && check_result(apply_view(v, 7, 4, 7, 3), color) == Ok::<bool, MoveError>(false))
        })
    }
}

/// Full king shape rule: a single step in any direction, or a legal castle of
/// the color of the piece on the start square.
pub open spec fn king_move_ok(
    v: BoardView,
    st: GameState,
    sr: int,
    sc: int,
    er: int,
    ec: int,
) -> bool {
    king_adjacent(sr, sc, er, ec) || castle_ok(
        v,
        st,
        at(v.grid, sr, sc)->0.color_spec(),
        sr,
        sc,
        er,
        ec,
    )
}

/// Shape legality of the piece standing on the start square, by its kind.
pub open spec fn shape_ok(
    v: BoardView,
    st: GameState,
    sr: int,
    sc: int,
    er: int,
    ec: int,
) -> bool {
    let p = at(v.grid, sr, sc)->0;
    match p {
        Piece::Pawn(_) => pawn_move_ok(v.grid, st.en_passant, p.color_spec(), sr, sc, er, ec),
        Piece::Knight(_) => knight_move_ok(sr, sc, er, ec),
        Piece::Bishop(_) => bishop_move_ok(v.grid, sr, sc, er, ec),
        Piece::Rook(_) => rook_move_ok(v.grid, sr, sc, er, ec),
        Piece::Queen(_) => queen_move_ok(v.grid, sr, sc, er, ec),
        Piece::King(_) => king_move_ok(v, st, sr, sc, er, ec),
    }
}

/// What validating a move returns, in the validator's fail-fast order:
/// bounds, occupancy of the start square, turn, target ownership, shape
/// legality, and finally king safety on the speculatively applied move (where
/// a corrupted king slot surfaces as its own error).
pub open spec fn spec_validate(
    v: BoardView,
    st: GameState,
    sr: int,
    sc: int,
    er: int,
    ec: int,
) -> Result<(), MoveError> {
    if !(in_bounds(sr, sc) && in_bounds(er, ec)) {
        Err(MoveError::OutOfBounds)
    } else if at(v.grid, sr, sc) is None {
        Err(MoveError::EmptySource)
    } else if at(v.grid, sr, sc)->0.color_spec() != st.turn {
        Err(MoveError::WrongSideToMove)
    } else if at(v.grid, er, ec) is Some && at(v.grid, er, ec)->0.color_spec() == at(
        v.grid,
        sr,
        sc,
    )->0.color_spec() {
        Err(MoveError::OccupiedByOwnColor)
    } else if !shape_ok(v, st, sr, sc, er, ec) {
        Err(MoveError::ShapeIllegal)
    } else {
        match check_result(apply_view(v, sr, sc, er, ec), st.turn) {
            Err(e) => Err(e),
            Ok(true) => Err(MoveError::LeavesKingInCheck),
            Ok(false) => Ok(()),
        }
    }
}

/// A move that passes the validator's first five gates applies cleanly and
/// can be inverted exactly.
pub(crate) proof fn lemma_gates_undoable(
    v: BoardView,
    st: GameState,
    sr: int,
    sc: int,
    er: int,
    ec: int,
)
    requires
        v.dims(),
        ep_coherent(v, st),
        in_bounds(sr, sc),
        in_bounds(er, ec),
        at(v.grid, sr, sc) is Some,
        at(v.grid, sr, sc)->0.color_spec() == st.turn,
        !(at(v.grid, er, ec) is Some && at(v.grid, er, ec)->0.color_spec() == at(
            v.grid,
            sr,
            sc,
        )->0.color_spec()),
        shape_ok(v, st, sr, sc, er, ec),
    ensures
        undoable(v, sr, sc, er, ec),
{
    let p = at(v.grid, sr, sc)->0;
    if sr == er && sc == ec {
        assert(at(v.grid, er, ec) == at(v.grid, sr, sc));
        assert(false);
    }
    if p == Piece::King(Color::White) && sr == 0 && sc == 4 && er == 0 && ec == 6 {
        assert(!king_adjacent(sr, sc, er, ec));
        assert(castle_ok(v, st, Color::White, sr, sc, er, ec));
    }
    if p == Piece::King(Color::White) && sr == 0 && sc == 4 && er == 0 && ec == 2 {
        assert(!king_adjacent(sr, sc, er, ec));
        assert(castle_ok(v, st, Color::White, sr, sc, er, ec));
    }
    if p == Piece::King(Color::Black) && sr == 7 && sc == 4 && er == 7 && ec == 6 {
        assert(!king_adjacent(sr, sc, er, ec));
        assert(castle_ok(v, st, Color::Black, sr, sc, er, ec));
    }
    if p == Piece::King(Color::Black) && sr == 7 && sc == 4 && er == 7 && ec == 2 {
        assert(!king_adjacent(sr, sc, er, ec));
        assert(castle_ok(v, st, Color::Black, sr, sc, er, ec));
    }
    if p is Pawn && sc != ec && at(v.grid, er, ec) is None {
        let color = p.color_spec();
        if color == Color::White {
            assert(pawn_move_ok(v.grid, st.en_passant, color, sr, sc, er, ec));
            assert(sr == 4 && er == sr + 1);
            assert(at(v.grid, sr, ec) == Some(Piece::Pawn(Color::Black)));
        } else {
            assert(sr == 3 && sr == er + 1);
            assert(at(v.grid, sr, ec) == Some(Piece::Pawn(Color::White)));
        }
    }
}

impl Board {
    /// Speculatively step the king one square onto an empty passage square,
    /// ask whether it would stand in check there, and walk it back. The grid
    /// is restored exactly; on a well-formed board the whole board is.
    fn speculate_king_step(&mut self, color: Color, start: (usize, usize), mid: (usize, usize)) -> (
        r: bool)
        requires
            old(self)@.dims(),
            in_bounds(start.0 as int, start.1 as int),
            in_bounds(mid.0 as int, mid.1 as int),
            (at(old(self)@.grid, start.0 as int, start.1 as int) == Some(Piece::King(color))),
            at(old(self)@.grid, mid.0 as int, mid.1 as int) is None,
            !(start.0 == mid.0 && start.1 == mid.1),
            mid.1 != 2 && mid.1 != 6,
        ensures
            r == (check_result(
                apply_view(old(self)@, start.0 as int, start.1 as int, mid.0 as int, mid.1 as int),
                color,
            ) == Ok::<bool, MoveError>(false)),
            final(self)@.grid == old(self)@.grid,
            final(self)@.dims(),
            old(self)@.wf() ==> restored(old(self)@, final(self)@),
    {
        proof {
            lemma_king_step_roundtrip_grid(
                old(self)@.grid,
                color,
                start.0 as int,
                start.1 as int,
                mid.0 as int,
                mid.1 as int,
            );
            if old(self)@.wf() {
                lemma_apply_then_revert(
                    old(self)@,
                    start.0 as int,
                    start.1 as int,
                    mid.0 as int,
                    mid.1 as int,
                );
            }
        }
        let (tk, pr) = self.execute_move(start, mid);
        let chk = self.is_king_in_check(color);
        self.undo_move(start, mid, tk, pr);
        match chk {
            Ok(false) => true,
            _ => false,
        }
    }

    /// All castling conditions for `color` moving from `start` to `end`,
    /// including the speculative test of the king's passage square.
    pub(crate) fn castle_check(
        &mut self,
        color: Color,
        start: (usize, usize),
        end: (usize, usize),
        game_state: &GameState,
    ) -> (r: bool)
        requires
            old(self)@.dims(),
            in_bounds(start.0 as int, start.1 as int),
            in_bounds(end.0 as int, end.1 as int),
        ensures
            r == castle_ok(
                old(self)@,
                *game_state,
                color,
                start.0 as int,
                start.1 as int,
                end.0 as int,
                end.1 as int,
            ),
            final(self)@.grid == old(self)@.grid,
            final(self)@.dims(),
            old(self)@.wf() ==> restored(old(self)@, final(self)@),
    {
        let pc = self.piece_at(start.0, start.1);
        let is_king = match pc {
            Some(p) => p == Piece::King(color),
            None => false,
        };
        if !is_king {
            return false;
        }
        let pre_ok = match self.is_king_in_check(color) {
            Ok(false) => true,
            _ => false,
        };
        if !pre_ok {
            return false;
        }
        if color == Color::White && start.0 == 0 && start.1 == 4 {
            if end.0 == 0 && end.1 == 6 && game_state.white_castle_king_side {
                let rook_home = match self.piece_at(0, 7) {
                    Some(p) => p == Piece::Rook(Color::White),
                    None => false,
                };
                if self.piece_at(0, 5).is_none() && self.piece_at(0, 6).is_none() && rook_home {
                    return self.speculate_king_step(color, start, (0, 5));
                }
                return false;
            }
            if end.0 == 0 && end.1 == 2 && game_state.white_castle_queen_side {
                let rook_home = match self.piece_at(0, 0) {
                    Some(p) => p == Piece::Rook(Color::White),
                    None => false,
                };
                if self.piece_at(0, 3).is_none() && self.piece_at(0, 2).is_none() && self.piece_at(
                    0,
                    1,
                ).is_none() && rook_home {
                    return self.speculate_king_step(color, start, (0, 3));
                }
                return false;
            }
            return false;
        }
        if color == Color::Black && start.0 == 7 && start.1 == 4 {
            if end.0 == 7 && end.1 == 6 && game_state.black_castle_king_side {
                let rook_home = match self.piece_at(7, 7) {
                    Some(p) => p == Piece::Rook(Color::Black),
                    None => false,
                };
                if self.piece_at(7, 5).is_none() && self.piece_at(7, 6).is_none() && rook_home {
                    return self.speculate_king_step(color, start, (7, 5));
                }
                return false;
            }
            if end.0 == 7 && end.1 == 2 && game_state.black_castle_queen_side {
                let rook_home = match self.piece_at(7, 0) {
                    Some(p) => p == Piece::Rook(Color::Black),
                    None => false,
                };
                if self.piece_at(7, 3).is_none() && self.piece_at(7, 2).is_none() && self.piece_at(
                    7,
                    1,
                ).is_none() && rook_home {
                    return self.speculate_king_step(color, start, (7, 3));
                }
                return false;
            }
            return false;
        }
        false
    }

    /// Full king shape rule: one square in any direction, or castling with
    /// every castling condition checked (the color is the moving piece's).
    pub fn is_valid_king_move(
        &mut self,
        start: (usize, usize),
        end: (usize, usize),
        game_state: &GameState,
    ) -> (r: bool)
        requires
            old(self)@.dims(),
            in_bounds(start.0 as int, start.1 as int),
            in_bounds(end.0 as int, end.1 as int),
            at(old(self)@.grid, start.0 as int, start.1 as int) is Some,
        ensures
            r == king_move_ok(
                old(self)@,
                *game_state,
                start.0 as int,
                start.1 as int,
                end.0 as int,
                end.1 as int,
            ),
            final(self)@.grid == old(self)@.grid,
            final(self)@.dims(),
            old(self)@.wf() ==> restored(old(self)@, final(self)@),
    {
        let x_diff = if start.0 >= end.0 {
            start.0 - end.0
        } else {
            end.0 - start.0
        };
        let y_diff = if start.1 >= end.1 {
            start.1 - end.1
        } else {
            end.1 - start.1
        };
        if x_diff <= 1 && y_diff <= 1 {
            return true;
        }
        let color = self.piece_at(start.0, start.1).unwrap().color();
        self.castle_check(color, start, end, game_state)
    }

    /// Full move legality, checked in fail-fast order: bounds, occupancy,
    /// turn, target ownership, shape by piece kind, and king safety by
    /// speculatively applying the move, asking whether the mover's king is in
    /// check, and reverting. A rejected move leaves the board unchanged; so
    /// does an accepted one (the caller commits it separately).
    pub fn is_valid_move(
        &mut self,
        start: (usize, usize),
        end: (usize, usize),
        game_state: &GameState,
    ) -> (r: Result<(), MoveError>)
        requires
            old(self)@.wf(),
            ep_coherent(old(self)@, *game_state),
        ensures
            r == spec_validate(
                old(self)@,
                *game_state,
                start.0 as int,
                start.1 as int,
                end.0 as int,
                end.1 as int,
            ),
            final(self)@.grid == old(self)@.grid,
            restored(old(self)@, final(self)@),
    {
        if start.0 > 7 || start.1 > 7 {
            return Err(MoveError::OutOfBounds);
        }
        if end.0 > 7 || end.1 > 7 {
            return Err(MoveError::OutOfBounds);
        }
        let piece = match self.piece_at(start.0, start.1) {
            None => {
                return Err(MoveError::EmptySource);
            },
            Some(p) => p,
        };
        if piece.color() != game_state.turn {
            return Err(MoveError::WrongSideToMove);
        }
        if let Some(end_piece) = self.piece_at(end.0, end.1) {
            if end_piece.color() == piece.color() {
                return Err(MoveError::OccupiedByOwnColor);
            }
        }
        let shape = match piece {
            Piece::Pawn(_) => self.is_valid_pawn_move(start, end, game_state),
            Piece::Knight(_) => self.is_valid_knight_move(start, end),
            Piece::Bishop(_) => self.is_valid_bishop_move(start, end),
            Piece::Rook(_) => self.is_valid_rook_move(start, end),
            Piece::Queen(_) => self.is_valid_queen_move(start, end),
            Piece::King(_) => self.is_valid_king_move(start, end, game_state),
        };
        proof {
            assert(restored(old(self)@, self@));
        }
        if !shape {
            return Err(MoveError::ShapeIllegal);
        }
        let ghost v0 = old(self)@;
        let ghost v1 = self@;
        let ghost sr = start.0 as int;
        let ghost sc = start.1 as int;
        let ghost er = end.0 as int;
        let ghost ec = end.1 as int;
        proof {
            lemma_gates_undoable(v0, *game_state, sr, sc, er, ec);
            assert(undoable(v1, sr, sc, er, ec));
            assert(start != end) by {
                if start == end {
                    assert(sr == er && sc == ec);
                }
            }
            lemma_apply_then_revert(v1, sr, sc, er, ec);
            lemma_apply_preserves_wf(v0, sr, sc, er, ec);
            lemma_check_congruence(
                apply_view(v0, sr, sc, er, ec),
                apply_view(v1, sr, sc, er, ec),
                game_state.turn,
            );
        }
        let (tk, pr) = self.execute_move(start, end);
        let chk = self.is_king_in_check(game_state.turn);
        self.undo_move(start, end, tk, pr);
        proof {
            assert(restored(v1, self@));
            assert(restored(v0, self@));
        }
        match chk {
            Err(e) => Err(e),
            Ok(true) => Err(MoveError::LeavesKingInCheck),
            Ok(false) => Ok(()),
        }
    }
}


/// Two well-formed boards with the same grid agree on every castling
/// question.
pub(crate) proof fn lemma_castle_congruence(
    a: BoardView,
    b: BoardView,
    st: GameState,
    color: Color,
    sr: int,
    sc: int,
    er: int,
    ec: int,
)
    requires
        a.wf(),
        b.wf(),
        b.grid == a.grid,
    ensures
        castle_ok(b, st, color, sr, sc, er, ec) == castle_ok(a, st, color, sr, sc, er, ec),
{
    lemma_check_congruence(a, b, color);
    if at(a.grid, 0, 4) == Some(Piece::King(color)) && at(a.grid, 0, 5) is None {
        assert(undoable(a, 0, 4, 0, 5));
        assert(undoable(b, 0, 4, 0, 5));
        lemma_apply_preserves_wf(a, 0, 4, 0, 5);
        lemma_apply_preserves_wf(b, 0, 4, 0, 5);
        lemma_check_congruence(apply_view(a, 0, 4, 0, 5), apply_view(b, 0, 4, 0, 5), color);
    }
    if at(a.grid, 0, 4) == Some(Piece::King(color)) && at(a.grid, 0, 3) is None {
        assert(undoable(a, 0, 4, 0, 3));
        assert(undoable(b, 0, 4, 0, 3));
        lemma_apply_preserves_wf(a, 0, 4, 0, 3);
        lemma_apply_preserves_wf(b, 0, 4, 0, 3);
        lemma_check_congruence(apply_view(a, 0, 4, 0, 3), apply_view(b, 0, 4, 0, 3), color);
    }
    if at(a.grid, 7, 4) == Some(Piece::King(color)) && at(a.grid, 7, 5) is None {
        assert(undoable(a, 7, 4, 7, 5));
        assert(undoable(b, 7, 4, 7, 5));
        lemma_apply_preserves_wf(a, 7, 4, 7, 5);
        lemma_apply_preserves_wf(b, 7, 4, 7, 5);
        lemma_check_congruence(apply_view(a, 7, 4, 7, 5), apply_view(b, 7, 4, 7, 5), color);
    }
    if at(a.grid, 7, 4) == Some(Piece::King(color)) && at(a.grid, 7, 3) is None {
        assert(undoable(a, 7, 4, 7, 3));
        assert(undoable(b, 7, 4, 7, 3));
        lemma_apply_preserves_wf(a, 7, 4, 7, 3);
        lemma_apply_preserves_wf(b, 7, 4, 7, 3);
        lemma_check_congruence(apply_view(a, 7, 4, 7, 3), apply_view(b, 7, 4, 7, 3), color);
    }
}

/// Two well-formed boards with the same grid agree on the whole validator:
/// every gate, every shape rule and the final king-safety test read only the
/// grid and the set of squares each index slot lists.
pub(crate) proof fn lemma_validate_congruence(
    a: BoardView,
    b: BoardView,
    st: GameState,
    sr: int,
    sc: int,
    er: int,
    ec: int,
)
    requires
        a.wf(),
        b.wf(),
        b.grid == a.grid,
        ep_coherent(a, st),
    ensures
        spec_validate(b, st, sr, sc, er, ec) == spec_validate(a, st, sr, sc, er, ec),
{
    if in_bounds(sr, sc) && in_bounds(er, ec) && at(a.grid, sr, sc) is Some {
        let p = at(a.grid, sr, sc)->0;
        if p is King {
            lemma_castle_congruence(a, b, st, p.color_spec(), sr, sc, er, ec);
        }
        assert(shape_ok(b, st, sr, sc, er, ec) == shape_ok(a, st, sr, sc, er, ec));
        if p.color_spec() == st.turn && !(at(a.grid, er, ec) is Some && at(
            a.grid,
            er,
            ec,
        )->0.color_spec() == p.color_spec()) && shape_ok(a, st, sr, sc, er, ec) {
            lemma_gates_undoable(a, st, sr, sc, er, ec);
            assert(undoable(b, sr, sc, er, ec));
            lemma_apply_preserves_wf(a, sr, sc, er, ec);
            lemma_apply_preserves_wf(b, sr, sc, er, ec);
            lemma_check_congruence(
                apply_view(a, sr, sc, er, ec),
                apply_view(b, sr, sc, er, ec),
                st.turn,
            );
        }
    }
}


/// A move the validator accepts never captures a king: the mover's own king
/// cannot stand on the target (own-color gate), and a capturable enemy king
/// would already have been in check before the move.
pub(crate) proof fn lemma_no_king_capture(
    v: BoardView,
    st: GameState,
    sr: int,
    sc: int,
    er: int,
    ec: int,
)
    requires
        v.wf(),
        king_bucket(v, st.turn.flip()).len() == 1,
        !in_check(v, st.turn.flip()),
        spec_validate(v, st, sr, sc, er, ec) is Ok,
    ensures
        at(v.grid, er, ec) is Some ==> !(at(v.grid, er, ec)->0 is King),
{
    crate::core_struct::lemma_pid_piece_of(Piece::King(st.turn.flip()));
    if at(v.grid, er, ec) is Some && at(v.grid, er, ec)->0 is King {
        let p = at(v.grid, sr, sc)->0;
        let flip = st.turn.flip();
        assert(at(v.grid, er, ec) == Some(Piece::King(flip)));
        // the enemy king's slot lists exactly the target square
        let e = (er as usize, ec as usize);
        assert(v.ix_has(pid(Piece::King(flip)), er, ec));
        let k0 = choose|k: int|
            0 <= k < king_bucket(v, flip).len() && (#[trigger] king_bucket(v, flip)[k]) == e;
        assert(k0 == 0);
        assert(king_square(v, flip) == e);
        // the moving piece attacks the target square
        assert(shape_ok(v, st, sr, sc, er, ec));
        assert(attacks(v.grid, p, sr, sc, er, ec)) by {
            match p {
                Piece::Pawn(c) => {
                    assert(pawn_move_ok(v.grid, st.en_passant, c, sr, sc, er, ec));
                    assert(pawn_attacks(c, sr, sc, er, ec));
                },
                Piece::King(c) => {
                    assert(king_move_ok(v, st, sr, sc, er, ec));
                    assert(king_adjacent(sr, sc, er, ec)) by {
                        if castle_ok(v, st, c, sr, sc, er, ec) {
                            assert(at(v.grid, er, ec) is None);
                        }
                    }
                },
                _ => {},
            }
        }
        // so the enemy king was in check already
        let i0 = pid(p);
        crate::core_struct::lemma_pid_piece_of(p);
        assert(v.ix_has(i0, sr, sc));
        let k1 = choose|k: int|
            0 <= k < v.index[i0].len() && (#[trigger] v.index[i0][k]) == (
            sr as usize,
            sc as usize,
            );
        assert(v.index[i0][k1] == (sr as usize, sc as usize));
        assert(piece_of(i0).color_spec() != flip);
        assert(in_check(v, flip));
    }
}

} // verus!
