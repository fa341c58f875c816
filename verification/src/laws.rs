//! The engine's global laws, stated and proved once over the specification
//! functions that the executable contracts use.

use vstd::prelude::*;

use crate::check_and_mate::check_result;
use crate::core_struct::{at, BoardView, Piece};
use crate::game::GameState;
use crate::move_execution::{
    apply_grid, apply_ix, apply_view, lemma_apply_then_revert, promo_flag, revert_grid, revert_ix,
    taken_rec,
};
use crate::move_validation::{
    castle_ok, ep_coherent, lemma_gates_undoable, spec_validate, MoveError,
};

verus! {

/// For every move the validator accepts, speculatively applying it and then
/// undoing it with its own undo record restores the board exactly: the grid
/// to equality, and every slot of the piece index to the same set of squares
/// with the same length, so each piece occupies the same squares as before.
pub proof fn law_apply_then_revert_restores(
    v: BoardView,
    st: GameState,
    sr: int,
    sc: int,
    er: int,
    ec: int,
)
    requires
        v.wf(),
        ep_coherent(v, st),
        spec_validate(v, st, sr, sc, er, ec) is Ok,
    ensures
        ({
            let v2 = BoardView {
                grid: apply_grid(v.grid, sr, sc, er, ec),
                index: apply_ix(v, sr, sc, er, ec),
            };
            let tk = taken_rec(v.grid, sr, sc, er, ec);
            let pr = promo_flag(v.grid, sr, sc, er, ec);
            let v3 = BoardView {
                grid: revert_grid(v2.grid, sr, sc, er, ec, tk, pr),
                index: revert_ix(v2, sr, sc, er, ec, tk, pr),
            };
            &&& v3.grid == v.grid
            &&& v3.wf()
            &&& forall|i: int|
                0 <= i < 12 ==> (#[trigger] v3.index[i]).to_set() == v.index[i].to_set()
            &&& forall|i: int| 0 <= i < 12 ==> (#[trigger] v3.index[i]).len() == v.index[i].len()
        }),
{
    lemma_gates_undoable(v, st, sr, sc, er, ec);
    lemma_apply_then_revert(v, sr, sc, er, ec);
}

/// The "opposite" operation on colors is total and involutive.
pub proof fn law_opposite_involutive(c: crate::core_struct::Color)
    ensures
        c.flip().flip() == c,
        c.flip() != c,
{
}

/// No legal move ever leaves or places the mover's own king in check: a move
/// the validator accepts gives a position in which the mover's king is not in
/// check. Every move the legal move generator lists is such a move, since the
/// generator filters its candidates through the validator.
pub proof fn law_legal_moves_are_safe(
    v: BoardView,
    st: GameState,
    sr: int,
    sc: int,
    er: int,
    ec: int,
)
    requires
        v.wf(),
        ep_coherent(v, st),
        spec_validate(v, st, sr, sc, er, ec) is Ok,
    ensures
        check_result(apply_view(v, sr, sc, er, ec), st.turn) == Ok::<bool, MoveError>(false),
{
}

/// Every move the legal move generator lists is accepted by the full
/// validator, and therefore — by the law above — never leaves the mover's own
/// king in check.
pub proof fn law_generated_moves_validate(
    v: BoardView,
    st: GameState,
    sr: int,
    sc: int,
    i: int,
)
    requires
        0 <= i < crate::move_generation::legal_dests(v, st, sr, sc).len(),
    ensures
        spec_validate(
            v,
            st,
            sr,
            sc,
            crate::move_generation::legal_dests(v, st, sr, sc)[i].0 as int,
            crate::move_generation::legal_dests(v, st, sr, sc)[i].1 as int,
        ) is Ok,
{
    let cands = crate::move_generation::candidates(v.grid, at(v.grid, sr, sc)->0, sr, sc);
    crate::move_generation::lemma_legal_dests_accepted(v, st, sr, sc, cands.len() as int, i);
}

/// Castling legality is exactly the conjunction of its independent
/// conditions, here for White's king-side castle: the untouched king on its
/// home square, the right still held, the passage empty with the rook on its
/// corner, no current check, and a safe square for the king to pass over.
/// Violating any single condition while the others hold makes the castle
/// illegal.
pub proof fn law_castle_is_conjunction(v: BoardView, st: GameState)
    ensures
        castle_ok(v, st, crate::core_struct::Color::White, 0, 4, 0, 6) <==> ({
            &&& (at(v.grid, 0, 4) == Some(Piece::King(crate::core_struct::Color::White)))
            &&& st.white_castle_king_side
            &&& at(v.grid, 0, 5) is None
            &&& at(v.grid, 0, 6) is None
            &&& (at(v.grid, 0, 7) == Some(Piece::Rook(crate::core_struct::Color::White)))
            &&& (check_result(v, crate::core_struct::Color::White) == Ok::<bool, MoveError>(false))
            &&& (check_result(apply_view(v, 0, 4, 0, 5), crate::core_struct::Color::White) == Ok::<
                bool,
                MoveError,
            >(false))
        }),
{
}

} // verus!
