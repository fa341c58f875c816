//! The match state that accompanies the board, and the game facade that owns
//! both.

use vstd::prelude::*;

use crate::check_and_mate::{
    board_eval, check_result, in_check, insufficient_material, king_bucket,
    lemma_apply_king_lens, lemma_check_congruence, lemma_swap_same_color_check, DrawReason,
    EndgameStatus,
};
use crate::core_struct::{
    at, in_bounds, lemma_pid_piece_of, lemma_place_preserves_wf, pid, piece_of, push_if_absent,
    remove_first, Board, BoardView, Color, Piece,
};
use crate::move_execution::{
    apply_grid, apply_view, lemma_apply_preserves_wf, lemma_lift_preserves_wf,
    lemma_wf_membership, restored, undoable,
};
use crate::core_struct::lemma_sq_injective;
use crate::move_generation::legal_dests;
use crate::move_validation::{
    ep_coherent, lemma_gates_undoable, lemma_no_king_capture, lemma_validate_congruence,
    spec_validate, MoveError,
};

verus! {

/// Castling rights after a move leaves `(sr, sc)`: a right is lost forever
/// once the king, or the rook of that wing standing on its home corner,
/// leaves its home square.
pub open spec fn rights_after(
    g: Seq<Option<Piece>>,
    st: GameState,
    sr: int,
    sc: int,
) -> GameState {
    if at(g, sr, sc) == Some(Piece::King(Color::White)) {
        GameState { white_castle_king_side: false, white_castle_queen_side: false, ..st }
    } else if at(g, sr, sc) == Some(Piece::Rook(Color::White)) {
        if sr == 0 && sc == 0 {
            GameState { white_castle_queen_side: false, ..st }
        } else if sr == 0 && sc == 7 {
            GameState { white_castle_king_side: false, ..st }
        } else {
            st
        }
    } else if at(g, sr, sc) == Some(Piece::King(Color::Black)) {
        GameState { black_castle_king_side: false, black_castle_queen_side: false, ..st }
    } else if at(g, sr, sc) == Some(Piece::Rook(Color::Black)) {
        if sr == 7 && sc == 0 {
            GameState { black_castle_queen_side: false, ..st }
        } else if sr == 7 && sc == 7 {
            GameState { black_castle_king_side: false, ..st }
        } else {
            st
        }
    } else {
        st
    }
}

/// The en-passant window after a move: set only by a pawn's double step,
/// naming the file just vacated and the mover's color; cleared by every other
/// move.
pub open spec fn ep_after(g: Seq<Option<Piece>>, sr: int, sc: int, er: int, ec: int) -> Option<
    (usize, Color),
> {
    if at(g, sr, sc) == Some(Piece::Pawn(Color::White)) && sr == 1 && er == 3 {
        Some((sc as usize, Color::White))
    } else if at(g, sr, sc) == Some(Piece::Pawn(Color::Black)) && sr == 6 && er == 4 {
        Some((sc as usize, Color::Black))
    } else {
        None
    }
}

/// The match state after the simple commit of a move: rights and en-passant
/// window updated, the turn handed to the other side, everything else kept.
pub open spec fn commit_state(
    g: Seq<Option<Piece>>,
    st: GameState,
    sr: int,
    sc: int,
    er: int,
    ec: int,
) -> GameState {
    let st1 = rights_after(g, st, sr, sc);
    GameState { turn: st.turn.flip(), en_passant: ep_after(g, sr, sc, er, ec), ..st1 }
}

/// Mutable match state beside the board: whose turn it is, the four castling
/// rights, the en-passant window, the pending promotion, the cached endgame
/// status and the half-move clock of the fifty-move rule.
#[derive(Debug, Clone, Copy)]
pub struct GameState {
    pub turn: Color,
    pub white_castle_king_side: bool,
    pub black_castle_king_side: bool,
    pub white_castle_queen_side: bool,
    pub black_castle_queen_side: bool,
    /// `Some((file, color))`: a pawn of `color` has just made a double step on
    /// `file` and may be captured en passant on the very next move.
    pub en_passant: Option<(usize, Color)>,
    /// `Some((file, color))`: a pawn of `color` stands on its last rank on
    /// `file` and every move is blocked until the promotion is resolved.
    pub promotion_pending: Option<(usize, Color)>,
    pub endgame_status: EndgameStatus,
    /// Plies since the last capture or pawn move.
    pub how_many_moves: u32,
}

impl Default for GameState {
    /// The state at the start of a game: White to move, all castling rights
    /// intact, no en-passant window, no pending promotion, clock at zero.
    fn default() -> (r: GameState)
        ensures
            r == GameState::initial(),
    {
        GameState {
            turn: Color::White,
            white_castle_king_side: true,
            white_castle_queen_side: true,
            black_castle_king_side: true,
            black_castle_queen_side: true,
            en_passant: None,
            promotion_pending: None,
            endgame_status: EndgameStatus::Ongoing,
            how_many_moves: 0,
        }
    }
}

impl GameState {
    /// Mathematical counterpart of [`GameState::default`].
    pub open spec fn initial() -> GameState {
        GameState {
            turn: Color::White,
            white_castle_king_side: true,
            white_castle_queen_side: true,
            black_castle_king_side: true,
            black_castle_queen_side: true,
            en_passant: None,
            promotion_pending: None,
            endgame_status: EndgameStatus::Ongoing,
            how_many_moves: 0,
        }
    }
}


/// The piece a pawn may be promoted to.
#[derive(Debug, Clone, Copy, PartialEq, Eq, Structural)]
pub enum PromotionPiece {
    Queen,
    Rook,
    Bishop,
    Knight,
}

/// The piece that a promotion choice materializes for `color`.
pub open spec fn chosen_piece(pp: PromotionPiece, color: Color) -> Piece {
    match pp {
        PromotionPiece::Queen => Piece::Queen(color),
        PromotionPiece::Rook => Piece::Rook(color),
        PromotionPiece::Bishop => Piece::Bishop(color),
        PromotionPiece::Knight => Piece::Knight(color),
    }
}

/// The rank a pawn of `color` promotes on.
pub open spec fn promo_rank(color: Color) -> int {
    if color == Color::White {
        7
    } else {
        0
    }
}

/// The abstract value of a canonical position key: side to move, the whole
/// grid, and the four castling rights — deliberately excluding the en-passant
/// window and any pending promotion.
pub struct PosKeyV {
    pub turn: Color,
    pub grid: Seq<Option<Piece>>,
    pub wck: bool,
    pub wcq: bool,
    pub bck: bool,
    pub bcq: bool,
}

/// The canonical position key of a board and match state.
pub open spec fn pos_key_of(g: Seq<Option<Piece>>, st: GameState) -> PosKeyV {
    PosKeyV {
        turn: st.turn,
        grid: g,
        wck: st.white_castle_king_side,
        wcq: st.white_castle_queen_side,
        bck: st.black_castle_king_side,
        bcq: st.black_castle_queen_side,
    }
}

/// A canonical position key as stored by the repetition tracker.
pub struct PositionKey {
    turn: Color,
    grid: Vec<Option<Piece>>,
    wck: bool,
    wcq: bool,
    bck: bool,
    bcq: bool,
}

impl View for PositionKey {
    type V = PosKeyV;

    closed spec fn view(&self) -> PosKeyV {
        PosKeyV {
            turn: self.turn,
            grid: self.grid@,
            wck: self.wck,
            wcq: self.wcq,
            bck: self.bck,
            bcq: self.bcq,
        }
    }
}

/// A counter one higher, capped at its type's maximum.
pub open spec fn add_count(c: u32) -> u32 {
    if c < u32::MAX {
        (c + 1) as u32
    } else {
        c
    }
}

/// The tracker after recording one more occurrence of `k`: the first entry
/// with that key has its count raised by one; a key never seen before is
/// appended with count one.
pub open spec fn bump(tbl: Seq<(PosKeyV, u32)>, k: PosKeyV) -> Seq<(PosKeyV, u32)>
    decreases tbl.len(),
{
    if tbl.len() == 0 {
        seq![(k, 1u32)]
    } else if tbl[0].0 == k {
        tbl.update(0, (k, add_count(tbl[0].1)))
    } else {
        seq![tbl[0]] + bump(tbl.drop_first(), k)
    }
}

/// The tracker after `k` is written with count one: the first entry with that
/// key is overwritten, or the key is appended.
pub open spec fn put_one(tbl: Seq<(PosKeyV, u32)>, k: PosKeyV) -> Seq<(PosKeyV, u32)>
    decreases tbl.len(),
{
    if tbl.len() == 0 {
        seq![(k, 1u32)]
    } else if tbl[0].0 == k {
        tbl.update(0, (k, 1u32))
    } else {
        seq![tbl[0]] + put_one(tbl.drop_first(), k)
    }
}

/// Some canonical position has occurred at least three times.
pub open spec fn has_triple(tbl: Seq<(PosKeyV, u32)>) -> bool {
    exists|i: int| 0 <= i < tbl.len() && (#[trigger] tbl[i]).1 >= 3
}

/// The tracker entries as abstract keys and counts.
pub open spec fn table_view(t: Seq<(PositionKey, u32)>) -> Seq<(PosKeyV, u32)> {
    t.map_values(|e: (PositionKey, u32)| (e.0@, e.1))
}

/// When `k` first occurs at entry `i`, recording it bumps exactly that entry.
proof fn lemma_bump_at(tbl: Seq<(PosKeyV, u32)>, k: PosKeyV, i: int)
    requires
        0 <= i < tbl.len(),
        tbl[i].0 == k,
        forall|j: int| 0 <= j < i ==> (#[trigger] tbl[j]).0 != k,
    ensures
        bump(tbl, k) == tbl.update(i, (k, add_count(tbl[i].1))),
    decreases i,
{
    if i == 0 {
        assert(bump(tbl, k) =~= tbl.update(0, (k, add_count(tbl[0].1))));
    } else {
        assert forall|j: int| 0 <= j < i - 1 implies (#[trigger] tbl.drop_first()[j]).0 != k by {
            assert(tbl.drop_first()[j] == tbl[j + 1]);
        }
        lemma_bump_at(tbl.drop_first(), k, i - 1);
        assert(bump(tbl, k) =~= tbl.update(i, (k, add_count(tbl[i].1))));
    }
}

/// When `k` occurs nowhere, recording it appends a fresh entry.
proof fn lemma_bump_absent(tbl: Seq<(PosKeyV, u32)>, k: PosKeyV)
    requires
        forall|j: int| 0 <= j < tbl.len() ==> (#[trigger] tbl[j]).0 != k,
    ensures
        bump(tbl, k) == tbl.push((k, 1u32)),
    decreases tbl.len(),
{
    if tbl.len() == 0 {
        assert(bump(tbl, k) =~= tbl.push((k, 1u32)));
    } else {
        assert forall|j: int| 0 <= j < tbl.drop_first().len() implies (#[trigger] tbl.drop_first()[j]).0
            != k by {
            assert(tbl.drop_first()[j] == tbl[j + 1]);
        }
        lemma_bump_absent(tbl.drop_first(), k);
        assert(bump(tbl, k) =~= tbl.push((k, 1u32)));
    }
}

/// When `k` first occurs at entry `i`, writing it overwrites that entry.
proof fn lemma_put_at(tbl: Seq<(PosKeyV, u32)>, k: PosKeyV, i: int)
    requires
        0 <= i < tbl.len(),
        tbl[i].0 == k,
        forall|j: int| 0 <= j < i ==> (#[trigger] tbl[j]).0 != k,
    ensures
        put_one(tbl, k) == tbl.update(i, (k, 1u32)),
    decreases i,
{
    if i == 0 {
        assert(put_one(tbl, k) =~= tbl.update(0, (k, 1u32)));
    } else {
        assert forall|j: int| 0 <= j < i - 1 implies (#[trigger] tbl.drop_first()[j]).0 != k by {
            assert(tbl.drop_first()[j] == tbl[j + 1]);
        }
        lemma_put_at(tbl.drop_first(), k, i - 1);
        assert(put_one(tbl, k) =~= tbl.update(i, (k, 1u32)));
    }
}

/// When `k` occurs nowhere, writing it appends a fresh entry.
proof fn lemma_put_absent(tbl: Seq<(PosKeyV, u32)>, k: PosKeyV)
    requires
        forall|j: int| 0 <= j < tbl.len() ==> (#[trigger] tbl[j]).0 != k,
    ensures
        put_one(tbl, k) == tbl.push((k, 1u32)),
    decreases tbl.len(),
{
    if tbl.len() == 0 {
        assert(put_one(tbl, k) =~= tbl.push((k, 1u32)));
    } else {
        assert forall|j: int| 0 <= j < tbl.drop_first().len() implies (#[trigger] tbl.drop_first()[j]).0
            != k by {
            assert(tbl.drop_first()[j] == tbl[j + 1]);
        }
        lemma_put_absent(tbl.drop_first(), k);
        assert(put_one(tbl, k) =~= tbl.push((k, 1u32)));
    }
}

/// Two cells hold the same contents.
fn same_cell(a: Option<Piece>, b: Option<Piece>) -> (r: bool)
    ensures
        r <==> a == b,
{
    match (a, b) {
        (None, None) => true,
        (Some(x), Some(y)) => x == y,
        _ => false,
    }
}

/// Two stored position keys denote the same canonical position.
fn keys_equal(a: &PositionKey, b: &PositionKey) -> (r: bool)
    ensures
        r <==> a@ == b@,
{
    if a.turn != b.turn || a.wck != b.wck || a.wcq != b.wcq || a.bck != b.bck || a.bcq != b.bcq {
        return false;
    }
    if a.grid.len() != b.grid.len() {
        return false;
    }
    let n = a.grid.len();
    let mut i: usize = 0;
    while i < n
        invariant
            n == a.grid@.len(),
            n == b.grid@.len(),
            i <= n,
            forall|j: int| 0 <= j < i ==> #[trigger] a.grid@[j] == b.grid@[j],
            a.turn == b.turn && a.wck == b.wck && a.wcq == b.wcq && a.bck == b.bck && a.bcq
                == b.bcq,
        decreases n - i,
    {
        if !same_cell(a.grid[i], b.grid[i]) {
            return false;
        }
        i = i + 1;
    }
    proof {
        assert(a.grid@ =~= b.grid@);
    }
    true
}

/// Record one more occurrence of `key` in the tracker.
fn table_bump(t: &mut Vec<(PositionKey, u32)>, key: PositionKey)
    ensures
        table_view(final(t)@) == bump(table_view(old(t)@), key@),
{
    let n = t.len();
    let mut i: usize = 0;
    while i < n
        invariant
            *t == *old(t),
            n == t@.len(),
            i <= n,
            forall|j: int| 0 <= j < i ==> (#[trigger] t@[j]).0@ != key@,
        decreases n - i,
    {
        let hit = keys_equal(&t[i].0, &key);
        if hit {
            let c = t[i].1;
            let c2 = if c < u32::MAX {
                c + 1
            } else {
                c
            };
            proof {
                assert forall|j: int| 0 <= j < i implies (#[trigger] table_view(t@)[j]).0
                    != key@ by {}
                lemma_bump_at(table_view(t@), key@, i as int);
            }
            t.set(i, (key, c2));
            proof {
                assert(table_view(t@) =~= bump(table_view(old(t)@), key@));
            }
            return ;
        }
        i = i + 1;
    }
    proof {
        assert forall|j: int| 0 <= j < table_view(t@).len() implies (#[trigger] table_view(t@)[j]).0
            != key@ by {}
        lemma_bump_absent(table_view(t@), key@);
    }
    t.push((key, 1));
    proof {
        assert(table_view(t@) =~= bump(table_view(old(t)@), key@));
    }
}

/// Write `key` into the tracker with count one.
fn table_put1(t: &mut Vec<(PositionKey, u32)>, key: PositionKey)
    ensures
        table_view(final(t)@) == put_one(table_view(old(t)@), key@),
{
    let n = t.len();
    let mut i: usize = 0;
    while i < n
        invariant
            *t == *old(t),
            n == t@.len(),
            i <= n,
            forall|j: int| 0 <= j < i ==> (#[trigger] t@[j]).0@ != key@,
        decreases n - i,
    {
        let hit = keys_equal(&t[i].0, &key);
        if hit {
            proof {
                assert forall|j: int| 0 <= j < i implies (#[trigger] table_view(t@)[j]).0
                    != key@ by {}
                lemma_put_at(table_view(t@), key@, i as int);
            }
            t.set(i, (key, 1));
            proof {
                assert(table_view(t@) =~= put_one(table_view(old(t)@), key@));
            }
            return ;
        }
        i = i + 1;
    }
    proof {
        assert forall|j: int| 0 <= j < table_view(t@).len() implies (#[trigger] table_view(t@)[j]).0
            != key@ by {}
        lemma_put_absent(table_view(t@), key@);
    }
    t.push((key, 1));
    proof {
        assert(table_view(t@) =~= put_one(table_view(old(t)@), key@));
    }
}

/// Whether any recorded position has occurred three or more times.
fn table_has_triple(t: &Vec<(PositionKey, u32)>) -> (r: bool)
    ensures
        r == has_triple(table_view(t@)),
{
    let n = t.len();
    let mut i: usize = 0;
    while i < n
        invariant
            n == t@.len(),
            i <= n,
            forall|j: int| 0 <= j < i ==> (#[trigger] table_view(t@)[j]).1 < 3,
        decreases n - i,
    {
        if t[i].1 >= 3 {
            proof {
                assert(table_view(t@)[i as int].1 >= 3);
            }
            return true;
        }
        i = i + 1;
    }
    proof {
        if has_triple(table_view(t@)) {
            let j = choose|j: int|
                0 <= j < table_view(t@).len() && (#[trigger] table_view(t@)[j]).1 >= 3;
            assert(table_view(t@)[j].1 < 3);
        }
    }
    false
}


/// The board changed by a move: the target was captured or a pawn moved.
/// These moves are irreversible and reset the repetition tracker and the
/// half-move clock.
pub open spec fn capture_or_pawn(g: Seq<Option<Piece>>, sr: int, sc: int, er: int, ec: int) -> bool {
    at(g, er, ec) is Some || at(g, sr, sc)->0 is Pawn
}

/// The pending promotion after a move: set when a pawn reaches its last rank,
/// naming the file and the mover's color.
pub open spec fn pending_after(g: Seq<Option<Piece>>, sr: int, sc: int, er: int, ec: int) -> Option<
    (usize, Color),
> {
    if at(g, sr, sc) == Some(Piece::Pawn(Color::White)) && er == 7 {
        Some((ec as usize, Color::White))
    } else if at(g, sr, sc) == Some(Piece::Pawn(Color::Black)) && er == 0 {
        Some((ec as usize, Color::Black))
    } else {
        None
    }
}

/// The match state after the game facade commits a move: rights and the
/// en-passant window updated, a promotion trigger entering the pending
/// sub-state instead of flipping the turn, and the half-move clock reset by
/// any capture or pawn move and raised otherwise.
pub open spec fn play_state_after(
    g: Seq<Option<Piece>>,
    st: GameState,
    sr: int,
    sc: int,
    er: int,
    ec: int,
) -> GameState {
    let st1 = rights_after(g, st, sr, sc);
    let pend = pending_after(g, sr, sc, er, ec);
    GameState {
        turn: if pend is Some {
            st.turn
        } else {
            st.turn.flip()
        },
        en_passant: ep_after(g, sr, sc, er, ec),
        promotion_pending: pend,
        how_many_moves: if capture_or_pawn(g, sr, sc, er, ec) {
            0
        } else {
            add_count(st.how_many_moves)
        },
        ..st1
    }
}

/// The repetition tracker after the game facade commits a move: a reversible
/// move records the new canonical position; an irreversible one clears the
/// tracker and reseeds it with the new position at count one. While a
/// promotion is pending the reseed is deferred: the promotion commit inserts
/// the resolved position instead.
pub open spec fn play_table_after(
    g: Seq<Option<Piece>>,
    st: GameState,
    tbl: Seq<(PosKeyV, u32)>,
    sr: int,
    sc: int,
    er: int,
    ec: int,
) -> Seq<(PosKeyV, u32)> {
    let g2 = apply_grid(g, sr, sc, er, ec);
    let st2 = play_state_after(g, st, sr, sc, er, ec);
    let key = pos_key_of(g2, st2);
    if !capture_or_pawn(g, sr, sc, er, ec) {
        bump(tbl, key)
    } else if st2.promotion_pending is None {
        seq![(key, 1u32)]
    } else {
        Seq::empty()
    }
}

/// What playing a move returns: every move is blocked while a promotion is
/// pending or once the game is over; otherwise the validator decides.
pub open spec fn play_check(
    v: BoardView,
    st: GameState,
    sr: int,
    sc: int,
    er: int,
    ec: int,
) -> Result<(), MoveError> {
    if st.promotion_pending is Some {
        Err(MoveError::PromotionPending)
    } else if st.endgame_status != EndgameStatus::Ongoing {
        Err(MoveError::GameAlreadyOver)
    } else {
        spec_validate(v, st, sr, sc, er, ec)
    }
}

/// What the full endgame evaluation returns, first match wins: the fifty-move
/// rule at a half-move clock of one hundred, then threefold repetition, then
/// insufficient material, then checkmate or stalemate from the board.
pub open spec fn game_eval(v: BoardView, st: GameState, tbl: Seq<(PosKeyV, u32)>) -> EndgameStatus {
    if st.how_many_moves >= 100 {
        EndgameStatus::Draw(DrawReason::FiftyMoveRule)
    } else if has_triple(tbl) {
        EndgameStatus::Draw(DrawReason::ThreefoldRepetition)
    } else if insufficient_material(v.grid) {
        EndgameStatus::Draw(DrawReason::InsufficientMaterial)
    } else {
        board_eval(v, st)
    }
}

/// The abstract value of a [`Game`]: the board, the match state, and the
/// repetition tracker.
pub struct GameView {
    pub board: BoardView,
    pub state: GameState,
    pub table: Seq<(PosKeyV, u32)>,
}

/// A piece that stands alone on the board among its kind has exactly one
/// listed square.
proof fn lemma_unique_piece_bucket(v: BoardView, p: Piece, r: int, c: int)
    requires
        v.wf(),
        in_bounds(r, c),
        at(v.grid, r, c) == Some(p),
        forall|r2: int, c2: int|
            in_bounds(r2, c2) && !(r2 == r && c2 == c) ==> #[trigger] at(v.grid, r2, c2) != Some(
                p,
            ),
    ensures
        v.index[pid(p)].len() == 1,
        v.index[pid(p)][0] == (r as usize, c as usize),
{
    lemma_pid_piece_of(p);
    let b = pid(p);
    assert(v.ix_has(b, r, c));
    let k0 = choose|k: int|
        0 <= k < v.index[b].len() && (#[trigger] v.index[b][k]) == (r as usize, c as usize);
    assert forall|k: int| 0 <= k < v.index[b].len() implies #[trigger] v.index[b][k] == (
        r as usize,
        c as usize,
    ) by {
        let s = v.index[b][k];
        assert(at(v.grid, s.0 as int, s.1 as int) == Some(p));
        if !(s.0 as int == r && s.1 as int == c) {
            assert(at(v.grid, s.0 as int, s.1 as int) != Some(p));
        }
    }
    if v.index[b].len() > 1 {
        assert(v.index[b][0] == v.index[b][1]);
        assert(false);
    }
}

/// In the opening position, the black king is not attacked: every white piece
/// stands on the first two ranks, too far to reach the eighth.
proof fn lemma_initial_no_check(v: BoardView)
    requires
        v.wf(),
        forall|rr: int, cc: int|
            in_bounds(rr, cc) ==> #[trigger] at(v.grid, rr, cc) == crate::core_struct::start_square(
                rr,
                cc,
            ),
        king_bucket(v, Color::Black).len() == 1,
        king_bucket(v, Color::Black)[0] == (7usize, 4usize),
    ensures
        !in_check(v, Color::Black),
{
    let ks = crate::check_and_mate::king_square(v, Color::Black);
    assert(ks == (7usize, 4usize));
    if in_check(v, Color::Black) {
        let (i, k): (int, int) = choose|i: int, k: int|
            0 <= i < 12 && 0 <= k < v.index[i].len() && {
                let sq = #[trigger] v.index[i][k];
                piece_of(i).color_spec() != Color::Black && in_bounds(sq.0 as int, sq.1 as int)
                    && crate::check_and_mate::attacks(
                    v.grid,
                    piece_of(i),
                    sq.0 as int,
                    sq.1 as int,
                    ks.0 as int,
                    ks.1 as int,
                )
            };
        let sq = v.index[i][k];
        let p = piece_of(i);
        let sr = sq.0 as int;
        let sc = sq.1 as int;
        assert(at(v.grid, sr, sc) == Some(p));
        assert(crate::core_struct::start_square(sr, sc) == Some(p));
        assert(p.color_spec() == Color::White);
        assert(sr == 0 || sr == 1);
        match p {
            Piece::Pawn(_) => {
                assert(!crate::check_and_mate::pawn_attacks(Color::White, sr, sc, 7, 4));
            },
            Piece::Knight(_) => {
                assert(crate::move_validation::dist(sr, 7) >= 6);
            },
            Piece::King(_) => {
                assert(crate::move_validation::dist(sr, 7) >= 6);
            },
            Piece::Bishop(_) => {
                assert(crate::move_validation::dist(sr, 7) != crate::move_validation::dist(sc, 4));
            },
            Piece::Rook(_) => {
                assert(sr == 0 && (sc == 0 || sc == 7));
                assert(!crate::move_validation::rook_move_ok(v.grid, sr, sc, 7, 4));
            },
            Piece::Queen(_) => {
                assert(sr == 0 && sc == 3);
                assert(crate::move_validation::dist(sr, 7) != crate::move_validation::dist(sc, 4));
                assert(!crate::move_validation::rook_move_ok(v.grid, sr, sc, 7, 4));
            },
        }
        assert(false);
    }
}

/// The game facade: the board, the match state and the repetition tracker,
/// mutated together and only through the operations below.
pub struct Game {
    board: Board,
    game_state: GameState,
    positions: Vec<(PositionKey, u32)>,
}

impl View for Game {
    type V = GameView;

    closed spec fn view(&self) -> GameView {
        GameView {
            board: self.board@,
            state: self.game_state,
            table: table_view(self.positions@),
        }
    }
}

impl Game {
    /// The facade's standing invariant: the board is well-formed, the
    /// en-passant window and the pending promotion name real pawns, each side
    /// has exactly one king, and the side that is not about to act is never
    /// in check (while a promotion is pending, the side to act is the mover,
    /// whose king the validator protected).
    pub open spec fn inv(self) -> bool {
        let v = self@.board;
        let st = self@.state;
        &&& v.wf()
        &&& ep_coherent(v, st)
        &&& king_bucket(v, Color::White).len() == 1
        &&& king_bucket(v, Color::Black).len() == 1
        &&& (st.promotion_pending is None ==> !in_check(v, st.turn.flip()))
        &&& (st.promotion_pending is Some ==> !in_check(v, st.turn))
        &&& (match st.promotion_pending {
            Some(t) => t.0 < 8 && t.1 == st.turn && at(v.grid, promo_rank(t.1), t.0 as int)
                == Some(Piece::Pawn(t.1)),
            None => true,
        })
    }

    /// The canonical key of the current position.
    fn current_key(&self) -> (key: PositionKey)
        requires
            self@.board.dims(),
        ensures
            key@ == pos_key_of(self@.board.grid, self@.state),
    {
        PositionKey {
            turn: self.game_state.turn,
            grid: self.board.grid_copy(),
            wck: self.game_state.white_castle_king_side,
            wcq: self.game_state.white_castle_queen_side,
            bck: self.game_state.black_castle_king_side,
            bcq: self.game_state.black_castle_queen_side,
        }
    }

    /// A fresh game: the standard opening position, White to move, all rights
    /// intact, and the tracker seeded with the opening position at count one.
    pub fn new() -> (r: Game)
        ensures
            r.inv(),
            r@.state == GameState::initial(),
            forall|rr: int, cc: int|
                in_bounds(rr, cc) ==> #[trigger] at(r@.board.grid, rr, cc)
                    == crate::core_struct::start_square(rr, cc),
            r@.table =~= seq![(pos_key_of(r@.board.grid, GameState::initial()), 1u32)],
    {
        let board = Board::new();
        let game_state = GameState {
            turn: Color::White,
            white_castle_king_side: true,
            white_castle_queen_side: true,
            black_castle_king_side: true,
            black_castle_queen_side: true,
            en_passant: None,
            promotion_pending: None,
            endgame_status: EndgameStatus::Ongoing,
            how_many_moves: 0,
        };
        proof {
            assert forall|r2: int, c2: int|
                in_bounds(r2, c2) && !(r2 == 0 && c2 == 4) implies #[trigger] at(
                board@.grid,
                r2,
                c2,
            ) != Some(Piece::King(Color::White)) by {}
            lemma_unique_piece_bucket(board@, Piece::King(Color::White), 0, 4);
            assert forall|r2: int, c2: int|
                in_bounds(r2, c2) && !(r2 == 7 && c2 == 4) implies #[trigger] at(
                board@.grid,
                r2,
                c2,
            ) != Some(Piece::King(Color::Black)) by {}
            lemma_unique_piece_bucket(board@, Piece::King(Color::Black), 7, 4);
            lemma_initial_no_check(board@);
        }
        let mut positions: Vec<(PositionKey, u32)> = Vec::new();
        let key = PositionKey {
            turn: Color::White,
            grid: board.grid_copy(),
            wck: true,
            wcq: true,
            bck: true,
            bcq: true,
        };
        positions.push((key, 1));
        Game { board, game_state, positions }
    }

    /// The piece on the given square, if any.
    pub fn piece_at(&self, i: usize, j: usize) -> (p: Option<Piece>)
        requires
            self.inv(),
            i < 8,
            j < 8,
        ensures
            p == at(self@.board.grid, i as int, j as int),
    {
        self.board.piece_at(i, j)
    }

    /// Whose turn it is.
    pub fn turn(&self) -> (r: Color)
        ensures
            r == self@.state.turn,
    {
        self.game_state.turn
    }

    /// The open en-passant window, if any: the file and the color of the pawn
    /// that has just double-stepped.
    pub fn en_passant(&self) -> (r: Option<(usize, Color)>)
        ensures
            r == self@.state.en_passant,
    {
        self.game_state.en_passant
    }

    /// The pending promotion, if any: the file of the promoting pawn and its
    /// color.
    pub fn is_promotion_pending(&self) -> (r: Option<(usize, Color)>)
        ensures
            r == self@.state.promotion_pending,
    {
        self.game_state.promotion_pending
    }

    /// The cached endgame status, as written by the last evaluation.
    pub fn endgame_status(&self) -> (r: EndgameStatus)
        ensures
            r == self@.state.endgame_status,
    {
        self.game_state.endgame_status
    }

    /// All legal destinations of the piece on `start`, which must be an
    /// occupied square.
    pub fn get_legal_moves(&mut self, start: (usize, usize)) -> (v: Vec<(usize, usize)>)
        requires
            old(self).inv(),
            start.0 < 8,
            start.1 < 8,
            at(old(self)@.board.grid, start.0 as int, start.1 as int) is Some,
        ensures
            final(self).inv(),
            v@ == legal_dests(
                old(self)@.board,
                old(self)@.state,
                start.0 as int,
                start.1 as int,
            ),
            final(self)@.board.grid == old(self)@.board.grid,
            final(self)@.state == old(self)@.state,
            final(self)@.table == old(self)@.table,
    {
        let ghost v0 = self.board@;
        let moves = self.board.get_legal_moves(start, &self.game_state);
        proof {
            lemma_restored_inv(v0, self.board@, self.game_state);
        }
        moves
    }
}

/// A board restored after speculative work supports the same facade
/// invariant facts as the board it restores.
proof fn lemma_restored_inv(a: BoardView, b: BoardView, st: GameState)
    requires
        a.wf(),
        restored(a, b),
        ep_coherent(a, st),
        king_bucket(a, Color::White).len() == 1,
        king_bucket(a, Color::Black).len() == 1,
    ensures
        b.wf(),
        ep_coherent(b, st),
        king_bucket(b, Color::White).len() == 1,
        king_bucket(b, Color::Black).len() == 1,
        forall|c: Color|
            king_bucket(a, c).len() == 1 ==> #[trigger] in_check(b, c) == in_check(a, c),
{
    lemma_pid_piece_of(Piece::King(Color::White));
    lemma_pid_piece_of(Piece::King(Color::Black));
    assert forall|c: Color| king_bucket(a, c).len() == 1 implies #[trigger] in_check(b, c)
        == in_check(a, c) by {
        lemma_check_congruence(a, b, c);
        assert(check_result(a, c) == Ok::<bool, MoveError>(in_check(a, c)));
        assert(check_result(b, c) == Ok::<bool, MoveError>(in_check(b, c)));
    }
}


impl Game {
    /// Validate a move against the board and the match state and, on
    /// success, commit it: castling rights and the en-passant window are
    /// updated, a pawn reaching its last rank enters the pending-promotion
    /// sub-state instead of flipping the turn, the half-move clock is reset
    /// by any capture or pawn move and raised otherwise, and the repetition
    /// tracker records the new canonical position (an irreversible move
    /// clears it first and reseeds it at count one; a pending promotion
    /// defers that seed to its resolution). A rejected move leaves board,
    /// state and tracker unchanged.
    #[verifier::rlimit(100)]
    #[verifier::spinoff_prover]
    pub fn play_move(&mut self, start: (usize, usize), end: (usize, usize)) -> (r: Result<
        (),
        MoveError,
    >)
        requires
            old(self).inv(),
        ensures
            final(self).inv(),
            r == play_check(
                old(self)@.board,
                old(self)@.state,
                start.0 as int,
                start.1 as int,
                end.0 as int,
                end.1 as int,
            ),
            r is Err ==> final(self)@.state == old(self)@.state && final(self)@.table == old(
                self,
            )@.table && final(self)@.board.grid == old(self)@.board.grid,
            r is Ok ==> final(self)@.board.grid == apply_grid(
                old(self)@.board.grid,
                start.0 as int,
                start.1 as int,
                end.0 as int,
                end.1 as int,
            ) && final(self)@.state == play_state_after(
                old(self)@.board.grid,
                old(self)@.state,
                start.0 as int,
                start.1 as int,
                end.0 as int,
                end.1 as int,
            ) && final(self)@.table == play_table_after(
                old(self)@.board.grid,
                old(self)@.state,
                old(self)@.table,
                start.0 as int,
                start.1 as int,
                end.0 as int,
                end.1 as int,
            ),
    {
        if self.game_state.promotion_pending.is_some() {
            return Err(MoveError::PromotionPending);
        }
        if !self.game_state.endgame_status.is_ongoing() {
            return Err(MoveError::GameAlreadyOver);
        }
        let r = self.board.is_valid_move(start, end, &self.game_state);
        if let Err(e) = r {
            proof {
                lemma_restored_inv(old(self)@.board, self.board@, self.game_state);
            }
            return Err(e);
        }
        let ghost v0 = old(self)@.board;
        let ghost v1 = self.board@;
        let ghost st0 = old(self)@.state;
        let ghost sri = start.0 as int;
        let ghost sci = start.1 as int;
        let ghost eri = end.0 as int;
        let ghost eci = end.1 as int;
        proof {
            lemma_restored_inv(v0, v1, st0);
            lemma_gates_undoable(v0, st0, sri, sci, eri, eci);
            assert(undoable(v1, sri, sci, eri, eci));
            assert(start != end) by {
                if start == end {
                    assert(sri == eri && sci == eci);
                }
            }
            lemma_apply_preserves_wf(v1, sri, sci, eri, eci);
            lemma_apply_preserves_wf(v0, sri, sci, eri, eci);
            lemma_check_congruence(
                apply_view(v0, sri, sci, eri, eci),
                apply_view(v1, sri, sci, eri, eci),
                st0.turn,
            );
            lemma_no_king_capture(v0, st0, sri, sci, eri, eci);
            lemma_pid_piece_of(Piece::King(Color::White));
            lemma_pid_piece_of(Piece::King(Color::Black));
            lemma_apply_king_lens(v1, sri, sci, eri, eci, Color::White);
            lemma_apply_king_lens(v1, sri, sci, eri, eci, Color::Black);
        }
        // castling rights are lost when the king or an unmoved rook leaves
        // its home square, read before the piece moves
        if self.board.piece_at(start.0, start.1) == Some(Piece::King(Color::White)) {
            self.game_state.white_castle_king_side = false;
            self.game_state.white_castle_queen_side = false;
        } else if self.board.piece_at(start.0, start.1) == Some(Piece::Rook(Color::White)) {
            if start.0 == 0 && start.1 == 0 {
                self.game_state.white_castle_queen_side = false;
            } else if start.0 == 0 && start.1 == 7 {
                self.game_state.white_castle_king_side = false;
            }
        } else if self.board.piece_at(start.0, start.1) == Some(Piece::King(Color::Black)) {
            self.game_state.black_castle_king_side = false;
            self.game_state.black_castle_queen_side = false;
        } else if self.board.piece_at(start.0, start.1) == Some(Piece::Rook(Color::Black)) {
            if start.0 == 7 && start.1 == 0 {
                self.game_state.black_castle_queen_side = false;
            } else if start.0 == 7 && start.1 == 7 {
                self.game_state.black_castle_king_side = false;
            }
        }
        // a pawn's double step opens the en-passant window for one reply
        if self.board.piece_at(start.0, start.1) == Some(Piece::Pawn(Color::White)) && start.0 == 1
            && end.0 == 3 {
            self.game_state.en_passant = Some((start.1, Color::White));
        } else if self.board.piece_at(start.0, start.1) == Some(Piece::Pawn(Color::Black))
            && start.0 == 6 && end.0 == 4 {
            self.game_state.en_passant = Some((start.1, Color::Black));
        } else {
            self.game_state.en_passant = None;
        }
        // a pawn reaching its last rank defers the turn flip to the
        // promotion commit
        if self.board.piece_at(start.0, start.1) == Some(Piece::Pawn(Color::White)) && end.0 == 7 {
            self.game_state.promotion_pending = Some((end.1, Color::White));
        } else if self.board.piece_at(start.0, start.1) == Some(Piece::Pawn(Color::Black)) && end.0
            == 0 {
            self.game_state.promotion_pending = Some((end.1, Color::Black));
        } else {
            self.game_state.turn = self.game_state.turn.opposite();
        }
        let is_take_or_pawn = self.board.piece_at(end.0, end.1).is_some() || self.board.piece_at(
            start.0,
            start.1,
        ) == Some(Piece::Pawn(Color::White)) || self.board.piece_at(start.0, start.1) == Some(
            Piece::Pawn(Color::Black),
        );
        let _ = self.board.execute_move(start, end);
        proof {
            assert(at(self.board@.grid, eri, eci) == Some(at(v0.grid, sri, sci)->0)) by {
                let p = at(v0.grid, sri, sci)->0;
                if p is Pawn && sci != eci && at(v0.grid, eri, eci) is None {
                    assert(sri != eri);
                }
            }
        }
        let key = self.current_key();
        if !is_take_or_pawn {
            if self.game_state.how_many_moves < u32::MAX {
                self.game_state.how_many_moves = self.game_state.how_many_moves + 1;
            }
            table_bump(&mut self.positions, key);
        } else {
            self.game_state.how_many_moves = 0;
            self.positions.clear();
            if self.game_state.promotion_pending.is_none() {
                self.positions.push((key, 1));
            }
        }
        proof {
            let stf = self@.state;
            let vf = self@.board;
            assert(stf == play_state_after(v0.grid, st0, sri, sci, eri, eci));
            assert(vf.grid == apply_grid(v0.grid, sri, sci, eri, eci));
            // the well-formedness clauses of the facade invariant
            assert(vf.wf());
            assert(ep_coherent(vf, stf)) by {
                let p = at(v0.grid, sri, sci)->0;
                if stf.en_passant is Some {
                    if p == Piece::Pawn(Color::White) && sri == 1 && eri == 3 {
                        assert(crate::move_validation::pawn_move_ok(
                            v0.grid,
                            st0.en_passant,
                            Color::White,
                            sri,
                            sci,
                            eri,
                            eci,
                        ));
                        assert(eci == sci);
                    } else {
                        assert(p == Piece::Pawn(Color::Black) && sri == 6 && eri == 4);
                        assert(crate::move_validation::pawn_move_ok(
                            v0.grid,
                            st0.en_passant,
                            Color::Black,
                            sri,
                            sci,
                            eri,
                            eci,
                        ));
                        assert(eci == sci);
                    }
                }
            }
            assert(check_result(apply_view(v0, sri, sci, eri, eci), st0.turn) == Ok::<
                bool,
                MoveError,
            >(false));
            assert(!in_check(vf, st0.turn));
            if stf.promotion_pending is Some {
                assert(at(v0.grid, sri, sci)->0.color_spec() == st0.turn);
                assert(stf.turn == st0.turn);
            } else {
                assert(stf.turn == st0.turn.flip());
            }
            assert(self.inv());
        }
        Ok(())
    }
}


impl Game {
    /// Resolve a pending promotion with the chosen piece: the pawn on the
    /// stored target square becomes that piece in both board structures, the
    /// pending marker is cleared, the new position is written into the
    /// repetition tracker, and only then does the turn flip. Requires a
    /// pending promotion whose color is the side to move.
    #[verifier::rlimit(60)]
    pub fn promote_pawn(&mut self, promotion_piece: PromotionPiece) -> (r: Result<(), MoveError>)
        requires
            old(self).inv(),
        ensures
            final(self).inv(),
            r == (match old(self)@.state.promotion_pending {
                None => Err::<(), MoveError>(MoveError::NoPromotionPending),
                Some(t) => if t.1 != old(self)@.state.turn {
                    Err(MoveError::WrongSideForPromotion)
                } else {
                    Ok(())
                },
            }),
            r is Err ==> final(self)@.state == old(self)@.state && final(self)@.table == old(
                self,
            )@.table && final(self)@.board.grid == old(self)@.board.grid,
            r is Ok ==> ({
                let t = old(self)@.state.promotion_pending->0;
                let g2 = old(self)@.board.grid.update(
                    promo_rank(t.1) * 8 + t.0 as int,
                    Some(chosen_piece(promotion_piece, t.1)),
                );
                let st2 = GameState {
                    promotion_pending: None,
                    turn: old(self)@.state.turn.flip(),
                    ..old(self)@.state
                };
                &&& final(self)@.board.grid == g2
                &&& final(self)@.state == st2
                &&& final(self)@.table == put_one(old(self)@.table, pos_key_of(g2, st2))
            }),
    {
        let pending = self.game_state.promotion_pending;
        let (y, color) = match pending {
            None => {
                return Err(MoveError::NoPromotionPending);
            },
            Some(t) => t,
        };
        if color != self.game_state.turn {
            return Err(MoveError::WrongSideForPromotion);
        }
        let piece = match promotion_piece {
            PromotionPiece::Queen => Piece::Queen(color),
            PromotionPiece::Rook => Piece::Rook(color),
            PromotionPiece::Bishop => Piece::Bishop(color),
            PromotionPiece::Knight => Piece::Knight(color),
        };
        let x: usize = if color == Color::White {
            7
        } else {
            0
        };
        let ghost v0 = self.board@;
        let ghost st0 = self.game_state;
        let ghost qi = promo_rank(color) * 8 + y as int;
        let ghost pawn = Piece::Pawn(color);
        let ghost w1 = BoardView {
            grid: v0.grid.update(qi, None),
            index: v0.index.update(
                pid(pawn),
                remove_first(v0.index[pid(pawn)], (x as usize, y as usize)),
            ),
        };
        let ghost w2 = BoardView {
            grid: w1.grid.update(qi, Some(piece)),
            index: w1.index.update(pid(piece), w1.index[pid(piece)].push((x as usize, y as usize))),
        };
        proof {
            assert(at(v0.grid, x as int, y as int) == Some(pawn));
            lemma_lift_preserves_wf(v0, x as int, y as int, pawn, w1);
            assert(at(w1.grid, x as int, y as int) is None);
            lemma_wf_membership(w1);
            assert(!w1.index[pid(piece)].contains((x as usize, y as usize)));
            lemma_place_preserves_wf(w1, x as int, y as int, piece, w2);
        }
        self.board.set_square(x, y, Some(piece));
        self.board.index_remove(Piece::Pawn(color), (x, y));
        self.board.index_insert(piece, (x, y));
        proof {
            lemma_pid_piece_of(pawn);
            lemma_pid_piece_of(piece);
            assert(self.board@.grid =~= w2.grid);
            assert(w1.index[pid(piece)].push((x as usize, y as usize)) == push_if_absent(
                w1.index[pid(piece)],
                (x as usize, y as usize),
            ));
            assert(self.board@.index =~= w2.index);
            assert(self.board@.wf());
            // occupancy is unchanged and only own-color slots were touched,
            // so the promoter's king stays out of check
            assert forall|r2: int, c2: int| in_bounds(r2, c2) implies ((#[trigger] at(
                v0.grid,
                r2,
                c2,
            )) is None <==> at(self.board@.grid, r2, c2) is None) by {
                if r2 * 8 + c2 == qi {
                    lemma_sq_injective(r2, c2, promo_rank(color), y as int);
                }
            }
            assert forall|i: int|
                0 <= i < 12 && piece_of(i).color_spec() != color implies #[trigger] self.board@.index[i]
                == v0.index[i] by {
                if i == pid(pawn) || i == pid(piece) {
                    crate::core_struct::lemma_piece_of_pid(i);
                }
            }
            assert(self.board@.index[pid(Piece::King(color))] == v0.index[pid(Piece::King(color))])
                by {
                lemma_pid_piece_of(Piece::King(color));
            }
            crate::check_and_mate::lemma_swap_same_color_check(v0, self.board@, color);
            lemma_pid_piece_of(Piece::King(Color::White));
            lemma_pid_piece_of(Piece::King(Color::Black));
            assert(king_bucket(self.board@, Color::White).len() == king_bucket(
                v0,
                Color::White,
            ).len());
            assert(king_bucket(self.board@, Color::Black).len() == king_bucket(
                v0,
                Color::Black,
            ).len());
        }
        self.game_state.promotion_pending = None;
        self.game_state.turn = self.game_state.turn.opposite();
        let key = self.current_key();
        table_put1(&mut self.positions, key);
        proof {
            let vf = self@.board;
            let stf = self@.state;
            assert(ep_coherent(vf, stf)) by {
                if stf.en_passant is Some {
                    let t = stf.en_passant->0;
                    if t.1 == Color::White {
                        assert(at(vf.grid, 3, t.0 as int) == at(v0.grid, 3, t.0 as int)) by {
                            if 3 * 8 + t.0 as int == qi {
                                lemma_sq_injective(3, t.0 as int, promo_rank(color), y as int);
                            }
                        }
                    } else {
                        assert(at(vf.grid, 4, t.0 as int) == at(v0.grid, 4, t.0 as int)) by {
                            if 4 * 8 + t.0 as int == qi {
                                lemma_sq_injective(4, t.0 as int, promo_rank(color), y as int);
                            }
                        }
                    }
                }
            }
            assert(self.inv());
        }
        Ok(())
    }

    /// Classify the current position, first match wins: the fifty-move rule,
    /// threefold repetition, insufficient material, then checkmate or
    /// stalemate from the board. The result is written into the cached
    /// status and returned; calling again without an intervening move
    /// returns the same answer.
    pub fn evaluate_endgame(&mut self) -> (r: EndgameStatus)
        requires
            old(self).inv(),
        ensures
            final(self).inv(),
            r == game_eval(old(self)@.board, old(self)@.state, old(self)@.table),
            final(self)@.state == (GameState { endgame_status: r, ..old(self)@.state }),
            final(self)@.board.grid == old(self)@.board.grid,
            final(self)@.table == old(self)@.table,
    {
        if self.game_state.how_many_moves >= 100 {
            self.game_state.endgame_status = EndgameStatus::Draw(DrawReason::FiftyMoveRule);
            return EndgameStatus::Draw(DrawReason::FiftyMoveRule);
        }
        if table_has_triple(&self.positions) {
            self.game_state.endgame_status = EndgameStatus::Draw(DrawReason::ThreefoldRepetition);
            return EndgameStatus::Draw(DrawReason::ThreefoldRepetition);
        }
        if self.board.is_insufficient_material() {
            self.game_state.endgame_status = EndgameStatus::Draw(DrawReason::InsufficientMaterial);
            return EndgameStatus::Draw(DrawReason::InsufficientMaterial);
        }
        let ghost v0 = self.board@;
        proof {
            lemma_pid_piece_of(Piece::King(self.game_state.turn));
        }
        let status = self.board.evaluate_endgame(&self.game_state);
        proof {
            lemma_restored_inv(v0, self.board@, self.game_state);
        }
        self.game_state.endgame_status = status;
        status
    }
}

} // verus!
