//! Check detection and endgame classification: whether a king is attacked,
//! whether the side to move is mated or stalemated, and whether the material
//! left on the board can still decide the game.

use vstd::prelude::*;

use crate::core_struct::{at, id_piece, in_bounds, pid, piece_of, Board, BoardView, Color, Piece};
use crate::core_struct::{lemma_pid_piece_of, piece_id};
use crate::game::GameState;
use crate::move_execution::{
    apply_ix, apply_view, lemma_push_if_absent_props, lemma_remove_first_props,
    lemma_same_grid_same_buckets, lemma_wf_membership, undoable,
};
use crate::core_struct::{lemma_piece_of_pid, push_if_absent, remove_first};
use crate::move_generation::any_legal;
use crate::move_validation::{
    bishop_move_ok, ep_coherent, king_adjacent, knight_move_ok, queen_move_ok, rook_move_ok,
    MoveError,
};

verus! {

/// The two diagonally-forward squares a pawn of `color` attacks: never a
/// straight advance, never en passant.
pub open spec fn pawn_attacks(color: Color, sr: int, sc: int, er: int, ec: int) -> bool {
    if color == Color::White {
        sr + 1 == er && (sc == ec + 1 || sc + 1 == ec)
    } else {
        sr == er + 1 && (sc == ec + 1 || sc + 1 == ec)
    }
}

/// Whether the piece `p` standing on `(sr, sc)` attacks `(er, ec)`: each kind
/// uses its reduced attack pattern — pawns their two forward diagonals, kings
/// the eight adjacent squares, the others their ordinary move shapes with
/// blocking.
pub open spec fn attacks(g: Seq<Option<Piece>>, p: Piece, sr: int, sc: int, er: int, ec: int) -> bool {
    match p {
        Piece::Pawn(c) => pawn_attacks(c, sr, sc, er, ec),
        Piece::Knight(_) => knight_move_ok(sr, sc, er, ec),
        Piece::Bishop(_) => bishop_move_ok(g, sr, sc, er, ec),
        Piece::Rook(_) => rook_move_ok(g, sr, sc, er, ec),
        Piece::Queen(_) => queen_move_ok(g, sr, sc, er, ec),
        Piece::King(_) => king_adjacent(sr, sc, er, ec),
    }
}

/// The index slot that lists the squares of `color`'s king.
pub open spec fn king_bucket(v: BoardView, color: Color) -> Seq<(usize, usize)> {
    v.index[pid(Piece::King(color))]
}

/// The square of `color`'s king; meaningful when its slot lists exactly one.
pub open spec fn king_square(v: BoardView, color: Color) -> (usize, usize) {
    king_bucket(v, color)[0]
}

/// Some enemy piece listed in the index attacks the king's square. A square
/// off the board neither gives nor receives check.
pub open spec fn in_check(v: BoardView, color: Color) -> bool {
    let ks = king_square(v, color);
    in_bounds(ks.0 as int, ks.1 as int) && exists|i: int, k: int|
        0 <= i < 12 && 0 <= k < v.index[i].len() && {
            let sq = #[trigger] v.index[i][k];
            piece_of(i).color_spec() != color && in_bounds(sq.0 as int, sq.1 as int) && attacks(
                v.grid,
                piece_of(i),
                sq.0 as int,
                sq.1 as int,
                ks.0 as int,
                ks.1 as int,
            )
        }
}

/// What asking "is this king in check?" returns: an error when the king's
/// index slot does not list exactly one square (a corrupted board), the check
/// predicate otherwise.
pub open spec fn check_result(v: BoardView, color: Color) -> Result<bool, MoveError> {
    if king_bucket(v, color).len() == 0 {
        Err(MoveError::KingNotFound)
    } else if king_bucket(v, color).len() != 1 {
        Err(MoveError::MultipleKings)
    } else {
        Ok(in_check(v, color))
    }
}

/// The entry `(i, k)` of the index is no attacker of `color`'s king.
spec fn no_attacker_at(v: BoardView, color: Color, i: int, k: int) -> bool {
    let ks = king_square(v, color);
    let sq = v.index[i][k];
    !(piece_of(i).color_spec() != color && in_bounds(sq.0 as int, sq.1 as int) && attacks(
        v.grid,
        piece_of(i),
        sq.0 as int,
        sq.1 as int,
        ks.0 as int,
        ks.1 as int,
    ))
}

impl Board {
    /// A pawn of `color` on `start` attacks `end`: only its two forward
    /// diagonals; a pawn can never take a king en passant or straight ahead.
    fn can_pawn_take_king(&self, start: (usize, usize), end: (usize, usize), color: Color) -> (r:
        bool)
        requires
            in_bounds(start.0 as int, start.1 as int),
            in_bounds(end.0 as int, end.1 as int),
        ensures
            r == pawn_attacks(color, start.0 as int, start.1 as int, end.0 as int, end.1 as int),
    {
        if color == Color::White {
            start.0 + 1 == end.0 && (start.1 == end.1 + 1 || start.1 + 1 == end.1)
        } else {
            start.0 == end.0 + 1 && (start.1 == end.1 + 1 || start.1 + 1 == end.1)
        }
    }

    /// A king on `start` attacks `end`: one square away at most; castling can
    /// never take a king.
    fn can_king_take_king(&self, start: (usize, usize), end: (usize, usize)) -> (r: bool)
        ensures
            r == king_adjacent(start.0 as int, start.1 as int, end.0 as int, end.1 as int),
    {
        let x_diff = if start.0 >= end.0 {
            start.0 - end.0
        } else {
            end.0 - start.0
        };
        let y_diff = if start.1 >= end.1 {
            start.1 - end.1
        } else {
            end.1 - start.1
        };
        x_diff <= 1 && y_diff <= 1
    }

    /// Whether `color`'s king is attacked: locate the unique square of the
    /// king in the index, then test every opposing piece's reduced attack
    /// pattern, stopping at the first attacker. A board whose king slot does
    /// not list exactly one square is corrupted; that is surfaced, never
    /// defaulted.
    pub fn is_king_in_check(&self, color: Color) -> (r: Result<bool, MoveError>)
        requires
            self@.dims(),
        ensures
            r == check_result(self@, color),
    {
        let kb = piece_id(Piece::King(color));
        let n = self.bucket_count(kb);
        if n == 0 {
            return Err(MoveError::KingNotFound);
        }
        if n != 1 {
            return Err(MoveError::MultipleKings);
        }
        let king_pos = self.bucket_at(kb, 0);
        if !(king_pos.0 < 8 && king_pos.1 < 8) {
            return Ok(false);
        }
        let mut i: usize = 0;
        while i < 12
            invariant
                self@.dims(),
                i <= 12,
                king_pos == king_square(self@, color),
                king_bucket(self@, color).len() == 1,
                in_bounds(king_pos.0 as int, king_pos.1 as int),
                forall|i2: int, k2: int|
                    0 <= i2 < i && 0 <= k2 < self@.index[i2].len() ==> #[trigger] no_attacker_at(
                        self@,
                        color,
                        i2,
                        k2,
                    ),
            decreases 12 - i,
        {
            let piece = id_piece(i);
            let m = self.bucket_count(i);
            let mut k: usize = 0;
            while k < m
                invariant
                    self@.dims(),
                    i < 12,
                    m == self@.index[i as int].len(),
                    k <= m,
                    piece == piece_of(i as int),
                    king_pos == king_square(self@, color),
                    king_bucket(self@, color).len() == 1,
                    in_bounds(king_pos.0 as int, king_pos.1 as int),
                    forall|i2: int, k2: int|
                        0 <= i2 < i && 0 <= k2 < self@.index[i2].len() ==> #[trigger] no_attacker_at(
                            self@,
                            color,
                            i2,
                            k2,
                        ),
                    forall|k2: int|
                        0 <= k2 < k ==> #[trigger] no_attacker_at(self@, color, i as int, k2),
                decreases m - k,
            {
                let pos = self.bucket_at(i, k);
                if piece.color() != color && pos.0 < 8 && pos.1 < 8 {
                    let att = match piece {
                        Piece::Pawn(c) => self.can_pawn_take_king(pos, king_pos, c),
                        Piece::Knight(_) => self.is_valid_knight_move(pos, king_pos),
                        Piece::Bishop(_) => self.is_valid_bishop_move(pos, king_pos),
                        Piece::Rook(_) => self.is_valid_rook_move(pos, king_pos),
                        Piece::Queen(_) => self.is_valid_queen_move(pos, king_pos),
                        Piece::King(_) => self.can_king_take_king(pos, king_pos),
                    };
                    if att {
                        proof {
                            let ks = king_square(self@, color);
                            assert(self@.index[i as int][k as int] == pos);
                            assert(attacks(
                                self@.grid,
                                piece_of(i as int),
                                pos.0 as int,
                                pos.1 as int,
                                ks.0 as int,
                                ks.1 as int,
                            ));
                            assert(in_check(self@, color));
                        }
                        return Ok(true);
                    }
                    proof {
                        assert(no_attacker_at(self@, color, i as int, k as int));
                    }
                } else {
                    proof {
                        assert(no_attacker_at(self@, color, i as int, k as int));
                    }
                }
                k = k + 1;
            }
            i = i + 1;
        }
        proof {
            if in_check(self@, color) {
                let (i2, k2): (int, int) = choose|i2: int, k2: int|
                    0 <= i2 < 12 && 0 <= k2 < self@.index[i2].len() && {
                        let sq = #[trigger] self@.index[i2][k2];
                        piece_of(i2).color_spec() != color && in_bounds(sq.0 as int, sq.1 as int)
                            && attacks(
                            self@.grid,
                            piece_of(i2),
                            sq.0 as int,
                            sq.1 as int,
                            king_square(self@, color).0 as int,
                            king_square(self@, color).1 as int,
                        )
                    };
                assert(no_attacker_at(self@, color, i2, k2));
            }
        }
        Ok(false)
    }
}

/// Why a side won.
#[derive(Debug, Clone, Copy, PartialEq, Eq, Structural)]
pub enum WinReason {
    Checkmate,
}

/// Why a game is drawn.
#[derive(Debug, Clone, Copy, PartialEq, Eq, Structural)]
pub enum DrawReason {
    Stalemate,
    FiftyMoveRule,
    ThreefoldRepetition,
    InsufficientMaterial,
}

/// The status of a game: won by one color for a reason, drawn for a reason, or
/// still ongoing.
#[derive(Debug, Clone, Copy, PartialEq, Eq, Structural)]
pub enum EndgameStatus {
    Win(Color, WinReason),
    Draw(DrawReason),
    Ongoing,
}

impl EndgameStatus {
    /// Whether the game can continue.
    pub fn is_ongoing(&self) -> (r: bool)
        ensures
            r <==> *self == EndgameStatus::Ongoing,
    {
        match self {
            EndgameStatus::Ongoing => true,
            _ => false,
        }
    }
}


/// Two well-formed boards with the same grid give the same answer to every
/// check question: same errors on corrupted king slots, same verdict
/// otherwise.
pub(crate) proof fn lemma_check_congruence(a: BoardView, b: BoardView, color: Color)
    requires
        a.wf(),
        b.wf(),
        b.grid == a.grid,
    ensures
        check_result(b, color) == check_result(a, color),
{
    lemma_same_grid_same_buckets(a, b);
    let kb = pid(Piece::King(color));
    lemma_pid_piece_of(Piece::King(color));
    assert(b.index[kb].len() == a.index[kb].len());
    if a.index[kb].len() == 1 {
        let x = a.index[kb][0];
        let y = b.index[kb][0];
        assert(b.index[kb].contains(y));
        assert(a.index[kb].contains(y));
        let k = choose|k: int| 0 <= k < a.index[kb].len() && a.index[kb][k] == y;
        assert(k == 0);
        assert(king_square(b, color) == king_square(a, color));
        let ks = king_square(a, color);
        assert(in_check(b, color) <==> in_check(a, color)) by {
            if in_check(a, color) {
                let (i, k): (int, int) = choose|i: int, k: int|
                    0 <= i < 12 && 0 <= k < a.index[i].len() && {
                        let sq = #[trigger] a.index[i][k];
                        piece_of(i).color_spec() != color && in_bounds(sq.0 as int, sq.1 as int)
                            && attacks(
                            a.grid,
                            piece_of(i),
                            sq.0 as int,
                            sq.1 as int,
                            ks.0 as int,
                            ks.1 as int,
                        )
                    };
                let sq = a.index[i][k];
                assert(a.index[i].contains(sq));
                assert(b.index[i].contains(sq));
                let k2 = choose|k2: int| 0 <= k2 < b.index[i].len() && b.index[i][k2] == sq;
                assert(b.index[i][k2] == sq);
                assert(in_check(b, color));
            }
            if in_check(b, color) {
                let (i, k): (int, int) = choose|i: int, k: int|
                    0 <= i < 12 && 0 <= k < b.index[i].len() && {
                        let sq = #[trigger] b.index[i][k];
                        piece_of(i).color_spec() != color && in_bounds(sq.0 as int, sq.1 as int)
                            && attacks(
                            b.grid,
                            piece_of(i),
                            sq.0 as int,
                            sq.1 as int,
                            ks.0 as int,
                            ks.1 as int,
                        )
                    };
                let sq = b.index[i][k];
                assert(b.index[i].contains(sq));
                assert(a.index[i].contains(sq));
                let k2 = choose|k2: int| 0 <= k2 < a.index[i].len() && a.index[i][k2] == sq;
                assert(a.index[i][k2] == sq);
                assert(in_check(a, color));
            }
        }
    }
}


/// A square's contents block the insufficient-material rule only when they
/// are a pawn, rook or queen; kings and minor pieces never do.
pub open spec fn square_minor_or_king(cell: Option<Piece>) -> bool {
    match cell {
        None => true,
        Some(p) => p is King || p is Knight || p is Bishop,
    }
}

/// The cell holds a knight or bishop of `color`.
pub open spec fn is_minor_of(cell: Option<Piece>, color: Color) -> bool {
    cell == Some(Piece::Knight(color)) || cell == Some(Piece::Bishop(color))
}

/// How many of the first `n` squares (row-major) hold a minor piece of
/// `color`.
pub open spec fn minors_upto(g: Seq<Option<Piece>>, color: Color, n: int) -> int
    decreases n,
{
    if n <= 0 {
        0
    } else {
        minors_upto(g, color, n - 1) + (if is_minor_of(g[n - 1], color) {
            1int
        } else {
            0int
        })
    }
}

/// No square in the first `n` holds anything but a king or a minor piece.
pub open spec fn no_major_upto(g: Seq<Option<Piece>>, n: int) -> bool {
    forall|k: int| 0 <= k < n ==> square_minor_or_king(#[trigger] g[k])
}

/// Insufficient material under the engine's deliberately simplified rule:
/// neither side has any piece besides king, knight or bishop, and each side
/// has at most one such minor piece.
pub open spec fn insufficient_material(g: Seq<Option<Piece>>) -> bool {
    &&& no_major_upto(g, 64)
    &&& minors_upto(g, Color::White, 64) <= 1
    &&& minors_upto(g, Color::Black, 64) <= 1
}

/// What the board-level endgame classification returns: with no legal move
/// left, check means the opponent wins by checkmate and no check means a
/// stalemate draw; otherwise the game goes on.
pub open spec fn board_eval(v: BoardView, st: GameState) -> EndgameStatus {
    if !any_legal(v, st) {
        if in_check(v, st.turn) {
            EndgameStatus::Win(st.turn.flip(), WinReason::Checkmate)
        } else {
            EndgameStatus::Draw(DrawReason::Stalemate)
        }
    } else {
        EndgameStatus::Ongoing
    }
}

impl Board {
    /// Classify the position for the side to move: checkmate or stalemate
    /// when it has no legal move, ongoing otherwise. The board is left as it
    /// was.
    pub fn evaluate_endgame(&mut self, game_state: &GameState) -> (r: EndgameStatus)
        requires
            old(self)@.wf(),
            ep_coherent(old(self)@, *game_state),
            king_bucket(old(self)@, game_state.turn).len() == 1,
        ensures
            r == board_eval(old(self)@, *game_state),
            final(self)@.grid == old(self)@.grid,
            crate::move_execution::restored(old(self)@, final(self)@),
    {
        let ghost v0 = old(self)@;
        let color = game_state.turn;
        let no_moves = !self.has_legal_moves(game_state);
        proof {
            lemma_check_congruence(v0, self@, color);
        }
        if no_moves {
            match self.is_king_in_check(color) {
                Ok(true) => EndgameStatus::Win(color.opposite(), WinReason::Checkmate),
                Ok(false) => EndgameStatus::Draw(DrawReason::Stalemate),
                Err(_) => {
                    proof {
                        assert(false);
                    }
                    EndgameStatus::Ongoing
                },
            }
        } else {
            EndgameStatus::Ongoing
        }
    }

    /// Whether the position is a draw by insufficient material: each side has
    /// only its king and at most one minor piece, and no pawn, rook or queen
    /// stands anywhere.
    pub fn is_insufficient_material(&self) -> (r: bool)
        requires
            self@.dims(),
        ensures
            r == insufficient_material(self@.grid),
    {
        let mut white_minor_pieces: usize = 0;
        let mut black_minor_pieces: usize = 0;
        let mut i: usize = 0;
        while i < 8
            invariant
                self@.dims(),
                i <= 8,
                white_minor_pieces <= 8 * i,
                black_minor_pieces <= 8 * i,
                white_minor_pieces as int == minors_upto(self@.grid, Color::White, 8 * i as int),
                black_minor_pieces as int == minors_upto(self@.grid, Color::Black, 8 * i as int),
                no_major_upto(self@.grid, 8 * i as int),
            decreases 8 - i,
        {
            let mut j: usize = 0;
            while j < 8
                invariant
                    self@.dims(),
                    i < 8,
                    j <= 8,
                    white_minor_pieces <= 8 * i + j,
                    black_minor_pieces <= 8 * i + j,
                    white_minor_pieces as int == minors_upto(
                        self@.grid,
                        Color::White,
                        8 * i as int + j as int,
                    ),
                    black_minor_pieces as int == minors_upto(
                        self@.grid,
                        Color::Black,
                        8 * i as int + j as int,
                    ),
                    no_major_upto(self@.grid, 8 * i as int + j as int),
                decreases 8 - j,
            {
                let cell = self.piece_at(i, j);
                proof {
                    assert(at(self@.grid, i as int, j as int) == self@.grid[8 * i as int
                        + j as int]);
                }
                match cell {
                    Some(Piece::Knight(Color::White)) | Some(Piece::Bishop(Color::White)) => {
                        white_minor_pieces = white_minor_pieces + 1;
                    },
                    Some(Piece::Knight(Color::Black)) | Some(Piece::Bishop(Color::Black)) => {
                        black_minor_pieces = black_minor_pieces + 1;
                    },
                    Some(Piece::King(_)) => {},
                    None => {},
                    _ => {
                        proof {
                            assert(!square_minor_or_king(
                                self@.grid[8 * i as int + j as int],
                            ));
                        }
                        return false;
                    },
                }
                j = j + 1;
            }
            i = i + 1;
        }
        white_minor_pieces <= 1 && black_minor_pieces <= 1
    }
}


/// Applying a move that captures no king leaves each side with exactly one
/// listed king square: only the mover's own slot is touched, by one removal
/// and one insertion.
pub(crate) proof fn lemma_apply_king_lens(
    v: BoardView,
    sr: int,
    sc: int,
    er: int,
    ec: int,
    c: Color,
)
    requires
        v.wf(),
        undoable(v, sr, sc, er, ec),
        king_bucket(v, c).len() == 1,
        at(v.grid, er, ec) is Some ==> !(at(v.grid, er, ec)->0 is King),
    ensures
        king_bucket(apply_view(v, sr, sc, er, ec), c).len() == 1,
{
    let p = at(v.grid, sr, sc)->0;
    let taken = at(v.grid, er, ec);
    let s = (sr as usize, sc as usize);
    let e = (er as usize, ec as usize);
    let kb = pid(Piece::King(c));
    let bp = pid(p);
    lemma_pid_piece_of(p);
    lemma_pid_piece_of(Piece::King(c));
    lemma_wf_membership(v);
    let ix = apply_ix(v, sr, sc, er, ec);
    if taken is Some {
        assert(pid(taken->0) != kb) by {
            if pid(taken->0) == kb {
                lemma_piece_of_pid(kb);
                assert(taken->0 == Piece::King(c));
            }
        }
    }
    let rook_w = pid(Piece::Rook(Color::White));
    let rook_b = pid(Piece::Rook(Color::Black));
    assert(rook_w != kb && rook_b != kb);
    let pawn_w = pid(Piece::Pawn(Color::White));
    let pawn_b = pid(Piece::Pawn(Color::Black));
    assert(pawn_w != kb && pawn_b != kb);
    if p == Piece::King(c) {
        // the king's own slot: its single square is removed, the new one added
        assert(bp == kb);
        let b0 = v.index[kb];
        assert(b0.no_duplicates());
        assert(b0.contains(s));
        lemma_remove_first_props(b0, s);
        let b1 = remove_first(b0, s);
        assert(b1.len() == 0);
        lemma_push_if_absent_props(b1, e);
        assert(!b1.contains(e));
        assert(push_if_absent(b1, e).len() == 1);
        assert(ix[kb] == push_if_absent(b1, e));
    } else {
        assert(bp != kb) by {
            if bp == kb {
                lemma_piece_of_pid(kb);
            }
        }
        assert(ix[kb] == v.index[kb]);
    }
}

/// Attack patterns depend on the grid only through which squares are
/// occupied: two grids occupied on exactly the same squares give every piece
/// the same attacks.
pub(crate) proof fn lemma_attacks_occ_equiv(
    g1: Seq<Option<Piece>>,
    g2: Seq<Option<Piece>>,
    p: Piece,
    sr: int,
    sc: int,
    er: int,
    ec: int,
)
    requires
        in_bounds(sr, sc),
        in_bounds(er, ec),
        forall|r: int, c: int|
            in_bounds(r, c) ==> ((#[trigger] at(g1, r, c)) is None <==> at(g2, r, c) is None),
    ensures
        attacks(g2, p, sr, sc, er, ec) == attacks(g1, p, sr, sc, er, ec),
{
    assert forall|a1: int, b1: int, a2: int, b2: int|
        in_bounds(a1, b1) && in_bounds(a2, b2) implies crate::move_validation::bishop_move_ok(
        g2,
        a1,
        b1,
        a2,
        b2,
    ) == crate::move_validation::bishop_move_ok(g1, a1, b1, a2, b2) by {
        lemma_bishop_occ_equiv(g1, g2, a1, b1, a2, b2);
    }
    assert forall|a1: int, b1: int, a2: int, b2: int|
        in_bounds(a1, b1) && in_bounds(a2, b2) implies crate::move_validation::rook_move_ok(
        g2,
        a1,
        b1,
        a2,
        b2,
    ) == crate::move_validation::rook_move_ok(g1, a1, b1, a2, b2) by {
        lemma_rook_occ_equiv(g1, g2, a1, b1, a2, b2);
    }
}

/// Helper of `lemma_attacks_occ_equiv`: the bishop's blocking rule reads only
/// occupancy.
proof fn lemma_bishop_occ_equiv(
    g1: Seq<Option<Piece>>,
    g2: Seq<Option<Piece>>,
    sr: int,
    sc: int,
    er: int,
    ec: int,
)
    requires
        in_bounds(sr, sc),
        in_bounds(er, ec),
        forall|r: int, c: int|
            in_bounds(r, c) ==> ((#[trigger] at(g1, r, c)) is None <==> at(g2, r, c) is None),
    ensures
        crate::move_validation::bishop_move_ok(g2, sr, sc, er, ec)
            == crate::move_validation::bishop_move_ok(g1, sr, sc, er, ec),
{
    let d = crate::move_validation::dist(sr, er);
    assert forall|k: int| 1 <= k < d implies in_bounds(
        crate::move_validation::diag_step(sr, er, k),
        crate::move_validation::diag_step(sc, ec, k),
    ) || !(crate::move_validation::dist(sc, ec) == d) by {}
    if crate::move_validation::dist(sc, ec) == d {
        assert forall|k: int| 1 <= k < d implies ((#[trigger] at(
            g1,
            crate::move_validation::diag_step(sr, er, k),
            crate::move_validation::diag_step(sc, ec, k),
        )) is None <==> at(
            g2,
            crate::move_validation::diag_step(sr, er, k),
            crate::move_validation::diag_step(sc, ec, k),
        ) is None) by {
            assert(in_bounds(
                crate::move_validation::diag_step(sr, er, k),
                crate::move_validation::diag_step(sc, ec, k),
            ));
        }
    }
}

/// Helper of `lemma_attacks_occ_equiv`: the rook's blocking rule reads only
/// occupancy.
proof fn lemma_rook_occ_equiv(
    g1: Seq<Option<Piece>>,
    g2: Seq<Option<Piece>>,
    sr: int,
    sc: int,
    er: int,
    ec: int,
)
    requires
        in_bounds(sr, sc),
        in_bounds(er, ec),
        forall|r: int, c: int|
            in_bounds(r, c) ==> ((#[trigger] at(g1, r, c)) is None <==> at(g2, r, c) is None),
    ensures
        crate::move_validation::rook_move_ok(g2, sr, sc, er, ec)
            == crate::move_validation::rook_move_ok(g1, sr, sc, er, ec),
{
    if crate::move_validation::rook_move_ok(g1, sr, sc, er, ec) {
        if sr == er {
            assert forall|x: int| crate::move_validation::between(sc, ec, x) implies (#[trigger] at(
                g2,
                sr,
                x,
            )) is None by {
                assert(in_bounds(sr, x));
                assert(at(g1, sr, x) is None);
            }
        }
        if sc == ec {
            assert forall|x: int| crate::move_validation::between(sr, er, x) implies (#[trigger] at(
                g2,
                x,
                sc,
            )) is None by {
                assert(in_bounds(x, sc));
                assert(at(g1, x, sc) is None);
            }
        }
        assert(crate::move_validation::rook_move_ok(g2, sr, sc, er, ec));
    }
    if crate::move_validation::rook_move_ok(g2, sr, sc, er, ec) {
        if sr == er {
            assert forall|x: int| crate::move_validation::between(sc, ec, x) implies (#[trigger] at(
                g1,
                sr,
                x,
            )) is None by {
                assert(in_bounds(sr, x));
                assert(at(g2, sr, x) is None);
            }
        }
        if sc == ec {
            assert forall|x: int| crate::move_validation::between(sr, er, x) implies (#[trigger] at(
                g1,
                x,
                sc,
            )) is None by {
                assert(in_bounds(x, sc));
                assert(at(g2, x, sc) is None);
            }
        }
        assert(crate::move_validation::rook_move_ok(g1, sr, sc, er, ec));
    }
}

/// Replacing a piece by another of the same color on the same occupied square
/// does not change whether that color's king is in check: the enemy's listed
/// squares are untouched and occupancy is unchanged.
pub(crate) proof fn lemma_swap_same_color_check(v1: BoardView, v2: BoardView, color: Color)
    requires
        v1.dims(),
        v2.dims(),
        forall|r: int, c: int|
            in_bounds(r, c) ==> ((#[trigger] at(v1.grid, r, c)) is None <==> at(
                v2.grid,
                r,
                c,
            ) is None),
        forall|i: int|
            0 <= i < 12 && piece_of(i).color_spec() != color ==> #[trigger] v2.index[i]
                == v1.index[i],
        v2.index[pid(Piece::King(color))] == v1.index[pid(Piece::King(color))],
    ensures
        in_check(v2, color) == in_check(v1, color),
{
    lemma_pid_piece_of(Piece::King(color));
    assert(king_square(v2, color) == king_square(v1, color));
    let ks = king_square(v1, color);
    if in_check(v1, color) {
        let (i, k): (int, int) = choose|i: int, k: int|
            0 <= i < 12 && 0 <= k < v1.index[i].len() && {
                let sq = #[trigger] v1.index[i][k];
                piece_of(i).color_spec() != color && in_bounds(sq.0 as int, sq.1 as int) && attacks(
                    v1.grid,
                    piece_of(i),
                    sq.0 as int,
                    sq.1 as int,
                    ks.0 as int,
                    ks.1 as int,
                )
            };
        let sq = v1.index[i][k];
        lemma_attacks_occ_equiv(
            v1.grid,
            v2.grid,
            piece_of(i),
            sq.0 as int,
            sq.1 as int,
            ks.0 as int,
            ks.1 as int,
        );
        assert(v2.index[i][k] == sq);
        assert(in_check(v2, color));
    }
    if in_check(v2, color) {
        let (i, k): (int, int) = choose|i: int, k: int|
            0 <= i < 12 && 0 <= k < v2.index[i].len() && {
                let sq = #[trigger] v2.index[i][k];
                piece_of(i).color_spec() != color && in_bounds(sq.0 as int, sq.1 as int) && attacks(
                    v2.grid,
                    piece_of(i),
                    sq.0 as int,
                    sq.1 as int,
                    ks.0 as int,
                    ks.1 as int,
                )
            };
        let sq = v2.index[i][k];
        lemma_attacks_occ_equiv(
            v1.grid,
            v2.grid,
            piece_of(i),
            sq.0 as int,
            sq.1 as int,
            ks.0 as int,
            ks.1 as int,
        );
        assert(v1.index[i][k] == sq);
        assert(in_check(v1, color));
    }
}

} // verus!
