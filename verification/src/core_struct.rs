//! The board and its pieces: an 8x8 grid of optional pieces together with a
//! reverse index from each piece kind to the squares it occupies. The
//! well-formedness predicate [`BoardView::wf`] states that the two
//! representations never diverge.

use vstd::prelude::*;

verus! {

/// The two sides of a chess game.
#[derive(Debug, Clone, Copy, PartialEq, Eq, Structural)]
pub enum Color {
    White,
    Black,
}

impl Color {
    /// The other side; total and involutive.
    pub fn opposite(&self) -> (r: Color)
        ensures
            r == self.flip(),
    {
        match self {
            Color::White => Color::Black,
            Color::Black => Color::White,
        }
    }

    /// Mathematical counterpart of [`Color::opposite`].
    pub open spec fn flip(self) -> Color {
        match self {
            Color::White => Color::Black,
            Color::Black => Color::White,
        }
    }
}

/// A piece: a kind tagged with the color that owns it.
#[derive(Debug, Clone, Copy, PartialEq, Eq, Structural)]
pub enum Piece {
    Pawn(Color),
    Knight(Color),
    Bishop(Color),
    Rook(Color),
    Queen(Color),
    King(Color),
}

impl Piece {
    /// The color that owns this piece.
    pub fn color(&self) -> (r: Color)
        ensures
            r == self.color_spec(),
    {
        match self {
            Piece::Pawn(color)
            | Piece::King(color)
            | Piece::Queen(color)
            | Piece::Rook(color)
            | Piece::Bishop(color)
            | Piece::Knight(color) => *color,
        }
    }

    /// Mathematical counterpart of [`Piece::color`].
    pub open spec fn color_spec(self) -> Color {
        match self {
            Piece::Pawn(color)
            | Piece::King(color)
            | Piece::Queen(color)
            | Piece::Rook(color)
            | Piece::Bishop(color)
            | Piece::Knight(color) => color,
        }
    }
}

/// Index of a piece within the reverse index: white pieces take slots 0 to 5,
/// black pieces slots 6 to 11, each in kind order.
pub open spec fn pid(p: Piece) -> int {
    match p {
        Piece::Pawn(Color::White) => 0,
        Piece::Knight(Color::White) => 1,
        Piece::Bishop(Color::White) => 2,
        Piece::Rook(Color::White) => 3,
        Piece::Queen(Color::White) => 4,
        Piece::King(Color::White) => 5,
        Piece::Pawn(Color::Black) => 6,
        Piece::Knight(Color::Black) => 7,
        Piece::Bishop(Color::Black) => 8,
        Piece::Rook(Color::Black) => 9,
        Piece::Queen(Color::Black) => 10,
        Piece::King(Color::Black) => 11,
    }
}

/// The piece stored in a given slot of the reverse index; inverse of [`pid`].
pub open spec fn piece_of(i: int) -> Piece {
    if i == 0 {
        Piece::Pawn(Color::White)
    } else if i == 1 {
        Piece::Knight(Color::White)
    } else if i == 2 {
        Piece::Bishop(Color::White)
    } else if i == 3 {
        Piece::Rook(Color::White)
    } else if i == 4 {
        Piece::Queen(Color::White)
    } else if i == 5 {
        Piece::King(Color::White)
    } else if i == 6 {
        Piece::Pawn(Color::Black)
    } else if i == 7 {
        Piece::Knight(Color::Black)
    } else if i == 8 {
        Piece::Bishop(Color::Black)
    } else if i == 9 {
        Piece::Rook(Color::Black)
    } else if i == 10 {
        Piece::Queen(Color::Black)
    } else {
        Piece::King(Color::Black)
    }
}

pub broadcast proof fn lemma_pid_piece_of(p: Piece)
    ensures
        0 <= #[trigger] pid(p) < 12,
        piece_of(pid(p)) == p,
{
}

pub broadcast proof fn lemma_piece_of_pid(i: int)
    requires
        0 <= i < 12,
    ensures
        pid(#[trigger] piece_of(i)) == i,
{
}

/// `s` with the first occurrence of `x` taken out; `s` itself when `x` does
/// not occur. Mirrors how a square is removed from an index slot.
pub open spec fn remove_first<T>(s: Seq<T>, x: T) -> Seq<T>
    decreases s.len(),
{
    if s.len() == 0 {
        s
    } else if s[0] == x {
        s.drop_first()
    } else {
        seq![s[0]] + remove_first(s.drop_first(), x)
    }
}

/// `s` with `x` appended, unless `x` already occurs. Mirrors how a square is
/// added to an index slot.
pub open spec fn push_if_absent<T>(s: Seq<T>, x: T) -> Seq<T> {
    if s.contains(x) {
        s
    } else {
        s.push(x)
    }
}

/// The abstract value of a [`Board`]: the grid as a row-major sequence of 64
/// squares, and the reverse index as twelve sequences of occupied squares.
pub struct BoardView {
    pub grid: Seq<Option<Piece>>,
    pub index: Seq<Seq<(usize, usize)>>,
}

/// Contents of a square: `g` is a row-major grid of 64 squares, row `r` rank
/// `r + 1`, column `c` file `c + 1`.
pub open spec fn at(g: Seq<Option<Piece>>, r: int, c: int) -> Option<Piece> {
    g[r * 8 + c]
}

/// Both coordinates lie on the board.
pub open spec fn in_bounds(r: int, c: int) -> bool {
    0 <= r < 8 && 0 <= c < 8
}

impl BoardView {
    /// The grid has exactly 64 squares and the index exactly 12 slots.
    pub open spec fn dims(self) -> bool {
        self.grid.len() == 64 && self.index.len() == 12
    }

    /// Slot `i` of the index lists `(r, c)` among the squares of `piece_of(i)`.
    pub open spec fn ix_has(self, i: int, r: int, c: int) -> bool {
        exists|k: int|
            0 <= k < self.index[i].len() && #[trigger] self.index[i][k] == (
            r as usize,
            c as usize,
            )
    }

    /// No slot of the index lists the same square twice.
    pub open spec fn ix_dup_free(self) -> bool {
        forall|i: int, k1: int, k2: int|
            0 <= i < 12 && 0 <= k1 < k2 < self.index[i].len() ==> #[trigger] self.index[i][k1]
                != #[trigger] self.index[i][k2]
    }

    /// Well-formedness: the grid and the reverse index describe the same
    /// position. A square holds a piece exactly when that piece's index slot
    /// lists the square, every listed square is on the board, and no slot
    /// lists a square twice.
    pub open spec fn wf(self) -> bool {
        &&& self.dims()
        &&& forall|i: int, k: int|
            0 <= i < 12 && 0 <= k < self.index[i].len() ==> {
                let s = #[trigger] self.index[i][k];
                in_bounds(s.0 as int, s.1 as int) && at(self.grid, s.0 as int, s.1 as int) == Some(
                    piece_of(i),
                )
            }
        &&& self.ix_dup_free()
        &&& forall|r: int, c: int|
            in_bounds(r, c) && #[trigger] at(self.grid, r, c) is Some ==> self.ix_has(
                pid(at(self.grid, r, c)->0),
                r,
                c,
            )
    }

}

/// The board: the 8x8 grid plus the reverse piece index. All engine mutations
/// go through `execute_move` / `undo_move`, which keep the two in sync; the
/// raw setters below exist so that arbitrary positions can be built up from
/// outside, and make no promise of well-formedness.
pub struct Board {
    grid: Vec<Option<Piece>>,
    index: Vec<Vec<(usize, usize)>>,
}

impl View for Board {
    type V = BoardView;

    closed spec fn view(&self) -> BoardView {
        BoardView {
            grid: self.grid@,
            index: self.index@.map_values(|b: Vec<(usize, usize)>| b@),
        }
    }
}

impl Board {
    /// A board with no pieces anywhere: every square empty, every index slot
    /// empty.
    pub fn empty() -> (r: Board)
        ensures
            r@.dims(),
            r@.wf(),
            forall|rr: int, cc: int| in_bounds(rr, cc) ==> #[trigger] at(r@.grid, rr, cc) is None,
            forall|i: int| 0 <= i < 12 ==> #[trigger] r@.index[i].len() == 0,
    {
        let mut grid: Vec<Option<Piece>> = Vec::new();
        let mut n: usize = 0;
        while n < 64
            invariant
                grid@.len() == n,
                n <= 64,
                forall|j: int| 0 <= j < n ==> #[trigger] grid@[j] is None,
            decreases 64 - n,
        {
            grid.push(None);
            n = n + 1;
        }
        let mut index: Vec<Vec<(usize, usize)>> = Vec::new();
        let mut m: usize = 0;
        while m < 12
            invariant
                index@.len() == m,
                m <= 12,
                forall|j: int| 0 <= j < m ==> #[trigger] index@[j]@.len() == 0,
            decreases 12 - m,
        {
            index.push(Vec::new());
            m = m + 1;
        }
        let b = Board { grid, index };
        proof {
            assert forall|rr: int, cc: int| in_bounds(rr, cc) implies #[trigger] at(
                b@.grid,
                rr,
                cc,
            ) is None by {
                assert(0 <= rr * 8 + cc < 64) by (nonlinear_arith)
                    requires
                        0 <= rr < 8 && 0 <= cc < 8,
                ;
            }
        }
        b
    }

    /// Contents of one square of the grid.
    pub fn piece_at(&self, r: usize, c: usize) -> (p: Option<Piece>)
        requires
            r < 8,
            c < 8,
            self@.dims(),
        ensures
            p == at(self@.grid, r as int, c as int),
    {
        self.grid[r * 8 + c]
    }

    /// Overwrite one square of the grid, leaving the index alone.
    pub fn set_square(&mut self, r: usize, c: usize, p: Option<Piece>)
        requires
            r < 8,
            c < 8,
            old(self)@.dims(),
        ensures
            final(self)@.grid == old(self)@.grid.update(r as int * 8 + c as int, p),
            final(self)@.index == old(self)@.index,
            final(self)@.dims(),
    {
        self.grid.set(r * 8 + c, p);
    }

    /// Empty every square of the grid, leaving the index alone.
    pub fn clear_grid(&mut self)
        requires
            old(self)@.dims(),
        ensures
            final(self)@.dims(),
            final(self)@.index == old(self)@.index,
            forall|rr: int, cc: int|
                in_bounds(rr, cc) ==> #[trigger] at(final(self)@.grid, rr, cc) is None,
    {
        let mut n: usize = 0;
        while n < 64
            invariant
                self@.grid.len() == 64,
                self@.index == old(self)@.index,
                self@.index.len() == 12,
                n <= 64,
                forall|j: int| 0 <= j < n ==> #[trigger] self@.grid[j] is None,
            decreases 64 - n,
        {
            self.grid.set(n, None);
            n = n + 1;
        }
        proof {
            assert forall|rr: int, cc: int| in_bounds(rr, cc) implies #[trigger] at(
                self@.grid,
                rr,
                cc,
            ) is None by {
                assert(0 <= rr * 8 + cc < 64) by (nonlinear_arith)
                    requires
                        0 <= rr < 8 && 0 <= cc < 8,
                ;
            }
        }
    }

    /// How many squares the index slot `b` lists.
    pub(crate) fn bucket_count(&self, b: usize) -> (n: usize)
        requires
            b < 12,
            self@.dims(),
        ensures
            n == self@.index[b as int].len(),
    {
        self.index[b].len()
    }

    /// The `k`-th square listed in the index slot `b`.
    pub(crate) fn bucket_at(&self, b: usize, k: usize) -> (sq: (usize, usize))
        requires
            b < 12,
            self@.dims(),
            k < self@.index[b as int].len(),
        ensures
            sq == self@.index[b as int][k as int],
    {
        self.index[b][k]
    }

    /// A copy of the grid as a plain vector, row-major.
    pub(crate) fn grid_copy(&self) -> (r: Vec<Option<Piece>>)
        requires
            self@.dims(),
        ensures
            r@ == self@.grid,
    {
        let mut v: Vec<Option<Piece>> = Vec::new();
        let mut n: usize = 0;
        while n < 64
            invariant
                self@.dims(),
                n <= 64,
                v@.len() == n,
                forall|j: int| 0 <= j < n ==> #[trigger] v@[j] == self@.grid[j],
            decreases 64 - n,
        {
            v.push(self.grid[n]);
            n = n + 1;
        }
        proof {
            assert(v@ =~= self@.grid);
        }
        v
    }

    /// Append `sq` to the index slot of piece id `b`, unless already listed.
    /// Mirrors inserting into a set of squares.
    fn bucket_push(&mut self, b: usize, sq: (usize, usize))
        requires
            b < 12,
            old(self)@.dims(),
        ensures
            final(self)@.index == old(self)@.index.update(
                b as int,
                push_if_absent(old(self)@.index[b as int], sq),
            ),
            final(self)@.grid == old(self)@.grid,
            final(self)@.dims(),
    {
        let n = self.index[b].len();
        let mut k: usize = 0;
        while k < n
            invariant
                *self == *old(self),
                n == self@.index[b as int].len(),
                b < 12,
                self@.dims(),
                k <= n,
                forall|j: int| 0 <= j < k ==> #[trigger] self@.index[b as int][j] != sq,
            decreases n - k,
        {
            let e = self.index[b][k];
            if e.0 == sq.0 && e.1 == sq.1 {
                proof {
                    assert(self@.index[b as int][k as int] == sq);
                    assert(self@.index[b as int].contains(sq));
                    assert(old(self)@.index.update(
                        b as int,
                        push_if_absent(old(self)@.index[b as int], sq),
                    ) =~= old(self)@.index);
                }
                return ;
            }
            k = k + 1;
        }
        proof {
            assert(!self@.index[b as int].contains(sq));
        }
        self.index[b].push(sq);
        proof {
            assert(self@.index =~= old(self)@.index.update(
                b as int,
                push_if_absent(old(self)@.index[b as int], sq),
            ));
        }
    }

    /// Take the first occurrence of `sq` out of the index slot of piece id
    /// `b`; a no-op when `sq` is not listed. Mirrors removing from a set of
    /// squares.
    fn bucket_remove(&mut self, b: usize, sq: (usize, usize))
        requires
            b < 12,
            old(self)@.dims(),
        ensures
            final(self)@.index == old(self)@.index.update(
                b as int,
                remove_first(old(self)@.index[b as int], sq),
            ),
            final(self)@.grid == old(self)@.grid,
            final(self)@.dims(),
    {
        let n = self.index[b].len();
        let mut k: usize = 0;
        while k < n
            invariant
                *self == *old(self),
                n == self@.index[b as int].len(),
                b < 12,
                self@.dims(),
                k <= n,
                forall|j: int| 0 <= j < k ==> #[trigger] self@.index[b as int][j] != sq,
            decreases n - k,
        {
            let e = self.index[b][k];
            if e.0 == sq.0 && e.1 == sq.1 {
                proof {
                    assert(self@.index[b as int][k as int] == sq);
                    lemma_remove_first_at(self@.index[b as int], sq, k as int);
                }
                self.index[b].remove(k);
                proof {
                    assert(self@.index =~= old(self)@.index.update(
                        b as int,
                        remove_first(old(self)@.index[b as int], sq),
                    ));
                }
                return ;
            }
            k = k + 1;
        }
        proof {
            assert(!self@.index[b as int].contains(sq));
            lemma_remove_first_absent(self@.index[b as int], sq);
            assert(old(self)@.index.update(
                b as int,
                remove_first(old(self)@.index[b as int], sq),
            ) =~= old(self)@.index);
        }
    }

    /// List `sq` among the squares of `p` in the reverse index, unless already
    /// listed. The grid is left alone.
    pub fn index_insert(&mut self, p: Piece, sq: (usize, usize))
        requires
            old(self)@.dims(),
            in_bounds(sq.0 as int, sq.1 as int),
        ensures
            final(self)@.index == old(self)@.index.update(
                pid(p),
                push_if_absent(old(self)@.index[pid(p)], sq),
            ),
            final(self)@.grid == old(self)@.grid,
            final(self)@.dims(),
    {
        let b = piece_id(p);
        self.bucket_push(b, sq);
    }

    /// Drop `sq` from the squares of `p` in the reverse index; a no-op when it
    /// is not listed. The grid is left alone.
    pub fn index_remove(&mut self, p: Piece, sq: (usize, usize))
        requires
            old(self)@.dims(),
        ensures
            final(self)@.index == old(self)@.index.update(
                pid(p),
                remove_first(old(self)@.index[pid(p)], sq),
            ),
            final(self)@.grid == old(self)@.grid,
            final(self)@.dims(),
    {
        let b = piece_id(p);
        self.bucket_remove(b, sq);
    }

    /// Replace the whole list of squares of `p` in the reverse index. The grid
    /// is left alone.
    pub fn index_replace(&mut self, p: Piece, squares: Vec<(usize, usize)>)
        requires
            old(self)@.dims(),
            forall|k: int|
                0 <= k < squares@.len() ==> in_bounds(
                    (#[trigger] squares@[k]).0 as int,
                    squares@[k].1 as int,
                ),
        ensures
            final(self)@.index == old(self)@.index.update(pid(p), squares@),
            final(self)@.grid == old(self)@.grid,
            final(self)@.dims(),
    {
        let b = piece_id(p);
        let mut rest = squares;
        core::mem::swap(&mut self.index[b], &mut rest);
        proof {
            assert(self@.index =~= old(self)@.index.update(pid(p), squares@));
        }
    }

    /// Empty every slot of the reverse index. The grid is left alone.
    pub fn index_clear_all(&mut self)
        requires
            old(self)@.dims(),
        ensures
            final(self)@.dims(),
            final(self)@.grid == old(self)@.grid,
            forall|i: int| 0 <= i < 12 ==> #[trigger] final(self)@.index[i].len() == 0,
    {
        let mut b: usize = 0;
        while b < 12
            invariant
                self@.dims(),
                self@.grid == old(self)@.grid,
                b <= 12,
                forall|i: int| 0 <= i < b ==> #[trigger] self@.index[i].len() == 0,
            decreases 12 - b,
        {
            let ghost prev = self@.index;
            self.index[b].clear();
            proof {
                assert(self@.index[b as int].len() == 0);
                assert forall|i: int| 0 <= i < 12 && i != b implies #[trigger] self@.index[i]
                    == prev[i] by {}
            }
            b = b + 1;
        }
    }

    /// Put `p` on the empty square `(r, c)`, recording it in both the grid and
    /// the reverse index. Preserves well-formedness.
    pub fn place(&mut self, r: usize, c: usize, p: Piece)
        requires
            r < 8,
            c < 8,
            old(self)@.wf(),
            at(old(self)@.grid, r as int, c as int) is None,
        ensures
            final(self)@.wf(),
            final(self)@.grid == old(self)@.grid.update(r as int * 8 + c as int, Some(p)),
            final(self)@.index == old(self)@.index.update(
                pid(p),
                old(self)@.index[pid(p)].push((r, c)),
            ),
    {
        proof {
            lemma_pid_piece_of(p);
            // the square is empty, so no slot lists it; in particular `p`'s
            // slot does not, and the push below is a plain append
            assert forall|k: int| 0 <= k < old(self)@.index[pid(p)].len() implies #[trigger] old(
                self,
            )@.index[pid(p)][k] != (r, c) by {
                if old(self)@.index[pid(p)][k] == (r, c) {
                    assert(at(old(self)@.grid, r as int, c as int) == Some(piece_of(pid(p))));
                }
            }
            assert(!old(self)@.index[pid(p)].contains((r, c)));
        }
        self.set_square(r, c, Some(p));
        self.index_insert(p, (r, c));
        proof {
            lemma_place_preserves_wf(old(self)@, r as int, c as int, p, self@);
        }
    }

    /// The standard opening position: each side's back rank, a row of pawns in
    /// front of it, and both structures of the board in agreement.
    pub fn new() -> (r: Board)
        ensures
            r@.wf(),
            r@.dims(),
            forall|rr: int, cc: int|
                in_bounds(rr, cc) ==> #[trigger] at(r@.grid, rr, cc) == start_square(rr, cc),
    {
        let mut b = Board::empty();
        let mut c: usize = 0;
        while c < 8
            invariant
                b@.wf(),
                c <= 8,
                forall|rr: int, cc: int|
                    in_bounds(rr, cc) ==> #[trigger] at(b@.grid, rr, cc) == (if rr == 0 && cc
                        < c {
                        start_square(rr, cc)
                    } else {
                        None
                    }),
            decreases 8 - c,
        {
            let ghost prev = b@.grid;
            b.place(0, c, back_rank_piece(c, Color::White));
            proof {
                assert forall|rr: int, cc: int| in_bounds(rr, cc) && (rr != 0 || cc
                    != c as int) implies #[trigger] at(b@.grid, rr, cc) == at(prev, rr, cc) by {
                    if rr * 8 + cc == 0 * 8 + c as int {
                        lemma_sq_injective(rr, cc, 0, c as int);
                    }
                }
                assert(at(b@.grid, 0, c as int) == start_square(0, c as int));
            }
            c = c + 1;
        }
        let mut c: usize = 0;
        while c < 8
            invariant
                b@.wf(),
                c <= 8,
                forall|rr: int, cc: int|
                    in_bounds(rr, cc) ==> #[trigger] at(b@.grid, rr, cc) == (if rr == 0 || (rr == 1
                        && cc < c) {
                        start_square(rr, cc)
                    } else {
                        None
                    }),
            decreases 8 - c,
        {
            let ghost prev = b@.grid;
            b.place(1, c, Piece::Pawn(Color::White));
            proof {
                assert forall|rr: int, cc: int| in_bounds(rr, cc) && (rr != 1 || cc
                    != c as int) implies #[trigger] at(b@.grid, rr, cc) == at(prev, rr, cc) by {
                    if rr * 8 + cc == 1 * 8 + c as int {
                        lemma_sq_injective(rr, cc, 1, c as int);
                    }
                }
                assert(at(b@.grid, 1, c as int) == start_square(1, c as int));
            }
            c = c + 1;
        }
        let mut c: usize = 0;
        while c < 8
            invariant
                b@.wf(),
                c <= 8,
                forall|rr: int, cc: int|
                    in_bounds(rr, cc) ==> #[trigger] at(b@.grid, rr, cc) == (if rr == 0 || rr == 1
                        || (rr == 6 && cc < c) {
                        start_square(rr, cc)
                    } else {
                        None
                    }),
            decreases 8 - c,
        {
            let ghost prev = b@.grid;
            b.place(6, c, Piece::Pawn(Color::Black));
            proof {
                assert forall|rr: int, cc: int| in_bounds(rr, cc) && (rr != 6 || cc
                    != c as int) implies #[trigger] at(b@.grid, rr, cc) == at(prev, rr, cc) by {
                    if rr * 8 + cc == 6 * 8 + c as int {
                        lemma_sq_injective(rr, cc, 6, c as int);
                    }
                }
                assert(at(b@.grid, 6, c as int) == start_square(6, c as int));
            }
            c = c + 1;
        }
        let mut c: usize = 0;
        while c < 8
            invariant
                b@.wf(),
                c <= 8,
                forall|rr: int, cc: int|
                    in_bounds(rr, cc) ==> #[trigger] at(b@.grid, rr, cc) == (if rr == 0 || rr == 1
                        || rr == 6 || (rr == 7 && cc < c) {
                        start_square(rr, cc)
                    } else {
                        None
                    }),
            decreases 8 - c,
        {
            let ghost prev = b@.grid;
            b.place(7, c, back_rank_piece(c, Color::Black));
            proof {
                assert forall|rr: int, cc: int| in_bounds(rr, cc) && (rr != 7 || cc
                    != c as int) implies #[trigger] at(b@.grid, rr, cc) == at(prev, rr, cc) by {
                    if rr * 8 + cc == 7 * 8 + c as int {
                        lemma_sq_injective(rr, cc, 7, c as int);
                    }
                }
                assert(at(b@.grid, 7, c as int) == start_square(7, c as int));
            }
            c = c + 1;
        }
        b
    }
}

/// The piece standing on column `c` of a back rank in the opening position.
pub open spec fn back_rank(c: int, col: Color) -> Piece {
    if c == 0 || c == 7 {
        Piece::Rook(col)
    } else if c == 1 || c == 6 {
        Piece::Knight(col)
    } else if c == 2 || c == 5 {
        Piece::Bishop(col)
    } else if c == 3 {
        Piece::Queen(col)
    } else {
        Piece::King(col)
    }
}

/// The contents of square `(r, c)` in the opening position.
pub open spec fn start_square(r: int, c: int) -> Option<Piece> {
    if r == 0 {
        Some(back_rank(c, Color::White))
    } else if r == 1 {
        Some(Piece::Pawn(Color::White))
    } else if r == 6 {
        Some(Piece::Pawn(Color::Black))
    } else if r == 7 {
        Some(back_rank(c, Color::Black))
    } else {
        None
    }
}

/// Executable counterpart of [`back_rank`].
fn back_rank_piece(c: usize, col: Color) -> (p: Piece)
    requires
        c < 8,
    ensures
        Some(p) == start_square(if col == Color::White { 0int } else { 7int }, c as int),
{
    if c == 0 || c == 7 {
        Piece::Rook(col)
    } else if c == 1 || c == 6 {
        Piece::Knight(col)
    } else if c == 2 || c == 5 {
        Piece::Bishop(col)
    } else if c == 3 {
        Piece::Queen(col)
    } else {
        Piece::King(col)
    }
}

/// Row-major square numbering is injective on the board.
pub proof fn lemma_sq_injective(r1: int, c1: int, r2: int, c2: int)
    requires
        in_bounds(r1, c1),
        in_bounds(r2, c2),
        r1 * 8 + c1 == r2 * 8 + c2,
    ensures
        r1 == r2 && c1 == c2,
{
}

/// When `x` first occurs at position `i`, taking out the first occurrence is
/// the same as removing position `i`.
pub proof fn lemma_remove_first_at<T>(s: Seq<T>, x: T, i: int)
    requires
        0 <= i < s.len(),
        s[i] == x,
        forall|j: int| 0 <= j < i ==> s[j] != x,
    ensures
        remove_first(s, x) == s.remove(i),
    decreases i,
{
    if i == 0 {
        assert(remove_first(s, x) =~= s.remove(0));
    } else {
        lemma_remove_first_at(s.drop_first(), x, i - 1);
        assert(remove_first(s, x) =~= s.remove(i));
    }
}

/// Taking out an element that does not occur changes nothing.
pub proof fn lemma_remove_first_absent<T>(s: Seq<T>, x: T)
    requires
        !s.contains(x),
    ensures
        remove_first(s, x) == s,
    decreases s.len(),
{
    if s.len() > 0 {
        assert(s[0] != x);
        assert(!s.drop_first().contains(x)) by {
            if s.drop_first().contains(x) {
                let j = choose|j: int| 0 <= j < s.drop_first().len() && s.drop_first()[j] == x;
                assert(s[j + 1] == x);
            }
        }
        lemma_remove_first_absent(s.drop_first(), x);
        assert(remove_first(s, x) =~= s);
    }
}

/// Putting a piece on an empty square, recorded in both structures, keeps the
/// board well-formed.
pub(crate) proof fn lemma_place_preserves_wf(v: BoardView, r: int, c: int, p: Piece, v2: BoardView)
    requires
        v.wf(),
        in_bounds(r, c),
        at(v.grid, r, c) is None,
        v2.grid == v.grid.update(r * 8 + c, Some(p)),
        v2.index == v.index.update(pid(p), v.index[pid(p)].push((r as usize, c as usize))),
    ensures
        v2.wf(),
{
    lemma_pid_piece_of(p);
    let q = (r as usize, c as usize);
    let b = pid(p);
    assert(0 <= r * 8 + c < 64) by (nonlinear_arith)
        requires
            0 <= r < 8 && 0 <= c < 8,
    ;
    // grid lookups away from (r, c) are unchanged
    assert forall|rr: int, cc: int| in_bounds(rr, cc) && (rr != r || cc != c) implies #[trigger] at(
        v2.grid,
        rr,
        cc,
    ) == at(v.grid, rr, cc) by {
        if rr * 8 + cc == r * 8 + c {
            lemma_sq_injective(rr, cc, r, c);
        }
    }
    // the new slot entry is exactly the placed square
    assert(v2.index[b] == v.index[b].push(q));
    assert(at(v2.grid, r, c) == Some(p));
    // forward direction: every listed square holds the slot's piece
    assert forall|i: int, k: int| 0 <= i < 12 && 0 <= k < v2.index[i].len() implies {
        let s = #[trigger] v2.index[i][k];
        in_bounds(s.0 as int, s.1 as int) && at(v2.grid, s.0 as int, s.1 as int) == Some(
            piece_of(i),
        )
    } by {
        if i == b && k == v.index[b].len() {
            assert(v2.index[i][k] == q);
        } else {
            assert(v2.index[i][k] == v.index[i][k]);
            let s = v.index[i][k];
            assert(at(v.grid, s.0 as int, s.1 as int) == Some(piece_of(i)));
            assert((s.0 as int, s.1 as int) != (r, c));
        }
    }
    // no duplicates: the placed square was listed nowhere
    assert forall|k: int| 0 <= k < v.index[b].len() implies #[trigger] v.index[b][k] != q by {
        if v.index[b][k] == q {
            assert(at(v.grid, r, c) == Some(piece_of(b)));
        }
    }
    assert(v2.ix_dup_free()) by {
        assert forall|i: int, k1: int, k2: int|
            0 <= i < 12 && 0 <= k1 < k2 < v2.index[i].len() implies #[trigger] v2.index[i][k1]
            != #[trigger] v2.index[i][k2] by {
            if i == b && k2 == v.index[b].len() {
                assert(v2.index[i][k2] == q);
                assert(v2.index[i][k1] == v.index[i][k1]);
            } else {
                assert(v2.index[i][k1] == v.index[i][k1]);
                assert(v2.index[i][k2] == v.index[i][k2]);
            }
        }
    }
    // backward direction: every occupied square is listed
    assert forall|rr: int, cc: int|
        in_bounds(rr, cc) && #[trigger] at(v2.grid, rr, cc) is Some implies v2.ix_has(
        pid(at(v2.grid, rr, cc)->0),
        rr,
        cc,
    ) by {
        if rr == r && cc == c {
            let w = v.index[b].len();
            assert(v2.index[b][w as int] == q);
            assert(0 <= w < v2.index[b].len());
        } else {
            assert(at(v2.grid, rr, cc) == at(v.grid, rr, cc));
            let i0 = pid(at(v.grid, rr, cc)->0);
            assert(v.ix_has(i0, rr, cc));
            let k0 = choose|k: int|
                0 <= k < v.index[i0].len() && (#[trigger] v.index[i0][k]) == (
                rr as usize,
                cc as usize,
                );
            assert(v2.index[i0][k0] == (rr as usize, cc as usize));
            assert(0 <= k0 < v2.index[i0].len());
        }
    }
}

/// Executable counterpart of [`pid`].
pub(crate) fn piece_id(p: Piece) -> (r: usize)
    ensures
        r as int == pid(p),
        r < 12,
{
    match p {
        Piece::Pawn(Color::White) => 0,
        Piece::Knight(Color::White) => 1,
        Piece::Bishop(Color::White) => 2,
        Piece::Rook(Color::White) => 3,
        Piece::Queen(Color::White) => 4,
        Piece::King(Color::White) => 5,
        Piece::Pawn(Color::Black) => 6,
        Piece::Knight(Color::Black) => 7,
        Piece::Bishop(Color::Black) => 8,
        Piece::Rook(Color::Black) => 9,
        Piece::Queen(Color::Black) => 10,
        Piece::King(Color::Black) => 11,
    }
}

/// Executable counterpart of [`piece_of`].
pub(crate) fn id_piece(i: usize) -> (p: Piece)
    requires
        i < 12,
    ensures
        p == piece_of(i as int),
{
    if i == 0 {
        Piece::Pawn(Color::White)
    } else if i == 1 {
        Piece::Knight(Color::White)
    } else if i == 2 {
        Piece::Bishop(Color::White)
    } else if i == 3 {
        Piece::Rook(Color::White)
    } else if i == 4 {
        Piece::Queen(Color::White)
    } else if i == 5 {
        Piece::King(Color::White)
    } else if i == 6 {
        Piece::Pawn(Color::Black)
    } else if i == 7 {
        Piece::Knight(Color::Black)
    } else if i == 8 {
        Piece::Bishop(Color::Black)
    } else if i == 9 {
        Piece::Rook(Color::Black)
    } else if i == 10 {
        Piece::Queen(Color::Black)
    } else {
        Piece::King(Color::Black)
    }
}

} // verus!
