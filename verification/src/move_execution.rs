//! Reversible board mutation: `execute_move` applies a shape-legal move to the
//! grid and the piece index at once, returning an undo record; `undo_move`
//! inverts it exactly. These two are the only way the engine touches the
//! board, both for committed moves and for the speculative apply-test-revert
//! used by king-safety checks.

use vstd::prelude::*;

use crate::core_struct::{
    lemma_pid_piece_of, lemma_piece_of_pid, lemma_place_preserves_wf, lemma_sq_injective,
    piece_of,
    at, in_bounds, pid, push_if_absent, remove_first, Board, BoardView, Color, Piece,
};

verus! {

/// The grid after moving the piece on `(sr, sc)` to `(er, ec)`: the start
/// square is emptied and the piece put on the end square; a castle-shaped king
/// move also relocates the rook; a pawn's diagonal move onto an empty square
/// clears the bypassed square (en passant). Promotion is deferred: the pawn
/// stays a pawn until the promotion is resolved.
pub open spec fn apply_grid(
    g: Seq<Option<Piece>>,
    sr: int,
    sc: int,
    er: int,
    ec: int,
) -> Seq<Option<Piece>> {
    let p = at(g, sr, sc)->0;
    let taken = at(g, er, ec);
    let g1 = g.update(sr * 8 + sc, None).update(er * 8 + ec, Some(p));
    let g2 = if p == Piece::King(Color::White) && sr == 0 && sc == 4 {
        if er == 0 && ec == 6 {
            g1.update(7, None).update(5, Some(Piece::Rook(Color::White)))
        } else if er == 0 && ec == 2 {
            g1.update(0, None).update(3, Some(Piece::Rook(Color::White)))
        } else {
            g1
        }
    } else if p == Piece::King(Color::Black) && sr == 7 && sc == 4 {
        if er == 7 && ec == 6 {
            g1.update(63, None).update(61, Some(Piece::Rook(Color::Black)))
        } else if er == 7 && ec == 2 {
            g1.update(56, None).update(59, Some(Piece::Rook(Color::Black)))
        } else {
            g1
        }
    } else {
        g1
    };
    if p is Pawn && sc != ec && taken is None {
        g2.update(sr * 8 + ec, None)
    } else {
        g2
    }
}

/// The piece index after the same move, mirroring [`apply_grid`] slot by slot.
pub open spec fn apply_ix(v: BoardView, sr: int, sc: int, er: int, ec: int) -> Seq<
    Seq<(usize, usize)>,
> {
    let p = at(v.grid, sr, sc)->0;
    let taken = at(v.grid, er, ec);
    let s = (sr as usize, sc as usize);
    let e = (er as usize, ec as usize);
    let ix1 = if taken is Some {
        v.index.update(pid(taken->0), remove_first(v.index[pid(taken->0)], e))
    } else {
        v.index
    };
    let ix2 = ix1.update(pid(p), remove_first(ix1[pid(p)], s));
    let ix3 = ix2.update(pid(p), push_if_absent(ix2[pid(p)], e));
    let ix4 = if p == Piece::King(Color::White) && sr == 0 && sc == 4 && er == 0 && (ec == 6 || ec
        == 2) {
        let rb = pid(Piece::Rook(Color::White));
        let from = if ec == 6 {
            (0usize, 7usize)
        } else {
            (0usize, 0usize)
        };
        let to = if ec == 6 {
            (0usize, 5usize)
        } else {
            (0usize, 3usize)
        };
        let t = ix3.update(rb, remove_first(ix3[rb], from));
        t.update(rb, push_if_absent(t[rb], to))
    } else if p == Piece::King(Color::Black) && sr == 7 && sc == 4 && er == 7 && (ec == 6 || ec
        == 2) {
        let rb = pid(Piece::Rook(Color::Black));
        let from = if ec == 6 {
            (7usize, 7usize)
        } else {
            (7usize, 0usize)
        };
        let to = if ec == 6 {
            (7usize, 5usize)
        } else {
            (7usize, 3usize)
        };
        let t = ix3.update(rb, remove_first(ix3[rb], from));
        t.update(rb, push_if_absent(t[rb], to))
    } else {
        ix3
    };
    if p is Pawn && sc != ec && taken is None {
        let ob = pid(Piece::Pawn(p.color_spec().flip()));
        ix4.update(ob, remove_first(ix4[ob], (sr as usize, ec as usize)))
    } else {
        ix4
    }
}

/// The captured piece and its square, as recorded in the undo record: the
/// piece on the end square, or for a pawn's diagonal move onto an empty
/// square the enemy pawn on the bypassed square, or nothing.
pub open spec fn taken_rec(g: Seq<Option<Piece>>, sr: int, sc: int, er: int, ec: int) -> Option<
    (Piece, (usize, usize)),
> {
    let p = at(g, sr, sc)->0;
    let taken = at(g, er, ec);
    if taken is Some {
        Some((taken->0, (er as usize, ec as usize)))
    } else if p is Pawn && sc != ec {
        Some((Piece::Pawn(p.color_spec().flip()), (sr as usize, ec as usize)))
    } else {
        None
    }
}

/// Whether the move triggers a promotion: a pawn reaching its last rank.
pub open spec fn promo_flag(g: Seq<Option<Piece>>, sr: int, sc: int, er: int, ec: int) -> bool {
    let p = at(g, sr, sc)->0;
    (p == Piece::Pawn(Color::White) && er == 7) || (p == Piece::Pawn(Color::Black) && er == 0)
}

/// The grid after undoing a move from `(sr, sc)` to `(er, ec)` with the given
/// undo record: the piece on the end square walks back (a promotion walks back
/// as the pawn), the captured piece is put back on its own square, and a
/// castle-shaped king move walks its rook back.
pub open spec fn revert_grid(
    g: Seq<Option<Piece>>,
    sr: int,
    sc: int,
    er: int,
    ec: int,
    tk: Option<(Piece, (usize, usize))>,
    promo: bool,
) -> Seq<Option<Piece>> {
    let pe = at(g, er, ec)->0;
    let p = if promo {
        Piece::Pawn(pe.color_spec())
    } else {
        pe
    };
    let g1 = g.update(sr * 8 + sc, Some(p)).update(er * 8 + ec, None);
    let g2 = match tk {
        Some(t) => g1.update(t.1.0 * 8 + t.1.1, Some(t.0)),
        None => g1,
    };
    if p == Piece::King(Color::White) && sr == 0 && sc == 4 {
        if er == 0 && ec == 6 {
            g2.update(7, Some(Piece::Rook(Color::White))).update(5, None)
        } else if er == 0 && ec == 2 {
            g2.update(0, Some(Piece::Rook(Color::White))).update(3, None)
        } else {
            g2
        }
    } else if p == Piece::King(Color::Black) && sr == 7 && sc == 4 {
        if er == 7 && ec == 6 {
            g2.update(63, Some(Piece::Rook(Color::Black))).update(61, None)
        } else if er == 7 && ec == 2 {
            g2.update(56, Some(Piece::Rook(Color::Black))).update(59, None)
        } else {
            g2
        }
    } else {
        g2
    }
}

/// The piece index after the same undo, mirroring [`revert_grid`].
pub open spec fn revert_ix(
    v: BoardView,
    sr: int,
    sc: int,
    er: int,
    ec: int,
    tk: Option<(Piece, (usize, usize))>,
    promo: bool,
) -> Seq<Seq<(usize, usize)>> {
    let pe = at(v.grid, er, ec)->0;
    let p = if promo {
        Piece::Pawn(pe.color_spec())
    } else {
        pe
    };
    let s = (sr as usize, sc as usize);
    let e = (er as usize, ec as usize);
    let ix1 = v.index.update(pid(p), remove_first(v.index[pid(p)], e));
    let ix2 = ix1.update(pid(p), push_if_absent(ix1[pid(p)], s));
    let ix3 = match tk {
        Some(t) => ix2.update(pid(t.0), push_if_absent(ix2[pid(t.0)], t.1)),
        None => ix2,
    };
    if p == Piece::King(Color::White) && sr == 0 && sc == 4 && er == 0 && (ec == 6 || ec == 2) {
        let rb = pid(Piece::Rook(Color::White));
        let home = if ec == 6 {
            (0usize, 7usize)
        } else {
            (0usize, 0usize)
        };
        let mid = if ec == 6 {
            (0usize, 5usize)
        } else {
            (0usize, 3usize)
        };
        let t = ix3.update(rb, remove_first(ix3[rb], mid));
        t.update(rb, push_if_absent(t[rb], home))
    } else if p == Piece::King(Color::Black) && sr == 7 && sc == 4 && er == 7 && (ec == 6 || ec
        == 2) {
        let rb = pid(Piece::Rook(Color::Black));
        let home = if ec == 6 {
            (7usize, 7usize)
        } else {
            (7usize, 0usize)
        };
        let mid = if ec == 6 {
            (7usize, 5usize)
        } else {
            (7usize, 3usize)
        };
        let t = ix3.update(rb, remove_first(ix3[rb], mid));
        t.update(rb, push_if_absent(t[rb], home))
    } else {
        ix3
    }
}

impl Board {
    /// Apply a move that is already known to be shape-legal, mutating grid and
    /// index together, and return what is needed to invert it exactly: the
    /// captured piece and its square (which differs from `end` for en
    /// passant), and whether the move triggers a promotion.
    pub fn execute_move(&mut self, start: (usize, usize), end: (usize, usize)) -> (r: (
        Option<(Piece, (usize, usize))>,
        bool,
    ))
        requires
            old(self)@.dims(),
            in_bounds(start.0 as int, start.1 as int),
            in_bounds(end.0 as int, end.1 as int),
            at(old(self)@.grid, start.0 as int, start.1 as int) is Some,
            start != end,
        ensures
            final(self)@.dims(),
            final(self)@.grid == apply_grid(
                old(self)@.grid,
                start.0 as int,
                start.1 as int,
                end.0 as int,
                end.1 as int,
            ),
            final(self)@.index == apply_ix(
                old(self)@,
                start.0 as int,
                start.1 as int,
                end.0 as int,
                end.1 as int,
            ),
            r.0 == taken_rec(
                old(self)@.grid,
                start.0 as int,
                start.1 as int,
                end.0 as int,
                end.1 as int,
            ),
            r.1 == promo_flag(
                old(self)@.grid,
                start.0 as int,
                start.1 as int,
                end.0 as int,
                end.1 as int,
            ),
    {
        let piece = self.piece_at(start.0, start.1).unwrap();
        let taken_piece = self.piece_at(end.0, end.1);

        let mut result: (Option<(Piece, (usize, usize))>, bool) = (None, false);

        if let Some(tp) = taken_piece {
            self.index_remove(tp, end);
            result.0 = Some((tp, end));
        }
        // the moving piece changes squares in both structures; a promotion is
        // flagged but deferred to the promotion commit
        self.set_square(start.0, start.1, None);
        self.set_square(end.0, end.1, Some(piece));
        self.index_remove(piece, start);
        self.index_insert(piece, end);
        if (piece == Piece::Pawn(Color::White) && end.0 == 7) || (piece == Piece::Pawn(Color::Black)
            && end.0 == 0) {
            result.1 = true;
        }
        // a castle-shaped king move relocates the rook as part of the same
        // mutation
        if piece == Piece::King(Color::White) && start.0 == 0 && start.1 == 4 {
            let rook = Piece::Rook(Color::White);
            if end.0 == 0 && end.1 == 6 {
                self.set_square(0, 7, None);
                self.set_square(0, 5, Some(rook));
                self.index_remove(rook, (0, 7));
                self.index_insert(rook, (0, 5));
            } else if end.0 == 0 && end.1 == 2 {
                self.set_square(0, 0, None);
                self.set_square(0, 3, Some(rook));
                self.index_remove(rook, (0, 0));
                self.index_insert(rook, (0, 3));
            }
        } else if piece == Piece::King(Color::Black) && start.0 == 7 && start.1 == 4 {
            let rook = Piece::Rook(Color::Black);
            if end.0 == 7 && end.1 == 6 {
                self.set_square(7, 7, None);
                self.set_square(7, 5, Some(rook));
                self.index_remove(rook, (7, 7));
                self.index_insert(rook, (7, 5));
            } else if end.0 == 7 && end.1 == 2 {
                self.set_square(7, 0, None);
                self.set_square(7, 3, Some(rook));
                self.index_remove(rook, (7, 0));
                self.index_insert(rook, (7, 3));
            }
        }
        // a pawn's diagonal move onto an empty square takes en passant
        let is_pawn = piece == Piece::Pawn(Color::White) || piece == Piece::Pawn(Color::Black);
        if is_pawn && start.1 != end.1 && taken_piece.is_none() {
            let enemy_pawn = Piece::Pawn(piece.color().opposite());
            self.set_square(start.0, end.1, None);
            self.index_remove(enemy_pawn, (start.0, end.1));
            result.0 = Some((enemy_pawn, (start.0, end.1)));
        }
        result
    }

    /// Apply a move, discarding the undo record.
    pub fn move_piece(&mut self, start: (usize, usize), end: (usize, usize))
        requires
            old(self)@.dims(),
            in_bounds(start.0 as int, start.1 as int),
            in_bounds(end.0 as int, end.1 as int),
            at(old(self)@.grid, start.0 as int, start.1 as int) is Some,
            start != end,
        ensures
            final(self)@.dims(),
            final(self)@.grid == apply_grid(
                old(self)@.grid,
                start.0 as int,
                start.1 as int,
                end.0 as int,
                end.1 as int,
            ),
            final(self)@.index == apply_ix(
                old(self)@,
                start.0 as int,
                start.1 as int,
                end.0 as int,
                end.1 as int,
            ),
    {
        let _ = self.execute_move(start, end);
    }

    /// Invert a move applied by [`Board::execute_move`], given its undo
    /// record: the moved piece walks back (a promotion walks back as the
    /// pawn), the captured piece returns to its own square, and a
    /// castle-shaped king move walks its rook back.
    pub fn undo_move(
        &mut self,
        start: (usize, usize),
        end: (usize, usize),
        taken_piece: Option<(Piece, (usize, usize))>,
        promotion: bool,
    )
        requires
            old(self)@.dims(),
            in_bounds(start.0 as int, start.1 as int),
            in_bounds(end.0 as int, end.1 as int),
            at(old(self)@.grid, end.0 as int, end.1 as int) is Some,
            start != end,
            match taken_piece {
                Some(t) => in_bounds(t.1.0 as int, t.1.1 as int),
                None => true,
            },
        ensures
            final(self)@.dims(),
            final(self)@.grid == revert_grid(
                old(self)@.grid,
                start.0 as int,
                start.1 as int,
                end.0 as int,
                end.1 as int,
                taken_piece,
                promotion,
            ),
            final(self)@.index == revert_ix(
                old(self)@,
                start.0 as int,
                start.1 as int,
                end.0 as int,
                end.1 as int,
                taken_piece,
                promotion,
            ),
    {
        let piece = if promotion {
            Piece::Pawn(self.piece_at(end.0, end.1).unwrap().color())
        } else {
            self.piece_at(end.0, end.1).unwrap()
        };

        self.set_square(start.0, start.1, Some(piece));
        self.set_square(end.0, end.1, None);
        self.index_remove(piece, end);
        self.index_insert(piece, start);

        if let Some((tp, tsq)) = taken_piece {
            self.set_square(tsq.0, tsq.1, Some(tp));
            self.index_insert(tp, tsq);
        }
        if piece == Piece::King(Color::White) && start.0 == 0 && start.1 == 4 {
            let rook = Piece::Rook(Color::White);
            if end.0 == 0 && end.1 == 6 {
                self.set_square(0, 7, Some(rook));
                self.set_square(0, 5, None);
                self.index_remove(rook, (0, 5));
                self.index_insert(rook, (0, 7));
            } else if end.0 == 0 && end.1 == 2 {
                self.set_square(0, 0, Some(rook));
                self.set_square(0, 3, None);
                self.index_remove(rook, (0, 3));
                self.index_insert(rook, (0, 0));
            }
        } else if piece == Piece::King(Color::Black) && start.0 == 7 && start.1 == 4 {
            let rook = Piece::Rook(Color::Black);
            if end.0 == 7 && end.1 == 6 {
                self.set_square(7, 7, Some(rook));
                self.set_square(7, 5, None);
                self.index_remove(rook, (7, 5));
                self.index_insert(rook, (7, 7));
            } else if end.0 == 7 && end.1 == 2 {
                self.set_square(7, 0, Some(rook));
                self.set_square(7, 3, None);
                self.index_remove(rook, (7, 3));
                self.index_insert(rook, (7, 0));
            }
        }
    }
}


/// Taking out the first occurrence keeps a duplicate-free list duplicate-free,
/// and its membership is the old membership minus the removed element.
pub proof fn lemma_remove_first_props<T>(s: Seq<T>, x: T)
    requires
        s.no_duplicates(),
    ensures
        remove_first(s, x).no_duplicates(),
        forall|y: T| #[trigger] remove_first(s, x).contains(y) <==> (s.contains(y) && y != x),
        s.contains(x) ==> remove_first(s, x).len() == s.len() - 1,
        !s.contains(x) ==> remove_first(s, x) == s,
    decreases s.len(),
{
    if s.len() == 0 {
        assert forall|y: T| #[trigger] remove_first(s, x).contains(y) implies (s.contains(y) && y
            != x) by {}
    } else {
        let rest = s.drop_first();
        assert(rest.no_duplicates()) by {
            assert forall|i: int, j: int|
                0 <= i < rest.len() && 0 <= j < rest.len() && i != j implies rest[i] != rest[j] by {
                assert(rest[i] == s[i + 1]);
                assert(rest[j] == s[j + 1]);
            }
        }
        assert forall|y: T| rest.contains(y) implies s.contains(y) by {
            let j = choose|j: int| 0 <= j < rest.len() && rest[j] == y;
            assert(s[j + 1] == y);
        }
        if s[0] == x {
            assert(!rest.contains(x)) by {
                if rest.contains(x) {
                    let j = choose|j: int| 0 <= j < rest.len() && rest[j] == x;
                    assert(s[j + 1] == x && s[0] == x);
                }
            }
            assert(s.contains(x));
            assert forall|y: T| #[trigger] remove_first(s, x).contains(y) <==> (s.contains(y) && y
                != x) by {
                if s.contains(y) && y != x {
                    let j = choose|j: int| 0 <= j < s.len() && s[j] == y;
                    assert(j != 0);
                    assert(rest[j - 1] == y);
                    assert(rest.contains(y));
                }
            }
        } else {
            lemma_remove_first_props(rest, x);
            let rr = remove_first(rest, x);
            let r = remove_first(s, x);
            assert(r == seq![s[0]] + rr);
            assert(r[0] == s[0]);
            assert forall|j: int| 0 <= j < rr.len() implies r[j + 1] == rr[j] by {}
            assert forall|y: T| #[trigger] r.contains(y) <==> (s.contains(y) && y != x) by {
                if r.contains(y) {
                    let j = choose|j: int| 0 <= j < r.len() && r[j] == y;
                    if j == 0 {
                        assert(y == s[0]);
                        assert(s.contains(y));
                    } else {
                        assert(rr[j - 1] == y);
                        assert(rr.contains(y));
                    }
                }
                if s.contains(y) && y != x {
                    let j = choose|j: int| 0 <= j < s.len() && s[j] == y;
                    if j == 0 {
                        assert(r[0] == y);
                        assert(r.contains(y));
                    } else {
                        assert(rest[j - 1] == y);
                        assert(rest.contains(y));
                        assert(rr.contains(y));
                        let j3 = choose|j3: int| 0 <= j3 < rr.len() && rr[j3] == y;
                        assert(r[j3 + 1] == y);
                        assert(r.contains(y));
                    }
                }
            }
            assert(r.no_duplicates()) by {
                assert(!rr.contains(s[0])) by {
                    if rr.contains(s[0]) {
                        assert(rest.contains(s[0]));
                        let j = choose|j: int| 0 <= j < rest.len() && rest[j] == s[0];
                        assert(s[j + 1] == s[0]);
                    }
                }
                assert forall|i: int, j: int|
                    0 <= i < r.len() && 0 <= j < r.len() && i != j implies r[i] != r[j] by {
                    if i == 0 {
                        assert(r[j] == rr[j - 1]);
                        assert(rr.contains(r[j]));
                    } else if j == 0 {
                        assert(r[i] == rr[i - 1]);
                        assert(rr.contains(r[i]));
                    } else {
                        assert(r[i] == rr[i - 1]);
                        assert(r[j] == rr[j - 1]);
                    }
                }
            }
            if s.contains(x) {
                assert(rest.contains(x)) by {
                    let j = choose|j: int| 0 <= j < s.len() && s[j] == x;
                    assert(j != 0);
                    assert(rest[j - 1] == x);
                }
            } else {
                assert(!rest.contains(x));
                assert(r =~= s) by {
                    assert(rr == rest);
                }
            }
        }
    }
}

/// Appending an absent element keeps a duplicate-free list duplicate-free, and
/// its membership is the old membership plus that element.
pub proof fn lemma_push_if_absent_props<T>(s: Seq<T>, x: T)
    requires
        s.no_duplicates(),
    ensures
        push_if_absent(s, x).no_duplicates(),
        forall|y: T| #[trigger] push_if_absent(s, x).contains(y) <==> (s.contains(y) || y == x),
        !s.contains(x) ==> push_if_absent(s, x).len() == s.len() + 1,
        s.contains(x) ==> push_if_absent(s, x) == s,
{
    if s.contains(x) {
    } else {
        let r = s.push(x);
        assert forall|y: T| #[trigger] r.contains(y) <==> (s.contains(y) || y == x) by {
            if r.contains(y) {
                let j = choose|j: int| 0 <= j < r.len() && r[j] == y;
                if j < s.len() {
                    assert(s[j] == y);
                }
            }
            if s.contains(y) {
                let j = choose|j: int| 0 <= j < s.len() && s[j] == y;
                assert(r[j] == y);
            }
            assert(r[s.len() as int] == x);
        }
        assert(r.no_duplicates()) by {
            assert forall|i: int, j: int|
                0 <= i < r.len() && 0 <= j < r.len() && i != j implies r[i] != r[j] by {
                if i < s.len() && j < s.len() {
                } else if i < s.len() {
                    assert(r[j] == x && r[i] == s[i]);
                    assert(s.contains(s[i]));
                } else {
                    assert(r[i] == x && r[j] == s[j]);
                    assert(s.contains(s[j]));
                }
            }
        }
    }
}

/// In a well-formed board, slot `i` lists exactly the squares on which the
/// grid holds `piece_of(i)`, and each slot is duplicate-free.
pub(crate) proof fn lemma_wf_membership(v: BoardView)
    requires
        v.wf(),
    ensures
        forall|i: int, y: (usize, usize)|
            0 <= i < 12 ==> (#[trigger] v.index[i].contains(y) <==> (in_bounds(
                y.0 as int,
                y.1 as int,
            ) && at(v.grid, y.0 as int, y.1 as int) == Some(piece_of(i)))),
        forall|i: int| 0 <= i < 12 ==> (#[trigger] v.index[i]).no_duplicates(),
{
    assert forall|i: int, y: (usize, usize)| 0 <= i < 12 implies (#[trigger] v.index[i].contains(y)
        <==> (in_bounds(y.0 as int, y.1 as int) && at(v.grid, y.0 as int, y.1 as int) == Some(
        piece_of(i),
    ))) by {
        if v.index[i].contains(y) {
            let k = choose|k: int| 0 <= k < v.index[i].len() && v.index[i][k] == y;
            assert(v.index[i][k] == y);
        }
        if in_bounds(y.0 as int, y.1 as int) && at(v.grid, y.0 as int, y.1 as int) == Some(
            piece_of(i),
        ) {
            lemma_piece_of_pid(i);
            assert(v.ix_has(i, y.0 as int, y.1 as int));
            let k = choose|k: int|
                0 <= k < v.index[i].len() && (#[trigger] v.index[i][k]) == (
                y.0 as int as usize,
                y.1 as int as usize,
                );
            assert(v.index[i][k] == y);
        }
    }
    assert forall|i: int| 0 <= i < 12 implies (#[trigger] v.index[i]).no_duplicates() by {
        assert forall|k1: int, k2: int|
            0 <= k1 < v.index[i].len() && 0 <= k2 < v.index[i].len() && k1 != k2 implies v.index[i][k1]
            != v.index[i][k2] by {
            if k1 < k2 {
                assert(v.index[i][k1] != v.index[i][k2]);
            } else {
                assert(v.index[i][k2] != v.index[i][k1]);
            }
        }
    }
}

/// Lifting a piece off its square, taken out of both structures, keeps the
/// board well-formed. Dual of `lemma_place_preserves_wf`.
pub(crate) proof fn lemma_lift_preserves_wf(v: BoardView, r: int, c: int, p: Piece, w: BoardView)
    requires
        v.wf(),
        in_bounds(r, c),
        (at(v.grid, r, c) == Some(p)),
        w.index == v.index.update(pid(p), remove_first(v.index[pid(p)], (r as usize, c as usize))),
        w.grid == v.grid.update(r * 8 + c, None),
    ensures
        w.wf(),
{
    let b = pid(p);
    let q = (r as usize, c as usize);
    lemma_pid_piece_of(p);
    lemma_wf_membership(v);
    lemma_remove_first_props(v.index[b], q);
    assert(0 <= r * 8 + c < 64) by (nonlinear_arith)
        requires
            0 <= r < 8 && 0 <= c < 8,
    ;
    assert forall|rr: int, cc: int| in_bounds(rr, cc) && (rr != r || cc != c) implies #[trigger] at(
        w.grid,
        rr,
        cc,
    ) == at(v.grid, rr, cc) by {
        if rr * 8 + cc == r * 8 + c {
            lemma_sq_injective(rr, cc, r, c);
        }
    }
    assert forall|i: int, k: int| 0 <= i < 12 && 0 <= k < w.index[i].len() implies {
        let s = #[trigger] w.index[i][k];
        in_bounds(s.0 as int, s.1 as int) && at(w.grid, s.0 as int, s.1 as int) == Some(
            piece_of(i),
        )
    } by {
        let s = w.index[i][k];
        assert(w.index[i].contains(s));
        if i == b {
            assert(s != q);
            assert(v.index[i].contains(s));
        } else {
            assert(v.index[i].contains(s));
            assert(at(v.grid, s.0 as int, s.1 as int) == Some(piece_of(i)));
            assert(s != q) by {
                if s == q {
                    assert(piece_of(i) == p);
                    lemma_piece_of_pid(i);
                }
            }
        }
    }
    assert(w.ix_dup_free()) by {
        assert forall|i: int, k1: int, k2: int|
            0 <= i < 12 && 0 <= k1 < k2 < w.index[i].len() implies #[trigger] w.index[i][k1]
            != #[trigger] w.index[i][k2] by {
            if i == b {
                assert(remove_first(v.index[b], q).no_duplicates());
            } else {
                assert(v.index[i][k1] != v.index[i][k2]);
            }
        }
    }
    assert forall|rr: int, cc: int|
        in_bounds(rr, cc) && #[trigger] at(w.grid, rr, cc) is Some implies w.ix_has(
        pid(at(w.grid, rr, cc)->0),
        rr,
        cc,
    ) by {
        assert(!(rr == r && cc == c));
        assert(at(w.grid, rr, cc) == at(v.grid, rr, cc));
        let i0 = pid(at(v.grid, rr, cc)->0);
        let y = (rr as usize, cc as usize);
        lemma_pid_piece_of(at(v.grid, rr, cc)->0);
        assert(v.index[i0].contains(y));
        assert(y != q) by {
            if y == q {
                lemma_sq_injective(rr, cc, r, c);
            }
        }
        assert(w.index[i0].contains(y));
        let k = choose|k: int| 0 <= k < w.index[i0].len() && w.index[i0][k] == y;
        assert(w.index[i0][k] == (rr as usize, cc as usize));
    }
}

/// Preconditions under which a move applies cleanly and can be inverted
/// exactly: the start square is occupied, the target is never a piece of the
/// mover's own color, a castle-shaped king move finds its rook on the corner
/// and empty passage squares, and a pawn's diagonal move onto an empty square
/// finds the enemy pawn it captures en passant. The full validator implies
/// all of these for every move it accepts.
pub open spec fn undoable(v: BoardView, sr: int, sc: int, er: int, ec: int) -> bool {
    let p = at(v.grid, sr, sc)->0;
    &&& v.dims()
    &&& in_bounds(sr, sc)
    &&& in_bounds(er, ec)
    &&& at(v.grid, sr, sc) is Some
    &&& !(sr == er && sc == ec)
    &&& (at(v.grid, er, ec) is Some ==> at(v.grid, er, ec)->0.color_spec() != p.color_spec())
    &&& (p == Piece::King(Color::White) && sr == 0 && sc == 4 && er == 0 && ec == 6 ==> at(
        v.grid,
        0,
        7,
    ) == Some(Piece::Rook(Color::White)) && at(v.grid, 0, 5) is None && at(v.grid, 0, 6) is None)
    &&& (p == Piece::King(Color::White) && sr == 0 && sc == 4 && er == 0 && ec == 2 ==> at(
        v.grid,
        0,
        0,
    ) == Some(Piece::Rook(Color::White)) && at(v.grid, 0, 3) is None && at(v.grid, 0, 2) is None)
    &&& (p == Piece::King(Color::Black) && sr == 7 && sc == 4 && er == 7 && ec == 6 ==> at(
        v.grid,
        7,
        7,
    ) == Some(Piece::Rook(Color::Black)) && at(v.grid, 7, 5) is None && at(v.grid, 7, 6) is None)
    &&& (p == Piece::King(Color::Black) && sr == 7 && sc == 4 && er == 7 && ec == 2 ==> at(
        v.grid,
        7,
        0,
    ) == Some(Piece::Rook(Color::Black)) && at(v.grid, 7, 3) is None && at(v.grid, 7, 2) is None)
    &&& (p is Pawn && sc != ec && at(v.grid, er, ec) is None ==> sr != er && at(v.grid, sr, ec)
        == Some(Piece::Pawn(p.color_spec().flip())))
}

/// Applying an undoable move to a well-formed board yields a well-formed
/// board: the move decomposes into lifting and placing single pieces, each of
/// which preserves well-formedness.
pub(crate) proof fn lemma_apply_preserves_wf(v: BoardView, sr: int, sc: int, er: int, ec: int)
    requires
        v.wf(),
        undoable(v, sr, sc, er, ec),
    ensures
        (BoardView { grid: apply_grid(v.grid, sr, sc, er, ec), index: apply_ix(v, sr, sc, er, ec) }).wf(),
{
    let p = at(v.grid, sr, sc)->0;
    let taken = at(v.grid, er, ec);
    let s = (sr as usize, sc as usize);
    let e = (er as usize, ec as usize);
    let si = sr * 8 + sc;
    let ei = er * 8 + ec;
    let bp = pid(p);
    lemma_pid_piece_of(p);
    assert(si != ei) by {
        if si == ei {
            lemma_sq_injective(sr, sc, er, ec);
        }
    }
    let wk = p == Piece::King(Color::White) && sr == 0 && sc == 4 && er == 0 && ec == 6;
    let wq = p == Piece::King(Color::White) && sr == 0 && sc == 4 && er == 0 && ec == 2;
    let bk = p == Piece::King(Color::Black) && sr == 7 && sc == 4 && er == 7 && ec == 6;
    let bq = p == Piece::King(Color::Black) && sr == 7 && sc == 4 && er == 7 && ec == 2;
    let ep = p is Pawn && sc != ec && taken is None;
    // step one: if the move captures on the end square, lift the victim
    let v0 = if taken is Some {
        let tp = taken->0;
        let va = BoardView {
            grid: v.grid.update(ei, None),
            index: v.index.update(pid(tp), remove_first(v.index[pid(tp)], e)),
        };
        lemma_lift_preserves_wf(v, er, ec, tp, va);
        va
    } else {
        v
    };
    assert(v0.wf());
    assert(at(v0.grid, sr, sc) == Some(p));
    assert(at(v0.grid, er, ec) is None) by {
        if taken is None {
        }
    }
    // step two: the moving piece is lifted off its start square and placed on
    // the end square
    let v1 = BoardView {
        grid: v0.grid.update(si, None),
        index: v0.index.update(bp, remove_first(v0.index[bp], s)),
    };
    lemma_lift_preserves_wf(v0, sr, sc, p, v1);
    assert(at(v1.grid, er, ec) is None);
    lemma_wf_membership(v1);
    assert(!v1.index[bp].contains(e));
    let v2 = BoardView {
        grid: v1.grid.update(ei, Some(p)),
        index: v1.index.update(bp, v1.index[bp].push(e)),
    };
    lemma_place_preserves_wf(v1, er, ec, p, v2);
    assert(v1.index[bp].push(e) == push_if_absent(v1.index[bp], e));
    // step three: a castle-shaped king move lifts the rook off its corner and
    // places it beside the king; a pawn's en-passant capture lifts the enemy
    // pawn off the bypassed square
    if wk || wq || bk || bq {
        let rook = if wk || wq {
            Piece::Rook(Color::White)
        } else {
            Piece::Rook(Color::Black)
        };
        let fr = if wk {
            (0int, 7int)
        } else if wq {
            (0int, 0int)
        } else if bk {
            (7int, 7int)
        } else {
            (7int, 0int)
        };
        let to = if wk {
            (0int, 5int)
        } else if wq {
            (0int, 3int)
        } else if bk {
            (7int, 5int)
        } else {
            (7int, 3int)
        };
        let rb = pid(rook);
        lemma_pid_piece_of(rook);
        assert(taken is None);
        assert(at(v2.grid, fr.0, fr.1) == Some(rook)) by {
            assert(at(v.grid, fr.0, fr.1) == Some(rook));
            if fr.0 * 8 + fr.1 == si {
                lemma_sq_injective(fr.0, fr.1, sr, sc);
            }
            if fr.0 * 8 + fr.1 == ei {
                lemma_sq_injective(fr.0, fr.1, er, ec);
            }
        }
        let v3 = BoardView {
            grid: v2.grid.update(fr.0 * 8 + fr.1, None),
            index: v2.index.update(rb, remove_first(v2.index[rb], (fr.0 as usize, fr.1 as usize))),
        };
        lemma_lift_preserves_wf(v2, fr.0, fr.1, rook, v3);
        assert(at(v3.grid, to.0, to.1) is None) by {
            assert(at(v.grid, to.0, to.1) is None);
            if to.0 * 8 + to.1 == si {
                lemma_sq_injective(to.0, to.1, sr, sc);
            }
            if to.0 * 8 + to.1 == ei {
                lemma_sq_injective(to.0, to.1, er, ec);
            }
            if to.0 * 8 + to.1 == fr.0 * 8 + fr.1 {
                lemma_sq_injective(to.0, to.1, fr.0, fr.1);
            }
        }
        lemma_wf_membership(v3);
        assert(!v3.index[rb].contains((to.0 as usize, to.1 as usize)));
        let v4 = BoardView {
            grid: v3.grid.update(to.0 * 8 + to.1, Some(rook)),
            index: v3.index.update(rb, v3.index[rb].push((to.0 as usize, to.1 as usize))),
        };
        lemma_place_preserves_wf(v3, to.0, to.1, rook, v4);
        assert(v3.index[rb].push((to.0 as usize, to.1 as usize)) == push_if_absent(
            v3.index[rb],
            (to.0 as usize, to.1 as usize),
        ));
        assert(v4.grid == apply_grid(v.grid, sr, sc, er, ec));
        assert(v4.index == apply_ix(v, sr, sc, er, ec));
    } else if ep {
        let op = Piece::Pawn(p.color_spec().flip());
        let ob = pid(op);
        lemma_pid_piece_of(op);
        let qi = sr * 8 + ec;
        assert(at(v2.grid, sr, ec) == Some(op)) by {
            assert(at(v.grid, sr, ec) == Some(op));
            if qi == si {
                lemma_sq_injective(sr, ec, sr, sc);
            }
            if qi == ei {
                lemma_sq_injective(sr, ec, er, ec);
            }
        }
        let v3 = BoardView {
            grid: v2.grid.update(qi, None),
            index: v2.index.update(ob, remove_first(v2.index[ob], (sr as usize, ec as usize))),
        };
        lemma_lift_preserves_wf(v2, sr, ec, op, v3);
        assert(v3.grid == apply_grid(v.grid, sr, sc, er, ec));
        assert(v3.index == apply_ix(v, sr, sc, er, ec));
    } else {
        assert(v2.grid =~= apply_grid(v.grid, sr, sc, er, ec));
        assert(v2.index == apply_ix(v, sr, sc, er, ec));
    }
}

/// Applying an undoable move and then undoing it with its own undo record
/// restores the board exactly: the grid to equality, and every slot of the
/// piece index to the same set of squares (and the same length).
#[verifier::rlimit(100)]
#[verifier::spinoff_prover]
pub(crate) proof fn lemma_apply_then_revert(v: BoardView, sr: int, sc: int, er: int, ec: int)
    requires
        v.wf(),
        undoable(v, sr, sc, er, ec),
    ensures
        ({
            let v2 = BoardView {
                grid: apply_grid(v.grid, sr, sc, er, ec),
                index: apply_ix(v, sr, sc, er, ec),
            };
            let tk = taken_rec(v.grid, sr, sc, er, ec);
            let pr = promo_flag(v.grid, sr, sc, er, ec);
            let v3 = BoardView {
                grid: revert_grid(v2.grid, sr, sc, er, ec, tk, pr),
                index: revert_ix(v2, sr, sc, er, ec, tk, pr),
            };
            &&& v2.wf()
            &&& v3.wf()
            &&& v3.grid == v.grid
            &&& forall|i: int|
                0 <= i < 12 ==> (#[trigger] v3.index[i]).to_set() == v.index[i].to_set()
            &&& forall|i: int| 0 <= i < 12 ==> (#[trigger] v3.index[i]).len() == v.index[i].len()
        }),
{
    let p = at(v.grid, sr, sc)->0;
    let taken = at(v.grid, er, ec);
    let s = (sr as usize, sc as usize);
    let e = (er as usize, ec as usize);
    let si = sr * 8 + sc;
    let ei = er * 8 + ec;
    let bp = pid(p);
    lemma_pid_piece_of(p);
    lemma_apply_preserves_wf(v, sr, sc, er, ec);
    let v2 = BoardView {
        grid: apply_grid(v.grid, sr, sc, er, ec),
        index: apply_ix(v, sr, sc, er, ec),
    };
    let tk = taken_rec(v.grid, sr, sc, er, ec);
    let pr = promo_flag(v.grid, sr, sc, er, ec);
    assert(si != ei) by {
        if si == ei {
            lemma_sq_injective(sr, sc, er, ec);
        }
    }
    let wk = p == Piece::King(Color::White) && sr == 0 && sc == 4 && er == 0 && ec == 6;
    let wq = p == Piece::King(Color::White) && sr == 0 && sc == 4 && er == 0 && ec == 2;
    let bk = p == Piece::King(Color::Black) && sr == 7 && sc == 4 && er == 7 && ec == 6;
    let bq = p == Piece::King(Color::Black) && sr == 7 && sc == 4 && er == 7 && ec == 2;
    let ep = p is Pawn && sc != ec && taken is None;
    let qi = sr * 8 + ec;
    if ep {
        assert(qi != si) by {
            if qi == si {
                lemma_sq_injective(sr, ec, sr, sc);
            }
        }
        assert(qi != ei) by {
            if qi == ei {
                lemma_sq_injective(sr, ec, er, ec);
            }
        }
    }
    // the moved piece sits on the end square of the applied board, and a
    // promotion walks back as the very pawn that moved
    assert(at(v2.grid, er, ec) == Some(p));
    assert((if pr {
        Piece::Pawn(at(v2.grid, er, ec)->0.color_spec())
    } else {
        at(v2.grid, er, ec)->0
    }) == p);
    // undo step one: lift the moved piece off the end square
    let w1 = BoardView {
        grid: v2.grid.update(ei, None),
        index: v2.index.update(bp, remove_first(v2.index[bp], e)),
    };
    lemma_lift_preserves_wf(v2, er, ec, p, w1);
    // undo step two: place it back on its start square
    assert(at(w1.grid, sr, sc) is None);
    lemma_wf_membership(w1);
    assert(!w1.index[bp].contains(s));
    let w2 = BoardView {
        grid: w1.grid.update(si, Some(p)),
        index: w1.index.update(bp, w1.index[bp].push(s)),
    };
    lemma_place_preserves_wf(w1, sr, sc, p, w2);
    assert(w1.index[bp].push(s) == push_if_absent(w1.index[bp], s));
    // undo step three: put the captured piece back on its own square
    let w3 = if taken is Some {
        let tp = taken->0;
        lemma_pid_piece_of(tp);
        assert(at(w2.grid, er, ec) is None);
        lemma_wf_membership(w2);
        assert(!w2.index[pid(tp)].contains(e));
        let w = BoardView {
            grid: w2.grid.update(ei, Some(tp)),
            index: w2.index.update(pid(tp), w2.index[pid(tp)].push(e)),
        };
        lemma_place_preserves_wf(w2, er, ec, tp, w);
        assert(w2.index[pid(tp)].push(e) == push_if_absent(w2.index[pid(tp)], e));
        w
    } else if ep {
        let op = Piece::Pawn(p.color_spec().flip());
        lemma_pid_piece_of(op);
        assert(at(w2.grid, sr, ec) is None);
        lemma_wf_membership(w2);
        assert(!w2.index[pid(op)].contains((sr as usize, ec as usize)));
        let w = BoardView {
            grid: w2.grid.update(qi, Some(op)),
            index: w2.index.update(pid(op), w2.index[pid(op)].push((sr as usize, ec as usize))),
        };
        lemma_place_preserves_wf(w2, sr, ec, op, w);
        assert(w2.index[pid(op)].push((sr as usize, ec as usize)) == push_if_absent(
            w2.index[pid(op)],
            (sr as usize, ec as usize),
        ));
        w
    } else {
        w2
    };
    assert(w3.wf());
    // undo step four: a castle-shaped king move walks its rook back
    let w5 = if wk || wq || bk || bq {
        let rook = if wk || wq {
            Piece::Rook(Color::White)
        } else {
            Piece::Rook(Color::Black)
        };
        let home = if wk {
            (0int, 7int)
        } else if wq {
            (0int, 0int)
        } else if bk {
            (7int, 7int)
        } else {
            (7int, 0int)
        };
        let mid = if wk {
            (0int, 5int)
        } else if wq {
            (0int, 3int)
        } else if bk {
            (7int, 5int)
        } else {
            (7int, 3int)
        };
        let rb = pid(rook);
        lemma_pid_piece_of(rook);
        assert(taken is None);
        assert(at(w3.grid, mid.0, mid.1) == Some(rook)) by {
            assert(at(v2.grid, mid.0, mid.1) == Some(rook));
            if mid.0 * 8 + mid.1 == si {
                lemma_sq_injective(mid.0, mid.1, sr, sc);
            }
            if mid.0 * 8 + mid.1 == ei {
                lemma_sq_injective(mid.0, mid.1, er, ec);
            }
        }
        let w4 = BoardView {
            grid: w3.grid.update(mid.0 * 8 + mid.1, None),
            index: w3.index.update(
                rb,
                remove_first(w3.index[rb], (mid.0 as usize, mid.1 as usize)),
            ),
        };
        lemma_lift_preserves_wf(w3, mid.0, mid.1, rook, w4);
        assert(at(w4.grid, home.0, home.1) is None) by {
            assert(at(v2.grid, home.0, home.1) is None);
            if home.0 * 8 + home.1 == si {
                lemma_sq_injective(home.0, home.1, sr, sc);
            }
            if home.0 * 8 + home.1 == ei {
                lemma_sq_injective(home.0, home.1, er, ec);
            }
            if home.0 * 8 + home.1 == mid.0 * 8 + mid.1 {
                lemma_sq_injective(home.0, home.1, mid.0, mid.1);
            }
        }
        lemma_wf_membership(w4);
        assert(!w4.index[rb].contains((home.0 as usize, home.1 as usize)));
        let w = BoardView {
            grid: w4.grid.update(home.0 * 8 + home.1, Some(rook)),
            index: w4.index.update(rb, w4.index[rb].push((home.0 as usize, home.1 as usize))),
        };
        lemma_place_preserves_wf(w4, home.0, home.1, rook, w);
        assert(w4.index[rb].push((home.0 as usize, home.1 as usize)) == push_if_absent(
            w4.index[rb],
            (home.0 as usize, home.1 as usize),
        ));
        w
    } else {
        w3
    };
    assert(w5.wf());
    let v3 = BoardView {
        grid: revert_grid(v2.grid, sr, sc, er, ec, tk, pr),
        index: revert_ix(v2, sr, sc, er, ec, tk, pr),
    };
    assert(v3.grid =~= w5.grid);
    assert(v3.index =~= w5.index);
    assert(v3.wf());
    // the grid is restored square by square
    assert(v3.grid =~= v.grid);
    // each index slot lists the same squares as before, since membership is
    // determined by the restored grid
    lemma_wf_membership(v);
    lemma_wf_membership(v3);
    assert forall|i: int| 0 <= i < 12 implies (#[trigger] v3.index[i]).to_set()
        == v.index[i].to_set() by {
        assert forall|y: (usize, usize)| v3.index[i].to_set().contains(y)
            <==> v.index[i].to_set().contains(y) by {
            assert(v3.index[i].to_set().contains(y) <==> v3.index[i].contains(y));
            assert(v.index[i].to_set().contains(y) <==> v.index[i].contains(y));
        }
        assert(v3.index[i].to_set() =~= v.index[i].to_set());
    }
    assert forall|i: int| 0 <= i < 12 implies (#[trigger] v3.index[i]).len()
        == v.index[i].len() by {
        v3.index[i].unique_seq_to_set();
        v.index[i].unique_seq_to_set();
    }
}

/// The whole board view after a move: grid and index together.
pub open spec fn apply_view(v: BoardView, sr: int, sc: int, er: int, ec: int) -> BoardView {
    BoardView { grid: apply_grid(v.grid, sr, sc, er, ec), index: apply_ix(v, sr, sc, er, ec) }
}

/// `b` is `a` restored after a speculative apply-test-revert: the grid is
/// byte-for-byte the same, and every index slot lists the same set of squares
/// with the same length, so each piece's set of squares is unchanged.
pub open spec fn restored(a: BoardView, b: BoardView) -> bool {
    &&& b.wf()
    &&& b.grid == a.grid
    &&& b.index.len() == 12
    &&& forall|i: int| 0 <= i < 12 ==> (#[trigger] b.index[i]).to_set() == a.index[i].to_set()
    &&& forall|i: int| 0 <= i < 12 ==> (#[trigger] b.index[i]).len() == a.index[i].len()
}

/// A king's single speculative step onto an empty square (used to test the
/// passage square of a castle) restores the grid exactly when undone, with no
/// well-formedness assumption: only the two squares involved are touched.
pub(crate) proof fn lemma_king_step_roundtrip_grid(
    g: Seq<Option<Piece>>,
    color: Color,
    sr: int,
    sc: int,
    mr: int,
    mc: int,
)
    requires
        g.len() == 64,
        in_bounds(sr, sc),
        in_bounds(mr, mc),
        at(g, sr, sc) == Some(Piece::King(color)),
        at(g, mr, mc) is None,
        !(sr == mr && sc == mc),
        mc != 2 && mc != 6,
    ensures
        taken_rec(g, sr, sc, mr, mc) == None::<(Piece, (usize, usize))>,
        !promo_flag(g, sr, sc, mr, mc),
        revert_grid(apply_grid(g, sr, sc, mr, mc), sr, sc, mr, mc, None, false) == g,
        at(apply_grid(g, sr, sc, mr, mc), mr, mc) == Some(Piece::King(color)),
{
    let si = sr * 8 + sc;
    let mi = mr * 8 + mc;
    assert(si != mi) by {
        if si == mi {
            lemma_sq_injective(sr, sc, mr, mc);
        }
    }
    let g2 = apply_grid(g, sr, sc, mr, mc);
    assert(g2 == g.update(si, None).update(mi, Some(Piece::King(color))));
    let g3 = revert_grid(g2, sr, sc, mr, mc, None, false);
    assert(g3 =~= g);
}

/// Two well-formed boards with the same grid answer every check question the
/// same way: the index slots list the same squares, so attacker enumeration
/// and king lookup agree.
pub(crate) proof fn lemma_same_grid_same_buckets(a: BoardView, b: BoardView)
    requires
        a.wf(),
        b.wf(),
        b.grid == a.grid,
    ensures
        forall|i: int, y: (usize, usize)|
            0 <= i < 12 ==> (#[trigger] b.index[i].contains(y) <==> a.index[i].contains(y)),
        forall|i: int| 0 <= i < 12 ==> (#[trigger] b.index[i]).len() == a.index[i].len(),
{
    lemma_wf_membership(a);
    lemma_wf_membership(b);
    assert forall|i: int| 0 <= i < 12 implies (#[trigger] b.index[i]).len()
        == a.index[i].len() by {
        assert(b.index[i].to_set() =~= a.index[i].to_set()) by {
            assert forall|y: (usize, usize)| b.index[i].to_set().contains(y)
                <==> a.index[i].to_set().contains(y) by {
                assert(b.index[i].to_set().contains(y) <==> b.index[i].contains(y));
                assert(a.index[i].to_set().contains(y) <==> a.index[i].contains(y));
            }
        }
        a.index[i].unique_seq_to_set();
        b.index[i].unique_seq_to_set();
    }
}

} // verus!
