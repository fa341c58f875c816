//! Legal move generation: pseudo-legal candidate squares from each piece
//! kind's geometry (sliding pieces stop at the first occupied square in each
//! direction), filtered through the full validator.

use vstd::prelude::*;

use crate::core_struct::{at, in_bounds, Board, BoardView, Color, Piece};
use crate::game::GameState;
use crate::move_validation::{spec_validate, MoveError};

verus! {

/// The direction of one of the eight rays, in the order the generators walk
/// them: the four diagonals first, then the four orthogonals.
pub open spec fn dir_of(d: int) -> (int, int) {
    if d == 0 {
        (1, 1)
    } else if d == 1 {
        (1, -1)
    } else if d == 2 {
        (-1, 1)
    } else if d == 3 {
        (-1, -1)
    } else if d == 4 {
        (1, 0)
    } else if d == 5 {
        (-1, 0)
    } else if d == 6 {
        (0, 1)
    } else {
        (0, -1)
    }
}

/// The squares a sliding piece reaches from `(r, c)` along `(dr, dc)`: every
/// square up to and including the first occupied one, stopping at the edge.
pub open spec fn ray(g: Seq<Option<Piece>>, r: int, c: int, dr: int, dc: int) -> Seq<
    (usize, usize),
>
    decreases (if dr > 0 {
        7 - r
    } else if dr < 0 {
        r
    } else {
        0
    }) + (if dc > 0 {
        7 - c
    } else if dc < 0 {
        c
    } else {
        0
    }),
{
    if dr == 0 && dc == 0 {
        Seq::empty()
    } else if !in_bounds(r + dr, c + dc) {
        Seq::empty()
    } else {
        let head = seq![((r + dr) as usize, (c + dc) as usize)];
        if at(g, r + dr, c + dc) is Some {
            head
        } else {
            head + ray(g, r + dr, c + dc, dr, dc)
        }
    }
}

/// A pawn's candidate squares: single step, double step, and the two diagonal
/// captures, those on the board, in that order. White moves up the ranks,
/// Black down.
pub open spec fn cand_pawn(sr: int, sc: int, color: Color) -> Seq<(usize, usize)> {
    let d: int = if color == Color::White {
        1
    } else {
        -1
    };
    let s0 = Seq::<(usize, usize)>::empty();
    let s1 = if in_bounds(sr + d, sc) {
        s0.push(((sr + d) as usize, sc as usize))
    } else {
        s0
    };
    let s2 = if in_bounds(sr + 2 * d, sc) {
        s1.push(((sr + 2 * d) as usize, sc as usize))
    } else {
        s1
    };
    let s3 = if in_bounds(sr + d, sc - 1) {
        s2.push(((sr + d) as usize, (sc - 1) as usize))
    } else {
        s2
    };
    if in_bounds(sr + d, sc + 1) {
        s3.push(((sr + d) as usize, (sc + 1) as usize))
    } else {
        s3
    }
}

/// A knight's candidate squares: the eight offsets that lie on the board.
pub open spec fn cand_knight(sr: int, sc: int) -> Seq<(usize, usize)> {
    let s0 = Seq::<(usize, usize)>::empty();
    let s1 = if in_bounds(sr - 2, sc - 1) {
        s0.push(((sr - 2) as usize, (sc - 1) as usize))
    } else {
        s0
    };
    let s2 = if in_bounds(sr - 2, sc + 1) {
        s1.push(((sr - 2) as usize, (sc + 1) as usize))
    } else {
        s1
    };
    let s3 = if in_bounds(sr - 1, sc - 2) {
        s2.push(((sr - 1) as usize, (sc - 2) as usize))
    } else {
        s2
    };
    let s4 = if in_bounds(sr - 1, sc + 2) {
        s3.push(((sr - 1) as usize, (sc + 2) as usize))
    } else {
        s3
    };
    let s5 = if in_bounds(sr + 1, sc - 2) {
        s4.push(((sr + 1) as usize, (sc - 2) as usize))
    } else {
        s4
    };
    let s6 = if in_bounds(sr + 1, sc + 2) {
        s5.push(((sr + 1) as usize, (sc + 2) as usize))
    } else {
        s5
    };
    let s7 = if in_bounds(sr + 2, sc - 1) {
        s6.push(((sr + 2) as usize, (sc - 1) as usize))
    } else {
        s6
    };
    if in_bounds(sr + 2, sc + 1) {
        s7.push(((sr + 2) as usize, (sc + 1) as usize))
    } else {
        s7
    }
}

/// A king's candidate squares: the eight neighbours that lie on the board,
/// followed by the two castling destinations two squares to either side. The
/// validator filter keeps a castle destination only when the full castling
/// rule holds.
pub open spec fn cand_king(sr: int, sc: int) -> Seq<(usize, usize)> {
    let s0 = Seq::<(usize, usize)>::empty();
    let s1 = if in_bounds(sr - 1, sc - 1) {
        s0.push(((sr - 1) as usize, (sc - 1) as usize))
    } else {
        s0
    };
    let s2 = if in_bounds(sr - 1, sc) {
        s1.push(((sr - 1) as usize, sc as usize))
    } else {
        s1
    };
    let s3 = if in_bounds(sr - 1, sc + 1) {
        s2.push(((sr - 1) as usize, (sc + 1) as usize))
    } else {
        s2
    };
    let s4 = if in_bounds(sr, sc - 1) {
        s3.push((sr as usize, (sc - 1) as usize))
    } else {
        s3
    };
    let s5 = if in_bounds(sr, sc + 1) {
        s4.push((sr as usize, (sc + 1) as usize))
    } else {
        s4
    };
    let s6 = if in_bounds(sr + 1, sc - 1) {
        s5.push(((sr + 1) as usize, (sc - 1) as usize))
    } else {
        s5
    };
    let s7 = if in_bounds(sr + 1, sc) {
        s6.push(((sr + 1) as usize, sc as usize))
    } else {
        s6
    };
    let s8 = if in_bounds(sr + 1, sc + 1) {
        s7.push(((sr + 1) as usize, (sc + 1) as usize))
    } else {
        s7
    };
    let s9 = if in_bounds(sr, sc - 2) {
        s8.push((sr as usize, (sc - 2) as usize))
    } else {
        s8
    };
    if in_bounds(sr, sc + 2) {
        s9.push((sr as usize, (sc + 2) as usize))
    } else {
        s9
    }
}

/// A bishop's candidate squares: the four diagonal rays.
pub open spec fn cand_bishop(g: Seq<Option<Piece>>, sr: int, sc: int) -> Seq<(usize, usize)> {
    ray(g, sr, sc, 1, 1) + ray(g, sr, sc, 1, -1) + ray(g, sr, sc, -1, 1) + ray(g, sr, sc, -1, -1)
}

/// A rook's candidate squares: the four orthogonal rays.
pub open spec fn cand_rook(g: Seq<Option<Piece>>, sr: int, sc: int) -> Seq<(usize, usize)> {
    ray(g, sr, sc, 1, 0) + ray(g, sr, sc, -1, 0) + ray(g, sr, sc, 0, 1) + ray(g, sr, sc, 0, -1)
}

/// A queen's candidate squares: all eight rays, diagonals first.
pub open spec fn cand_queen(g: Seq<Option<Piece>>, sr: int, sc: int) -> Seq<(usize, usize)> {
    cand_bishop(g, sr, sc) + cand_rook(g, sr, sc)
}

/// The pseudo-legal candidate squares of the piece `p` standing on `(sr, sc)`.
pub open spec fn candidates(g: Seq<Option<Piece>>, p: Piece, sr: int, sc: int) -> Seq<
    (usize, usize),
> {
    match p {
        Piece::Pawn(c) => cand_pawn(sr, sc, c),
        Piece::Knight(_) => cand_knight(sr, sc),
        Piece::Bishop(_) => cand_bishop(g, sr, sc),
        Piece::Rook(_) => cand_rook(g, sr, sc),
        Piece::Queen(_) => cand_queen(g, sr, sc),
        Piece::King(_) => cand_king(sr, sc),
    }
}

/// The first `n` candidate squares of the piece on `(sr, sc)` that the full
/// validator accepts, in generation order.
pub open spec fn legal_dests_upto(v: BoardView, st: GameState, sr: int, sc: int, n: int) -> Seq<
    (usize, usize),
> {
    candidates(v.grid, at(v.grid, sr, sc)->0, sr, sc).take(n).filter(
        |e: (usize, usize)| spec_validate(v, st, sr, sc, e.0 as int, e.1 as int) is Ok,
    )
}

/// The legal destinations of the piece on `(sr, sc)`: its candidate squares
/// that the full validator accepts, in generation order.
pub open spec fn legal_dests(v: BoardView, st: GameState, sr: int, sc: int) -> Seq<
    (usize, usize),
> {
    legal_dests_upto(
        v,
        st,
        sr,
        sc,
        candidates(v.grid, at(v.grid, sr, sc)->0, sr, sc).len() as int,
    )
}

/// Extending the scanned prefix by one candidate extends the accepted list by
/// that candidate exactly when the validator accepts it.
pub proof fn lemma_legal_dests_upto_step(v: BoardView, st: GameState, sr: int, sc: int, i: int)
    requires
        0 <= i < candidates(v.grid, at(v.grid, sr, sc)->0, sr, sc).len(),
    ensures
        legal_dests_upto(v, st, sr, sc, i + 1) == (if spec_validate(
            v,
            st,
            sr,
            sc,
            candidates(v.grid, at(v.grid, sr, sc)->0, sr, sc)[i].0 as int,
            candidates(v.grid, at(v.grid, sr, sc)->0, sr, sc)[i].1 as int,
        ) is Ok {
            legal_dests_upto(v, st, sr, sc, i).push(
                candidates(v.grid, at(v.grid, sr, sc)->0, sr, sc)[i],
            )
        } else {
            legal_dests_upto(v, st, sr, sc, i)
        }),
{
    reveal(Seq::filter);
    let cands = candidates(v.grid, at(v.grid, sr, sc)->0, sr, sc);
    let e = cands[i];
    assert(cands.take(i + 1) =~= cands.take(i).push(e));
    assert(cands.take(i + 1).drop_last() =~= cands.take(i));
    assert(cands.take(i + 1).last() == e);
}

/// Two well-formed boards with the same grid accept the same candidates, for
/// every prefix of the candidate list.
pub proof fn lemma_legal_dests_upto_congruence(
    a: BoardView,
    b: BoardView,
    st: GameState,
    sr: int,
    sc: int,
    n: int,
)
    requires
        a.wf(),
        b.wf(),
        b.grid == a.grid,
        crate::move_validation::ep_coherent(a, st),
        0 <= n <= candidates(a.grid, at(a.grid, sr, sc)->0, sr, sc).len(),
    ensures
        legal_dests_upto(b, st, sr, sc, n) == legal_dests_upto(a, st, sr, sc, n),
    decreases n,
{
    reveal(Seq::filter);
    let cands = candidates(a.grid, at(a.grid, sr, sc)->0, sr, sc);
    if n == 0 {
        assert(cands.take(0) =~= Seq::<(usize, usize)>::empty());
    } else {
        lemma_legal_dests_upto_congruence(a, b, st, sr, sc, n - 1);
        lemma_legal_dests_upto_step(a, st, sr, sc, n - 1);
        lemma_legal_dests_upto_step(b, st, sr, sc, n - 1);
        crate::move_validation::lemma_validate_congruence(
            a,
            b,
            st,
            sr,
            sc,
            cands[n - 1].0 as int,
            cands[n - 1].1 as int,
        );
    }
}

/// Two well-formed boards with the same grid list the same legal destinations
/// for every square.
pub proof fn lemma_legal_dests_congruence(
    a: BoardView,
    b: BoardView,
    st: GameState,
    sr: int,
    sc: int,
)
    requires
        a.wf(),
        b.wf(),
        b.grid == a.grid,
        crate::move_validation::ep_coherent(a, st),
    ensures
        legal_dests(b, st, sr, sc) == legal_dests(a, st, sr, sc),
{
    let cands = candidates(a.grid, at(a.grid, sr, sc)->0, sr, sc);
    lemma_legal_dests_upto_congruence(a, b, st, sr, sc, cands.len() as int);
}


/// Every destination the generator lists was accepted by the validator: the
/// accepted prefix only ever grows by validated candidates.
pub proof fn lemma_legal_dests_accepted(
    v: BoardView,
    st: GameState,
    sr: int,
    sc: int,
    n: int,
    i: int,
)
    requires
        0 <= n <= candidates(v.grid, at(v.grid, sr, sc)->0, sr, sc).len(),
        0 <= i < legal_dests_upto(v, st, sr, sc, n).len(),
    ensures
        spec_validate(
            v,
            st,
            sr,
            sc,
            legal_dests_upto(v, st, sr, sc, n)[i].0 as int,
            legal_dests_upto(v, st, sr, sc, n)[i].1 as int,
        ) is Ok,
    decreases n,
{
    reveal(Seq::filter);
    let cands = candidates(v.grid, at(v.grid, sr, sc)->0, sr, sc);
    if n == 0 {
        assert(cands.take(0) =~= Seq::<(usize, usize)>::empty());
    } else {
        lemma_legal_dests_upto_step(v, st, sr, sc, n - 1);
        let prev = legal_dests_upto(v, st, sr, sc, n - 1);
        if i < prev.len() {
            lemma_legal_dests_accepted(v, st, sr, sc, n - 1, i);
        }
    }
}

/// The side to move has a piece with at least one legal destination among its
/// candidates.
pub open spec fn any_legal(v: BoardView, st: GameState) -> bool {
    exists|sr: int, sc: int|
        in_bounds(sr, sc) && #[trigger] at(v.grid, sr, sc) is Some && at(
            v.grid,
            sr,
            sc,
        )->0.color_spec() == st.turn && legal_dests(v, st, sr, sc).len() > 0
}

/// A position given as signed coordinates, if it lies on the board.
pub fn is_valid_position(pos: (isize, isize)) -> (r: Option<(usize, usize)>)
    ensures
        r == (if 0 <= pos.0 < 8 && 0 <= pos.1 < 8 {
            Some((pos.0 as usize, pos.1 as usize))
        } else {
            None::<(usize, usize)>
        }),
{
    if pos.0 >= 0 && pos.0 < 8 && pos.1 >= 0 && pos.1 < 8 {
        Some((pos.0 as usize, pos.1 as usize))
    } else {
        None
    }
}

impl Board {
    /// Walk one ray from `start`, collecting squares until the edge or the
    /// first occupied square (inclusive).
    fn gen_ray(&self, start: (usize, usize), d: usize) -> (v: Vec<(usize, usize)>)
        requires
            self@.dims(),
            in_bounds(start.0 as int, start.1 as int),
            d < 8,
        ensures
            v@ == ray(self@.grid, start.0 as int, start.1 as int, dir_of(d as int).0, dir_of(d as int).1),
    {
        let ghost dr = dir_of(d as int).0;
        let ghost dc = dir_of(d as int).1;
        let mut moves: Vec<(usize, usize)> = Vec::new();
        let mut cr = start.0;
        let mut cc = start.1;
        proof {
            assert(moves@ + ray(self@.grid, start.0 as int, start.1 as int, dr, dc) =~= ray(
                self@.grid,
                start.0 as int,
                start.1 as int,
                dr,
                dc,
            ));
        }
        loop
            invariant_except_break
                self@.dims(),
                d < 8,
                dr == dir_of(d as int).0,
                dc == dir_of(d as int).1,
                in_bounds(cr as int, cc as int),
                moves@ + ray(self@.grid, cr as int, cc as int, dr, dc) == ray(
                    self@.grid,
                    start.0 as int,
                    start.1 as int,
                    dr,
                    dc,
                ),
            ensures
                moves@ == ray(self@.grid, start.0 as int, start.1 as int, dr, dc),
            decreases (if dr > 0 {
                7 - cr as int
            } else if dr < 0 {
                cr as int
            } else {
                0
            }) + (if dc > 0 {
                7 - cc as int
            } else if dc < 0 {
                cc as int
            } else {
                0
            }),
        {
            let row_ok: bool;
            let nr: usize;
            if d == 0 || d == 1 || d == 4 {
                row_ok = cr + 1 < 8;
                nr = if row_ok {
                    cr + 1
                } else {
                    0
                };
            } else if d == 2 || d == 3 || d == 5 {
                row_ok = cr > 0;
                nr = if row_ok {
                    cr - 1
                } else {
                    0
                };
            } else {
                row_ok = true;
                nr = cr;
            }
            let col_ok: bool;
            let nc: usize;
            if d == 0 || d == 2 || d == 6 {
                col_ok = cc + 1 < 8;
                nc = if col_ok {
                    cc + 1
                } else {
                    0
                };
            } else if d == 1 || d == 3 || d == 7 {
                col_ok = cc > 0;
                nc = if col_ok {
                    cc - 1
                } else {
                    0
                };
            } else {
                col_ok = true;
                nc = cc;
            }
            if !(row_ok && col_ok) {
                proof {
                    assert(!in_bounds(cr as int + dr, cc as int + dc));
                    assert(ray(self@.grid, cr as int, cc as int, dr, dc) =~= Seq::<
                        (usize, usize),
                    >::empty());
                    assert(moves@ =~= moves@ + Seq::<(usize, usize)>::empty());
                    assert(moves@ == ray(self@.grid, start.0 as int, start.1 as int, dr, dc));
                }
                break ;
            }
            proof {
                assert(nr as int == cr as int + dr);
                assert(nc as int == cc as int + dc);
            }
            let ghost pre = moves@;
            moves.push((nr, nc));
            if self.piece_at(nr, nc).is_some() {
                proof {
                    assert(ray(self@.grid, cr as int, cc as int, dr, dc) =~= seq![(nr, nc)]);
                    assert(moves@ =~= pre + ray(self@.grid, cr as int, cc as int, dr, dc));
                    assert(moves@ == ray(self@.grid, start.0 as int, start.1 as int, dr, dc));
                }
                break ;
            }
            proof {
                assert(ray(self@.grid, cr as int, cc as int, dr, dc) =~= seq![(nr, nc)] + ray(
                    self@.grid,
                    nr as int,
                    nc as int,
                    dr,
                    dc,
                ));
                assert(moves@ =~= pre + seq![(nr, nc)]);
                assert(moves@ + ray(self@.grid, nr as int, nc as int, dr, dc) =~= pre + ray(
                    self@.grid,
                    cr as int,
                    cc as int,
                    dr,
                    dc,
                ));
            }
            cr = nr;
            cc = nc;
        }
        moves
    }

    /// A pawn's candidate squares, in generation order.
    fn generate_pawn_moves(&self, start: (usize, usize), color: Color) -> (v: Vec<(usize, usize)>)
        requires
            in_bounds(start.0 as int, start.1 as int),
        ensures
            v@ == cand_pawn(start.0 as int, start.1 as int, color),
    {
        let mut moves: Vec<(usize, usize)> = Vec::new();
        if color == Color::White {
            if start.0 + 1 < 8 {
                moves.push((start.0 + 1, start.1));
            }
            if start.0 + 2 < 8 {
                moves.push((start.0 + 2, start.1));
            }
            if start.0 + 1 < 8 && start.1 > 0 {
                moves.push((start.0 + 1, start.1 - 1));
            }
            if start.0 + 1 < 8 && start.1 + 1 < 8 {
                moves.push((start.0 + 1, start.1 + 1));
            }
        } else {
            if start.0 > 0 {
                moves.push((start.0 - 1, start.1));
            }
            if start.0 > 1 {
                moves.push((start.0 - 2, start.1));
            }
            if start.0 > 0 && start.1 > 0 {
                moves.push((start.0 - 1, start.1 - 1));
            }
            if start.0 > 0 && start.1 + 1 < 8 {
                moves.push((start.0 - 1, start.1 + 1));
            }
        }
        proof {
            assert(moves@ =~= cand_pawn(start.0 as int, start.1 as int, color));
        }
        moves
    }

    /// A knight's candidate squares, in generation order.
    fn generate_knight_moves(&self, start: (usize, usize)) -> (v: Vec<(usize, usize)>)
        requires
            in_bounds(start.0 as int, start.1 as int),
        ensures
            v@ == cand_knight(start.0 as int, start.1 as int),
    {
        let mut moves: Vec<(usize, usize)> = Vec::new();
        if start.0 > 1 && start.1 > 0 {
            moves.push((start.0 - 2, start.1 - 1));
        }
        if start.0 > 1 && start.1 + 1 < 8 {
            moves.push((start.0 - 2, start.1 + 1));
        }
        if start.0 > 0 && start.1 > 1 {
            moves.push((start.0 - 1, start.1 - 2));
        }
        if start.0 > 0 && start.1 + 2 < 8 {
            moves.push((start.0 - 1, start.1 + 2));
        }
        if start.0 + 1 < 8 && start.1 > 1 {
            moves.push((start.0 + 1, start.1 - 2));
        }
        if start.0 + 1 < 8 && start.1 + 2 < 8 {
            moves.push((start.0 + 1, start.1 + 2));
        }
        if start.0 + 2 < 8 && start.1 > 0 {
            moves.push((start.0 + 2, start.1 - 1));
        }
        if start.0 + 2 < 8 && start.1 + 1 < 8 {
            moves.push((start.0 + 2, start.1 + 1));
        }
        proof {
            assert(moves@ =~= cand_knight(start.0 as int, start.1 as int));
        }
        moves
    }

    /// A king's candidate squares: the eight neighbours and the two castling
    /// destinations, all screened for the board's edge.
    fn generate_king_moves(&self, start: (usize, usize)) -> (v: Vec<(usize, usize)>)
        requires
            in_bounds(start.0 as int, start.1 as int),
        ensures
            v@ == cand_king(start.0 as int, start.1 as int),
    {
        let mut moves: Vec<(usize, usize)> = Vec::new();
        if start.0 > 0 && start.1 > 0 {
            moves.push((start.0 - 1, start.1 - 1));
        }
        if start.0 > 0 {
            moves.push((start.0 - 1, start.1));
        }
        if start.0 > 0 && start.1 + 1 < 8 {
            moves.push((start.0 - 1, start.1 + 1));
        }
        if start.1 > 0 {
            moves.push((start.0, start.1 - 1));
        }
        if start.1 + 1 < 8 {
            moves.push((start.0, start.1 + 1));
        }
        if start.0 + 1 < 8 && start.1 > 0 {
            moves.push((start.0 + 1, start.1 - 1));
        }
        if start.0 + 1 < 8 {
            moves.push((start.0 + 1, start.1));
        }
        if start.0 + 1 < 8 && start.1 + 1 < 8 {
            moves.push((start.0 + 1, start.1 + 1));
        }
        if start.1 > 1 {
            moves.push((start.0, start.1 - 2));
        }
        if start.1 + 2 < 8 {
            moves.push((start.0, start.1 + 2));
        }
        proof {
            assert(moves@ =~= cand_king(start.0 as int, start.1 as int));
        }
        moves
    }

    /// A bishop's candidate squares: four diagonal rays, each stopping at the
    /// first occupied square.
    fn generate_bishop_moves(&self, start: (usize, usize)) -> (v: Vec<(usize, usize)>)
        requires
            self@.dims(),
            in_bounds(start.0 as int, start.1 as int),
        ensures
            v@ == cand_bishop(self@.grid, start.0 as int, start.1 as int),
    {
        let mut moves = self.gen_ray(start, 0);
        let mut m1 = self.gen_ray(start, 1);
        let mut m2 = self.gen_ray(start, 2);
        let mut m3 = self.gen_ray(start, 3);
        moves.append(&mut m1);
        moves.append(&mut m2);
        moves.append(&mut m3);
        moves
    }

    /// A rook's candidate squares: four orthogonal rays, each stopping at the
    /// first occupied square.
    fn generate_rook_moves(&self, start: (usize, usize)) -> (v: Vec<(usize, usize)>)
        requires
            self@.dims(),
            in_bounds(start.0 as int, start.1 as int),
        ensures
            v@ == cand_rook(self@.grid, start.0 as int, start.1 as int),
    {
        let mut moves = self.gen_ray(start, 4);
        let mut m1 = self.gen_ray(start, 5);
        let mut m2 = self.gen_ray(start, 6);
        let mut m3 = self.gen_ray(start, 7);
        moves.append(&mut m1);
        moves.append(&mut m2);
        moves.append(&mut m3);
        moves
    }

    /// A queen's candidate squares: all eight rays.
    fn generate_queen_moves(&self, start: (usize, usize)) -> (v: Vec<(usize, usize)>)
        requires
            self@.dims(),
            in_bounds(start.0 as int, start.1 as int),
        ensures
            v@ == cand_queen(self@.grid, start.0 as int, start.1 as int),
    {
        let mut moves = self.generate_bishop_moves(start);
        let mut m1 = self.generate_rook_moves(start);
        moves.append(&mut m1);
        moves
    }

    /// All legal destinations of the piece on `start`: its candidate squares
    /// filtered through the full validator. The start square must be occupied;
    /// the board is left as it was.
    pub fn get_legal_moves(&mut self, start: (usize, usize), game_state: &GameState) -> (v: Vec<
        (usize, usize),
    >)
        requires
            old(self)@.wf(),
            crate::move_validation::ep_coherent(old(self)@, *game_state),
            in_bounds(start.0 as int, start.1 as int),
            at(old(self)@.grid, start.0 as int, start.1 as int) is Some,
        ensures
            v@ == legal_dests(old(self)@, *game_state, start.0 as int, start.1 as int),
            final(self)@.grid == old(self)@.grid,
            crate::move_execution::restored(old(self)@, final(self)@),
    {
        let piece = self.piece_at(start.0, start.1).unwrap();
        let color = piece.color();
        let cands = match piece {
            Piece::Pawn(_) => self.generate_pawn_moves(start, color),
            Piece::Knight(_) => self.generate_knight_moves(start),
            Piece::Bishop(_) => self.generate_bishop_moves(start),
            Piece::Rook(_) => self.generate_rook_moves(start),
            Piece::Queen(_) => self.generate_queen_moves(start),
            Piece::King(_) => self.generate_king_moves(start),
        };
        let ghost v0 = old(self)@;
        let ghost sr = start.0 as int;
        let ghost sc = start.1 as int;
        let mut moves: Vec<(usize, usize)> = Vec::new();
        let mut i: usize = 0;
        while i < cands.len()
            invariant
                self@.wf(),
                crate::move_execution::restored(v0, self@),
                crate::move_validation::ep_coherent(v0, *game_state),
                v0.wf(),
                sr == start.0 as int,
                sc == start.1 as int,
                i <= cands@.len(),
                cands@ == candidates(v0.grid, at(v0.grid, sr, sc)->0, sr, sc),
                moves@ == legal_dests_upto(v0, *game_state, sr, sc, i as int),
            decreases cands@.len() - i,
        {
            let e = cands[i];
            let ghost vi = self@;
            let ok = self.is_valid_move(start, e, game_state).is_ok();
            proof {
                crate::move_validation::lemma_validate_congruence(
                    v0,
                    vi,
                    *game_state,
                    sr,
                    sc,
                    e.0 as int,
                    e.1 as int,
                );
                lemma_legal_dests_upto_step(v0, *game_state, sr, sc, i as int);
                assert(e == candidates(v0.grid, at(v0.grid, sr, sc)->0, sr, sc)[i as int]);
                assert(ok == (spec_validate(vi, *game_state, sr, sc, e.0 as int, e.1 as int)
                    is Ok));
                assert(ok == (spec_validate(v0, *game_state, sr, sc, e.0 as int, e.1 as int)
                    is Ok));
            }
            if ok {
                moves.push(e);
            }
            proof {
                assert(moves@ == legal_dests_upto(v0, *game_state, sr, sc, i as int + 1));
            }
            i = i + 1;
        }
        moves
    }

    /// Whether the side to move has any legal move at all: scan every square
    /// it owns, short-circuiting on the first piece with a non-empty legal
    /// destination list.
    pub fn has_legal_moves(&mut self, game_state: &GameState) -> (r: bool)
        requires
            old(self)@.wf(),
            crate::move_validation::ep_coherent(old(self)@, *game_state),
        ensures
            r == any_legal(old(self)@, *game_state),
            final(self)@.grid == old(self)@.grid,
            crate::move_execution::restored(old(self)@, final(self)@),
    {
        let ghost v0 = old(self)@;
        let color = game_state.turn;
        let mut i: usize = 0;
        while i < 8
            invariant
                self@.wf(),
                crate::move_execution::restored(v0, self@),
                crate::move_validation::ep_coherent(v0, *game_state),
                v0.wf(),
                v0 == old(self)@,
                color == game_state.turn,
                i <= 8,
                forall|r2: int, c2: int|
                    0 <= r2 < i && 0 <= c2 < 8 ==> !(#[trigger] at(v0.grid, r2, c2) is Some && at(
                        v0.grid,
                        r2,
                        c2,
                    )->0.color_spec() == game_state.turn && legal_dests(
                        v0,
                        *game_state,
                        r2,
                        c2,
                    ).len() > 0),
            decreases 8 - i,
        {
            let mut j: usize = 0;
            while j < 8
                invariant
                    self@.wf(),
                    crate::move_execution::restored(v0, self@),
                    crate::move_validation::ep_coherent(v0, *game_state),
                    v0.wf(),
                    v0 == old(self)@,
                    color == game_state.turn,
                    i < 8,
                    j <= 8,
                    forall|r2: int, c2: int|
                        0 <= r2 < i && 0 <= c2 < 8 ==> !(#[trigger] at(v0.grid, r2, c2) is Some
                            && at(v0.grid, r2, c2)->0.color_spec() == game_state.turn
                            && legal_dests(v0, *game_state, r2, c2).len() > 0),
                    forall|c2: int|
                        0 <= c2 < j ==> !(#[trigger] at(v0.grid, i as int, c2) is Some && at(
                            v0.grid,
                            i as int,
                            c2,
                        )->0.color_spec() == game_state.turn && legal_dests(
                            v0,
                            *game_state,
                            i as int,
                            c2,
                        ).len() > 0),
                decreases 8 - j,
            {
                let cell = self.piece_at(i, j);
                let owned = match cell {
                    Some(p) => p.color() == color,
                    None => false,
                };
                if owned {
                    let ghost vi = self@;
                    let moves = self.get_legal_moves((i, j), game_state);
                    proof {
                        lemma_legal_dests_congruence(v0, vi, *game_state, i as int, j as int);
                        assert(crate::move_execution::restored(v0, self@));
                    }
                    if moves.len() > 0 {
                        proof {
                            assert(at(v0.grid, i as int, j as int) is Some);
                            assert(legal_dests(v0, *game_state, i as int, j as int).len() > 0);
                            assert(any_legal(v0, *game_state));
                        }
                        return true;
                    }
                }
                j = j + 1;
            }
            i = i + 1;
        }
        proof {
            if any_legal(v0, *game_state) {
                let (r2, c2): (int, int) = choose|r2: int, c2: int|
                    in_bounds(r2, c2) && #[trigger] at(v0.grid, r2, c2) is Some && at(
                        v0.grid,
                        r2,
                        c2,
                    )->0.color_spec() == game_state.turn && legal_dests(
                        v0,
                        *game_state,
                        r2,
                        c2,
                    ).len() > 0;
                assert(!(at(v0.grid, r2, c2) is Some && at(v0.grid, r2, c2)->0.color_spec()
                    == game_state.turn && legal_dests(v0, *game_state, r2, c2).len() > 0));
            }
        }
        false
    }
}

} // verus!
