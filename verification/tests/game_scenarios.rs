use chess_core::{
    Board, Color, DrawReason, EndgameStatus, Game, GameState, MoveError, Piece, PromotionPiece,
};

fn fresh_state(turn: Color) -> GameState {
    GameState {
        turn,
        white_castle_king_side: true,
        black_castle_king_side: true,
        white_castle_queen_side: true,
        black_castle_queen_side: true,
        en_passant: None,
        promotion_pending: None,
        endgame_status: EndgameStatus::Ongoing,
        how_many_moves: 0,
    }
}

/// One reversible knight dance: both sides hop a knight out and back,
/// returning to the position the cycle started from.
fn knight_cycle(game: &mut Game) {
    assert_eq!(game.play_move((0, 1), (2, 2)), Ok(()));
    assert_eq!(game.play_move((7, 1), (5, 2)), Ok(()));
    assert_eq!(game.play_move((2, 2), (0, 1)), Ok(()));
    assert_eq!(game.play_move((5, 2), (7, 1)), Ok(()));
}

#[test]
fn opening_double_step_sets_window_and_flips_turn() {
    let mut game = Game::new();
    assert_eq!(game.play_move((1, 4), (3, 4)), Ok(()));
    // the double step opens the en-passant window on the vacated file for
    // the mover's color, and the turn passes to Black
    assert_eq!(game.en_passant(), Some((4, Color::White)));
    assert_eq!(game.turn(), Color::Black);
    assert_eq!(game.piece_at(3, 4), Some(Piece::Pawn(Color::White)));
    assert_eq!(game.piece_at(1, 4), None);
    // a white piece cannot move now
    assert_eq!(game.play_move((1, 0), (2, 0)), Err(MoveError::WrongSideToMove));
    // an ordinary reply closes the window again
    assert_eq!(game.play_move((6, 0), (5, 0)), Ok(()));
    assert_eq!(game.en_passant(), None);
}

#[test]
fn en_passant_capture_removes_bypassed_pawn() {
    let mut game = Game::new();
    assert_eq!(game.play_move((1, 4), (3, 4)), Ok(())); // white e-pawn double
    assert_eq!(game.play_move((6, 0), (4, 0)), Ok(())); // black a-pawn double
    assert_eq!(game.play_move((3, 4), (4, 4)), Ok(())); // white pawn to e5
    assert_eq!(game.play_move((6, 3), (4, 3)), Ok(())); // black d-pawn double
    assert_eq!(game.en_passant(), Some((3, Color::Black)));
    assert_eq!(game.play_move((4, 4), (5, 3)), Ok(())); // exd6 en passant
    assert_eq!(game.piece_at(5, 3), Some(Piece::Pawn(Color::White)));
    assert_eq!(game.piece_at(4, 3), None, "the bypassed pawn is gone");
}

#[test]
fn fifty_move_rule_fires_at_one_hundred_not_ninety_nine() {
    // ninety-nine reversible plies: the fifty-move rule has not fired yet
    let mut game = Game::new();
    for _ in 0..24 {
        knight_cycle(&mut game);
    }
    assert_eq!(game.play_move((0, 1), (2, 2)), Ok(()));
    assert_eq!(game.play_move((7, 1), (5, 2)), Ok(()));
    assert_eq!(game.play_move((2, 2), (0, 1)), Ok(()));
    assert_ne!(
        game.evaluate_endgame(),
        EndgameStatus::Draw(DrawReason::FiftyMoveRule),
        "ninety-nine plies are not enough"
    );

    // exactly one hundred reversible plies: the rule fires, ahead of the
    // repetition rule
    let mut game = Game::new();
    for _ in 0..25 {
        knight_cycle(&mut game);
    }
    assert_eq!(
        game.evaluate_endgame(),
        EndgameStatus::Draw(DrawReason::FiftyMoveRule)
    );
}

#[test]
fn threefold_repetition_counts_and_resets() {
    // two knight cycles bring the opening position up for the third time
    let mut game = Game::new();
    knight_cycle(&mut game);
    assert_eq!(game.evaluate_endgame(), EndgameStatus::Ongoing);
    knight_cycle(&mut game);
    assert_eq!(
        game.evaluate_endgame(),
        EndgameStatus::Draw(DrawReason::ThreefoldRepetition)
    );
    // once the draw is recorded, every further move is rejected
    assert_eq!(game.play_move((0, 1), (2, 2)), Err(MoveError::GameAlreadyOver));

    // a pawn move resets the tracker: counts do not carry over
    let mut game = Game::new();
    knight_cycle(&mut game); // opening position at count two
    assert_eq!(game.play_move((1, 0), (2, 0)), Ok(())); // irreversible: reset
    assert_eq!(game.play_move((6, 0), (5, 0)), Ok(())); // irreversible: reset
    knight_cycle(&mut game); // new base position at count two
    assert_eq!(
        game.evaluate_endgame(),
        EndgameStatus::Ongoing,
        "the old counts were discarded"
    );
    knight_cycle(&mut game); // new base position at count three
    assert_eq!(
        game.evaluate_endgame(),
        EndgameStatus::Draw(DrawReason::ThreefoldRepetition)
    );
}


#[test]
fn double_step_reseeds_the_tracker() {
    // the double step is irreversible: the tracker restarts at the position
    // it creates, with count one, so two knight cycles already repeat it a
    // third time
    let mut game = Game::new();
    assert_eq!(game.play_move((1, 4), (3, 4)), Ok(())); // e2-e4, count one
    assert_eq!(game.play_move((7, 1), (5, 2)), Ok(()));
    assert_eq!(game.play_move((0, 1), (2, 2)), Ok(()));
    assert_eq!(game.play_move((5, 2), (7, 1)), Ok(()));
    assert_eq!(game.play_move((2, 2), (0, 1)), Ok(())); // count two
    assert_eq!(game.evaluate_endgame(), EndgameStatus::Ongoing);
    assert_eq!(game.play_move((7, 1), (5, 2)), Ok(()));
    assert_eq!(game.play_move((0, 1), (2, 2)), Ok(()));
    assert_eq!(game.play_move((5, 2), (7, 1)), Ok(()));
    assert_eq!(game.play_move((2, 2), (0, 1)), Ok(())); // count three
    assert_eq!(
        game.evaluate_endgame(),
        EndgameStatus::Draw(DrawReason::ThreefoldRepetition)
    );
}

#[test]
fn castling_appears_among_legal_moves() {
    // board level: a king with its king-side rook in place lists the castle
    // destination; the queen-side one is filtered out for want of a rook
    let mut b = Board::empty();
    b.set_square(0, 4, Some(Piece::King(Color::White)));
    b.set_square(0, 7, Some(Piece::Rook(Color::White)));
    b.set_square(7, 4, Some(Piece::King(Color::Black)));
    b.index_replace(Piece::King(Color::White), vec![(0, 4)]);
    b.index_replace(Piece::Rook(Color::White), vec![(0, 7)]);
    b.index_replace(Piece::King(Color::Black), vec![(7, 4)]);
    let state = fresh_state(Color::White);
    assert_eq!(
        b.get_legal_moves((0, 4), &state),
        vec![(0, 3), (0, 5), (1, 3), (1, 4), (1, 5), (0, 6)]
    );

    // game level: once the squares between king and rook are empty, the
    // generator offers the castle and playing it relocates both pieces
    let mut game = Game::new();
    assert_eq!(game.play_move((1, 4), (3, 4)), Ok(())); // e4
    assert_eq!(game.play_move((6, 4), (4, 4)), Ok(())); // e5
    assert_eq!(game.play_move((0, 6), (2, 5)), Ok(())); // Nf3
    assert_eq!(game.play_move((7, 1), (5, 2)), Ok(())); // Nc6
    assert_eq!(game.play_move((0, 5), (3, 2)), Ok(())); // Bc4
    assert_eq!(game.play_move((6, 0), (5, 0)), Ok(())); // a6
    assert_eq!(game.get_legal_moves((0, 4)), vec![(0, 5), (1, 4), (0, 6)]);
    assert_eq!(game.play_move((0, 4), (0, 6)), Ok(())); // white castles
    assert_eq!(game.piece_at(0, 6), Some(Piece::King(Color::White)));
    assert_eq!(game.piece_at(0, 5), Some(Piece::Rook(Color::White)));
    assert_eq!(game.piece_at(0, 7), None);
}

#[test]
fn promotion_is_a_two_step_commit() {
    let mut game = Game::new();
    assert_eq!(game.play_move((1, 0), (3, 0)), Ok(())); // a2-a4
    assert_eq!(game.play_move((6, 1), (4, 1)), Ok(())); // b7-b5
    assert_eq!(game.play_move((3, 0), (4, 1)), Ok(())); // axb5
    assert_eq!(game.play_move((6, 0), (5, 0)), Ok(())); // a7-a6
    assert_eq!(game.play_move((4, 1), (5, 0)), Ok(())); // bxa6
    assert_eq!(game.play_move((6, 7), (5, 7)), Ok(())); // h7-h6
    assert_eq!(game.play_move((5, 0), (6, 0)), Ok(())); // a6-a7
    assert_eq!(game.play_move((5, 7), (4, 7)), Ok(())); // h6-h5
    assert_eq!(game.play_move((6, 0), (7, 1)), Ok(())); // axb8: promotion
    // the pending sub-state blocks every move and keeps the turn
    assert_eq!(game.is_promotion_pending(), Some((1, Color::White)));
    assert_eq!(game.turn(), Color::White);
    assert_eq!(game.play_move((1, 4), (3, 4)), Err(MoveError::PromotionPending));
    // resolving materializes the piece, clears the marker and flips the turn
    assert_eq!(game.promote_pawn(PromotionPiece::Queen), Ok(()));
    assert_eq!(game.is_promotion_pending(), None);
    assert_eq!(game.turn(), Color::Black);
    assert_eq!(game.piece_at(7, 1), Some(Piece::Queen(Color::White)));
}

#[test]
fn promotion_errors() {
    let mut game = Game::new();
    assert_eq!(
        game.promote_pawn(PromotionPiece::Queen),
        Err(MoveError::NoPromotionPending)
    );
}

#[test]
fn rejection_error_categories() {
    let mut game = Game::new();
    assert_eq!(game.play_move((0, 0), (9, 9)), Err(MoveError::OutOfBounds));
    assert_eq!(game.play_move((9, 0), (0, 0)), Err(MoveError::OutOfBounds));
    assert_eq!(game.play_move((3, 3), (4, 4)), Err(MoveError::EmptySource));
    assert_eq!(game.play_move((6, 0), (5, 0)), Err(MoveError::WrongSideToMove));
    assert_eq!(game.play_move((0, 0), (1, 0)), Err(MoveError::OccupiedByOwnColor));
    assert_eq!(game.play_move((0, 1), (3, 3)), Err(MoveError::ShapeIllegal));
    // a rejected move leaves the board unchanged
    assert_eq!(game.piece_at(0, 1), Some(Piece::Knight(Color::White)));
    // a move that would expose the mover's own king is rejected
    assert_eq!(game.play_move((1, 4), (3, 4)), Ok(())); // e4
    assert_eq!(game.play_move((6, 4), (4, 4)), Ok(())); // e5
    assert_eq!(game.play_move((0, 3), (4, 7)), Ok(())); // Qh5
    assert_eq!(
        game.play_move((6, 5), (5, 5)),
        Err(MoveError::LeavesKingInCheck),
        "f6 would open the diagonal to the black king"
    );
}

#[test]
fn castle_fails_when_exactly_one_condition_is_violated() {
    let base = || {
        let mut b = Board::empty();
        b.set_square(0, 4, Some(Piece::King(Color::White)));
        b.set_square(0, 7, Some(Piece::Rook(Color::White)));
        b.set_square(7, 4, Some(Piece::King(Color::Black)));
        b.index_replace(Piece::King(Color::White), vec![(0, 4)]);
        b.index_replace(Piece::Rook(Color::White), vec![(0, 7)]);
        b.index_replace(Piece::King(Color::Black), vec![(7, 4)]);
        b
    };
    let state = fresh_state(Color::White);

    // all conditions hold: the castle is legal
    let mut b = base();
    assert!(b.is_valid_king_move((0, 4), (0, 6), &state));

    // the right was forfeited, everything else holds
    let mut b = base();
    let mut revoked = state;
    revoked.white_castle_king_side = false;
    assert!(!b.is_valid_king_move((0, 4), (0, 6), &revoked));

    // a piece blocks the passage, everything else holds
    let mut b = base();
    b.set_square(0, 5, Some(Piece::Knight(Color::White)));
    b.index_replace(Piece::Knight(Color::White), vec![(0, 5)]);
    assert!(!b.is_valid_king_move((0, 4), (0, 6), &state));

    // the king is currently in check, everything else holds
    let mut b = base();
    b.set_square(4, 4, Some(Piece::Rook(Color::Black)));
    b.index_replace(Piece::Rook(Color::Black), vec![(4, 4)]);
    assert!(!b.is_valid_king_move((0, 4), (0, 6), &state));

    // the square the king passes over is attacked, everything else holds
    let mut b = base();
    b.set_square(4, 5, Some(Piece::Rook(Color::Black)));
    b.index_replace(Piece::Rook(Color::Black), vec![(4, 5)]);
    assert!(!b.is_valid_king_move((0, 4), (0, 6), &state));
}

#[test]
fn insufficient_material_classification() {
    let kings = || {
        let mut b = Board::empty();
        b.set_square(0, 4, Some(Piece::King(Color::White)));
        b.set_square(7, 4, Some(Piece::King(Color::Black)));
        b.index_replace(Piece::King(Color::White), vec![(0, 4)]);
        b.index_replace(Piece::King(Color::Black), vec![(7, 4)]);
        b
    };
    // bare kings
    assert!(kings().is_insufficient_material());
    // king and knight against king
    let mut b = kings();
    b.set_square(3, 3, Some(Piece::Knight(Color::White)));
    b.index_replace(Piece::Knight(Color::White), vec![(3, 3)]);
    assert!(b.is_insufficient_material());
    // king and bishop against king
    let mut b = kings();
    b.set_square(3, 3, Some(Piece::Bishop(Color::White)));
    b.index_replace(Piece::Bishop(Color::White), vec![(3, 3)]);
    assert!(b.is_insufficient_material());
    // king and bishop against king and knight
    let mut b = kings();
    b.set_square(3, 3, Some(Piece::Bishop(Color::White)));
    b.set_square(4, 4, Some(Piece::Knight(Color::Black)));
    b.index_replace(Piece::Bishop(Color::White), vec![(3, 3)]);
    b.index_replace(Piece::Knight(Color::Black), vec![(4, 4)]);
    assert!(b.is_insufficient_material());
    // knight against knight is a draw under the simplified rule
    let mut b = kings();
    b.set_square(3, 3, Some(Piece::Knight(Color::White)));
    b.set_square(4, 4, Some(Piece::Knight(Color::Black)));
    b.index_replace(Piece::Knight(Color::White), vec![(3, 3)]);
    b.index_replace(Piece::Knight(Color::Black), vec![(4, 4)]);
    assert!(b.is_insufficient_material());
    // two minors on one side are enough material
    let mut b = kings();
    b.set_square(3, 3, Some(Piece::Knight(Color::White)));
    b.set_square(3, 4, Some(Piece::Bishop(Color::White)));
    b.index_replace(Piece::Knight(Color::White), vec![(3, 3)]);
    b.index_replace(Piece::Bishop(Color::White), vec![(3, 4)]);
    assert!(!b.is_insufficient_material());
    // a pawn, rook or queen anywhere is never insufficient
    let mut b = kings();
    b.set_square(3, 3, Some(Piece::Pawn(Color::White)));
    b.index_replace(Piece::Pawn(Color::White), vec![(3, 3)]);
    assert!(!b.is_insufficient_material());
    let mut b = kings();
    b.set_square(3, 3, Some(Piece::Rook(Color::Black)));
    b.index_replace(Piece::Rook(Color::Black), vec![(3, 3)]);
    assert!(!b.is_insufficient_material());
    let mut b = kings();
    b.set_square(3, 3, Some(Piece::Queen(Color::White)));
    b.index_replace(Piece::Queen(Color::White), vec![(3, 3)]);
    assert!(!b.is_insufficient_material());
}

#[test]
fn speculative_test_restores_the_board() {
    // the validator applies and reverts every candidate move; the grid is
    // identical afterwards, capture and en passant included
    let mut game = Game::new();
    let before: Vec<Option<Piece>> = (0..8)
        .flat_map(|r| (0..8).map(move |c| (r, c)))
        .map(|(r, c)| game.piece_at(r, c))
        .collect();
    // a legal-move query runs many speculative apply-revert rounds
    let moves = game.get_legal_moves((0, 1));
    assert_eq!(moves, vec![(2, 0), (2, 2)]);
    let after: Vec<Option<Piece>> = (0..8)
        .flat_map(|r| (0..8).map(move |c| (r, c)))
        .map(|(r, c)| game.piece_at(r, c))
        .collect();
    assert_eq!(before, after);
}

#[test]
fn opening_position_is_standard() {
    let game = Game::new();
    assert_eq!(game.piece_at(0, 0), Some(Piece::Rook(Color::White)));
    assert_eq!(game.piece_at(0, 4), Some(Piece::King(Color::White)));
    assert_eq!(game.piece_at(1, 3), Some(Piece::Pawn(Color::White)));
    assert_eq!(game.piece_at(4, 4), None);
    assert_eq!(game.piece_at(6, 7), Some(Piece::Pawn(Color::Black)));
    assert_eq!(game.piece_at(7, 3), Some(Piece::Queen(Color::Black)));
    assert_eq!(game.turn(), Color::White);
    assert_eq!(game.endgame_status(), EndgameStatus::Ongoing);
}


fn snapshot(b: &Board) -> Vec<Option<Piece>> {
    (0..8usize)
        .flat_map(|r| (0..8usize).map(move |c| (r, c)))
        .map(|(r, c)| b.piece_at(r, c))
        .collect()
}

#[test]
fn execute_and_undo_invert_exactly() {
    // a plain move walks back to the identical position
    let mut b = Board::new();
    let before = snapshot(&b);
    let (taken, promo) = b.execute_move((1, 4), (3, 4));
    assert_eq!(taken, None);
    assert!(!promo);
    assert_eq!(b.piece_at(3, 4), Some(Piece::Pawn(Color::White)));
    b.undo_move((1, 4), (3, 4), taken, promo);
    assert_eq!(snapshot(&b), before);

    // a capture records the victim and its square, and puts it back
    let mut b = Board::new();
    b.set_square(2, 3, Some(Piece::Knight(Color::Black)));
    b.index_insert(Piece::Knight(Color::Black), (2, 3));
    let before = snapshot(&b);
    let (taken, promo) = b.execute_move((1, 4), (2, 3));
    assert_eq!(taken, Some((Piece::Knight(Color::Black), (2, 3))));
    assert!(!promo);
    b.undo_move((1, 4), (2, 3), taken, promo);
    assert_eq!(snapshot(&b), before);

    // an en-passant capture clears the bypassed square and restores it
    let mut b = Board::new();
    b.move_piece((1, 4), (4, 4)); // white pawn to e5
    b.move_piece((6, 3), (4, 3)); // black pawn to d5
    let before = snapshot(&b);
    let (taken, promo) = b.execute_move((4, 4), (5, 3));
    assert_eq!(taken, Some((Piece::Pawn(Color::Black), (4, 3))));
    assert!(!promo);
    assert_eq!(b.piece_at(4, 3), None);
    b.undo_move((4, 4), (5, 3), taken, promo);
    assert_eq!(snapshot(&b), before);

    // a castle relocates the rook and walks both pieces back
    let mut b = Board::new();
    b.move_piece((0, 6), (2, 5)); // knight out
    b.move_piece((0, 5), (2, 3)); // bishop out
    let before = snapshot(&b);
    let (taken, promo) = b.execute_move((0, 4), (0, 6));
    assert_eq!(taken, None);
    assert!(!promo);
    assert_eq!(b.piece_at(0, 6), Some(Piece::King(Color::White)));
    assert_eq!(b.piece_at(0, 5), Some(Piece::Rook(Color::White)));
    assert_eq!(b.piece_at(0, 7), None);
    b.undo_move((0, 4), (0, 6), taken, promo);
    assert_eq!(snapshot(&b), before);
}

#[test]
fn make_move_commits_against_external_state() {
    let mut b = Board::new();
    let mut st = GameState::default();
    assert_eq!(b.check_move((1, 4), (3, 4), &st), Ok(()));
    assert_eq!(b.make_move((1, 4), (3, 4), &mut st), Ok(()));
    assert_eq!(st.turn, Color::Black);
    assert_eq!(st.en_passant, Some((4, Color::White)));
    assert_eq!(b.piece_at(3, 4), Some(Piece::Pawn(Color::White)));
    // a rejected move changes neither board nor state
    let before = snapshot(&b);
    let kept = st;
    assert_eq!(b.make_move((1, 0), (2, 0), &mut st), Err(MoveError::WrongSideToMove));
    assert_eq!(snapshot(&b), before);
    assert_eq!(st.turn, kept.turn);
    assert_eq!(st.en_passant, kept.en_passant);
    assert_eq!(st.white_castle_king_side, kept.white_castle_king_side);
    assert_eq!(st.white_castle_queen_side, kept.white_castle_queen_side);
    assert_eq!(st.black_castle_king_side, kept.black_castle_king_side);
    assert_eq!(st.black_castle_queen_side, kept.black_castle_queen_side);
    // moving a rook off its corner forfeits that wing's right
    assert_eq!(b.make_move((6, 0), (4, 0), &mut st), Ok(())); // black a-pawn double
    assert_eq!(b.make_move((0, 6), (2, 5), &mut st), Ok(())); // white knight out
    assert!(st.black_castle_queen_side);
    assert_eq!(b.make_move((7, 0), (5, 0), &mut st), Ok(())); // black rook leaves a8
    assert!(!st.black_castle_queen_side);
    assert!(st.black_castle_king_side);
}

#[test]
fn signed_positions_are_screened() {
    assert_eq!(chess_core::is_valid_position((3, 4)), Some((3, 4)));
    assert_eq!(chess_core::is_valid_position((0, 7)), Some((0, 7)));
    assert_eq!(chess_core::is_valid_position((-1, 4)), None);
    assert_eq!(chess_core::is_valid_position((8, 0)), None);
    assert_eq!(chess_core::is_valid_position((2, -3)), None);
    assert_eq!(chess_core::is_valid_position((5, 8)), None);
}

#[test]
fn parse_move_formats() {
    assert_eq!(chess_core::parse_move("e2 e4"), Ok(((1, 4), (3, 4))));
    assert_eq!(chess_core::parse_move("a1 h8"), Ok(((0, 0), (7, 7))));
    assert_eq!(chess_core::parse_move("  b2 b4  "), Ok(((1, 1), (3, 1))));
    assert!(chess_core::parse_move("").is_err());
    assert!(chess_core::parse_move("e2").is_err());
    assert!(chess_core::parse_move("e2  e4").is_err());
    assert!(chess_core::parse_move("e2 e4 e5").is_err());
    assert!(chess_core::parse_move("a0 a1").is_err());
    assert!(chess_core::parse_move("Z2 e4").is_err());
}
