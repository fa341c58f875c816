use chess_core::{Board, Color, Piece};

#[test]
fn test_checkmate_test_verify_check() {
    let mut board = Board::empty();
    board.set_square(3, 3, Some(Piece::King(Color::White))); // White king at d4
    board.set_square(5, 3, Some(Piece::Queen(Color::White))); // White queen at d6
    board.index_replace(Piece::King(Color::White), vec![(3, 3)]);
    board.index_replace(Piece::Queen(Color::White), vec![(5, 3)]);

    assert!(
        !board.verify_check(Color::White).unwrap_or(true),
        "White king is not in check by white queen"
    );

    board.set_square(5, 3, Some(Piece::Queen(Color::Black))); // Black queen at d6
    board.index_remove(Piece::Queen(Color::White), (5, 3));
    board.index_replace(Piece::Queen(Color::Black), vec![(5, 3)]);

    assert!(
        board.verify_check(Color::White).unwrap_or(false),
        "White king is in check by black queen"
    );

    board.set_square(5, 3, Some(Piece::Rook(Color::Black))); // Black rook at d6
    board.index_remove(Piece::Queen(Color::Black), (5, 3));
    board.index_replace(Piece::Rook(Color::Black), vec![(5, 3)]);

    assert!(
        board.verify_check(Color::White).unwrap_or(false),
        "White king is in check by black rook"
    );

    board.set_square(4, 3, Some(Piece::Pawn(Color::Black))); // Black pawn at d5
    board.index_replace(Piece::Pawn(Color::White), vec![(5, 4)]);

    assert!(
        !board.verify_check(Color::White).unwrap_or(true),
        "Check by rook is blocked by pawn"
    );

    board.set_square(4, 4, Some(Piece::Pawn(Color::Black))); // Black pawn at e5
    board.index_replace(Piece::Pawn(Color::Black), vec![(4, 4)]);

    assert!(
        board.verify_check(Color::White).unwrap_or(false),
        "White king is in check by black pawn"
    );

    board.set_square(4, 4, Some(Piece::Pawn(Color::White))); // White pawn at e5
    board.index_replace(Piece::Pawn(Color::White), vec![(4, 4)]);
    board.index_remove(Piece::Pawn(Color::Black), (4, 4));

    assert!(
        !board.verify_check(Color::White).unwrap_or(true),
        "Check by black rook is blocked by black pawn, white pawn doesn't check"
    );

    board.set_square(5, 5, Some(Piece::King(Color::Black))); // Black king at f6
    board.index_replace(Piece::King(Color::Black), vec![(5, 5)]);

    assert!(
        board.verify_check(Color::Black).unwrap_or(false),
        "Black king is in check by white pawn"
    );

    board.clear_grid();
    board.set_square(3, 3, Some(Piece::King(Color::White))); // White king at d4
    board.set_square(6, 6, Some(Piece::Bishop(Color::Black))); // Black bishop at g7
    board.index_clear_all();
    board.index_replace(Piece::King(Color::White), vec![(3, 3)]);
    board.index_replace(Piece::Bishop(Color::Black), vec![(6, 6)]);

    assert!(
        board.verify_check(Color::White).unwrap_or(false),
        "White king is in check by black bishop"
    );

    board.set_square(5, 5, Some(Piece::Bishop(Color::White))); // White bishop at f6
    board.index_replace(Piece::Bishop(Color::White), vec![(5, 5)]);

    assert!(
        !board.verify_check(Color::White).unwrap_or(true),
        "Check by black bishop is blocked by white bishop"
    );

    board.set_square(5, 4, Some(Piece::Knight(Color::Black))); // Black knight at f6
    board.index_replace(Piece::Knight(Color::Black), vec![(5, 4)]);

    assert!(
        board.verify_check(Color::White).unwrap_or(false),
        "White king is in check by black knight"
    );

    board.clear_grid();
    board.index_clear_all(); // Empty index

    assert!(
        board.verify_check(Color::White).is_err(),
        "King not found"
    );

    board.set_square(3, 3, Some(Piece::King(Color::White))); // White king at d4
    board.set_square(4, 3, Some(Piece::King(Color::White))); // White king at d5
    board.index_replace(Piece::King(Color::White), vec![(3, 3), (4, 3)]);

    assert!(
        board.verify_check(Color::White).is_err(),
        "Multiple kings found"
    );

    board.set_square(4, 3, Some(Piece::King(Color::Black))); // Black king at d5
    board.index_replace(Piece::King(Color::Black), vec![(4, 3)]);
    board.index_remove(Piece::King(Color::White), (4, 3));

    assert!(
        board.verify_check(Color::White).unwrap_or(false),
        "White king is in check by black king"
    );
    assert!(
        board.verify_check(Color::Black).unwrap_or(false),
        "Black king is in check by white king"
    );
}

