use chess_core::{Board, Color, DrawReason, EndgameStatus, GameState, Piece, WinReason};

#[test]
fn test_is_king_in_check() {
    let mut board = Board::empty();
    board.set_square(3, 3, Some(Piece::King(Color::White))); // White king at d4
    board.set_square(5, 3, Some(Piece::Queen(Color::White))); // White queen at d6
    board.index_replace(Piece::King(Color::White), vec![(3, 3)]);
    board.index_replace(Piece::Queen(Color::White), vec![(5, 3)]);

    assert!(
        !board.is_king_in_check(Color::White).unwrap_or(true),
        "White king is not in check by white queen"
    );

    board.set_square(5, 3, Some(Piece::Queen(Color::Black))); // Black queen at d6
    board.index_remove(Piece::Queen(Color::White), (5, 3));
    board.index_replace(Piece::Queen(Color::Black), vec![(5, 3)]);

    assert!(
        board.is_king_in_check(Color::White).unwrap_or(false),
        "White king is in check by black queen"
    );

    board.set_square(5, 3, Some(Piece::Rook(Color::Black))); // Black rook at d6
    board.index_remove(Piece::Queen(Color::Black), (5, 3));
    board.index_replace(Piece::Rook(Color::Black), vec![(5, 3)]);

    assert!(
        board.is_king_in_check(Color::White).unwrap_or(false),
        "White king is in check by black rook"
    );

    board.set_square(4, 3, Some(Piece::Pawn(Color::Black))); // Black pawn at d5
    board.index_replace(Piece::Pawn(Color::White), vec![(5, 4)]);

    assert!(
        !board.is_king_in_check(Color::White).unwrap_or(true),
        "Check by rook is blocked by pawn"
    );

    board.set_square(4, 4, Some(Piece::Pawn(Color::Black))); // Black pawn at e5
    board.index_replace(Piece::Pawn(Color::Black), vec![(4, 4)]);

    assert!(
        board.is_king_in_check(Color::White).unwrap_or(false),
        "White king is in check by black pawn"
    );

    board.set_square(4, 4, Some(Piece::Pawn(Color::White))); // White pawn at e5
    board.index_replace(Piece::Pawn(Color::White), vec![(4, 4)]);
    board.index_remove(Piece::Pawn(Color::Black), (4, 4));

    assert!(
        !board.is_king_in_check(Color::White).unwrap_or(true),
        "Check by black rook is blocked by black pawn, white pawn doesn't check"
    );

    board.set_square(5, 5, Some(Piece::King(Color::Black))); // Black king at f6
    board.index_replace(Piece::King(Color::Black), vec![(5, 5)]);

    assert!(
        board.is_king_in_check(Color::Black).unwrap_or(false),
        "Black king is in check by white pawn"
    );

    board.clear_grid();
    board.set_square(3, 3, Some(Piece::King(Color::White))); // White king at d4
    board.set_square(6, 6, Some(Piece::Bishop(Color::Black))); // Black bishop at g7
    board.index_clear_all();
    board.index_replace(Piece::King(Color::White), vec![(3, 3)]);
    board.index_replace(Piece::Bishop(Color::Black), vec![(6, 6)]);

    assert!(
        board.is_king_in_check(Color::White).unwrap_or(false),
        "White king is in check by black bishop"
    );

    board.set_square(5, 5, Some(Piece::Bishop(Color::White))); // White bishop at f6
    board.index_replace(Piece::Bishop(Color::White), vec![(5, 5)]);

    assert!(
        !board.is_king_in_check(Color::White).unwrap_or(true),
        "Check by black bishop is blocked by white bishop"
    );

    board.set_square(5, 4, Some(Piece::Knight(Color::Black))); // Black knight at f6
    board.index_replace(Piece::Knight(Color::Black), vec![(5, 4)]);

    assert!(
        board.is_king_in_check(Color::White).unwrap_or(false),
        "White king is in check by black knight"
    );

    board.clear_grid();
    board.index_clear_all(); // Empty index

    assert!(
        board.is_king_in_check(Color::White).is_err(),
        "King not found"
    );

    board.set_square(3, 3, Some(Piece::King(Color::White))); // White king at d4
    board.set_square(4, 3, Some(Piece::King(Color::White))); // White king at d5
    board.index_replace(Piece::King(Color::White), vec![(3, 3), (4, 3)]);

    assert!(
        board.is_king_in_check(Color::White).is_err(),
        "Multiple kings found"
    );

    board.set_square(4, 3, Some(Piece::King(Color::Black))); // Black king at d5
    board.index_replace(Piece::King(Color::Black), vec![(4, 3)]);
    board.index_remove(Piece::King(Color::White), (4, 3));

    assert!(
        board.is_king_in_check(Color::White).unwrap_or(false),
        "White king is in check by black king"
    );
    assert!(
        board.is_king_in_check(Color::Black).unwrap_or(false),
        "Black king is in check by white king"
    );
}

#[test]
fn test_evaluate_endgame() {
    let game_state = GameState {
        turn: Color::Black,
        white_castle_king_side: false,
        white_castle_queen_side: false,
        black_castle_king_side: false,
        black_castle_queen_side: false,
        ..Default::default()
    };

    let mut board = Board::empty();
    board.set_square(7, 3, Some(Piece::King(Color::Black))); // Black king at d8
    board.set_square(6, 3, Some(Piece::Queen(Color::White))); // White queen at d7
    board.set_square(5, 3, Some(Piece::King(Color::White))); // White king at d6
    board.index_replace(Piece::King(Color::Black), vec![(7, 3)]);
    board.index_replace(Piece::Queen(Color::White), vec![(6, 3)]);
    board.index_replace(Piece::King(Color::White), vec![(5, 3)]);

    assert_eq!(
        board.evaluate_endgame(&game_state),
        EndgameStatus::Win(Color::White, WinReason::Checkmate),
        "White wins by checkmate with queen"
    );

    let mut board = Board::empty();
    board.set_square(7, 3, Some(Piece::King(Color::Black))); // Black king at d8
    board.set_square(6, 4, Some(Piece::Queen(Color::White))); // White queen at d7
    board.set_square(5, 3, Some(Piece::King(Color::White))); // White king at d6
    board.index_replace(Piece::King(Color::Black), vec![(7, 3)]);
    board.index_replace(Piece::Queen(Color::White), vec![(6, 4)]);
    board.index_replace(Piece::King(Color::White), vec![(5, 3)]);

    assert_eq!(
        board.evaluate_endgame(&game_state),
        EndgameStatus::Ongoing,
        "No checkmate"
    );

    let mut board = Board::empty();
    board.set_square(7, 4, Some(Piece::King(Color::Black))); // Black king on e8
    board.set_square(6, 4, Some(Piece::Queen(Color::White))); // White queen on e7
    board.set_square(5, 3, Some(Piece::Bishop(Color::White))); // White bishop on d6
    board.set_square(6, 3, Some(Piece::King(Color::White))); // White king on d7
    board.index_replace(Piece::King(Color::Black), vec![(7, 4)]);
    board.index_replace(Piece::Queen(Color::White), vec![(6, 4)]);
    board.index_replace(Piece::Bishop(Color::White), vec![(5, 3)]);
    board.index_replace(Piece::King(Color::White), vec![(6, 3)]);

    assert_eq!(
        board.evaluate_endgame(&game_state),
        EndgameStatus::Win(Color::White, WinReason::Checkmate),
        "White wins by checkmate with queen and bishop"
    );

    let mut board = Board::empty();
    board.set_square(7, 4, Some(Piece::King(Color::Black))); // Black king on e8
    board.set_square(7, 5, Some(Piece::Knight(Color::Black))); // Black knight on f8
    board.set_square(6, 4, Some(Piece::Queen(Color::White))); // White queen on e7
    board.set_square(6, 3, Some(Piece::King(Color::White))); // White king on d7
    board.index_replace(Piece::King(Color::Black), vec![(7, 4)]);
    board.index_replace(Piece::Knight(Color::Black), vec![(7, 5)]);
    board.index_replace(Piece::Queen(Color::White), vec![(6, 4)]);
    board.index_replace(Piece::King(Color::White), vec![(6, 3)]);

    assert_eq!(
        board.evaluate_endgame(&game_state),
        EndgameStatus::Win(Color::White, WinReason::Checkmate),
        "White wins by smothered checkmate"
    );

    let mut board = Board::empty();
    board.set_square(7, 1, Some(Piece::King(Color::Black))); // Black king on b8
    board.set_square(6, 0, Some(Piece::Pawn(Color::Black))); // Black pawn on a7
    board.set_square(6, 1, Some(Piece::Pawn(Color::Black))); // Black pawn on b7
    board.set_square(6, 2, Some(Piece::Pawn(Color::Black))); // Black pawn on c7
    board.set_square(7, 4, Some(Piece::Rook(Color::White))); // White rook on e8
    board.set_square(0, 4, Some(Piece::King(Color::White))); // White king on e1
    board.index_replace(Piece::King(Color::Black), vec![(7, 1)]);
    board.index_replace(Piece::Pawn(Color::Black), vec![(6, 0), (6, 1), (6, 2)]);
    board.index_replace(Piece::Rook(Color::White), vec![(7, 4)]);
    board.index_replace(Piece::King(Color::White), vec![(0, 4)]);

    assert_eq!(
        board.evaluate_endgame(&game_state),
        EndgameStatus::Win(Color::White, WinReason::Checkmate),
        "White wins by back rank checkmate"
    );

    let mut board = Board::empty();
    board.set_square(7, 0, Some(Piece::King(Color::Black))); // Black king on a8
    board.set_square(6, 0, Some(Piece::Pawn(Color::Black))); // Black pawn on a7
    board.set_square(5, 0, Some(Piece::Pawn(Color::White))); // White pawn on a6
    board.set_square(0, 4, Some(Piece::King(Color::White))); // White king on e1
    board.set_square(0, 1, Some(Piece::Rook(Color::White))); // White rook on b1
    board.index_replace(Piece::King(Color::Black), vec![(7, 0)]);
    board.index_replace(Piece::Pawn(Color::Black), vec![(6, 0)]);
    board.index_replace(Piece::Pawn(Color::White), vec![(5, 0)]);
    board.index_replace(Piece::King(Color::White), vec![(0, 4)]);
    board.index_replace(Piece::Rook(Color::White), vec![(0, 1)]);

    assert_eq!(
        board.evaluate_endgame(&game_state),
        EndgameStatus::Draw(DrawReason::Stalemate),
        "Stalemate—Black has no legal moves"
    );
}

#[test]
fn test_utils_test_birange() {
    assert_eq!(chess_core::BiRange::new(0, 0).collect_vec(), vec![]);
    assert_eq!(chess_core::BiRange::new(0, 1).collect_vec(), vec![]);
    assert_eq!(chess_core::BiRange::new(1, 0).collect_vec(), vec![]);
    assert_eq!(chess_core::BiRange::new(0, 2).collect_vec(), vec![1]);
    assert_eq!(chess_core::BiRange::new(2, 0).collect_vec(), vec![1]);
    assert_eq!(chess_core::BiRange::new(3, 8).collect_vec(), vec![4, 5, 6, 7]);
    assert_eq!(chess_core::BiRange::new(0, 8).collect_vec(), vec![1, 2, 3, 4, 5, 6, 7]);
    assert_eq!(chess_core::BiRange::new(8, 0).collect_vec(), vec![7, 6, 5, 4, 3, 2, 1]);
    assert_eq!(chess_core::BiRange::new(8, 3).collect_vec(), vec![7, 6, 5, 4]);
}
