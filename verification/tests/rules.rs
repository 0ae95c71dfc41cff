use chess_rules::board::{Board, Position};
use chess_rules::piece::{Move, Piece, PieceColor, PieceType};

#[test]
fn test_is_pseudo_legal() {
    // Black knight on c5, white rook on b5
    let board = Board::from_fen("8/8/8/1Rn5/8/8/8/8 w - - 0 1").unwrap();
    let black_knight_position = Position::new(2, 4);
    let white_rook_position = Position::new(1, 4);

    assert!(board.move_pseudo_legal(Move::new(white_rook_position, Position::new(1, 0))));
    assert!(board.move_pseudo_legal(Move::new(black_knight_position, Position::new(1, 2))));

    assert!(!board.move_pseudo_legal(Move::new(white_rook_position, Position::new(7, 4))));
    assert!(!board.move_pseudo_legal(Move::new(white_rook_position, Position::new(1, 8))));
    assert!(!board.move_pseudo_legal(Move::new(white_rook_position, Position::new(7, 7))));
    assert!(!board.move_pseudo_legal(Move::new(black_knight_position, Position::new(4, 4))));
}

#[test]
fn test_is_in_check() {
    // White king on e1, black rook on e8 attacking it
    let board = Board::from_fen("4r3/8/8/8/8/8/8/4K3 w - - 0 1").unwrap();

    // White king should be in check from black rook
    assert!(board.is_in_check(PieceColor::White));

    // Black should not be in check (no black king on board)
    assert!(!board.is_in_check(PieceColor::Black));

    // White king on e1, black rook on e8, but white rook on e4 blocks the check
    let board2 = Board::from_fen("4r3/8/8/8/4R3/8/8/4K3 w - - 0 1").unwrap();
    assert!(!board2.is_in_check(PieceColor::White));
}

#[test]
fn test_pinned_piece() {
    // White king on e1, white rook on e4, black rook on e8, white rook pinned
    let board = Board::from_fen("4r3/8/8/8/4R3/8/8/4K3 w - - 0 1").unwrap();

    // Rook cannot move horizontally (pinned)
    let horizontal_move = Move::new(Position::new(4, 3), Position::new(7, 3));
    assert!(board.move_pseudo_legal(horizontal_move));
    assert!(!board.move_legal(horizontal_move));

    // Rook can move along the pin
    let vertical_move = Move::new(Position::new(4, 3), Position::new(4, 5));
    assert!(board.move_pseudo_legal(vertical_move));
    assert!(board.move_legal(vertical_move));
}

#[test]
fn test_castling() {
    // White king and rook in starting positions, but black knight attacks king's path
    let board = Board::from_fen("r3k2r/8/8/8/8/4n3/8/R3K2R w KQkq - 0 1").unwrap();
    let kingside_castle = Move::new(Position::new(4, 0), Position::new(6, 0));
    assert!(!board.move_legal(kingside_castle));

    // Black king and queenside rook, white rook on b5, castling should be legal
    let mut board2 = Board::from_fen("r3k3/8/8/8/1R6/8/8/8 b q - 0 1").unwrap();

    let queenside_castle = Move::new(Position::new(4, 7), Position::new(2, 7));
    assert!(board2.move_legal(queenside_castle));

    board2.make_move(queenside_castle).unwrap();

    let king_at_c8 = board2.piece_at_pos(Position::new(2, 7));
    assert!(matches!(
        king_at_c8,
        Some(Piece {
            type_: PieceType::King,
            color: PieceColor::Black
        })
    ));

    let rook_at_d8 = board2.piece_at_pos(Position::new(3, 7));
    assert!(matches!(
        rook_at_d8,
        Some(Piece {
            type_: PieceType::Rook,
            color: PieceColor::Black
        })
    ));

    // Test castling after rook capture - white king and rook, black knight captures rook
    let mut board3 = Board::from_fen("8/8/8/8/8/8/6n1/R3K3 w Q - 0 1").unwrap();
    board3
        .make_move(Move::new(Position::new(6, 1), Position::new(0, 0)))
        .unwrap();

    let queenside_castle = Move::new(Position::new(4, 0), Position::new(2, 0));
    assert!(!board3.move_legal(queenside_castle));
}

#[test]
fn test_en_passant() {
    // White pawn on e5, black pawn on f7
    let mut board = Board::from_fen("8/5p2/8/4P3/8/8/8/8 w - - 0 1").unwrap();

    board
        .make_move(Move::new(Position::new(5, 6), Position::new(5, 4)))
        .unwrap();

    let en_passant_move = Move::new(Position::new(4, 4), Position::new(5, 5));
    assert!(board.is_move_en_passant(en_passant_move));

    let mut board2 = Board::from_fen("8/8/8/8/8/8/8/R7 w - - 0 1").unwrap();
    board2
        .make_move(Move::new(Position::new(0, 0), Position::new(0, 1)))
        .unwrap();

    assert!(!board2.is_move_en_passant(en_passant_move));
}
