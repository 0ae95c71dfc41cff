use chess_rules::board::{Board, CastlingRights, MoveTurn, Position};
use chess_rules::fen::{
    char_to_piece, chars_of, decode_squares, holds, is_single, is_white_space, order_ranks,
    split_fields,
};
use chess_rules::piece::{Piece, PieceColor, PieceType};

fn error_of(fen: &str) -> String {
    match Board::from_fen(fen) {
        Ok(_) => panic!("a board was read from {:?}", fen),
        Err(e) => e,
    }
}

fn chars(text: &str) -> Vec<char> {
    text.chars().collect()
}

#[test]
fn reads_the_starting_position() {
    let read = Board::from_fen("rnbqkbnr/pppppppp/8/8/8/8/PPPPPPPP/RNBQKBNR w KQkq - 0 1").unwrap();
    let start = Board::starting_position();
    for index in 0..64 {
        let pos = Position::from_index(index);
        assert_eq!(read.piece_at_pos(pos), start.piece_at_pos(pos));
    }
    assert_eq!(read.move_turn(), start.move_turn());
    assert_eq!(read.castling_rights(), start.castling_rights());
    assert_eq!(read.en_passant_target(), start.en_passant_target());
}

#[test]
fn starting_position_pieces() {
    let start = Board::starting_position();
    let officers = [
        PieceType::Rook,
        PieceType::Knight,
        PieceType::Bishop,
        PieceType::Queen,
        PieceType::King,
        PieceType::Bishop,
        PieceType::Knight,
        PieceType::Rook,
    ];
    for file in 0..8i8 {
        let officer = officers[file as usize];
        assert_eq!(
            start.piece_at_pos(Position::new(file, 0)),
            Some(Piece {
                type_: officer,
                color: PieceColor::White
            })
        );
        assert_eq!(
            start.piece_at_pos(Position::new(file, 1)),
            Some(Piece {
                type_: PieceType::Pawn,
                color: PieceColor::White
            })
        );
        for rank in 2..6 {
            assert_eq!(start.piece_at_pos(Position::new(file, rank)), None);
        }
        assert_eq!(
            start.piece_at_pos(Position::new(file, 6)),
            Some(Piece {
                type_: PieceType::Pawn,
                color: PieceColor::Black
            })
        );
        assert_eq!(
            start.piece_at_pos(Position::new(file, 7)),
            Some(Piece {
                type_: officer,
                color: PieceColor::Black
            })
        );
    }
    assert_eq!(start.move_turn(), MoveTurn::White);
    assert_eq!(start.castling_rights(), CastlingRights::new());
    assert_eq!(start.en_passant_target(), None);
}

#[test]
fn empty_board_holds_nothing() {
    let board = Board::empty();
    for index in 0..64 {
        assert_eq!(board.piece_at_pos(Position::from_index(index)), None);
    }
    assert_eq!(board.move_turn(), MoveTurn::White);
    assert_eq!(board.castling_rights(), CastlingRights::new());
    assert_eq!(board.en_passant_target(), None);
    assert_eq!(board.piece_at_pos(Position::new(8, 8)), None);
    assert_eq!(board.piece_at_pos(Position::new(-1, 0)), None);
}

#[test]
fn new_board_keeps_what_it_is_given() {
    let mut pieces = [None; 64];
    let queen = Piece {
        type_: PieceType::Queen,
        color: PieceColor::Black,
    };
    pieces[27] = Some(queen);
    let rights = CastlingRights {
        white_kingside: false,
        white_queenside: true,
        black_kingside: false,
        black_queenside: false,
    };
    let board = Board::new(pieces, MoveTurn::Black, rights, Some(Position::new(2, 5)));
    assert_eq!(board.piece_at_pos(Position::new(3, 3)), Some(queen));
    assert_eq!(board.piece_at_pos(Position::new(3, 4)), None);
    assert_eq!(board.move_turn(), MoveTurn::Black);
    assert_eq!(board.castling_rights(), rights);
    assert_eq!(board.en_passant_target(), Some(Position::new(2, 5)));
}

#[test]
fn ranks_are_read_from_the_highest_down() {
    let board = Board::from_fen("r7/8/8/8/8/8/8/7K b - - 0 1").unwrap();
    assert_eq!(
        board.piece_at_pos(Position::new(0, 7)),
        Some(Piece {
            type_: PieceType::Rook,
            color: PieceColor::Black
        })
    );
    assert_eq!(
        board.piece_at_pos(Position::new(7, 0)),
        Some(Piece {
            type_: PieceType::King,
            color: PieceColor::White
        })
    );
    assert_eq!(board.piece_at_pos(Position::new(0, 0)), None);
    assert_eq!(board.move_turn(), MoveTurn::Black);
}

#[test]
fn digits_leave_squares_empty() {
    let board = Board::from_fen("8/8/8/8/8/8/8/2N1b3 w - - 0 1").unwrap();
    assert_eq!(board.piece_at_pos(Position::new(0, 0)), None);
    assert_eq!(board.piece_at_pos(Position::new(1, 0)), None);
    assert_eq!(
        board.piece_at_pos(Position::new(2, 0)),
        Some(Piece {
            type_: PieceType::Knight,
            color: PieceColor::White
        })
    );
    assert_eq!(board.piece_at_pos(Position::new(3, 0)), None);
    assert_eq!(
        board.piece_at_pos(Position::new(4, 0)),
        Some(Piece {
            type_: PieceType::Bishop,
            color: PieceColor::Black
        })
    );
    assert_eq!(board.piece_at_pos(Position::new(5, 0)), None);
}

#[test]
fn castling_field_grants_rights_letter_by_letter() {
    let board = Board::from_fen("8/8/8/8/8/8/8/8 w Kq - 0 1").unwrap();
    let rights = board.castling_rights();
    assert!(rights.can_castle(PieceColor::White, true));
    assert!(!rights.can_castle(PieceColor::White, false));
    assert!(!rights.can_castle(PieceColor::Black, true));
    assert!(rights.can_castle(PieceColor::Black, false));
    let board = Board::from_fen("8/8/8/8/8/8/8/8 w - - 0 1").unwrap();
    assert_eq!(
        board.castling_rights(),
        CastlingRights {
            white_kingside: false,
            white_queenside: false,
            black_kingside: false,
            black_queenside: false
        }
    );
    let board = Board::from_fen("8/8/8/8/8/8/8/8 w qkQK - 0 1").unwrap();
    assert_eq!(board.castling_rights(), CastlingRights::new());
}

#[test]
fn en_passant_field_names_a_square() {
    let board = Board::from_fen("8/8/8/8/8/8/8/8 w - e3 0 1").unwrap();
    assert_eq!(board.en_passant_target(), Some(Position::new(4, 2)));
    let board = Board::from_fen("8/8/8/8/8/8/8/8 b - a1 0 1").unwrap();
    assert_eq!(board.en_passant_target(), Some(Position::new(0, 0)));
    let board = Board::from_fen("8/8/8/8/8/8/8/8 b - h8 0 1").unwrap();
    assert_eq!(board.en_passant_target(), Some(Position::new(7, 7)));
    let board = Board::from_fen("8/8/8/8/8/8/8/8 b - - 0 1").unwrap();
    assert_eq!(board.en_passant_target(), None);
}

#[test]
fn fields_may_be_separated_by_any_white_space() {
    let board = Board::from_fen("  8/8/8/8/8/8/8/8\tb \n - \u{3000} c6   0\u{a0}1 ").unwrap();
    assert_eq!(board.move_turn(), MoveTurn::Black);
    assert_eq!(board.en_passant_target(), Some(Position::new(2, 5)));
}

#[test]
fn wrong_number_of_fields() {
    assert_eq!(error_of(""), "FEN string must have 6 parts");
    assert_eq!(error_of("8/8/8/8/8/8/8/8 w - - 0"), "FEN string must have 6 parts");
    assert_eq!(
        error_of("8/8/8/8/8/8/8/8 w - - 0 1 2"),
        "FEN string must have 6 parts"
    );
}

#[test]
fn wrong_number_of_ranks() {
    assert_eq!(
        error_of("8/8/8/8/8/8/8 w - - 0 1"),
        "FEN piece placement must have 8 ranks"
    );
    assert_eq!(
        error_of("8/8/8/8/8/8/8/8/8 w - - 0 1"),
        "FEN piece placement must have 8 ranks"
    );
    assert_eq!(
        error_of("8/8/8/8/8/8/8/8/ w - - 0 1"),
        "FEN piece placement must have 8 ranks"
    );
}

#[test]
fn invalid_piece_character() {
    assert_eq!(
        error_of("8/8/8/8/8/8/8/7x w - - 0 1"),
        "Invalid piece character: x"
    );
    assert_eq!(
        error_of("8/8/8/8/8/8/8/9 w - - 0 1"),
        "Invalid piece character: 9"
    );
    assert_eq!(
        error_of("8/8/8/8/8/8/8/08 w - - 0 1"),
        "Invalid piece character: 0"
    );
    assert_eq!(
        error_of("8/8/8/8/8/8/8/......8 w - - 0 1"),
        "Invalid piece character: ."
    );
    assert_eq!(
        error_of("8/8/8/8/8/8/8/7\u{e9} w - - 0 1"),
        "Invalid piece character: \u{e9}"
    );
}

#[test]
fn first_invalid_character_in_the_order_of_the_squares() {
    assert_eq!(
        error_of("y7/8/8/8/8/8/8/7x w - - 0 1"),
        "Invalid piece character: x"
    );
    assert_eq!(
        error_of("y7/8/8/8/8/8/8/zx6 w - - 0 1"),
        "Invalid piece character: z"
    );
    assert_eq!(
        error_of("y/8/8/8/8/8/8/8 w - - 0 1"),
        "Invalid piece character: y"
    );
}

#[test]
fn wrong_number_of_squares() {
    assert_eq!(
        error_of("8/8/8/8/8/8/8/7 w - - 0 1"),
        "Invalid number of pieces in FEN"
    );
    assert_eq!(
        error_of("8/8/8/8/8/8/8/8p w - - 0 1"),
        "Invalid number of pieces in FEN"
    );
    assert_eq!(
        error_of("/////// w - - 0 1"),
        "Invalid number of pieces in FEN"
    );
}

#[test]
fn squares_are_counted_over_all_ranks() {
    let board = Board::from_fen("8/8/8/8/8/8/7/K8 w - - 0 1").unwrap();
    assert_eq!(
        board.piece_at_pos(Position::new(0, 0)),
        Some(Piece {
            type_: PieceType::King,
            color: PieceColor::White
        })
    );
}

#[test]
fn invalid_active_color() {
    assert_eq!(error_of("8/8/8/8/8/8/8/8 x - - 0 1"), "Invalid active color");
    assert_eq!(error_of("8/8/8/8/8/8/8/8 W - - 0 1"), "Invalid active color");
    assert_eq!(error_of("8/8/8/8/8/8/8/8 ww - - 0 1"), "Invalid active color");
}

#[test]
fn invalid_en_passant_square() {
    assert_eq!(
        error_of("8/8/8/8/8/8/8/8 w - e 0 1"),
        "Invalid en passant square"
    );
    assert_eq!(
        error_of("8/8/8/8/8/8/8/8 w - e33 0 1"),
        "Invalid en passant square"
    );
    assert_eq!(
        error_of("8/8/8/8/8/8/8/8 w - \u{e9}3 0 1"),
        "Invalid en passant square"
    );
    assert_eq!(
        error_of("8/8/8/8/8/8/8/8 w - \u{e9} 0 1"),
        "Invalid en passant square"
    );
}

#[test]
fn en_passant_square_out_of_bounds() {
    assert_eq!(
        error_of("8/8/8/8/8/8/8/8 w - i3 0 1"),
        "En passant square out of bounds"
    );
    assert_eq!(
        error_of("8/8/8/8/8/8/8/8 w - e9 0 1"),
        "En passant square out of bounds"
    );
    assert_eq!(
        error_of("8/8/8/8/8/8/8/8 w - e0 0 1"),
        "En passant square out of bounds"
    );
    assert_eq!(
        error_of("8/8/8/8/8/8/8/8 w - E3 0 1"),
        "En passant square out of bounds"
    );
    assert_eq!(
        error_of("8/8/8/8/8/8/8/8 w - -- 0 1"),
        "En passant square out of bounds"
    );
}

#[test]
fn errors_come_in_the_order_of_the_fields() {
    assert_eq!(
        error_of("8/8/8/8/8/8/8 x - zz 0 1"),
        "FEN piece placement must have 8 ranks"
    );
    assert_eq!(
        error_of("8/8/8/8/8/8/8/x x - zz 0 1"),
        "Invalid piece character: x"
    );
    assert_eq!(
        error_of("8/8/8/8/8/8/8/7 x - zz 0 1"),
        "Invalid number of pieces in FEN"
    );
    assert_eq!(error_of("8/8/8/8/8/8/8/8 x - zz 0 1"), "Invalid active color");
}

#[test]
fn white_space_characters() {
    for c in [' ', '\t', '\n', '\u{b}', '\u{c}', '\r', '\u{85}', '\u{a0}', '\u{1680}', '\u{2000}',
        '\u{200a}', '\u{2028}', '\u{2029}', '\u{202f}', '\u{205f}', '\u{3000}']
    {
        assert!(is_white_space(c));
        assert!(c.is_whitespace());
    }
    for c in ['a', '/', '-', '0', '\u{8}', '\u{e}', '\u{200b}', '\u{feff}'] {
        assert!(!is_white_space(c));
        assert!(!c.is_whitespace());
    }
}

#[test]
fn white_space_agrees_with_std_everywhere() {
    for n in 0..0x11_0000u32 {
        if let Some(c) = char::from_u32(n) {
            assert_eq!(is_white_space(c), c.is_whitespace());
        }
    }
}

#[test]
fn chars_of_text() {
    assert_eq!(chars_of(""), Vec::<char>::new());
    assert_eq!(chars_of("a\u{e9}b"), vec!['a', '\u{e9}', 'b']);
}

#[test]
fn split_at_white_space_drops_empty_fields() {
    assert_eq!(
        split_fields(&chars("  ab  c\td "), false),
        vec![chars("ab"), chars("c"), chars("d")]
    );
    assert_eq!(split_fields(&chars(""), false), Vec::<Vec<char>>::new());
    assert_eq!(split_fields(&chars("   "), false), Vec::<Vec<char>>::new());
    assert_eq!(split_fields(&chars("a/b"), false), vec![chars("a/b")]);
}

#[test]
fn split_at_slashes_keeps_empty_fields() {
    assert_eq!(
        split_fields(&chars("ab//c/"), true),
        vec![chars("ab"), chars(""), chars("c"), chars("")]
    );
    assert_eq!(split_fields(&chars(""), true), vec![chars("")]);
    assert_eq!(split_fields(&chars("a b"), true), vec![chars("a b")]);
}

#[test]
fn ranks_in_the_order_of_the_squares() {
    assert_eq!(
        order_ranks(&vec![chars("ab"), chars(""), chars("c"), chars("de")]),
        chars("decab")
    );
    assert_eq!(order_ranks(&vec![]), chars(""));
}

#[test]
fn letters_of_pieces() {
    let kinds = [
        ('p', PieceType::Pawn),
        ('n', PieceType::Knight),
        ('b', PieceType::Bishop),
        ('r', PieceType::Rook),
        ('q', PieceType::Queen),
        ('k', PieceType::King),
    ];
    for (letter, type_) in kinds {
        assert_eq!(
            char_to_piece(letter),
            Some(Piece {
                type_,
                color: PieceColor::Black
            })
        );
        assert_eq!(
            char_to_piece(letter.to_ascii_uppercase()),
            Some(Piece {
                type_,
                color: PieceColor::White
            })
        );
    }
    assert_eq!(char_to_piece('x'), None);
    assert_eq!(char_to_piece('1'), None);
    assert_eq!(char_to_piece('.'), None);
}

#[test]
fn decoding_squares() {
    let knight = Some(Piece {
        type_: PieceType::Knight,
        color: PieceColor::White,
    });
    assert_eq!(
        decode_squares(&chars("2N1")),
        Ok(vec![None, None, knight, None])
    );
    assert_eq!(decode_squares(&chars("")), Ok(vec![]));
    assert_eq!(decode_squares(&chars("8")).map(|s| s.len()), Ok(8));
    assert_eq!(decode_squares(&chars("2N?1!")), Err('?'));
    assert_eq!(decode_squares(&chars("0")), Err('0'));
    assert_eq!(decode_squares(&chars("9")), Err('9'));
}

#[test]
fn field_helpers() {
    assert!(holds(&chars("KQkq"), 'k'));
    assert!(!holds(&chars("KQq"), 'k'));
    assert!(!holds(&chars(""), 'k'));
    assert!(is_single(&chars("w"), 'w'));
    assert!(!is_single(&chars("ww"), 'w'));
    assert!(!is_single(&chars(""), 'w'));
    assert!(!is_single(&chars("b"), 'w'));
}
