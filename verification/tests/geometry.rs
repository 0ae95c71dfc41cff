use chess_rules::board::{midway, Position};
use chess_rules::piece::{Move, MoveShape, Offset, Piece, PieceColor, PieceType, ShapeData};

fn data(forward_only: bool, backward_only: bool, distance: u8) -> ShapeData {
    ShapeData {
        forward_only,
        backward_only,
        distance,
    }
}

#[test]
fn position_on_board_edges() {
    assert!(Position::new(0, 0).is_on_board());
    assert!(Position::new(7, 7).is_on_board());
    assert!(!Position::new(8, 0).is_on_board());
    assert!(!Position::new(0, 8).is_on_board());
    assert!(!Position::new(-1, 3).is_on_board());
    assert!(!Position::new(3, -1).is_on_board());
    assert!(!Position::new(127, -128).is_on_board());
}

#[test]
fn position_index_is_rank_times_eight_plus_file() {
    assert_eq!(Position::new(0, 0).to_index(), Ok(0));
    assert_eq!(Position::new(7, 0).to_index(), Ok(7));
    assert_eq!(Position::new(0, 1).to_index(), Ok(8));
    assert_eq!(Position::new(4, 3).to_index(), Ok(28));
    assert_eq!(Position::new(7, 7).to_index(), Ok(63));
}

#[test]
fn position_off_board_has_no_index() {
    assert_eq!(
        Position::new(8, 0).to_index(),
        Err("Position is not on board".to_string())
    );
    assert_eq!(
        Position::new(0, -1).to_index(),
        Err("Position is not on board".to_string())
    );
}

#[test]
fn position_index_round_trip() {
    for index in 0..64usize {
        let pos = Position::from_index(index);
        assert!(pos.is_on_board());
        assert_eq!(pos.to_index(), Ok(index));
        assert_eq!(pos.file as usize, index % 8);
        assert_eq!(pos.rank as usize, index / 8);
    }
}

#[test]
fn position_plus_offset() {
    assert_eq!(Position::new(3, 4) + Offset::new(2, -1), Position::new(5, 3));
    assert_eq!(Position::new(0, 0) + Offset::new(-2, -1), Position::new(-2, -1));
}

#[test]
fn position_stepped_stays_on_board() {
    assert_eq!(
        Position::new(6, 6).stepped(Offset::new(1, 1)),
        Some(Position::new(7, 7))
    );
    assert_eq!(Position::new(7, 7).stepped(Offset::new(1, 0)), None);
    assert_eq!(
        Position::new(-1, 3).stepped(Offset::new(1, 0)),
        Some(Position::new(0, 3))
    );
    assert_eq!(Position::new(127, 127).stepped(Offset::new(1, 1)), None);
}

#[test]
fn offset_times_scalar() {
    assert_eq!(Offset::new(1, -1) * 2, Offset::new(2, -2));
    assert_eq!(Offset::new(-1, 0) * 1, Offset::new(-1, 0));
    assert_eq!(Offset::new(3, 4) * 0, Offset::new(0, 0));
}

#[test]
fn offset_tables() {
    let leaps: Vec<Offset> = (0..8).map(Offset::knight_leap).collect();
    assert_eq!(
        leaps,
        vec![
            Offset::new(2, 1),
            Offset::new(2, -1),
            Offset::new(-2, 1),
            Offset::new(-2, -1),
            Offset::new(1, 2),
            Offset::new(1, -2),
            Offset::new(-1, 2),
            Offset::new(-1, -2),
        ]
    );
    let directions: Vec<Offset> = (0..8).map(Offset::ray_direction).collect();
    assert_eq!(
        directions,
        vec![
            Offset::new(1, 0),
            Offset::new(-1, 0),
            Offset::new(0, 1),
            Offset::new(0, -1),
            Offset::new(1, 1),
            Offset::new(1, -1),
            Offset::new(-1, 1),
            Offset::new(-1, -1),
        ]
    );
}

#[test]
fn shape_knight() {
    let from = Position::new(3, 3);
    for (file, rank) in [(5, 4), (5, 2), (1, 4), (1, 2), (4, 5), (4, 1), (2, 5), (2, 1)] {
        assert_eq!(
            MoveShape::from_positions(from, Position::new(file, rank)),
            Ok(MoveShape::Knight)
        );
    }
}

#[test]
fn shape_straight() {
    let from = Position::new(3, 3);
    assert_eq!(
        MoveShape::from_positions(from, Position::new(3, 7)),
        Ok(MoveShape::Straight(data(true, false, 4)))
    );
    assert_eq!(
        MoveShape::from_positions(from, Position::new(3, 0)),
        Ok(MoveShape::Straight(data(false, true, 3)))
    );
    assert_eq!(
        MoveShape::from_positions(from, Position::new(0, 3)),
        Ok(MoveShape::Straight(data(false, false, 3)))
    );
    assert_eq!(
        MoveShape::from_positions(from, Position::new(5, 3)),
        Ok(MoveShape::Straight(data(false, false, 2)))
    );
}

#[test]
fn shape_diagonal() {
    let from = Position::new(3, 3);
    assert_eq!(
        MoveShape::from_positions(from, Position::new(6, 6)),
        Ok(MoveShape::Diagonal(data(true, false, 3)))
    );
    assert_eq!(
        MoveShape::from_positions(from, Position::new(1, 5)),
        Ok(MoveShape::Diagonal(data(true, false, 2)))
    );
    assert_eq!(
        MoveShape::from_positions(from, Position::new(4, 2)),
        Ok(MoveShape::Diagonal(data(false, true, 1)))
    );
    assert_eq!(
        MoveShape::from_positions(from, Position::new(0, 0)),
        Ok(MoveShape::Diagonal(data(false, true, 3)))
    );
}

#[test]
fn shape_of_far_positions() {
    assert_eq!(
        MoveShape::from_positions(Position::new(-128, 0), Position::new(127, 0)),
        Ok(MoveShape::Straight(data(false, false, 255)))
    );
    assert_eq!(
        MoveShape::from_positions(Position::new(-128, -128), Position::new(127, 127)),
        Ok(MoveShape::Diagonal(data(true, false, 255)))
    );
}

#[test]
fn shape_errors() {
    let from = Position::new(3, 3);
    assert_eq!(
        MoveShape::from_positions(from, from),
        Err("From positon can't be same as to position".to_string())
    );
    assert_eq!(
        MoveShape::from_positions(from, Position::new(4, 6)),
        Err("Invalid move shape".to_string())
    );
    assert_eq!(
        MoveShape::from_positions(from, Position::new(7, 4)),
        Err("Invalid move shape".to_string())
    );
}

#[test]
fn move_accessors() {
    let m = Move::new(Position::new(1, 2), Position::new(3, 4));
    assert_eq!(m.from(), Position::new(1, 2));
    assert_eq!(m.to(), Position::new(3, 4));
    assert_eq!(m.shape(), Some(MoveShape::Diagonal(data(true, false, 2))));
    assert_eq!(m.direction(), Offset::new(1, 1));
    assert!(m.is_on_board());
    assert!(!Move::new(Position::new(1, 2), Position::new(1, 8)).is_on_board());
    assert!(!Move::new(Position::new(-1, 2), Position::new(1, 2)).is_on_board());
    assert_eq!(
        Move::new(Position::new(1, 2), Position::new(4, 4)).shape(),
        None
    );
    assert_eq!(Move::new(Position::new(1, 2), Position::new(1, 2)).shape(), None);
}

#[test]
fn path_of_sliding_moves() {
    let m = Move::new(Position::new(1, 1), Position::new(1, 4));
    assert_eq!(
        m.path(),
        Ok(vec![
            Position::new(1, 2),
            Position::new(1, 3),
            Position::new(1, 4)
        ])
    );
    let m = Move::new(Position::new(5, 5), Position::new(2, 2));
    assert_eq!(
        m.path(),
        Ok(vec![
            Position::new(4, 4),
            Position::new(3, 3),
            Position::new(2, 2)
        ])
    );
    let m = Move::new(Position::new(4, 0), Position::new(5, 0));
    assert_eq!(m.path(), Ok(vec![Position::new(5, 0)]));
}

#[test]
fn path_of_knight_is_its_destination() {
    let m = Move::new(Position::new(1, 0), Position::new(2, 2));
    assert_eq!(m.path(), Ok(vec![Position::new(2, 2)]));
}

#[test]
fn path_of_standing_still_is_empty() {
    let m = Move::new(Position::new(1, 0), Position::new(1, 0));
    assert_eq!(m.path(), Ok(vec![]));
}

#[test]
fn path_without_shape_fails() {
    let m = Move::new(Position::new(1, 0), Position::new(4, 1));
    assert_eq!(m.path(), Err("Invalid move shape".to_string()));
}

#[test]
fn path_stops_at_the_edge() {
    let m = Move::new(Position::new(5, 5), Position::new(9, 5));
    assert_eq!(m.path(), Ok(vec![Position::new(6, 5), Position::new(7, 5)]));
    let m = Move::new(Position::new(-2, 5), Position::new(3, 5));
    assert_eq!(m.path(), Ok(vec![]));
    let m = Move::new(Position::new(-1, 5), Position::new(1, 5));
    assert_eq!(m.path(), Ok(vec![Position::new(0, 5), Position::new(1, 5)]));
}

fn piece(type_: PieceType, color: PieceColor) -> Piece {
    Piece { type_, color }
}

#[test]
fn shapes_of_sliding_pieces() {
    let straight = MoveShape::Straight(data(true, false, 5));
    let diagonal = MoveShape::Diagonal(data(false, true, 3));
    let rook = piece(PieceType::Rook, PieceColor::White);
    let bishop = piece(PieceType::Bishop, PieceColor::Black);
    let queen = piece(PieceType::Queen, PieceColor::White);
    assert!(rook.shape_allowed(straight));
    assert!(!rook.shape_allowed(diagonal));
    assert!(!rook.shape_allowed(MoveShape::Knight));
    assert!(bishop.shape_allowed(diagonal));
    assert!(!bishop.shape_allowed(straight));
    assert!(!bishop.shape_allowed(MoveShape::Knight));
    assert!(queen.shape_allowed(straight));
    assert!(queen.shape_allowed(diagonal));
    assert!(!queen.shape_allowed(MoveShape::Knight));
}

#[test]
fn shapes_of_knight_and_king() {
    let knight = piece(PieceType::Knight, PieceColor::Black);
    assert!(knight.shape_allowed(MoveShape::Knight));
    assert!(!knight.shape_allowed(MoveShape::Straight(data(true, false, 1))));
    assert!(!knight.shape_allowed(MoveShape::Diagonal(data(true, false, 1))));
    let king = piece(PieceType::King, PieceColor::White);
    assert!(king.shape_allowed(MoveShape::Straight(data(false, false, 1))));
    assert!(king.shape_allowed(MoveShape::Straight(data(false, false, 2))));
    assert!(!king.shape_allowed(MoveShape::Straight(data(false, false, 3))));
    assert!(king.shape_allowed(MoveShape::Diagonal(data(false, true, 1))));
    assert!(!king.shape_allowed(MoveShape::Diagonal(data(false, true, 2))));
    assert!(!king.shape_allowed(MoveShape::Knight));
}

#[test]
fn shapes_of_pawns() {
    let white = piece(PieceType::Pawn, PieceColor::White);
    let black = piece(PieceType::Pawn, PieceColor::Black);
    assert!(white.shape_allowed(MoveShape::Straight(data(true, false, 1))));
    assert!(white.shape_allowed(MoveShape::Straight(data(true, false, 2))));
    assert!(!white.shape_allowed(MoveShape::Straight(data(true, false, 3))));
    assert!(!white.shape_allowed(MoveShape::Straight(data(false, true, 1))));
    assert!(!white.shape_allowed(MoveShape::Straight(data(false, false, 1))));
    assert!(white.shape_allowed(MoveShape::Diagonal(data(true, false, 1))));
    assert!(!white.shape_allowed(MoveShape::Diagonal(data(true, false, 2))));
    assert!(!white.shape_allowed(MoveShape::Diagonal(data(false, true, 1))));
    assert!(!white.shape_allowed(MoveShape::Knight));
    assert!(black.shape_allowed(MoveShape::Straight(data(false, true, 1))));
    assert!(black.shape_allowed(MoveShape::Straight(data(false, true, 2))));
    assert!(!black.shape_allowed(MoveShape::Straight(data(true, false, 1))));
    assert!(black.shape_allowed(MoveShape::Diagonal(data(false, true, 1))));
    assert!(!black.shape_allowed(MoveShape::Diagonal(data(true, false, 1))));
}

#[test]
fn pawn_rules_quiet_and_capture() {
    let white = piece(PieceType::Pawn, PieceColor::White);
    let black = piece(PieceType::Pawn, PieceColor::Black);
    let one = Move::new(Position::new(4, 3), Position::new(4, 4));
    let two_from_start = Move::new(Position::new(4, 1), Position::new(4, 3));
    let two_elsewhere = Move::new(Position::new(4, 2), Position::new(4, 4));
    let diagonal = Move::new(Position::new(4, 3), Position::new(5, 4));
    let long_diagonal = Move::new(Position::new(4, 3), Position::new(6, 5));
    assert!(white.validate_pawn_rules(one, false));
    assert!(!white.validate_pawn_rules(one, true));
    assert!(white.validate_pawn_rules(two_from_start, false));
    assert!(!white.validate_pawn_rules(two_elsewhere, false));
    assert!(!white.validate_pawn_rules(two_from_start, true));
    assert!(white.validate_pawn_rules(diagonal, true));
    assert!(!white.validate_pawn_rules(diagonal, false));
    assert!(!white.validate_pawn_rules(long_diagonal, true));
    let black_two = Move::new(Position::new(4, 6), Position::new(4, 4));
    assert!(black.validate_pawn_rules(black_two, false));
    assert!(!white.validate_pawn_rules(black_two, false));
    assert!(!black.validate_pawn_rules(two_from_start, false));
    let knight = Move::new(Position::new(4, 3), Position::new(5, 5));
    assert!(!white.validate_pawn_rules(knight, true));
    assert!(!white.validate_pawn_rules(knight, false));
    let nowhere = Move::new(Position::new(4, 3), Position::new(4, 3));
    assert!(!white.validate_pawn_rules(nowhere, false));
}

#[test]
fn midway_rounds_down() {
    assert_eq!(midway(1, 3), 2);
    assert_eq!(midway(6, 4), 5);
    assert_eq!(midway(4, 4), 4);
    assert_eq!(midway(0, 1), 0);
    assert_eq!(midway(-1, -3), -2);
    assert_eq!(midway(-1, 0), -1);
    assert_eq!(midway(-128, -128), -128);
    assert_eq!(midway(127, 127), 127);
    assert_eq!(midway(-128, 127), -1);
}
