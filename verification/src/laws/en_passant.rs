//! Laws of the en-passant target: when it is set, when it is cleared, and
//! which pawn a capture en passant takes.

use crate::board::Position;
use crate::model::BoardState;
use crate::piece::{Move, MoveShape, Piece, PieceColor, PieceType};
use vstd::prelude::*;

verus! {

/// The piece on `pos` is a pawn of the given colour.
pub open spec fn pawn_on(state: BoardState, pos: Position, color: PieceColor) -> bool {
    state.piece_at(pos) == Some(Piece { type_: PieceType::Pawn, color })
}

/// The move goes two squares along a file.
pub open spec fn two_along_file(m: Move) -> bool {
    m.from.file == m.to.file && (m.to.rank == m.from.rank + 2 || m.to.rank == m.from.rank - 2)
}

/// The square between the two ends of a move of two squares along a file.
pub open spec fn midway(m: Move) -> Position {
    Position { file: m.from.file, rank: ((m.from.rank + m.to.rank) / 2) as i8 }
}

/// After a pawn's advance of two squares the en-passant target is exactly the
/// square that it passed over.
pub proof fn lemma_double_step_sets_target(state: BoardState, m: Move, color: PieceColor)
    requires
        state.wf(),
        m.on_board(),
        pawn_on(state, m.from, color),
        two_along_file(m),
    ensures
        state.after_move(m).en_passant == Some(midway(m)),
        midway(m).file == m.to.file,
        midway(m).rank - m.from.rank == m.to.rank - midway(m).rank,
        pawn_on(state.after_move(m), m.to, color),
{
}

/// A move that is not a pawn's straight move of two squares leaves no
/// en-passant target.
pub proof fn lemma_other_moves_clear_target(state: BoardState, m: Move)
    requires
        m.on_board(),
        !({
            &&& state.piece_at(m.from) matches Some(mover)
            &&& mover.type_ == PieceType::Pawn
            &&& m.shape_spec() matches Some(MoveShape::Straight(data))
            &&& data.distance == 2
        }),
    ensures
        state.after_move(m).en_passant is None,
{
}

/// A pawn's diagonal step forward onto the en-passant target is an
/// en-passant capture: it counts as a capture, the pawn lands on the target,
/// and the square beside the target, on the rank that the pawn leaves, is
/// emptied.
pub proof fn lemma_en_passant_captures_beside(state: BoardState, m: Move, color: PieceColor)
    requires
        state.wf(),
        m.on_board(),
        state.en_passant == Some(m.to),
        pawn_on(state, m.from, color),
        m.to.file == m.from.file + 1 || m.to.file == m.from.file - 1,
        m.to.rank == m.from.rank + (if color == PieceColor::White {
            1int
        } else {
            -1int
        }),
    ensures
        state.is_en_passant(m),
        state.is_capture(m),
        BoardState::en_passant_victim(m) == (Position { file: m.to.file, rank: m.from.rank }),
        state.after_move(m).piece_at(BoardState::en_passant_victim(m)) is None,
        state.after_move(m).piece_at(m.from) is None,
        pawn_on(state.after_move(m), m.to, color),
{
}

/// After a pawn has advanced two squares, the opposing pawn that next steps
/// diagonally forward onto the square passed over takes it en passant: the
/// pawn that advanced, which stands beside that square and not behind it, is
/// removed.
pub proof fn lemma_en_passant_after_double_step(
    state: BoardState,
    advance: Move,
    capture: Move,
    color: PieceColor,
)
    requires
        state.wf(),
        advance.on_board(),
        pawn_on(state, advance.from, color),
        advance.from.file == advance.to.file,
        advance.to.rank == advance.from.rank + (if color == PieceColor::White {
            2int
        } else {
            -2int
        }),
        capture.on_board(),
        pawn_on(state.after_move(advance), capture.from, color.opponent()),
        capture.to == midway(advance),
        capture.to.file == capture.from.file + 1 || capture.to.file == capture.from.file - 1,
        capture.to.rank == capture.from.rank + (if color == PieceColor::White {
            -1int
        } else {
            1int
        }),
    ensures
        state.after_move(advance).is_en_passant(capture),
        BoardState::en_passant_victim(capture) == advance.to,
        pawn_on(state.after_move(advance), advance.to, color),
        state.after_move(advance).after_move(capture).piece_at(advance.to) is None,
        pawn_on(
            state.after_move(advance).after_move(capture),
            midway(advance),
            color.opponent(),
        ),
{
    lemma_double_step_sets_target(state, advance, color);
    lemma_en_passant_captures_beside(state.after_move(advance), capture, color.opponent());
}

} // verus!
