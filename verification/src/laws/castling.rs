//! Laws of castling: what forbids it, how the rights are lost, and why the
//! depth to which castling is examined is never used up on a board whose
//! rights agree with its kings.

use crate::board::Position;
use crate::laws::attack::{lemma_depth_free, reachable};
use crate::lines::middle;
use crate::laws::attack::lemma_ray_shape;
use crate::lines::{along, along_on_board};
use crate::model::{BoardState, CastlingSide, CASTLING_DEPTH};
use crate::piece::{Move, Piece, PieceColor, PieceType};
use vstd::prelude::*;

verus! {

/// The home square of a side's king.
pub open spec fn king_home(color: PieceColor) -> Position {
    Position {
        file: 4,
        rank: match color {
            PieceColor::White => 0,
            PieceColor::Black => 7,
        },
    }
}

/// The home square of a side's rook on one wing.
pub open spec fn rook_home(color: PieceColor, kingside: bool) -> Position {
    Position {
        file: if kingside {
            7
        } else {
            0
        },
        rank: match color {
            PieceColor::White => 0,
            PieceColor::Black => 7,
        },
    }
}

/// The square lies on the king's rank, strictly between the king and the
/// home square of the rook on `side`.
pub open spec fn between_king_and_rook(m: Move, side: CastlingSide, square: Position) -> bool {
    &&& square.rank == m.from.rank
    &&& match side {
        CastlingSide::Kingside => m.from.file < square.file < 7,
        CastlingSide::Queenside => 0 < square.file < m.from.file,
    }
}

/// What stands on a square is a king of the colour.
pub open spec fn is_king_of(piece: Option<Piece>, color: PieceColor) -> bool {
    piece matches Some(king) && king.color == color && king.type_ == PieceType::King
}

/// Castling is neither pseudo-legal nor legal once the right to it is lost.
pub proof fn lemma_castling_needs_right(state: BoardState, m: Move)
    requires
        state.castling_side(m) matches Some(side) && state.piece_at(m.from) matches Some(king)
            && !state.rights.allows(king.color, side == CastlingSide::Kingside),
    ensures
        !state.pseudo_legal(m),
        !state.legal(m),
{
}

/// Castling is neither pseudo-legal nor legal while the opponent attacks
/// the square on which the king starts (`k == 0`), the one it passes over
/// (`k == 1`) or the one on which it lands (`k == 2`).
pub proof fn lemma_castling_needs_unattacked_way(state: BoardState, m: Move, k: int)
    requires
        0 <= k < 3,
        state.castling_side(m) matches Some(side) && state.piece_at(m.from) matches Some(king)
            && state.attacked(BoardState::king_way(m, side, k), king.color.opponent()),
    ensures
        !state.castling_valid(m),
        !state.pseudo_legal(m),
        !state.legal(m),
{
}

/// The ray from the rook's home square towards the king passes over the
/// squares between the two one by one: while they are empty, the `n`-th
/// square of the ray is the `n`-th square from the rook's home square.
proof fn lemma_rook_ray_reaches(state: BoardState, m: Move, side: CastlingSide, n: int)
    requires
        state.wf(),
        m.from.on_board(),
        1 <= n,
        along_on_board(BoardState::rook_home(m, side), BoardState::rook_direction(side), n),
        state.rook_sees_king(m, side),
        along(BoardState::rook_home(m, side), BoardState::rook_direction(side), n) != m.from,
        between_king_and_rook(
            m,
            side,
            along(BoardState::rook_home(m, side), BoardState::rook_direction(side), n),
        ),
    ensures
        state.piece_at(along(BoardState::rook_home(m, side), BoardState::rook_direction(side), n))
            is None,
{
    let home = BoardState::rook_home(m, side);
    let d = BoardState::rook_direction(side);
    let ray = state.ray(home, d);
    lemma_ray_shape(state, home, d);
    // the ray ends on the king, which lies beyond the n-th square
    assert(ray.last() == along(home, d, ray.len() as int));
    assert(ray.len() > n);
    assert(ray[n - 1] == along(home, d, n));
}

/// Castling is neither pseudo-legal nor legal while a piece stands between
/// the king and the rook's home square.
pub proof fn lemma_castling_needs_clear_way(state: BoardState, m: Move, blocker: Position)
    requires
        state.wf(),
        state.castling_side(m) matches Some(side) && between_king_and_rook(m, side, blocker),
        state.piece_at(blocker) is Some,
    ensures
        !state.castling_ready(m),
        !state.pseudo_legal(m),
        !state.legal(m),
{
    let side = state.castling_side(m)->0;
    let home = BoardState::rook_home(m, side);
    let d = BoardState::rook_direction(side);
    let n = if side == CastlingSide::Kingside {
        7 - blocker.file
    } else {
        blocker.file as int
    };
    assert(along(home, d, n) == blocker);
    if state.rook_sees_king(m, side) {
        lemma_rook_ray_reaches(state, m, side, n);
    }
}

/// A king that castles along its rank passes over an empty square, so the
/// enumeration of legal moves finds the move if it is legal.
pub proof fn lemma_castling_along_rank_reachable(state: BoardState, m: Move)
    requires
        state.wf(),
        state.pseudo_legal(m),
        state.castling_side(m) is Some,
        m.to.rank == m.from.rank,
    ensures
        state.piece_at(middle(m)) is None,
        reachable(state, m),
{
    let side = state.castling_side(m)->0;
    assert(between_king_and_rook(m, side, middle(m)));
    if state.piece_at(middle(m)) is Some {
        lemma_castling_needs_clear_way(state, m, middle(m));
    }
}

/// Castling rights are never regained, and a move costs exactly the rights of
/// the home squares that it touches: both of a side whose king's home square
/// it leaves, one for a rook's home square that it leaves or reaches.
pub proof fn lemma_rights_only_shrink(state: BoardState, m: Move, color: PieceColor, kingside: bool)
    requires
        m.on_board(),
    ensures
        state.after_move(m).rights.allows(color, kingside) ==> state.rights.allows(
            color,
            kingside,
        ),
        state.after_move(m).rights.allows(color, kingside) <==> state.rights.allows(
            color,
            kingside,
        ) && m.from != king_home(color) && m.from != rook_home(color, kingside) && m.to
            != rook_home(color, kingside),
{
}

/// Whether a side still holds a castling right.
pub open spec fn may_castle(state: BoardState, color: PieceColor) -> bool {
    state.rights.allows(color, true) || state.rights.allows(color, false)
}

/// The castling rights agree with the kings: a side that still holds a right
/// has no king off its king's home square.
pub open spec fn rights_consistent(state: BoardState) -> bool {
    forall|color: PieceColor, i: int|
        may_castle(state, color) && #[trigger] state.king_at(color, i) ==> i == king_home(
            color,
        ).index()
}

/// No king of the colour stands off its home square.
pub open spec fn kings_at_home(state: BoardState, color: PieceColor) -> bool {
    forall|i: int| #[trigger] state.king_at(color, i) ==> i == king_home(color).index()
}

/// In the starting position the castling rights agree with the kings.
pub proof fn lemma_initial_consistent()
    ensures
        BoardState::initial().wf(),
        rights_consistent(BoardState::initial()),
{
}

/// Putting on a square what is no king of the colour, or putting anything on
/// the king's home square, brings no king of the colour off its home square.
proof fn lemma_put_keeps_kings_home(
    state: BoardState,
    pos: Position,
    piece: Option<Piece>,
    color: PieceColor,
)
    requires
        state.wf(),
        kings_at_home(state, color),
        pos == king_home(color) || !is_king_of(piece, color),
    ensures
        kings_at_home(state.put(pos, piece), color),
        state.put(pos, piece).wf(),
{
    let after = state.put(pos, piece);
    assert forall|i: int| #[trigger] after.king_at(color, i) implies i == king_home(
        color,
    ).index() by {
        if i != king_home(color).index() {
            if pos.on_board() && i == pos.index() {
            } else {
                assert(state.king_at(color, i));
            }
        }
    }
}

/// A side that still holds a castling right after a move has no king off its
/// home square.
proof fn lemma_kings_stay_home(state: BoardState, m: Move, color: PieceColor)
    requires
        state.wf(),
        rights_consistent(state),
        may_castle(state.after_move(m), color),
    ensures
        kings_at_home(state.after_move(m), color),
{
    let home = king_home(color);
    assert(may_castle(state, color));
    assert(kings_at_home(state, color));
    // the rook's part of castling
    let castled = state.rook_castled(m);
    assert(kings_at_home(castled, color) && castled.wf()) by {
        if state.castling_side(m) is Some {
            let side = state.castling_side(m)->0;
            let corner = BoardState::rook_home(m, side);
            let landing = BoardState::rook_landing(m, side);
            let carried = state.piece_at(corner);
            if is_king_of(carried, color) {
                assert(state.king_at(color, corner.index()));
            }
            lemma_put_keeps_kings_home(state, landing, carried, color);
            lemma_put_keeps_kings_home(state.put(landing, carried), corner, None, color);
        }
    }
    // the pawn taken en passant
    let removed = castled.victim_removed(m);
    assert(kings_at_home(removed, color) && removed.wf()) by {
        lemma_put_keeps_kings_home(castled, BoardState::en_passant_victim(m), None, color);
    }
    // the moving piece
    let moved = removed.relocate(m.from, m.to);
    assert(kings_at_home(moved, color)) by {
        if m.to.on_board() {
            let carried = removed.piece_at(m.from);
            if is_king_of(carried, color) {
                assert(removed.king_at(color, m.from.index()));
                assert(m.from == home);
                assert(m.on_board());
                assert(!may_castle(state.after_move(m), color));
            }
            lemma_put_keeps_kings_home(removed, m.to, carried, color);
            lemma_put_keeps_kings_home(removed.put(m.to, carried), m.from, None, color);
        }
    }
    assert(state.after_move(m).squares == moved.squares);
    assert forall|i: int| #[trigger] state.after_move(m).king_at(color, i) implies i
        == home.index() by {
        assert(moved.king_at(color, i));
    }
}

/// Whatever move is applied, the castling rights go on agreeing with the
/// kings.
pub proof fn lemma_move_keeps_consistent(state: BoardState, m: Move)
    requires
        state.wf(),
        rights_consistent(state),
    ensures
        rights_consistent(state.after_move(m)),
{
    let after = state.after_move(m);
    assert forall|color: PieceColor, i: int|
        may_castle(after, color) && #[trigger] after.king_at(color, i) implies i == king_home(
            color,
        ).index() by {
        lemma_kings_stay_home(state, m, color);
    }
}

/// On a board whose castling rights agree with its kings, no king reaches a
/// square of a castling king's way by castling: whether such a square is
/// attacked does not depend on how deep castling is examined.
pub proof fn lemma_way_attack_depth_free(state: BoardState, m: Move, k: int, depth: nat)
    requires
        state.wf(),
        rights_consistent(state),
        state.castling_ready(m),
        0 <= k < 3,
    ensures
        ({
            let square = BoardState::king_way(m, state.castling_side(m)->0, k);
            let by = state.piece_at(m.from)->0.color.opponent();
            state.attacked_at(square, by, depth) == state.attacked_at(square, by, 0)
        }),
{
    let side = state.castling_side(m)->0;
    let color = state.piece_at(m.from)->0.color;
    let by = color.opponent();
    let square = BoardState::king_way(m, side, k);
    state.lemma_attacked_at(square, by, depth);
    state.lemma_attacked_at(square, by, 0);
    assert forall|i: int| 0 <= i < 16 implies state.threat_at(square, by, depth, i)
        == state.threat_at(square, by, 0, i) by {
        if state.attack_candidate(square, i) is Some {
            let from = state.attack_candidate(square, i)->0;
            let reach = Move { from, to: square };
            if state.piece_at(from) is Some && state.piece_at(from)->0.color == by {
                if state.castling_side(reach) is Some {
                    if state.castling_ready(reach) {
                        // a king that may castle stands on its home square
                        assert(state.king_at(by, from.index()));
                        assert(may_castle(state, by));
                        assert(from == king_home(by));
                        assert(state.king_at(color, m.from.index()));
                        assert(may_castle(state, color));
                        assert(m.from == king_home(color));
                        assert(square.rank == m.from.rank);
                        assert(false);
                    }
                    assert(!state.pseudo_legal_at(reach, depth));
                    assert(!state.pseudo_legal_at(reach, 0));
                } else {
                    lemma_depth_free(state, reach, depth);
                    lemma_depth_free(state, reach, 0);
                }
            }
        }
    }
    if state.attacked_at(square, by, depth) {
        let i = choose|i: int| 0 <= i < 16 && #[trigger] state.threat_at(square, by, depth, i);
        assert(state.threat_at(square, by, 0, i));
    }
    if state.attacked_at(square, by, 0) {
        let i = choose|i: int| 0 <= i < 16 && #[trigger] state.threat_at(square, by, 0, i);
        assert(state.threat_at(square, by, depth, i));
    }
}

/// On a board whose castling rights agree with its kings, the depth to which
/// castling is examined is never used up: at every depth but 0 the
/// pseudo-legal moves are those of `pseudo_legal`.
pub proof fn lemma_depth_irrelevant(state: BoardState, m: Move, depth: nat)
    requires
        state.wf(),
        rights_consistent(state),
        depth >= 1,
    ensures
        state.pseudo_legal_at(m, depth) == state.pseudo_legal(m),
{
    let top = (CASTLING_DEPTH + 1) as nat;
    state.lemma_top_level(m);
    if state.castling_side(m) is Some && state.castling_ready(m) {
        lemma_way_attack_depth_free(state, m, 0, (depth - 1) as nat);
        lemma_way_attack_depth_free(state, m, 1, (depth - 1) as nat);
        lemma_way_attack_depth_free(state, m, 2, (depth - 1) as nat);
        lemma_way_attack_depth_free(state, m, 0, (top - 1) as nat);
        lemma_way_attack_depth_free(state, m, 1, (top - 1) as nat);
        lemma_way_attack_depth_free(state, m, 2, (top - 1) as nat);
        assert(state.way_safe_at(m, (depth - 1) as nat) == state.way_safe_at(
            m,
            (top - 1) as nat,
        ));
    }
}

/// The `i`-th candidate holds a piece of colour `by` that has a pseudo-legal
/// move to `square`.
pub open spec fn threat(state: BoardState, square: Position, by: PieceColor, i: int) -> bool {
    &&& state.attack_candidate(square, i) matches Some(from)
    &&& state.piece_at(from) matches Some(attacker)
    &&& attacker.color == by
    &&& state.pseudo_legal(Move { from, to: square })
}

/// On a board whose castling rights agree with its kings, a square is
/// attacked exactly if one of the sixteen candidates holds a piece of the
/// attacking colour whose move onto the square is pseudo-legal.
pub proof fn lemma_attack_by_pseudo_legal(state: BoardState, square: Position, by: PieceColor)
    requires
        state.wf(),
        rights_consistent(state),
    ensures
        state.attacked(square, by) <==> exists|i: int|
            0 <= i < 16 && #[trigger] threat(state, square, by, i),
{
    let depth = CASTLING_DEPTH as nat;
    state.lemma_attacked_at(square, by, depth);
    assert forall|i: int| 0 <= i < 16 implies #[trigger] state.threat_at(square, by, depth, i)
        == threat(state, square, by, i) by {
        if state.attack_candidate(square, i) is Some {
            lemma_depth_irrelevant(
                state,
                Move { from: state.attack_candidate(square, i)->0, to: square },
                depth,
            );
        }
    }
    if state.attacked(square, by) {
        let i = choose|i: int| 0 <= i < 16 && #[trigger] state.threat_at(square, by, depth, i);
        assert(threat(state, square, by, i));
    }
    if exists|i: int| 0 <= i < 16 && #[trigger] threat(state, square, by, i) {
        let i = choose|i: int| 0 <= i < 16 && #[trigger] threat(state, square, by, i);
        assert(state.threat_at(square, by, depth, i));
    }
}

} // verus!
