//! Rays, clear paths and attacks stated by the squares along a line, and the
//! law of the pinned piece.

use crate::board::Position;
use crate::lines::{
    along, along_on_board, direction_index, leap_index, middle, reversed, runs_along_line, span,
    lemma_track_is_line, lemma_trail_shape, lemma_walk_ends,
};
use crate::model::{knight_leap, ray_direction, BoardState, CASTLING_DEPTH};
use crate::piece::{arrives_at, walk, Move, MoveShape, Offset, Piece, PieceColor, PieceType};
use vstd::prelude::*;

verus! {

/// Whether the move is found by the enumeration if it is legal: every move
/// but castling over an occupied square, which no ray reaches.
pub open spec fn reachable(state: BoardState, m: Move) -> bool {
    state.castling_side(m) is Some ==> state.piece_at(middle(m)) is None
}

/// A piece of colour `by` on `from` has a pseudo-legal move to `square`,
/// with castling examined to the given depth, that is not castling over an
/// occupied square.
pub open spec fn attacks_from(
    state: BoardState,
    from: Position,
    square: Position,
    by: PieceColor,
    depth: nat,
) -> bool {
    let m = Move { from, to: square };
    &&& state.piece_at(from) matches Some(attacker)
    &&& attacker.color == by
    &&& state.pseudo_legal_at(m, depth)
    &&& reachable(state, m)
}

/// Whether a piece of this kind slides in direction `d`: rook and queen along
/// ranks and files, bishop and queen along diagonals.
pub open spec fn slides(kind: PieceType, d: Offset) -> bool {
    if d.file == 0 || d.rank == 0 {
        kind == PieceType::Rook || kind == PieceType::Queen
    } else {
        kind == PieceType::Bishop || kind == PieceType::Queen
    }
}

/// What a ray is: its squares lie one step after another from the start, on
/// the board; all but the last are empty; and the last holds a piece or has
/// the edge of the board behind it.
pub proof fn lemma_ray_shape(state: BoardState, start: Position, d: Offset)
    requires
        d.is_step(),
    ensures
        state.ray(start, d).len() <= 8,
        state.ray(start, d).len() == 0 <==> !along_on_board(start, d, 1),
        forall|j: int|
            0 <= j < state.ray(start, d).len() ==> #[trigger] state.ray(start, d)[j] == along(
                start,
                d,
                j + 1,
            ) && along_on_board(start, d, j + 1),
        forall|j: int|
            0 <= j < state.ray(start, d).len() - 1 ==> state.piece_at(
                #[trigger] state.ray(start, d)[j],
            ) is None,
        state.ray(start, d).len() > 0 ==> state.piece_at(state.ray(start, d).last()) is Some
            || !along_on_board(start, d, state.ray(start, d).len() as int + 1),
{
    if start.next_on_board(d) {
        let first = start.shifted(d);
        let stop = state.occupied();
        let ray = state.ray(start, d);
        lemma_trail_shape(first, d, stop);
        assert forall|j: int| 0 <= j < ray.len() implies #[trigger] ray[j] == along(
            start,
            d,
            j + 1,
        ) && along_on_board(start, d, j + 1) by {
            assert(ray[j] == along(first, d, j));
            assert(along_on_board(first, d, j));
        }
        assert forall|j: int| 0 <= j < ray.len() - 1 implies state.piece_at(#[trigger] ray[j])
            is None by {
            assert(!stop(ray[j]));
        }
        assert(along_on_board(first, d, ray.len() as int) == along_on_board(
            start,
            d,
            ray.len() as int + 1,
        ));
    }
}

/// What a clear path is, for a move on the board along a line: a piece
/// stands on the origin, the squares strictly between origin and destination
/// are empty, and the destination is empty or holds an opposing piece.
pub proof fn lemma_path_clear_along_line(state: BoardState, m: Move)
    requires
        m.on_board(),
        runs_along_line(m),
    ensures
        state.path_clear(m) <==> {
            &&& state.piece_at(m.from) is Some
            &&& forall|j: int|
                1 <= j < span(m) ==> state.piece_at(#[trigger] along(m.from, m.step(), j))
                    is None
            &&& forall|mover: Piece, target: Piece|
                state.piece_at(m.from) == Some(mover) && state.piece_at(m.to) == Some(target)
                    ==> mover.color != target.color
        },
{
    lemma_track_is_line(m);
    let squares = m.track()->0;
    let d = m.step();
    if state.path_clear(m) {
        assert forall|j: int| 1 <= j < span(m) implies state.piece_at(
            #[trigger] along(m.from, d, j),
        ) is None by {
            assert(squares[j - 1] == along(m.from, d, j));
            assert(along(m.from, d, j) != m.to);
        }
    }
    if state.piece_at(m.from) is Some && (forall|j: int|
        1 <= j < span(m) ==> state.piece_at(#[trigger] along(m.from, d, j)) is None) {
        assert forall|i: int| 0 <= i < squares.len() && #[trigger] squares[i] != m.to implies state.piece_at(
            squares[i],
        ) is None by {
            assert(squares[i] == along(m.from, d, i + 1));
        }
    }
}

/// A knight's leap has a clear path exactly if a piece stands on its origin
/// and its destination is empty or holds an opposing piece.
pub proof fn lemma_path_clear_leap(state: BoardState, m: Move)
    requires
        m.shape_spec() == Some(MoveShape::Knight),
    ensures
        state.path_clear(m) <==> {
            &&& state.piece_at(m.from) is Some
            &&& forall|mover: Piece, target: Piece|
                state.piece_at(m.from) == Some(mover) && state.piece_at(m.to) == Some(target)
                    ==> mover.color != target.color
        },
{
    let squares = m.track()->0;
    assert(squares == seq![m.to]);
}

/// No square off the board is attacked.
pub proof fn lemma_off_board_not_attacked(
    state: BoardState,
    square: Position,
    by: PieceColor,
    depth: nat,
)
    requires
        !square.on_board(),
    ensures
        !state.attacked_at(square, by, depth),
        !state.attacked(square, by),
{
    state.lemma_attacked_at(square, by, depth);
    state.lemma_attacked_at(square, by, CASTLING_DEPTH as nat);
    assert forall|i: int| 0 <= i < 16 implies !#[trigger] state.threat_at(
        square,
        by,
        depth,
        i,
    ) by {}
    assert forall|i: int| 0 <= i < 16 implies !#[trigger] state.threat_at(
        square,
        by,
        CASTLING_DEPTH as nat,
        i,
    ) by {}
}

/// Whether a move other than castling is pseudo-legal does not depend on how
/// deep castling is examined.
pub proof fn lemma_depth_free(state: BoardState, m: Move, depth: nat)
    requires
        state.castling_side(m) is None,
    ensures
        state.pseudo_legal_at(m, depth) == state.pseudo_legal(m),
        state.pseudo_legal(m) == (state.obeys_piece_rules(m) && state.path_clear(m)),
{
}

/// The origin of a knight's leap is among the candidates from which its
/// destination might be attacked.
pub proof fn lemma_leap_origin_is_candidate(state: BoardState, m: Move)
    requires
        m.on_board(),
        m.shape_spec() == Some(MoveShape::Knight),
    ensures
        0 <= leap_index(reversed(m)) < 8,
        state.attack_candidate(m.to, leap_index(reversed(m))) == Some(m.from),
{
    let i = leap_index(reversed(m));
    assert(m.to.shifted(knight_leap(i)) == m.from);
}

/// The origin of a move along a line, with a piece on it and none between it
/// and the destination, is among the candidates from which the destination
/// might be attacked: the ray cast from the destination ends there.
pub proof fn lemma_line_origin_is_candidate(state: BoardState, m: Move)
    requires
        m.on_board(),
        runs_along_line(m),
        state.piece_at(m.from) is Some,
        forall|j: int|
            1 <= j < span(m) ==> state.piece_at(#[trigger] along(m.from, m.step(), j)) is None,
    ensures
        0 <= direction_index(reversed(m).step()) < 8,
        state.attack_candidate(m.to, 8 + direction_index(reversed(m).step())) == Some(m.from),
{
    let back = reversed(m);
    lemma_track_is_line(m);
    lemma_track_is_line(back);
    let d = back.step();
    let n = span(m);
    assert(span(back) == n);
    assert(ray_direction(direction_index(d)) == d);
    assert forall|j: int| 1 <= j < n implies !(state.occupied())(#[trigger] along(m.to, d, j)) by {
        assert(along(m.to, d, j) == along(m.from, m.step(), n - j));
    }
    assert(along(m.to, d, n) == m.from);
    assert(along_on_board(m.to, d, 1));
    lemma_walk_ends(m.to, d, state.occupied(), n);
}

/// The origin of a pseudo-legal move is among the candidates from which its
/// destination might be attacked, so the destination is attacked by the
/// mover's colour.
pub proof fn lemma_move_is_threat(state: BoardState, m: Move, depth: nat)
    requires
        state.wf(),
        state.pseudo_legal_at(m, depth),
        reachable(state, m),
    ensures
        state.attacked_at(m.to, state.piece_at(m.from)->0.color, depth),
{
    let by = state.piece_at(m.from)->0.color;
    state.lemma_attacked_at(m.to, by, depth);
    if m.shape_spec() == Some(MoveShape::Knight) {
        lemma_leap_origin_is_candidate(state, m);
        let i = leap_index(reversed(m));
        assert(state.threat_at(m.to, by, depth, i));
    } else {
        lemma_track_is_line(m);
        if state.castling_side(m) is Some {
            assert forall|j: int| 1 <= j < span(m) implies state.piece_at(
                #[trigger] along(m.from, m.step(), j),
            ) is None by {
                assert(along(m.from, m.step(), j) == middle(m));
            }
        } else {
            lemma_path_clear_along_line(state, m);
        }
        lemma_line_origin_is_candidate(state, m);
        let i = 8 + direction_index(reversed(m).step());
        assert(state.threat_at(m.to, by, depth, i));
    }
}

/// What an attack is: a square is attacked by a colour exactly if a piece of
/// that colour has a pseudo-legal move onto it, castling over an occupied
/// square left aside.
pub proof fn lemma_attacked_iff_move(
    state: BoardState,
    square: Position,
    by: PieceColor,
    depth: nat,
)
    requires
        state.wf(),
    ensures
        state.attacked_at(square, by, depth) <==> exists|from: Position| #[trigger]
            attacks_from(state, from, square, by, depth),
{
    state.lemma_attacked_at(square, by, depth);
    if state.attacked_at(square, by, depth) {
        let i = choose|i: int| 0 <= i < 16 && #[trigger] state.threat_at(square, by, depth, i);
        let from = state.attack_candidate(square, i)->0;
        let m = Move { from, to: square };
        if state.castling_side(m) is Some {
            let d = ray_direction(i - 8);
            lemma_ray_shape(state, square, d);
            let ray = state.ray(square, d);
            assert(ray.last() == along(square, d, ray.len() as int));
            assert(ray.len() == 2);
            assert(ray[0] == along(square, d, 1));
            assert(middle(m) == ray[0]);
        }
        assert(attacks_from(state, from, square, by, depth));
    }
    if exists|from: Position| #[trigger] attacks_from(state, from, square, by, depth) {
        let from = choose|from: Position| #[trigger] attacks_from(state, from, square, by, depth);
        lemma_move_is_threat(state, Move { from, to: square }, depth);
    }
}

/// A sliding piece attacks along an open line: if the squares between it and
/// `target` are empty and an opposing piece stands on `target`, then its move
/// there is pseudo-legal, and `target` is attacked however deep castling is
/// examined.
pub proof fn lemma_slider_attacks(
    state: BoardState,
    target: Position,
    d: Offset,
    n: int,
    attacker: Piece,
    depth: nat,
)
    requires
        state.wf(),
        target.on_board(),
        d.is_step(),
        1 <= n,
        along_on_board(target, d, n),
        state.piece_at(along(target, d, n)) == Some(attacker),
        slides(attacker.type_, d),
        forall|j: int| 1 <= j < n ==> state.piece_at(#[trigger] along(target, d, j)) is None,
        state.piece_at(target) matches Some(victim) && victim.color != attacker.color,
    ensures
        state.pseudo_legal(Move { from: along(target, d, n), to: target }),
        state.attacked_at(target, attacker.color, depth),
{
    let from = along(target, d, n);
    let m = Move { from, to: target };
    let back = Offset { file: (-d.file) as i8, rank: (-d.rank) as i8 };
    assert(m.step() == back);
    assert(along_on_board(target, d, 1));
    // the ray from the target ends on the attacker
    assert forall|j: int| 1 <= j < n implies !(state.occupied())(#[trigger] along(target, d, j)) by {}
    lemma_walk_ends(target, d, state.occupied(), n);
    let i = 8 + direction_index(d);
    assert(ray_direction(direction_index(d)) == d);
    assert(state.attack_candidate(target, i) == Some(from));
    // the attacker's way to the target is clear
    assert(along(from, back, n) == target);
    assert forall|j: int| 1 <= j < n implies !(arrives_at(target))(
        #[trigger] along(from, back, j),
    ) by {}
    assert(along_on_board(from, back, 1));
    assert(along_on_board(from, back, n));
    lemma_walk_ends(from, back, arrives_at(target), n);
    let squares = m.track()->0;
    assert(squares == walk(from, back, arrives_at(target)));
    assert forall|j: int| 0 <= j < squares.len() && #[trigger] squares[j] != target implies state.piece_at(
        squares[j],
    ) is None by {
        assert(squares[j] == along(from, back, j + 1));
        assert(along(from, back, j + 1) == along(target, d, n - j - 1));
    }
    assert(state.path_clear(m));
    assert(state.castling_side(m) is None);
    lemma_depth_free(state, m, depth);
    assert(state.pseudo_legal(m));
    state.lemma_attacked_at(target, attacker.color, depth);
    assert(state.threat_at(target, attacker.color, depth, i));
}

/// A move on the board that is neither castling nor a capture en passant
/// changes two squares only: what stood on the origin stands on the
/// destination, and the origin is empty.
pub proof fn lemma_plain_move(state: BoardState, m: Move)
    requires
        state.wf(),
        m.on_board(),
        m.from != m.to,
        state.castling_side(m) is None,
        !state.is_en_passant(m),
    ensures
        state.after_move(m).wf(),
        state.after_move(m).piece_at(m.to) == state.piece_at(m.from),
        state.after_move(m).piece_at(m.from) is None,
        forall|square: Position|
            square != m.from && square != m.to ==> #[trigger] state.after_move(m).piece_at(square)
                == state.piece_at(square),
{
    let after = state.after_move(m);
    assert(after.squares == state.put(m.to, state.piece_at(m.from)).put(m.from, None).squares);
    assert forall|square: Position| square != m.from && square != m.to implies #[trigger] after.piece_at(
        square,
    ) == state.piece_at(square) by {
        if square.on_board() {
            assert(square.index() != m.from.index());
            assert(square.index() != m.to.index());
        }
    }
}

/// A pinned piece may not leave the line of the pin. The king of the side to
/// move, a piece of its own `a` squares away and a sliding piece of the
/// opponent `b` squares away stand on one line with nothing else between
/// them; then no move that carries the piece in between off that line is
/// legal, however pseudo-legal it may be. Left out are a pinned king and a
/// capture en passant, which move more than the piece itself.
pub proof fn lemma_pinned_piece_stays(
    state: BoardState,
    king: Position,
    d: Offset,
    a: int,
    b: int,
    m: Move,
)
    requires
        state.wf(),
        king.on_board(),
        state.first_king_at(state.turn.color(), king.index()),
        d.is_step(),
        1 <= a < b,
        along_on_board(king, d, b),
        m.from == along(king, d, a),
        forall|j: int|
            1 <= j < b && j != a ==> state.piece_at(#[trigger] along(king, d, j)) is None,
        state.piece_at(along(king, d, b)) matches Some(attacker) && attacker.color
            != state.turn.color() && slides(attacker.type_, d),
        state.piece_at(m.from) matches Some(pinned) && pinned.type_ != PieceType::King,
        !state.is_en_passant(m),
        forall|j: int| 0 <= j <= b ==> m.to != #[trigger] along(king, d, j),
    ensures
        !state.legal(m),
{
    if state.pseudo_legal(m) {
        let color = state.turn.color();
        let after = state.after_move(m);
        let from_king = king.index();
        let attacker = state.piece_at(along(king, d, b))->0;
        assert(Position::at(from_king) == king);
        assert(along(king, d, 0) == king);
        lemma_plain_move(state, m);
        assert forall|j: int| 1 <= j < b implies after.piece_at(#[trigger] along(king, d, j))
            is None by {
            if j != a {
                assert(along(king, d, j) != m.from);
            }
        }
        assert(after.piece_at(along(king, d, b)) == Some(attacker)) by {
            assert(along(king, d, b) != m.from);
        }
        assert(after.piece_at(king) == state.piece_at(king)) by {
            assert(king != m.from);
        }
        lemma_slider_attacks(after, king, d, b, attacker, CASTLING_DEPTH as nat);
        assert(attacker.color == color.opponent());
        assert(after.first_king_at(color, from_king)) by {
            assert forall|j: int| 0 <= j < from_king implies !#[trigger] after.king_at(
                color,
                j,
            ) by {
                let square = Position::at(j);
                assert(square.on_board() && square.index() == j);
                assert(!state.king_at(color, j));
                assert(after.piece_at(square) == after.squares[j]);
                assert(state.piece_at(square) == state.squares[j]);
            }
        }
        assert(after.in_check(color));
    }
}

/// A pinned piece may move along the line of the pin. With king, piece and
/// opposing slider standing on one line as in the law before, a move of the
/// piece to another square of that line, between the king and the slider or
/// onto the slider, leaves the slider's square without a pseudo-legal move to
/// the king: the line stays blocked, or the slider is taken.
pub proof fn lemma_pinned_piece_may_slide(
    state: BoardState,
    king: Position,
    d: Offset,
    a: int,
    b: int,
    j: int,
    m: Move,
)
    requires
        state.wf(),
        king.on_board(),
        state.piece_at(king) matches Some(own) && own.color == state.turn.color(),
        d.is_step(),
        1 <= a < b,
        along_on_board(king, d, b),
        m.from == along(king, d, a),
        state.piece_at(along(king, d, b)) is Some,
        state.piece_at(m.from) matches Some(pinned) && pinned.type_ != PieceType::King
            && pinned.color == state.turn.color(),
        !state.is_en_passant(m),
        1 <= j <= b && j != a,
        m.to == along(king, d, j),
    ensures
        !state.after_move(m).pseudo_legal(Move { from: along(king, d, b), to: king }),
{
    let after = state.after_move(m);
    let slider = along(king, d, b);
    let back = Move { from: slider, to: king };
    lemma_plain_move(state, m);
    assert(after.piece_at(king) == state.piece_at(king)) by {
        assert(along(king, d, 0) == king);
    }
    if after.pseudo_legal(back) {
        assert(after.piece_at(slider) is Some);
        if j == b {
            // the piece has taken the slider's place, on its own king's side
            assert(after.piece_at(slider) == state.piece_at(m.from));
            if after.castling_side(back) is None {
                assert(!after.path_clear(back));
            }
        } else {
            assert(after.piece_at(slider) == state.piece_at(slider)) by {
                assert(slider != m.from);
                assert(slider != m.to);
            }
            assert(after.castling_side(back) is None) by {
                if after.castling_side(back) is Some {
                    assert(span(back) == 2);
                }
            }
            assert(runs_along_line(back)) by {
                assert(back.shape_spec() != Some(MoveShape::Knight));
            }
            lemma_path_clear_along_line(after, back);
            lemma_track_is_line(back);
            assert(span(back) == b);
            assert(along(slider, back.step(), b - j) == m.to);
            assert(after.piece_at(along(slider, back.step(), b - j)) is Some);
        }
    }
}

} // verus!
