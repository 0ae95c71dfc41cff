//! Laws of the enumeration of legal moves: it is sound, and complete but for
//! castling over an occupied square.

use crate::board::Position;
use crate::laws::attack::reachable;
use crate::lines::{
    along, direction_index, leap_index, middle, span, lemma_track_is_line, lemma_trail_along,
};
use crate::model::{knight_leap, ray_direction, BoardState};
use crate::piece::{Move, MoveShape};
use vstd::prelude::*;

verus! {

/// The squares of each of the first `n` rays are among the ray targets.
pub proof fn lemma_ray_targets_hold(state: BoardState, pos: Position, n: int, i: int, j: int)
    requires
        0 <= i < n,
        0 <= j < state.ray(pos, ray_direction(i)).len(),
    ensures
        state.ray_targets(pos, n).contains(state.ray(pos, ray_direction(i))[j]),
    decreases n,
{
    let before = state.ray_targets(pos, n - 1);
    let last = state.ray(pos, ray_direction(n - 1));
    if i == n - 1 {
        assert((before + last)[before.len() + j] == last[j]);
    } else {
        lemma_ray_targets_hold(state, pos, n - 1, i, j);
        let at = choose|at: int| 0 <= at < before.len() && before[at] == state.ray(
            pos,
            ray_direction(i),
        )[j];
        assert((before + last)[at] == before[at]);
    }
}

/// Every ray target lies on one of the rays.
pub proof fn lemma_ray_targets_come_from(state: BoardState, pos: Position, n: int, to: Position) -> (found: (int, int))
    requires
        0 <= n,
        state.ray_targets(pos, n).contains(to),
    ensures
        0 <= found.0 < n,
        0 <= found.1 < state.ray(pos, ray_direction(found.0)).len(),
        state.ray(pos, ray_direction(found.0))[found.1] == to,
    decreases n,
{
    let before = state.ray_targets(pos, n - 1);
    let last = state.ray(pos, ray_direction(n - 1));
    let at = choose|at: int| 0 <= at < (before + last).len() && (before + last)[at] == to;
    if at < before.len() {
        assert(before[at] == to);
        lemma_ray_targets_come_from(state, pos, n - 1, to)
    } else {
        (n - 1, at - before.len())
    }
}

/// The destination of a pseudo-legal move is among the candidate
/// destinations from its origin, unless the move is castling over an
/// occupied square.
pub proof fn lemma_targets_hold_destination(state: BoardState, m: Move)
    requires
        state.wf(),
        state.pseudo_legal(m),
        reachable(state, m),
    ensures
        state.targets(m.from).contains(m.to),
{
    let leaps = BoardState::leap_targets(m.from, 8);
    let rays = state.ray_targets(m.from, 8);
    if m.shape_spec() == Some(MoveShape::Knight) {
        let i = leap_index(m);
        assert(m.from.shifted(knight_leap(i)) == m.to);
        assert(leaps[i] == m.to);
        assert((leaps + rays)[i] == m.to);
    } else {
        lemma_track_is_line(m);
        let d = m.step();
        let n = span(m);
        let i = direction_index(d);
        assert(ray_direction(i) == d);
        let squares = m.track()->0;
        assert forall|j: int| 0 <= j < n - 1 implies !(state.occupied())(
            #[trigger] along(m.from.shifted(d), d, j),
        ) by {
            assert(along(m.from.shifted(d), d, j) == along(m.from, d, j + 1));
            let square = along(m.from, d, j + 1);
            assert(squares[j] == square);
            assert(square != m.to);
            if state.castling_side(m) is Some {
                assert(square == middle(m));
            }
        }
        assert(along(m.from, d, 1) == m.from.shifted(d));
        assert(along(m.from.shifted(d), d, n - 1) == m.to);
        lemma_trail_along(m.from.shifted(d), d, state.occupied(), n - 1);
        let ray = state.ray(m.from, d);
        assert(ray[n - 1] == m.to);
        lemma_ray_targets_hold(state, m.from, 8, i, n - 1);
        let at = choose|at: int| 0 <= at < rays.len() && rays[at] == m.to;
        assert((leaps + rays)[leaps.len() + at] == m.to);
    }
}

/// The enumeration from a square is sound and complete: it holds the
/// destinations of legal moves only, and the destination of every legal move
/// from that square but castling over an occupied square.
pub proof fn lemma_destinations_exact(state: BoardState, m: Move)
    requires
        state.wf(),
    ensures
        state.destinations(m.from).contains(m.to) ==> state.legal(m) && state.targets(
            m.from,
        ).contains(m.to),
        state.legal(m) && reachable(state, m) ==> state.destinations(m.from).contains(m.to),
{
    let legal = state.legal_from(m.from);
    let targets = state.targets(m.from);
    if state.destinations(m.from).contains(m.to) {
        targets.lemma_filter_contains_rev(legal, m.to);
        let found = targets.filter(legal);
        let at = choose|at: int| 0 <= at < found.len() && found[at] == m.to;
        targets.lemma_filter_pred(legal, at);
    }
    if state.legal(m) && reachable(state, m) {
        lemma_targets_hold_destination(state, m);
        let at = choose|at: int| 0 <= at < targets.len() && targets[at] == m.to;
        targets.lemma_filter_contains(legal, at);
    }
}

/// The moves enumerated from the first `n` squares are the legal moves of the
/// side to move from those squares: all of them are such moves, and every
/// such move is among them but castling over an occupied square.
pub proof fn lemma_moves_upto_exact(state: BoardState, n: int, m: Move)
    requires
        state.wf(),
        0 <= n <= 64,
    ensures
        state.moves_upto(n).contains(m) ==> state.legal(m) && m.from.index() < n && (
        state.piece_at(m.from) matches Some(mover) && mover.color == state.turn.color()),
        state.legal(m) && reachable(state, m) && m.from.index() < n && (state.piece_at(
            m.from,
        ) matches Some(mover) && mover.color == state.turn.color()) ==> state.moves_upto(
            n,
        ).contains(m),
    decreases n,
{
    if n > 0 {
        let pos = Position::at(n - 1);
        assert(pos.on_board() && pos.index() == n - 1);
        let rest = state.moves_upto(n - 1);
        let here = state.moves_from(pos);
        let to_move = state.piece_at(pos) matches Some(piece) && piece.color == state.turn.color();
        lemma_moves_upto_exact(state, n - 1, m);
        let from_pos = Move { from: pos, to: m.to };
        lemma_destinations_exact(state, from_pos);
        if state.moves_upto(n).contains(m) {
            let all = state.moves_upto(n);
            let at = choose|at: int| 0 <= at < all.len() && all[at] == m;
            if at < rest.len() {
                assert(rest[at] == m);
            } else {
                assert(to_move);
                let k = at - rest.len();
                assert(here[k] == m);
                assert(m.from == pos);
                assert(state.destinations(pos)[k] == m.to);
            }
        }
        if state.legal(m) && reachable(state, m) && m.from.index() < n && (state.piece_at(
            m.from,
        ) matches Some(mover) && mover.color == state.turn.color()) {
            if m.from.index() < n - 1 {
                let at = choose|at: int| 0 <= at < rest.len() && rest[at] == m;
                if to_move {
                    assert((rest + here)[at] == m);
                }
            } else {
                assert(m.from == pos);
                let dests = state.destinations(pos);
                let k = choose|k: int| 0 <= k < dests.len() && dests[k] == m.to;
                assert(here[k] == m);
                assert((rest + here)[rest.len() + k] == m);
            }
        }
    }
}

/// The enumeration of all legal moves is sound and complete: it holds legal
/// moves of pieces of the side to move only, and every such move but
/// castling over an occupied square.
pub proof fn lemma_all_moves_exact(state: BoardState, m: Move)
    requires
        state.wf(),
    ensures
        state.all_moves().contains(m) ==> state.legal(m) && (state.piece_at(
            m.from,
        ) matches Some(mover) && mover.color == state.turn.color()),
        state.legal(m) && reachable(state, m) && (state.piece_at(m.from) matches Some(mover)
            && mover.color == state.turn.color()) ==> state.all_moves().contains(m),
{
    lemma_moves_upto_exact(state, 64, m);
}

} // verus!
