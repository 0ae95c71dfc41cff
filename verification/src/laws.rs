//! What holds of every board and every move: laws of the rules, proved over
//! the model of the board.

pub mod attack;
pub mod castling;
pub mod en_passant;
pub mod enumeration;

use crate::model::BoardState;
use crate::piece::{Move, PieceColor};
use vstd::prelude::*;

verus! {

/// A legal move is pseudo-legal.
pub proof fn lemma_legal_is_pseudo_legal(state: BoardState, m: Move)
    ensures
        state.legal(m) ==> state.pseudo_legal(m),
{
}

/// A pseudo-legal move has both squares on the board, so applying it does not
/// fail.
pub proof fn lemma_pseudo_legal_on_board(state: BoardState, m: Move)
    ensures
        state.pseudo_legal(m) ==> m.on_board(),
{
}

/// A side without a king is not in check.
pub proof fn lemma_no_king_no_check(state: BoardState, color: PieceColor)
    requires
        forall|i: int| !state.king_at(color, i),
    ensures
        !state.in_check(color),
{
}

/// A move with a square off the board changes neither rights, target nor
/// turn; a move on the board passes the turn to the other side.
pub proof fn lemma_turn_alternates(state: BoardState, m: Move)
    requires
        state.wf(),
    ensures
        m.on_board() ==> state.after_move(m).turn == state.turn.flipped(),
        !m.on_board() ==> state.after_move(m).turn == state.turn && state.after_move(m).rights
            == state.rights && state.after_move(m).en_passant == state.en_passant,
        state.after_move(m).wf(),
{
}

} // verus!
