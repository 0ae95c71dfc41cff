//! The legality oracle: rays, obstruction, captures, castling, attack
//! detection, check, and the enumeration of legal moves.

use crate::board::{Board, MoveTurn, Position};
use crate::laws::castling::{king_home, may_castle, rights_consistent};
use crate::model::{BoardState, CastlingSide, CASTLING_DEPTH};
use crate::piece::{
    arrives_at, lemma_trail_nonempty, trail, walk, Move, MoveShape, Offset, Piece, PieceColor,
    PieceType,
};
use vstd::prelude::*;

verus! {

impl Board {
    /// Casts a ray from `start_pos`: the first occupied square in that
    /// direction with its piece, or the last square before the edge of the
    /// board. Fails where not even one step stays on the board.
    pub fn cast_ray(&self, start_pos: Position, direction: Offset) -> (r: Result<
        (Position, Option<Piece>),
        String,
    >)
        requires
            direction.is_step(),
        ensures
            match r {
                Ok((pos, piece)) => {
                    &&& self@.ray(start_pos, direction).len() > 0
                    &&& pos == self@.ray(start_pos, direction).last()
                    &&& piece == self@.piece_at(pos)
                },
                Err(e) => {
                    &&& self@.ray(start_pos, direction).len() == 0
                    &&& e@ == "No valid positions in this direction"@
                },
            },
    {
        let ghost stop = self@.occupied();
        let Some(first) = start_pos.stepped(direction) else {
            return Err(String::from_str("No valid positions in this direction"));
        };
        proof {
            lemma_trail_nonempty(first, direction, stop);
        }
        let mut current = first;
        loop
            invariant
                direction.is_step(),
                current.on_board(),
                stop == self@.occupied(),
                self@.ray(start_pos, direction).len() > 0,
                trail(current, direction, stop).last() == self@.ray(start_pos, direction).last(),
            decreases current.room(direction),
        {
            let piece = self.piece_at_pos(current);
            if piece.is_some() {
                return Ok((current, piece));
            }
            match current.stepped(direction) {
                None => {
                    return Ok((current, None));
                },
                Some(next) => {
                    proof {
                        lemma_trail_nonempty(next, direction, stop);
                    }
                    current = next;
                },
            }
        }
    }

    /// The squares a ray cast from `start_pos` passes over, in order.
    pub fn ray_squares(&self, start_pos: Position, direction: Offset) -> (r: Vec<Position>)
        requires
            direction.is_step(),
        ensures
            r@ == self@.ray(start_pos, direction),
    {
        let ghost stop = self@.occupied();
        let ghost full = self@.ray(start_pos, direction);
        let mut squares: Vec<Position> = Vec::new();
        let Some(first) = start_pos.stepped(direction) else {
            assert(squares@ =~= full);
            return squares;
        };
        let mut current = first;
        loop
            invariant
                direction.is_step(),
                current.on_board(),
                stop == self@.occupied(),
                full == self@.ray(start_pos, direction),
                squares@ + trail(current, direction, stop) == full,
            decreases current.room(direction),
        {
            squares.push(current);
            if self.piece_at_pos(current).is_some() {
                assert(squares@ =~= full);
                return squares;
            }
            match current.stepped(direction) {
                None => {
                    assert(squares@ =~= full);
                    return squares;
                },
                Some(next) => {
                    assert(squares@ + trail(next, direction, stop) =~= full);
                    current = next;
                },
            }
        }
    }

    /// Whether the move is a pawn's diagonal step forward onto the en-passant
    /// target.
    pub fn is_move_en_passant(&self, move_: Move) -> (r: bool)
        ensures
            r == self@.is_en_passant(move_),
    {
        let Some(en_passant_target) = self.en_passant_target() else {
            return false;
        };
        if move_.to != en_passant_target {
            return false;
        }
        let Some(moving_piece) = self.piece_at_pos(move_.from) else {
            return false;
        };
        match moving_piece.type_ {
            PieceType::Pawn => {},
            _ => {
                return false;
            },
        }
        match (move_.shape(), moving_piece.color) {
            (Some(MoveShape::Diagonal(data)), PieceColor::White) => data.forward_only
                && data.distance == 1,
            (Some(MoveShape::Diagonal(data)), PieceColor::Black) => data.backward_only
                && data.distance == 1,
            _ => false,
        }
    }

    /// Whether the move takes a piece: en passant, or by landing on an
    /// opposing piece.
    pub fn is_move_capture(&self, move_: Move) -> (r: bool)
        ensures
            r == self@.is_capture(move_),
    {
        if self.is_move_en_passant(move_) {
            return true;
        }
        let Some(moving_piece) = self.piece_at_pos(move_.from) else {
            return false;
        };
        let Some(target_piece) = self.piece_at_pos(move_.to) else {
            return false;
        };
        moving_piece.color != target_piece.color
    }

    /// The side on which the move castles, if it is a king's straight move of
    /// two squares.
    pub fn get_castling(&self, move_: Move) -> (r: Option<CastlingSide>)
        ensures
            r == self@.castling_side(move_),
    {
        let Some(moving_piece) = self.piece_at_pos(move_.from) else {
            return None;
        };
        match moving_piece.type_ {
            PieceType::King => {},
            _ => {
                return None;
            },
        }
        let Some(shape) = move_.shape() else {
            return None;
        };
        match shape {
            MoveShape::Straight(data) => {
                if data.distance == 2 {
                    if move_.to.file > move_.from.file {
                        Some(CastlingSide::Kingside)
                    } else {
                        Some(CastlingSide::Queenside)
                    }
                } else {
                    None
                }
            },
            _ => None,
        }
    }

    /// Whether nothing stands in the way of the move: the squares before its
    /// destination are empty, and the destination is empty or holds an
    /// opposing piece.
    pub fn path_clear(&self, move_: Move) -> (r: bool)
        ensures
            r == self@.path_clear(move_),
    {
        let Some(moving_piece) = self.piece_at_pos(move_.from) else {
            return false;
        };
        let Some(shape) = move_.shape() else {
            return false;
        };
        match shape {
            MoveShape::Knight => {},
            _ => {
                let step = move_.direction();
                let to = move_.to;
                let ghost stop = arrives_at(to);
                let ghost full = walk(move_.from, step, stop);
                let ghost mut done: Seq<Position> = Seq::empty();
                let mut next = move_.from.stepped(step);
                assert(move_.track() == Some(full));
                loop
                    invariant_except_break
                        done + (match next {
                            Some(current) => trail(current, step, stop),
                            None => Seq::empty(),
                        }) == full,
                    invariant
                        step.is_step(),
                        stop == arrives_at(to),
                        to == move_.to,
                        move_.track() == Some(full),
                        next matches Some(current) ==> current.on_board(),
                        forall|i: int| 0 <= i < done.len() ==> self@.piece_at(done[i]) is None,
                    ensures
                        forall|i: int|
                            0 <= i < full.len() && #[trigger] full[i] != to ==> self@.piece_at(
                                full[i],
                            ) is None,
                    decreases
                            (match next {
                                Some(current) => current.room(step) + 1,
                                None => 0,
                            }),
                {
                    let Some(current) = next else {
                        assert(done =~= full);
                        break ;
                    };
                    if current == to {
                        assert(done.push(to) =~= full);
                        break ;
                    }
                    if self.piece_at_pos(current).is_some() {
                        assert(full[done.len() as int] == current);
                        return false;
                    }
                    next = current.stepped(step);
                    proof {
                        let ghost rest = match next {
                            Some(following) => trail(following, step, stop),
                            None => Seq::empty(),
                        };
                        assert(done.push(current) + rest =~= full);
                        done = done.push(current);
                    }
                }
            },
        }
        if let Some(target_piece) = self.piece_at_pos(move_.to) {
            target_piece.color != moving_piece.color
        } else {
            true
        }
    }

    /// The `i`-th square from which `square` might be attacked.
    pub fn attack_candidate(&self, square: Position, i: usize) -> (r: Option<Position>)
        requires
            square.on_board(),
            i < 16,
        ensures
            r == self@.attack_candidate(square, i as int),
    {
        if i < 8 {
            Some(square + Offset::knight_leap(i))
        } else {
            match self.cast_ray(square, Offset::ray_direction(i - 8)) {
                Ok((pos, _)) => Some(pos),
                Err(_) => None,
            }
        }
    }

    /// Whether a piece of colour `by` has a pseudo-legal move to `square`,
    /// with castling examined to the given depth.
    pub fn attacked_within(&self, square: Position, by: PieceColor, depth: u8) -> (r: bool)
        ensures
            r == self@.attacked_at(square, by, depth as nat),
        decreases depth, 2nat,
    {
        if !square.is_on_board() {
            proof {
                self@.lemma_attacked_at(square, by, depth as nat);
            }
            assert forall|i: int| 0 <= i < 16 implies !#[trigger] self@.threat_at(
                square,
                by,
                depth as nat,
                i,
            ) by {}
            return false;
        }
        let mut i: usize = 0;
        while i < 16
            invariant
                i <= 16,
                square.on_board(),
                forall|j: int|
                    0 <= j < i ==> !#[trigger] self@.threat_at(square, by, depth as nat, j),
            decreases 16 - i,
        {
            if let Some(from) = self.attack_candidate(square, i) {
                if let Some(piece) = self.piece_at_pos(from) {
                    if piece.color == by && self.pseudo_legal_within(
                        Move::new(from, square),
                        depth,
                    ) {
                        proof {
                            self@.lemma_attacked_at(square, by, depth as nat);
                            assert(self@.threat_at(square, by, depth as nat, i as int));
                        }
                        return true;
                    }
                }
            }
            i = i + 1;
        }
        proof {
            self@.lemma_attacked_at(square, by, depth as nat);
        }
        false
    }

    /// Whether a piece of colour `attacking_color` has a pseudo-legal move to
    /// `square_pos`.
    pub fn is_pos_attacked(&self, square_pos: Position, attacking_color: PieceColor) -> (r: bool)
        ensures
            r == self@.attacked(square_pos, attacking_color),
    {
        self.attacked_within(square_pos, attacking_color, CASTLING_DEPTH)
    }

    /// Whether the move is pseudo-legal, with castling examined to the given
    /// depth.
    pub fn pseudo_legal_within(&self, move_: Move, depth: u8) -> (r: bool)
        ensures
            r == self@.pseudo_legal_at(move_, depth as nat),
        decreases depth, 1nat,
    {
        if !move_.is_on_board() {
            return false;
        }
        let Some(moving_piece) = self.piece_at_pos(move_.from) else {
            return false;
        };
        let Some(shape) = move_.shape() else {
            return false;
        };
        if !moving_piece.shape_allowed(shape) {
            return false;
        }
        if let PieceType::Pawn = moving_piece.type_ {
            if !moving_piece.validate_pawn_rules(move_, self.is_move_capture(move_)) {
                return false;
            }
        }
        if let PieceType::King = moving_piece.type_ {
            if self.get_castling(move_).is_some() {
                return self.castling_valid_within(move_, depth);
            }
        }
        self.path_clear(move_)
    }

    /// Whether the move obeys the movement and obstruction rules. It may
    /// still leave the mover's own king in check.
    pub fn move_pseudo_legal(&self, move_: Move) -> (r: bool)
        ensures
            r == self@.pseudo_legal(move_),
    {
        proof {
            self@.lemma_top_level(move_);
        }
        self.pseudo_legal_within(move_, CASTLING_DEPTH + 1)
    }

    /// Whether the board is ready for castling by this move, attacks apart:
    /// the move is a king's straight move of two squares, the right on that
    /// side is held, and the ray from the rook's home square ends on the king.
    pub fn castling_ready(&self, move_: Move) -> (r: bool)
        ensures
            r == self@.castling_ready(move_),
    {
        let Some(moving_piece) = self.piece_at_pos(move_.from) else {
            return false;
        };
        let Some(castling_side) = self.get_castling(move_) else {
            return false;
        };
        let is_kingside = match castling_side {
            CastlingSide::Kingside => true,
            CastlingSide::Queenside => false,
        };
        if !self.castling_rights().can_castle(moving_piece.color, is_kingside) {
            return false;
        }
        let rook_file: i8 = if is_kingside {
            7
        } else {
            0
        };
        let rook_pos = Position::new(rook_file, move_.from.rank);
        let direction = if is_kingside {
            Offset::new(-1, 0)
        } else {
            Offset::new(1, 0)
        };
        match self.cast_ray(rook_pos, direction) {
            Ok((pos, Some(found))) => match found.type_ {
                PieceType::King => pos == move_.from,
                _ => false,
            },
            _ => false,
        }
    }

    /// Whether castling by this move is allowed, with castling examined to
    /// the given depth: never at depth 0; otherwise where the board is ready
    /// for it and no square of the king's way is attacked one level below.
    pub fn castling_valid_within(&self, move_: Move, depth: u8) -> (r: bool)
        ensures
            r == self@.castling_valid_at(move_, depth as nat),
        decreases depth, 0nat,
    {
        if depth == 0 {
            return false;
        }
        if !self.castling_ready(move_) {
            return false;
        }
        let Some(moving_piece) = self.piece_at_pos(move_.from) else {
            return false;
        };
        let Some(castling_side) = self.get_castling(move_) else {
            return false;
        };
        let attacking_color = match moving_piece.color {
            PieceColor::White => PieceColor::Black,
            PieceColor::Black => PieceColor::White,
        };
        let king_direction = match castling_side {
            CastlingSide::Kingside => Offset::new(1, 0),
            CastlingSide::Queenside => Offset::new(-1, 0),
        };
        let first = move_.from;
        let second = first + king_direction;
        let third = second + king_direction;
        let hit_first = self.attacked_within(first, attacking_color, depth - 1);
        let hit_second = self.attacked_within(second, attacking_color, depth - 1);
        let hit_third = self.attacked_within(third, attacking_color, depth - 1);
        let safe = !hit_first && !hit_second && !hit_third;
        proof {
            let state = self@;
            let below = (depth - 1) as nat;
            assert(first == BoardState::king_way(move_, castling_side, 0));
            assert(second == BoardState::king_way(move_, castling_side, 1));
            assert(third == BoardState::king_way(move_, castling_side, 2));
            assert(attacking_color == moving_piece.color.opponent());
            assert(safe == state.way_safe_at(move_, below));
        }
        safe
    }

    /// Whether castling by this move is allowed: the right is held, the ray
    /// from the rook's home square ends on the king, and the king neither
    /// starts on, passes over nor lands on a square that the opponent
    /// attacks.
    pub fn validate_castling(&self, move_: Move) -> (r: bool)
        ensures
            r == self@.castling_valid(move_),
    {
        proof {
            self@.lemma_top_level(move_);
        }
        self.castling_valid_within(move_, CASTLING_DEPTH + 1)
    }

    /// The square of the first king of `color`, by index.
    pub fn find_king(&self, color: PieceColor) -> (r: Option<Position>)
        ensures
            match r {
                Some(pos) => pos.on_board() && self@.first_king_at(color, pos.index()),
                None => forall|i: int| !self@.king_at(color, i),
            },
    {
        let mut index: usize = 0;
        while index < 64
            invariant
                index <= 64,
                forall|j: int| 0 <= j < index ==> !#[trigger] self@.king_at(color, j),
            decreases 64 - index,
        {
            let pos = Position::from_index(index);
            if let Some(piece) = self.piece_at_pos(pos) {
                if piece.color == color {
                    if let PieceType::King = piece.type_ {
                        return Some(pos);
                    }
                }
            }
            index = index + 1;
        }
        None
    }

    /// Whether the castling rights agree with the kings: no king of a side
    /// that still holds a right stands off its home square. This holds of the
    /// starting position and goes on holding whatever move is made; a board
    /// read from notation or built from its parts may lack it.
    pub fn rights_agree_with_kings(&self) -> (r: bool)
        ensures
            r == rights_consistent(self@),
    {
        let rights = self.castling_rights();
        let white = rights.can_castle(PieceColor::White, true) || rights.can_castle(
            PieceColor::White,
            false,
        );
        let black = rights.can_castle(PieceColor::Black, true) || rights.can_castle(
            PieceColor::Black,
            false,
        );
        let mut index: usize = 0;
        while index < 64
            invariant
                index <= 64,
                white == may_castle(self@, PieceColor::White),
                black == may_castle(self@, PieceColor::Black),
                forall|color: PieceColor, i: int|
                    0 <= i < index && may_castle(self@, color) && #[trigger] self@.king_at(
                        color,
                        i,
                    ) ==> i == king_home(color).index(),
            decreases 64 - index,
        {
            let pos = Position::from_index(index);
            if let Some(piece) = self.piece_at_pos(pos) {
                if let PieceType::King = piece.type_ {
                    let stray = match piece.color {
                        PieceColor::White => white && index != 4,
                        PieceColor::Black => black && index != 60,
                    };
                    if stray {
                        assert(self@.king_at(piece.color, index as int));
                        return false;
                    }
                }
            }
            index = index + 1;
        }
        true
    }

    /// Whether the first king of `color` is attacked. A side without a king
    /// is never in check.
    pub fn is_in_check(&self, color: PieceColor) -> (r: bool)
        ensures
            r == self@.in_check(color),
            (forall|i: int| !self@.king_at(color, i)) ==> !r,
    {
        let Some(king_pos) = self.find_king(color) else {
            return false;
        };
        let attacking_color = match color {
            PieceColor::White => PieceColor::Black,
            PieceColor::Black => PieceColor::White,
        };
        let r = self.is_pos_attacked(king_pos, attacking_color);
        proof {
            let k = king_pos.index();
            assert(Position::at(k) == king_pos);
            assert forall|i: int| #[trigger] self@.first_king_at(color, i) implies i == k by {
                if i < k {
                    assert(self@.king_at(color, i));
                } else if k < i {
                    assert(self@.king_at(color, k));
                }
            }
        }
        r
    }

    /// Whether the move is pseudo-legal and, once made on a copy of the board,
    /// leaves the king of the side to move out of check.
    pub fn move_legal(&self, move_: Move) -> (r: bool)
        ensures
            r == self@.legal(move_),
    {
        if !self.move_pseudo_legal(move_) {
            return false;
        }
        let mut test_board = *self;
        if let Err(_) = test_board.make_move(move_) {
            return false;
        }
        let moving_color = match self.move_turn() {
            MoveTurn::White => PieceColor::White,
            MoveTurn::Black => PieceColor::Black,
        };
        !test_board.is_in_check(moving_color)
    }

    /// Appends to `moves` those of `candidates` to which the piece on `pos`
    /// has a legal move, in their order.
    pub fn keep_legal(&self, pos: Position, candidates: &Vec<Position>, moves: &mut Vec<Position>)
        ensures
            final(moves)@ == old(moves)@ + candidates@.filter(self@.legal_from(pos)),
    {
        let ghost legal = self@.legal_from(pos);
        let ghost before = moves@;
        let mut i: usize = 0;
        proof {
            reveal(Seq::filter);
            assert(candidates@.take(0).filter(legal) =~= Seq::empty());
            assert(before + Seq::empty() =~= before);
        }
        while i < candidates.len()
            invariant
                i <= candidates.len(),
                legal == self@.legal_from(pos),
                moves@ == before + candidates@.take(i as int).filter(legal),
            decreases candidates.len() - i,
        {
            let to = candidates[i];
            let keep = self.move_legal(Move::new(pos, to));
            proof {
                lemma_filter_push(candidates@.take(i as int), to, legal);
                assert(candidates@.take(i as int).push(to) =~= candidates@.take(i + 1));
            }
            if keep {
                moves.push(to);
            }
            i = i + 1;
        }
        assert(candidates@.take(candidates.len() as int) =~= candidates@);
    }

    /// The destinations of the legal moves of the piece on `pos`: none where
    /// the square is empty.
    pub fn legal_moves(&self, pos: Position) -> (r: Vec<Position>)
        ensures
            r@ == self@.destinations(pos),
    {
        let mut moves: Vec<Position> = Vec::new();
        let Some(_piece) = self.piece_at_pos(pos) else {
            return moves;
        };
        let ghost legal = self@.legal_from(pos);
        let mut leaps: Vec<Position> = Vec::new();
        let mut i: usize = 0;
        while i < 8
            invariant
                i <= 8,
                pos.on_board(),
                leaps@ == BoardState::leap_targets(pos, i as int),
            decreases 8 - i,
        {
            leaps.push(pos + Offset::knight_leap(i));
            i = i + 1;
            assert(leaps@ =~= BoardState::leap_targets(pos, i as int));
        }
        self.keep_legal(pos, &leaps, &mut moves);
        assert(moves@ =~= leaps@.filter(legal));
        let mut d: usize = 0;
        assert(leaps@ + self@.ray_targets(pos, 0) =~= leaps@);
        while d < 8
            invariant
                d <= 8,
                legal == self@.legal_from(pos),
                leaps@ == BoardState::leap_targets(pos, 8),
                moves@ == (leaps@ + self@.ray_targets(pos, d as int)).filter(legal),
            decreases 8 - d,
        {
            let squares = self.ray_squares(pos, Offset::ray_direction(d));
            self.keep_legal(pos, &squares, &mut moves);
            proof {
                let sofar = leaps@ + self@.ray_targets(pos, d as int);
                Seq::filter_distributes_over_add(sofar, squares@, legal);
                assert(sofar + squares@ =~= leaps@ + self@.ray_targets(pos, d + 1));
            }
            d = d + 1;
        }
        moves
    }

    /// Every legal move of the side to move: for each square that holds one
    /// of its pieces, in the order of the squares, the legal moves from there.
    pub fn all_legal_moves(&self) -> (r: Vec<Move>)
        ensures
            r@ == self@.all_moves(),
    {
        let turn_color = match self.move_turn() {
            MoveTurn::White => PieceColor::White,
            MoveTurn::Black => PieceColor::Black,
        };
        let mut moves: Vec<Move> = Vec::new();
        let mut index: usize = 0;
        while index < 64
            invariant
                index <= 64,
                turn_color == self@.turn.color(),
                moves@ == self@.moves_upto(index as int),
            decreases 64 - index,
        {
            let pos = Position::from_index(index);
            let ghost before = moves@;
            if let Some(piece) = self.piece_at_pos(pos) {
                if piece.color == turn_color {
                    let targets = self.legal_moves(pos);
                    let ghost to_move = |to: Position| Move { from: pos, to };
                    let mut j: usize = 0;
                    assert(before + targets@.take(0).map_values(to_move) =~= before);
                    while j < targets.len()
                        invariant
                            j <= targets.len(),
                            to_move == (|to: Position| Move { from: pos, to }),
                            moves@ == before + targets@.take(j as int).map_values(to_move),
                        decreases targets.len() - j,
                    {
                        moves.push(Move::new(pos, targets[j]));
                        j = j + 1;
                        assert(moves@ =~= before + targets@.take(j as int).map_values(to_move));
                    }
                    assert(targets@.take(targets.len() as int) =~= targets@);
                    assert(moves@ == before + self@.moves_from(pos));
                }
            }
            index = index + 1;
        }
        moves
    }
}

/// Filtering a sequence with one more element keeps that element exactly
/// where it passes the test.
pub proof fn lemma_filter_push<A>(s: Seq<A>, x: A, pred: spec_fn(A) -> bool)
    ensures
        s.push(x).filter(pred) == if pred(x) {
            s.filter(pred).push(x)
        } else {
            s.filter(pred)
        },
{
    reveal(Seq::filter);
    assert(s.push(x).drop_last() =~= s);
}

} // verus!
