//! The mathematical model of a board and the rules of movement stated over it.
//! Every contract of the executable board speaks of these definitions.

use crate::board::{CastlingRights, MoveTurn, Position};
use crate::piece::{walk, Move, MoveShape, Offset, Piece, PieceColor, PieceType};
use vstd::prelude::*;

verus! {

/// The side towards which a king castles.
#[derive(Clone, Copy, PartialEq, Eq, Debug, Structural)]
pub enum CastlingSide {
    Kingside,
    Queenside,
}

/// How deep castling is examined when attacks are looked for. An attack may
/// be a castling move, whose validation looks for attacks in turn; each such
/// turn goes one level down, and at the last level no castling is allowed.
/// There are 128 pairs of square and colour, and an examination that comes
/// back to a pair it is working on would never end; so no examination that
/// ends needs more levels than this.
pub const CASTLING_DEPTH: u8 = 128;

/// The eight leaps of a knight, in the order in which they are tried.
pub open spec fn knight_leap(i: int) -> Offset {
    if i == 0 {
        Offset { file: 2, rank: 1 }
    } else if i == 1 {
        Offset { file: 2, rank: -1i8 }
    } else if i == 2 {
        Offset { file: -2i8, rank: 1 }
    } else if i == 3 {
        Offset { file: -2i8, rank: -1i8 }
    } else if i == 4 {
        Offset { file: 1, rank: 2 }
    } else if i == 5 {
        Offset { file: 1, rank: -2i8 }
    } else if i == 6 {
        Offset { file: -1i8, rank: 2 }
    } else {
        Offset { file: -1i8, rank: -2i8 }
    }
}

/// The eight directions of a ray, straight ones first, in the order in which
/// they are tried.
pub open spec fn ray_direction(i: int) -> Offset {
    if i == 0 {
        Offset { file: 1, rank: 0 }
    } else if i == 1 {
        Offset { file: -1i8, rank: 0 }
    } else if i == 2 {
        Offset { file: 0, rank: 1 }
    } else if i == 3 {
        Offset { file: 0, rank: -1i8 }
    } else if i == 4 {
        Offset { file: 1, rank: 1 }
    } else if i == 5 {
        Offset { file: 1, rank: -1i8 }
    } else if i == 6 {
        Offset { file: -1i8, rank: 1 }
    } else {
        Offset { file: -1i8, rank: -1i8 }
    }
}

/// What a board holds: the 64 squares by linear index, the side to move, the
/// castling rights and the en-passant target.
pub struct BoardState {
    pub squares: Seq<Option<Piece>>,
    pub turn: MoveTurn,
    pub rights: CastlingRights,
    pub en_passant: Option<Position>,
}

/// The piece that starts on the given file of a side's first rank.
pub open spec fn back_rank(file: int) -> PieceType {
    if file == 0 || file == 7 {
        PieceType::Rook
    } else if file == 1 || file == 6 {
        PieceType::Knight
    } else if file == 2 || file == 5 {
        PieceType::Bishop
    } else if file == 3 {
        PieceType::Queen
    } else {
        PieceType::King
    }
}

/// What stands on the square with the given index when a game starts.
pub open spec fn initial_square(index: int) -> Option<Piece> {
    let file = index % 8;
    let rank = index / 8;
    if rank == 0 {
        Some(Piece { type_: back_rank(file), color: PieceColor::White })
    } else if rank == 1 {
        Some(Piece { type_: PieceType::Pawn, color: PieceColor::White })
    } else if rank == 6 {
        Some(Piece { type_: PieceType::Pawn, color: PieceColor::Black })
    } else if rank == 7 {
        Some(Piece { type_: back_rank(file), color: PieceColor::Black })
    } else {
        None
    }
}

impl BoardState {
    /// The position from which a game starts: White to move, every castling
    /// right held, no en-passant target.
    pub open spec fn initial() -> BoardState {
        BoardState {
            squares: Seq::new(64, |i: int| initial_square(i)),
            turn: MoveTurn::White,
            rights: CastlingRights::all(),
            en_passant: None,
        }
    }

    /// A board has 64 squares.
    pub open spec fn wf(self) -> bool {
        self.squares.len() == 64
    }

    // ----- squares and rays

    /// The piece on a square; nothing stands off the board.
    pub open spec fn piece_at(self, pos: Position) -> Option<Piece> {
        if pos.on_board() {
            self.squares[pos.index()]
        } else {
            None
        }
    }

    /// The test that stops a ray: a piece stands on the square.
    pub open spec fn occupied(self) -> spec_fn(Position) -> bool {
        |p: Position| self.piece_at(p) is Some
    }

    /// The squares a ray cast from `start` in direction `d` passes over: up to
    /// and including the first occupied square, or up to the edge of the board.
    pub open spec fn ray(self, start: Position, d: Offset) -> Seq<Position> {
        walk(start, d, self.occupied())
    }

    // ----- pseudo-legal movement

    /// The move is a pawn's diagonal step forward onto the en-passant target.
    pub open spec fn is_en_passant(self, m: Move) -> bool {
        &&& self.en_passant == Some(m.to)
        &&& self.piece_at(m.from) matches Some(mover)
        &&& mover.type_ == PieceType::Pawn
        &&& m.shape_spec() matches Some(MoveShape::Diagonal(data))
        &&& data.distance == 1
        &&& mover.color.advances(data)
    }

    /// The move takes a piece: en passant, or by landing on an opposing piece.
    pub open spec fn is_capture(self, m: Move) -> bool {
        ||| self.is_en_passant(m)
        ||| {
            &&& self.piece_at(m.from) matches Some(mover)
            &&& self.piece_at(m.to) matches Some(target)
            &&& mover.color != target.color
        }
    }

    /// A king's straight move of two squares is read as castling: kingside
    /// towards a higher file, queenside otherwise.
    pub open spec fn castling_side(self, m: Move) -> Option<CastlingSide> {
        let two_squares = {
            &&& self.piece_at(m.from) matches Some(mover)
            &&& mover.type_ == PieceType::King
            &&& m.shape_spec() matches Some(MoveShape::Straight(data))
            &&& data.distance == 2
        };
        if two_squares {
            if m.to.file > m.from.file {
                Some(CastlingSide::Kingside)
            } else {
                Some(CastlingSide::Queenside)
            }
        } else {
            None
        }
    }

    /// Nothing stands on the squares the move passes over before its
    /// destination, and the destination is empty or holds an opposing piece.
    pub open spec fn path_clear(self, m: Move) -> bool {
        &&& self.piece_at(m.from) matches Some(mover)
        &&& m.track() matches Some(squares)
        &&& m.shape_spec() is Some
        &&& forall|i: int|
            0 <= i < squares.len() && #[trigger] squares[i] != m.to ==> self.piece_at(squares[i])
                is None
        &&& (self.piece_at(m.to) matches Some(target) ==> target.color != mover.color)
    }

    /// What every pseudo-legal move meets: both squares on the board, a piece
    /// on the origin, a shape that this piece may make, and the pawn rules.
    pub open spec fn obeys_piece_rules(self, m: Move) -> bool {
        &&& m.on_board()
        &&& self.piece_at(m.from) matches Some(mover)
        &&& m.shape_spec() matches Some(shape)
        &&& mover.allows(shape)
        &&& (mover.type_ == PieceType::Pawn ==> mover.pawn_move_ok(m, self.is_capture(m)))
    }

    /// The `i`-th square from which `square` might be attacked: the eight
    /// squares a knight's leap away, then the last square of each of the eight
    /// rays cast from `square`.
    pub open spec fn attack_candidate(self, square: Position, i: int) -> Option<Position> {
        if 0 <= i < 8 {
            Some(square.shifted(knight_leap(i)))
        } else if 8 <= i < 16 && self.ray(square, ray_direction(i - 8)).len() > 0 {
            Some(self.ray(square, ray_direction(i - 8)).last())
        } else {
            None
        }
    }

    /// The home square of the rook that takes part in castling on `side`, on
    /// the king's rank.
    pub open spec fn rook_home(m: Move, side: CastlingSide) -> Position {
        Position {
            file: match side {
                CastlingSide::Kingside => 7,
                CastlingSide::Queenside => 0,
            },
            rank: m.from.rank,
        }
    }

    /// The square on which the rook lands when castling on `side`.
    pub open spec fn rook_landing(m: Move, side: CastlingSide) -> Position {
        Position {
            file: match side {
                CastlingSide::Kingside => 5,
                CastlingSide::Queenside => 3,
            },
            rank: m.from.rank,
        }
    }

    /// The direction from the home square of the rook on `side` towards the
    /// king.
    pub open spec fn rook_direction(side: CastlingSide) -> Offset {
        match side {
            CastlingSide::Kingside => Offset { file: -1i8, rank: 0 },
            CastlingSide::Queenside => Offset { file: 1, rank: 0 },
        }
    }

    /// The direction in which the king travels when castling on `side`.
    pub open spec fn king_direction(side: CastlingSide) -> Offset {
        match side {
            CastlingSide::Kingside => Offset { file: 1, rank: 0 },
            CastlingSide::Queenside => Offset { file: -1i8, rank: 0 },
        }
    }

    /// The `k`-th square of the king's way when castling on `side`, the
    /// starting square being the one with `k == 0`.
    pub open spec fn king_way(m: Move, side: CastlingSide, k: int) -> Position {
        let d = Self::king_direction(side);
        if k <= 0 {
            m.from
        } else if k == 1 {
            m.from.shifted(d)
        } else {
            m.from.shifted(d).shifted(d)
        }
    }

    /// The ray cast from the rook's home square towards the king ends on the
    /// king that castles: nothing stands between the two squares.
    pub open spec fn rook_sees_king(self, m: Move, side: CastlingSide) -> bool {
        let ray = self.ray(Self::rook_home(m, side), Self::rook_direction(side));
        &&& ray.len() > 0
        &&& ray.last() == m.from
        &&& self.piece_at(ray.last()) matches Some(found)
        &&& found.type_ == PieceType::King
    }

    /// What castling asks of the board apart from attacks: the move is a
    /// king's straight move of two squares, the right on that side is still
    /// held, and the ray from the rook's home square ends on the king.
    pub open spec fn castling_ready(self, m: Move) -> bool {
        &&& self.piece_at(m.from) matches Some(mover)
        &&& self.castling_side(m) matches Some(side)
        &&& self.rights.allows(mover.color, side == CastlingSide::Kingside)
        &&& self.rook_sees_king(m, side)
    }

    /// The squares of the king's way are free of attacks, as attacks are found
    /// with castling examined to the given depth.
    pub open spec fn way_safe_at(self, m: Move, depth: nat) -> bool
        decreases depth, 5nat, 0nat,
    {
        let side = self.castling_side(m)->0;
        let by = self.piece_at(m.from)->0.color.opponent();
        &&& !self.attacked_at(Self::king_way(m, side, 0), by, depth)
        &&& !self.attacked_at(Self::king_way(m, side, 1), by, depth)
        &&& !self.attacked_at(Self::king_way(m, side, 2), by, depth)
    }

    /// Castling by the move `m` is allowed, with castling examined to the
    /// given depth: at depth 0 no castling is allowed; at a greater depth the
    /// attacks on the king's way are found one level below.
    pub open spec fn castling_valid_at(self, m: Move, depth: nat) -> bool
        decreases depth, 0nat, 0nat,
    {
        &&& depth > 0
        &&& self.castling_ready(m)
        &&& self.way_safe_at(m, (depth - 1) as nat)
    }

    /// The move is pseudo-legal, with castling examined to the given depth.
    pub open spec fn pseudo_legal_at(self, m: Move, depth: nat) -> bool
        decreases depth, 1nat, 0nat,
    {
        &&& self.obeys_piece_rules(m)
        &&& if self.castling_side(m) is Some {
            self.castling_valid_at(m, depth)
        } else {
            self.path_clear(m)
        }
    }

    /// The `i`-th candidate holds a piece of colour `by` whose move to
    /// `square` is pseudo-legal, with castling examined to the given depth.
    pub open spec fn threat_at(self, square: Position, by: PieceColor, depth: nat, i: int) -> bool
        decreases depth, 2nat, 0nat,
    {
        &&& self.attack_candidate(square, i) matches Some(from)
        &&& self.piece_at(from) matches Some(attacker)
        &&& attacker.color == by
        &&& self.pseudo_legal_at(Move { from, to: square }, depth)
    }

    /// One of the first `n` candidates is a threat to `square` by colour `by`,
    /// with castling examined to the given depth.
    pub open spec fn threat_below(
        self,
        square: Position,
        by: PieceColor,
        depth: nat,
        n: nat,
    ) -> bool
        decreases depth, 3nat, n,
    {
        n > 0 && (self.threat_at(square, by, depth, n - 1) || self.threat_below(
            square,
            by,
            depth,
            (n - 1) as nat,
        ))
    }

    /// Some candidate attacker of colour `by` has a pseudo-legal move to
    /// `square`, with castling examined to the given depth.
    pub open spec fn attacked_at(self, square: Position, by: PieceColor, depth: nat) -> bool
        decreases depth, 4nat, 0nat,
    {
        self.threat_below(square, by, depth, 16)
    }

    /// One of the first `n` candidates is a threat exactly if some candidate
    /// with an index below `n` is.
    pub proof fn lemma_threat_below(self, square: Position, by: PieceColor, depth: nat, n: nat)
        ensures
            self.threat_below(square, by, depth, n) <==> exists|i: int|
                0 <= i < n && #[trigger] self.threat_at(square, by, depth, i),
        decreases n,
    {
        if n > 0 {
            self.lemma_threat_below(square, by, depth, (n - 1) as nat);
            if self.threat_at(square, by, depth, n - 1) {
            } else if self.threat_below(square, by, depth, (n - 1) as nat) {
                let i = choose|i: int|
                    0 <= i < n - 1 && #[trigger] self.threat_at(square, by, depth, i);
                assert(0 <= i < n && self.threat_at(square, by, depth, i));
            } else {
                assert forall|i: int| 0 <= i < n implies !#[trigger] self.threat_at(
                    square,
                    by,
                    depth,
                    i,
                ) by {
                    if i < n - 1 {
                    }
                }
            }
        }
    }

    /// A square is attacked, with castling examined to the given depth,
    /// exactly if one of the sixteen candidates is a threat.
    pub proof fn lemma_attacked_at(self, square: Position, by: PieceColor, depth: nat)
        ensures
            self.attacked_at(square, by, depth) <==> exists|i: int|
                0 <= i < 16 && #[trigger] self.threat_at(square, by, depth, i),
    {
        self.lemma_threat_below(square, by, depth, 16);
    }

    /// `square` is attacked by a piece of colour `by`: some candidate attacker
    /// of that colour has a pseudo-legal move onto it.
    pub open spec fn attacked(self, square: Position, by: PieceColor) -> bool {
        self.attacked_at(square, by, CASTLING_DEPTH as nat)
    }

    /// None of the three squares of the king's way is attacked by the
    /// opponent.
    pub open spec fn way_safe(self, m: Move) -> bool {
        forall|k: int|
            0 <= k < 3 ==> !#[trigger] self.attacked(
                Self::king_way(m, self.castling_side(m)->0, k),
                self.piece_at(m.from)->0.color.opponent(),
            )
    }

    /// Castling by the move `m` is allowed: the right is still held, the ray
    /// from the rook's home square ends on the king, and none of the squares
    /// on which the king starts, over which it passes and on which it lands is
    /// attacked by the opponent.
    pub open spec fn castling_valid(self, m: Move) -> bool {
        &&& self.castling_ready(m)
        &&& self.way_safe(m)
    }

    /// The move obeys the movement and obstruction rules; it may still leave
    /// the mover's own king in check.
    pub open spec fn pseudo_legal(self, m: Move) -> bool {
        &&& self.obeys_piece_rules(m)
        &&& if self.castling_side(m) is Some {
            self.castling_valid(m)
        } else {
            self.path_clear(m)
        }
    }

    /// The rules at the top level are the rules with castling examined one
    /// level deeper than attacks are.
    pub proof fn lemma_top_level(self, m: Move)
        ensures
            self.way_safe(m) == self.way_safe_at(m, CASTLING_DEPTH as nat),
            self.castling_valid(m) == self.castling_valid_at(m, (CASTLING_DEPTH + 1) as nat),
            self.pseudo_legal(m) == self.pseudo_legal_at(m, (CASTLING_DEPTH + 1) as nat),
    {
        let depth = CASTLING_DEPTH as nat;
        let side = self.castling_side(m)->0;
        let by = self.piece_at(m.from)->0.color.opponent();
        if self.way_safe(m) {
            assert(!self.attacked(Self::king_way(m, side, 0), by));
            assert(!self.attacked(Self::king_way(m, side, 1), by));
            assert(!self.attacked(Self::king_way(m, side, 2), by));
        }
        if self.way_safe_at(m, depth) {
            assert forall|k: int| 0 <= k < 3 implies !#[trigger] self.attacked(
                Self::king_way(m, side, k),
                by,
            ) by {
                assert(k == 0 || k == 1 || k == 2);
            }
        }
        assert(self.way_safe(m) == self.way_safe_at(m, depth));
        assert(self.castling_valid(m) == self.castling_valid_at(m, (depth + 1) as nat));
    }

    // ----- check

    /// The square with index `i` holds a king of `color`.
    pub open spec fn king_at(self, color: PieceColor, i: int) -> bool {
        &&& 0 <= i < 64
        &&& self.squares[i] matches Some(piece)
        &&& piece.color == color
        &&& piece.type_ == PieceType::King
    }

    /// The square with index `i` holds the first king of `color`, by index.
    pub open spec fn first_king_at(self, color: PieceColor, i: int) -> bool {
        &&& self.king_at(color, i)
        &&& forall|j: int| 0 <= j < i ==> !#[trigger] self.king_at(color, j)
    }

    /// The first king of `color` is attacked by the opponent. A side without a
    /// king is never in check.
    pub open spec fn in_check(self, color: PieceColor) -> bool {
        exists|i: int| #[trigger]
            self.first_king_at(color, i) && self.attacked(Position::at(i), color.opponent())
    }

    // ----- applying a move

    /// The board with `piece` put on `pos`; unchanged where `pos` is off the
    /// board.
    pub open spec fn put(self, pos: Position, piece: Option<Piece>) -> BoardState {
        if pos.on_board() {
            BoardState { squares: self.squares.update(pos.index(), piece), ..self }
        } else {
            self
        }
    }

    /// The board after what stands on `from` has been carried to `to`. Where
    /// `to` is off the board nothing changes; where only `from` is, `to` is
    /// emptied.
    pub open spec fn relocate(self, from: Position, to: Position) -> BoardState {
        if to.on_board() {
            self.put(to, self.piece_at(from)).put(from, None)
        } else {
            self
        }
    }

    /// The board after the rook's part of castling, if the move is castling.
    pub open spec fn rook_castled(self, m: Move) -> BoardState {
        match self.castling_side(m) {
            Some(side) => self.relocate(Self::rook_home(m, side), Self::rook_landing(m, side)),
            None => self,
        }
    }

    /// The square of the pawn that an en-passant capture takes: on the
    /// destination's file, on the rank the capturing pawn leaves.
    pub open spec fn en_passant_victim(m: Move) -> Position {
        Position { file: m.to.file, rank: m.from.rank }
    }

    /// The board after the captured pawn has been removed, if the move is an
    /// en-passant capture.
    pub open spec fn victim_removed(self, m: Move) -> BoardState {
        if self.is_en_passant(m) {
            self.put(Self::en_passant_victim(m), None)
        } else {
            self
        }
    }

    /// The squares after the move: the rook's part of castling, the removal of
    /// a pawn taken en passant, then the moving piece itself.
    pub open spec fn pieces_moved(self, m: Move) -> BoardState {
        self.rook_castled(m).victim_removed(m).relocate(m.from, m.to)
    }

    /// The en-passant target that a move of `mover` leaves behind: the square
    /// midway between origin and destination where a pawn makes a straight
    /// move of two squares, and none otherwise.
    pub open spec fn target_after(mover: Option<Piece>, m: Move) -> Option<Position> {
        let advanced = {
            &&& mover matches Some(pawn)
            &&& pawn.type_ == PieceType::Pawn
            &&& m.shape_spec() matches Some(MoveShape::Straight(data))
            &&& data.distance == 2
        };
        if advanced {
            Some(
                Position {
                    file: ((m.from.file + m.to.file) / 2) as i8,
                    rank: ((m.from.rank + m.to.rank) / 2) as i8,
                },
            )
        } else {
            None
        }
    }

    /// The en-passant target that the move leaves behind. What moves is read
    /// on the origin before the move.
    pub open spec fn en_passant_after(self, m: Move) -> Option<Position> {
        Self::target_after(self.piece_at(m.from), m)
    }

    /// The board after `make_move`. A move with a square off the board fails
    /// and leaves the pieces as far as they were moved before the failing
    /// step, with rights, target and turn untouched.
    pub open spec fn after_move(self, m: Move) -> BoardState {
        let moved = self.pieces_moved(m);
        if m.on_board() {
            BoardState {
                squares: moved.squares,
                turn: self.turn.flipped(),
                rights: self.rights.after_move(m),
                en_passant: self.en_passant_after(m),
            }
        } else {
            moved
        }
    }

    // ----- legal moves

    /// The move is pseudo-legal and does not leave the king of the side to
    /// move in check.
    pub open spec fn legal(self, m: Move) -> bool {
        &&& self.pseudo_legal(m)
        &&& !self.after_move(m).in_check(self.turn.color())
    }

    /// The squares of the first `n` rays cast from `pos`, ray after ray.
    pub open spec fn ray_targets(self, pos: Position, n: int) -> Seq<Position>
        decreases n,
    {
        if n <= 0 {
            Seq::empty()
        } else {
            self.ray_targets(pos, n - 1) + self.ray(pos, ray_direction(n - 1))
        }
    }

    /// The first `n` squares a knight's leap away from `pos`.
    pub open spec fn leap_targets(pos: Position, n: int) -> Seq<Position> {
        Seq::new(n as nat, |i: int| pos.shifted(knight_leap(i)))
    }

    /// The candidate destinations from `pos`: the eight knight's leaps, then
    /// the squares of the eight rays, each up to its first occupied square.
    pub open spec fn targets(self, pos: Position) -> Seq<Position> {
        Self::leap_targets(pos, 8) + self.ray_targets(pos, 8)
    }

    /// The test that keeps the destinations of legal moves from `pos`.
    pub open spec fn legal_from(self, pos: Position) -> spec_fn(Position) -> bool {
        |to: Position| self.legal(Move { from: pos, to })
    }

    /// The destinations of the legal moves of the piece on `pos`, in the order
    /// of the candidates.
    pub open spec fn destinations(self, pos: Position) -> Seq<Position> {
        if self.piece_at(pos) is Some {
            self.targets(pos).filter(self.legal_from(pos))
        } else {
            Seq::empty()
        }
    }

    /// The legal moves of the piece on `pos`.
    pub open spec fn moves_from(self, pos: Position) -> Seq<Move> {
        self.destinations(pos).map_values(|to: Position| Move { from: pos, to })
    }

    /// The legal moves of the pieces of the side to move that stand on the
    /// first `n` squares, square after square.
    pub open spec fn moves_upto(self, n: int) -> Seq<Move>
        decreases n,
    {
        if n <= 0 {
            Seq::empty()
        } else {
            let pos = Position::at(n - 1);
            let rest = self.moves_upto(n - 1);
            let to_move = {
                &&& self.piece_at(pos) matches Some(piece)
                &&& piece.color == self.turn.color()
            };
            if to_move {
                rest + self.moves_from(pos)
            } else {
                rest
            }
        }
    }

    /// Every legal move of the side to move.
    pub open spec fn all_moves(self) -> Seq<Move> {
        self.moves_upto(64)
    }
}

} // verus!
