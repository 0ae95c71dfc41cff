//! The board: squares, castling rights, the side to move and the en-passant
//! target.

use crate::model::{back_rank, initial_square, BoardState, CastlingSide};
use crate::piece::{Move, MoveShape, Offset, Piece, PieceColor, PieceType};
use vstd::std_specs::ops::AddSpecImpl;
use vstd::prelude::*;

verus! {

/// The number of files.
pub const BOARD_WIDTH: i8 = 8;

/// The number of ranks.
pub const BOARD_HEIGHT: i8 = 8;

/// A square given by file and rank. Squares off the board are representable;
/// only squares on the board have an index.
#[derive(Clone, Copy, PartialEq, Eq, Debug, Structural)]
pub struct Position {
    pub file: i8,
    pub rank: i8,
}

impl Position {
    /// Both coordinates lie in `0..8`.
    pub open spec fn on_board(self) -> bool {
        0 <= self.file < 8 && 0 <= self.rank < 8
    }

    /// The linear index of a square on the board.
    pub open spec fn index(self) -> int {
        self.rank * 8 + self.file
    }

    /// The square on the board with the given linear index.
    pub open spec fn at(index: int) -> Position {
        Position { file: (index % 8) as i8, rank: (index / 8) as i8 }
    }

    /// The square reached by the displacement `d`.
    pub open spec fn shifted(self, d: Offset) -> Position {
        Position { file: (self.file + d.file) as i8, rank: (self.rank + d.rank) as i8 }
    }

    /// Whether the displacement `d` leads to a square on the board.
    pub open spec fn next_on_board(self, d: Offset) -> bool {
        0 <= self.file + d.file < 8 && 0 <= self.rank + d.rank < 8
    }

    /// How many more steps in direction `d` stay on the board.
    pub open spec fn room(self, d: Offset) -> int {
        let by_file = if d.file > 0 {
            7 - self.file
        } else if d.file < 0 {
            self.file as int
        } else {
            8
        };
        let by_rank = if d.rank > 0 {
            7 - self.rank
        } else if d.rank < 0 {
            self.rank as int
        } else {
            8
        };
        if by_file < by_rank {
            by_file
        } else {
            by_rank
        }
    }

    /// The square with the given file and rank, on the board or off it.
    pub fn new(file: i8, rank: i8) -> (r: Self)
        ensures
            r == (Position { file, rank }),
    {
        Self { file, rank }
    }

    /// Whether the square lies on the board.
    pub fn is_on_board(&self) -> (r: bool)
        ensures
            r == self.on_board(),
    {
        if !((self.file >= 0) && (self.rank >= 0)) {
            return false;
        }
        (self.file < BOARD_WIDTH) && (self.rank < BOARD_HEIGHT)
    }

    /// The linear index `rank * 8 + file` of a square on the board; fails for a
    /// square off the board.
    pub fn to_index(&self) -> (r: Result<usize, String>)
        ensures
            match r {
                Ok(index) => self.on_board() && index == self.index(),
                Err(e) => !self.on_board() && e@ == "Position is not on board"@,
            },
    {
        if !self.is_on_board() {
            return Err(String::from_str("Position is not on board"));
        }
        let index = (self.rank * BOARD_WIDTH + self.file) as usize;
        Ok(index)
    }

    /// The square on the board with the given linear index.
    pub fn from_index(index: usize) -> (r: Self)
        requires
            index < 64,
        ensures
            r == Self::at(index as int),
            r.on_board(),
            r.index() == index,
    {
        let rank = (index / 8) as i8;
        let file = (index % 8) as i8;
        Position::new(file, rank)
    }

    /// The square one displacement away, if it lies on the board.
    pub fn stepped(&self, d: Offset) -> (r: Option<Position>)
        ensures
            r == (if self.next_on_board(d) {
                Some(self.shifted(d))
            } else {
                None
            }),
    {
        let file: i16 = self.file as i16 + d.file as i16;
        let rank: i16 = self.rank as i16 + d.rank as i16;
        if 0 <= file && file < 8 && 0 <= rank && rank < 8 {
            Some(Position { file: file as i8, rank: rank as i8 })
        } else {
            None
        }
    }
}

impl core::ops::Add<Offset> for Position {
    type Output = Position;

    /// The square reached by a displacement. Both coordinates of the result
    /// must fit in `i8`.
    fn add(self, other: Offset) -> (r: Position) {
        Position { file: self.file + other.file, rank: self.rank + other.rank }
    }
}

impl AddSpecImpl<Offset> for Position {
    open spec fn obeys_add_spec() -> bool {
        true
    }

    open spec fn add_req(self, other: Offset) -> bool {
        &&& -128 <= self.file + other.file < 128
        &&& -128 <= self.rank + other.rank < 128
    }

    open spec fn add_spec(self, other: Offset) -> Position {
        self.shifted(other)
    }
}

/// The coordinate midway between two coordinates, rounded down.
pub fn midway(a: i8, b: i8) -> (r: i8)
    ensures
        r == (a + b) / 2,
{
    let sum: i16 = a as i16 + b as i16;
    if sum >= 0 {
        (sum / 2) as i8
    } else {
        (-((1 - sum) / 2)) as i8
    }
}

/// Which castling moves each side may still make.
#[derive(Clone, Copy, PartialEq, Eq, Debug, Structural)]
pub struct CastlingRights {
    pub white_kingside: bool,
    pub white_queenside: bool,
    pub black_kingside: bool,
    pub black_queenside: bool,
}

impl CastlingRights {
    /// Whether `color` still holds the right to castle on the given side.
    pub open spec fn allows(self, color: PieceColor, kingside: bool) -> bool {
        match (color, kingside) {
            (PieceColor::White, true) => self.white_kingside,
            (PieceColor::White, false) => self.white_queenside,
            (PieceColor::Black, true) => self.black_kingside,
            (PieceColor::Black, false) => self.black_queenside,
        }
    }

    /// The rights without both of `color`'s.
    pub open spec fn without_king(self, color: PieceColor) -> CastlingRights {
        match color {
            PieceColor::White => CastlingRights {
                white_kingside: false,
                white_queenside: false,
                ..self
            },
            PieceColor::Black => CastlingRights {
                black_kingside: false,
                black_queenside: false,
                ..self
            },
        }
    }

    /// The rights without `color`'s right on one side.
    pub open spec fn without_rook(self, color: PieceColor, kingside: bool) -> CastlingRights {
        match (color, kingside) {
            (PieceColor::White, true) => CastlingRights { white_kingside: false, ..self },
            (PieceColor::White, false) => CastlingRights { white_queenside: false, ..self },
            (PieceColor::Black, true) => CastlingRights { black_kingside: false, ..self },
            (PieceColor::Black, false) => CastlingRights { black_queenside: false, ..self },
        }
    }

    /// The rights lost because something leaves or reaches the home square
    /// `pos` of a rook.
    pub open spec fn without_corner(self, pos: Position) -> CastlingRights {
        if pos == (Position { file: 0, rank: 0 }) {
            self.without_rook(PieceColor::White, false)
        } else if pos == (Position { file: 7, rank: 0 }) {
            self.without_rook(PieceColor::White, true)
        } else if pos == (Position { file: 0, rank: 7 }) {
            self.without_rook(PieceColor::Black, false)
        } else if pos == (Position { file: 7, rank: 7 }) {
            self.without_rook(PieceColor::Black, true)
        } else {
            self
        }
    }

    /// The rights lost because something leaves the home square `pos` of a
    /// king or of a rook.
    pub open spec fn without_origin(self, pos: Position) -> CastlingRights {
        if pos == (Position { file: 4, rank: 0 }) {
            self.without_king(PieceColor::White)
        } else if pos == (Position { file: 4, rank: 7 }) {
            self.without_king(PieceColor::Black)
        } else {
            self.without_corner(pos)
        }
    }

    /// The rights after a move: a move from a king's home square costs that
    /// side both rights, a move from or onto a rook's home square costs the
    /// right on that side.
    pub open spec fn after_move(self, m: Move) -> CastlingRights {
        self.without_origin(m.from).without_corner(m.to)
    }

    /// Every right held.
    pub open spec fn all() -> CastlingRights {
        CastlingRights {
            white_kingside: true,
            white_queenside: true,
            black_kingside: true,
            black_queenside: true,
        }
    }

    /// Every right held.
    pub fn new() -> (r: Self)
        ensures
            r == Self::all(),
    {
        Self {
            white_kingside: true,
            white_queenside: true,
            black_kingside: true,
            black_queenside: true,
        }
    }

    /// Whether `color` still holds the right to castle on the given side.
    pub fn can_castle(&self, color: PieceColor, kingside: bool) -> (r: bool)
        ensures
            r == self.allows(color, kingside),
    {
        match (color, kingside) {
            (PieceColor::White, true) => self.white_kingside,
            (PieceColor::White, false) => self.white_queenside,
            (PieceColor::Black, true) => self.black_kingside,
            (PieceColor::Black, false) => self.black_queenside,
        }
    }

    /// Takes both rights from `color`: its king has left its home square.
    pub fn disable_king_castling(&mut self, color: PieceColor)
        ensures
            *final(self) == old(self).without_king(color),
    {
        match color {
            PieceColor::White => {
                self.white_kingside = false;
                self.white_queenside = false;
            },
            PieceColor::Black => {
                self.black_kingside = false;
                self.black_queenside = false;
            },
        }
    }

    /// Takes from `color` the right on one side: the rook there has left its
    /// home square or was taken on it.
    pub fn disable_rook_castling(&mut self, color: PieceColor, kingside: bool)
        ensures
            *final(self) == old(self).without_rook(color, kingside),
    {
        match (color, kingside) {
            (PieceColor::White, true) => self.white_kingside = false,
            (PieceColor::White, false) => self.white_queenside = false,
            (PieceColor::Black, true) => self.black_kingside = false,
            (PieceColor::Black, false) => self.black_queenside = false,
        }
    }
}

/// The side to move.
#[derive(Clone, Copy, PartialEq, Eq, Debug, Structural)]
pub enum MoveTurn {
    White,
    Black,
}

impl MoveTurn {
    /// The colour of the pieces of the side to move.
    pub open spec fn color(self) -> PieceColor {
        match self {
            MoveTurn::White => PieceColor::White,
            MoveTurn::Black => PieceColor::Black,
        }
    }

    /// The other side.
    pub open spec fn flipped(self) -> MoveTurn {
        match self {
            MoveTurn::White => MoveTurn::Black,
            MoveTurn::Black => MoveTurn::White,
        }
    }
}

/// The state of a game: what stands on the 64 squares, the side to move, the
/// castling rights and the en-passant target.
#[derive(Clone, Copy)]
pub struct Board {
    pieces: [Option<Piece>; 64],
    move_turn: MoveTurn,
    castling_rights: CastlingRights,
    en_passant_target: Option<Position>,
}

impl View for Board {
    type V = BoardState;

    /// The squares as a sequence by linear index, with turn, rights and target.
    closed spec fn view(&self) -> BoardState {
        BoardState {
            squares: self.pieces@,
            turn: self.move_turn,
            rights: self.castling_rights,
            en_passant: self.en_passant_target,
        }
    }
}

impl Board {
    /// The board with the given squares by linear index, side to move,
    /// castling rights and en-passant target.
    pub fn new(
        pieces: [Option<Piece>; 64],
        move_turn: MoveTurn,
        castling_rights: CastlingRights,
        en_passant_target: Option<Position>,
    ) -> (r: Self)
        ensures
            r@ == (BoardState {
                squares: pieces@,
                turn: move_turn,
                rights: castling_rights,
                en_passant: en_passant_target,
            }),
    {
        Self { pieces, move_turn, castling_rights, en_passant_target }
    }

    /// The piece that starts on the given file of a side's first rank.
    pub fn back_rank_piece(file: usize) -> (r: PieceType)
        ensures
            r == back_rank(file as int),
    {
        if file == 0 || file == 7 {
            PieceType::Rook
        } else if file == 1 || file == 6 {
            PieceType::Knight
        } else if file == 2 || file == 5 {
            PieceType::Bishop
        } else if file == 3 {
            PieceType::Queen
        } else {
            PieceType::King
        }
    }

    /// The position from which a game starts.
    pub fn starting_position() -> (r: Self)
        ensures
            r@ == BoardState::initial(),
    {
        let mut pieces: [Option<Piece>; 64] = [None;64];
        let mut file: usize = 0;
        while file < 8
            invariant
                file <= 8,
                forall|i: int|
                    0 <= i < 64 ==> pieces@[i] == (if i % 8 < file {
                        initial_square(i)
                    } else {
                        None
                    }),
            decreases 8 - file,
        {
            let officer = Self::back_rank_piece(file);
            pieces[file] = Some(Piece { type_: officer, color: PieceColor::White });
            pieces[8 + file] = Some(Piece { type_: PieceType::Pawn, color: PieceColor::White });
            pieces[48 + file] = Some(Piece { type_: PieceType::Pawn, color: PieceColor::Black });
            pieces[56 + file] = Some(Piece { type_: officer, color: PieceColor::Black });
            file = file + 1;
        }
        assert(pieces@ =~= BoardState::initial().squares);
        Self::new(pieces, MoveTurn::White, CastlingRights::new(), None)
    }

    /// A board without pieces, White to move, with every castling right.
    pub fn empty() -> (r: Self)
        ensures
            r@.squares.len() == 64,
            forall|i: int| 0 <= i < 64 ==> r@.squares[i] is None,
            r@.turn == MoveTurn::White,
            r@.rights == CastlingRights::all(),
            r@.en_passant is None,
    {
        Self::new([None;64], MoveTurn::White, CastlingRights::new(), None)
    }

    /// The model of a board is well formed.
    pub proof fn lemma_view_wf(&self)
        ensures
            self@.wf(),
    {
    }

    /// The piece on a square; nothing stands off the board.
    pub fn piece_at_pos(&self, pos: Position) -> (r: Option<Piece>)
        ensures
            r == self@.piece_at(pos),
    {
        match pos.to_index() {
            Ok(index) => self.pieces[index],
            Err(_) => None,
        }
    }

    /// The side to move.
    pub fn move_turn(&self) -> (r: MoveTurn)
        ensures
            r == self@.turn,
    {
        self.move_turn
    }

    /// The castling rights still held.
    pub fn castling_rights(&self) -> (r: CastlingRights)
        ensures
            r == self@.rights,
    {
        self.castling_rights
    }

    /// The square that a pawn has just passed over in an advance of two
    /// squares, if the last move was such an advance.
    pub fn en_passant_target(&self) -> (r: Option<Position>)
        ensures
            r == self@.en_passant,
    {
        self.en_passant_target
    }

    /// Puts `piece` on `pos`; fails, and changes nothing, where `pos` is off
    /// the board.
    pub fn set(&mut self, pos: Position, piece: Option<Piece>) -> (r: Result<(), String>)
        ensures
            final(self)@ == old(self)@.put(pos, piece),
            match r {
                Ok(_) => pos.on_board(),
                Err(e) => !pos.on_board() && e@ == "Position is not on board"@,
            },
    {
        match pos.to_index() {
            Ok(index) => {
                self.pieces[index] = piece;
                Ok(())
            },
            Err(e) => Err(e),
        }
    }

    /// Carries what stands on `from` to `to`. Fails where either square is off
    /// the board: with nothing changed where `to` is, with `to` emptied where
    /// only `from` is.
    pub fn move_piece(&mut self, from: Position, to: Position) -> (r: Result<(), String>)
        ensures
            final(self)@ == old(self)@.relocate(from, to),
            match r {
                Ok(_) => from.on_board() && to.on_board(),
                Err(e) => !(from.on_board() && to.on_board()) && e@ == "Position is not on board"@,
            },
    {
        let piece = self.piece_at_pos(from);
        match self.set(to, piece) {
            Ok(_) => {},
            Err(e) => {
                return Err(e);
            },
        }
        self.set(from, None)
    }

    /// Takes away the castling rights that the move costs.
    pub fn update_castling_rights_for_move(&mut self, move_: Move)
        ensures
            final(self)@ == (BoardState {
                rights: old(self)@.rights.after_move(move_),
                ..old(self)@
            }),
    {
        let from = move_.from;
        if from.rank == 0 && from.file == 4 {
            self.castling_rights.disable_king_castling(PieceColor::White);
        } else if from.rank == 7 && from.file == 4 {
            self.castling_rights.disable_king_castling(PieceColor::Black);
        } else if from.rank == 0 && from.file == 0 {
            self.castling_rights.disable_rook_castling(PieceColor::White, false);
        } else if from.rank == 0 && from.file == 7 {
            self.castling_rights.disable_rook_castling(PieceColor::White, true);
        } else if from.rank == 7 && from.file == 0 {
            self.castling_rights.disable_rook_castling(PieceColor::Black, false);
        } else if from.rank == 7 && from.file == 7 {
            self.castling_rights.disable_rook_castling(PieceColor::Black, true);
        }
        let to = move_.to;
        if to.rank == 0 && to.file == 0 {
            self.castling_rights.disable_rook_castling(PieceColor::White, false);
        } else if to.rank == 0 && to.file == 7 {
            self.castling_rights.disable_rook_castling(PieceColor::White, true);
        } else if to.rank == 7 && to.file == 0 {
            self.castling_rights.disable_rook_castling(PieceColor::Black, false);
        } else if to.rank == 7 && to.file == 7 {
            self.castling_rights.disable_rook_castling(PieceColor::Black, true);
        }
    }

    /// Sets the en-passant target that a move of `mover` leaves behind: the
    /// square midway where `mover` is a pawn and the move a straight one of
    /// two squares on the board, and none otherwise.
    pub fn update_en_passant_target(&mut self, move_: Move, mover: Option<Piece>)
        ensures
            final(self)@ == (BoardState {
                en_passant: BoardState::target_after(mover, move_),
                ..old(self)@
            }),
    {
        let two_squares = match move_.shape() {
            Some(MoveShape::Straight(data)) => data.distance == 2,
            _ => false,
        };
        let pawn = match mover {
            Some(piece) => match piece.type_ {
                PieceType::Pawn => true,
                _ => false,
            },
            None => false,
        };
        if !two_squares || !pawn {
            self.en_passant_target = None;
            return ;
        }
        let target_file = midway(move_.from.file, move_.to.file);
        let target_rank = midway(move_.from.rank, move_.to.rank);
        self.en_passant_target = Some(Position::new(target_file, target_rank));
    }

    /// Applies the move, whether or not it is legal: the rook's part of
    /// castling, the removal of a pawn taken en passant, the moving piece,
    /// then castling rights, en-passant target (by what moved) and turn. Fails exactly where a
    /// square of the move is off the board.
    pub fn make_move(&mut self, move_: Move) -> (r: Result<(), String>)
        ensures
            final(self)@ == old(self)@.after_move(move_),
            match r {
                Ok(_) => move_.on_board(),
                Err(e) => !move_.on_board() && e@ == "Position is not on board"@,
            },
    {
        let mover = self.piece_at_pos(move_.from);
        if let Some(castling_side) = self.get_castling(move_) {
            let (rook_from_file, rook_to_file): (i8, i8) = match castling_side {
                CastlingSide::Kingside => (7, 5),
                CastlingSide::Queenside => (0, 3),
            };
            let rook_from = Position::new(rook_from_file, move_.from.rank);
            let rook_to = Position::new(rook_to_file, move_.from.rank);
            match self.move_piece(rook_from, rook_to) {
                Ok(_) => {},
                Err(e) => {
                    return Err(e);
                },
            }
        }
        if self.is_move_en_passant(move_) {
            let captured_pawn_pos = Position::new(move_.to.file, move_.from.rank);
            match self.set(captured_pawn_pos, None) {
                Ok(_) => {},
                Err(e) => {
                    return Err(e);
                },
            }
        }
        match self.move_piece(move_.from, move_.to) {
            Ok(_) => {},
            Err(e) => {
                return Err(e);
            },
        }
        self.update_castling_rights_for_move(move_);
        self.update_en_passant_target(move_, mover);
        self.move_turn = match self.move_turn {
            MoveTurn::White => MoveTurn::Black,
            MoveTurn::Black => MoveTurn::White,
        };
        Ok(())
    }
}

} // verus!
