//! Pieces, displacements and moves: the geometric shape of a move, the squares
//! it passes over, and which shapes each piece may make.

use crate::board::Position;
use crate::model::{knight_leap, ray_direction};
use vstd::std_specs::ops::MulSpecImpl;
use vstd::prelude::*;

verus! {

/// A displacement between two squares, in files and ranks.
#[derive(Clone, Copy, PartialEq, Eq, Debug, Structural)]
pub struct Offset {
    pub file: i8,
    pub rank: i8,
}

impl Offset {
    /// A single step in one of the eight straight or diagonal directions.
    pub open spec fn is_step(self) -> bool {
        &&& -1 <= self.file <= 1
        &&& -1 <= self.rank <= 1
        &&& !(self.file == 0 && self.rank == 0)
    }

    /// The displacement by the given numbers of files and ranks.
    pub fn new(file: i8, rank: i8) -> (r: Self)
        ensures
            r == (Offset { file, rank }),
    {
        Self { file, rank }
    }

    /// The `i`-th of the eight leaps of a knight.
    pub fn knight_leap(i: usize) -> (r: Self)
        requires
            i < 8,
        ensures
            r == knight_leap(i as int),
    {
        if i == 0 {
            Offset::new(2, 1)
        } else if i == 1 {
            Offset::new(2, -1)
        } else if i == 2 {
            Offset::new(-2, 1)
        } else if i == 3 {
            Offset::new(-2, -1)
        } else if i == 4 {
            Offset::new(1, 2)
        } else if i == 5 {
            Offset::new(1, -2)
        } else if i == 6 {
            Offset::new(-1, 2)
        } else {
            Offset::new(-1, -2)
        }
    }

    /// The `i`-th of the eight directions of a ray.
    pub fn ray_direction(i: usize) -> (r: Self)
        requires
            i < 8,
        ensures
            r == ray_direction(i as int),
            r.is_step(),
    {
        if i == 0 {
            Offset::new(1, 0)
        } else if i == 1 {
            Offset::new(-1, 0)
        } else if i == 2 {
            Offset::new(0, 1)
        } else if i == 3 {
            Offset::new(0, -1)
        } else if i == 4 {
            Offset::new(1, 1)
        } else if i == 5 {
            Offset::new(1, -1)
        } else if i == 6 {
            Offset::new(-1, 1)
        } else {
            Offset::new(-1, -1)
        }
    }
}

impl core::ops::Mul<i8> for Offset {
    type Output = Offset;

    /// The displacement taken `scalar` times. Both components of the result
    /// must fit in `i8`.
    fn mul(self, scalar: i8) -> (r: Offset) {
        Offset { file: self.file * scalar, rank: self.rank * scalar }
    }
}

impl MulSpecImpl<i8> for Offset {
    open spec fn obeys_mul_spec() -> bool {
        true
    }

    open spec fn mul_req(self, scalar: i8) -> bool {
        &&& -128 <= self.file * scalar < 128
        &&& -128 <= self.rank * scalar < 128
    }

    open spec fn mul_spec(self, scalar: i8) -> Offset {
        Offset { file: (self.file * scalar) as i8, rank: (self.rank * scalar) as i8 }
    }
}

/// Direction flags and length of a straight or diagonal move. The flags are
/// relative to increasing rank, whatever the colour of the piece.
#[derive(Clone, Copy, PartialEq, Eq, Debug, Structural)]
pub struct ShapeData {
    pub forward_only: bool,
    pub backward_only: bool,
    pub distance: u8,
}

/// The geometric category of a move.
#[derive(Clone, Copy, PartialEq, Eq, Debug, Structural)]
pub enum MoveShape {
    Straight(ShapeData),
    Diagonal(ShapeData),
    Knight,
}

/// The distance between two coordinates.
pub open spec fn abs_diff(a: int, b: int) -> int {
    if a < b {
        b - a
    } else {
        a - b
    }
}

/// The sign of a difference of coordinates: -1, 0 or 1.
pub open spec fn sign(x: int) -> int {
    if x > 0 {
        1
    } else if x < 0 {
        -1
    } else {
        0
    }
}

impl MoveShape {
    /// The shape of the displacement from `from` to `to`, if it has one: a
    /// knight leap, a move along a rank or file, or a move along a diagonal.
    pub open spec fn classify(from: Position, to: Position) -> Option<MoveShape> {
        let df = abs_diff(to.file as int, from.file as int);
        let dr = abs_diff(to.rank as int, from.rank as int);
        let data = ShapeData {
            forward_only: to.rank > from.rank,
            backward_only: to.rank < from.rank,
            distance: (if df > dr {
                df
            } else {
                dr
            }) as u8,
        };
        if from == to {
            None
        } else if (df == 2 && dr == 1) || (df == 1 && dr == 2) {
            Some(MoveShape::Knight)
        } else if df == 0 || dr == 0 {
            Some(MoveShape::Straight(data))
        } else if df == dr {
            Some(MoveShape::Diagonal(data))
        } else {
            None
        }
    }

    /// The shape of the displacement from `from` to `to`; fails where the
    /// squares are the same or lie neither on a line nor a knight's leap
    /// apart.
    pub fn from_positions(from: Position, to: Position) -> (r: Result<Self, String>)
        ensures
            match r {
                Ok(shape) => Self::classify(from, to) == Some(shape),
                Err(e) => Self::classify(from, to) is None && e@ == (if from == to {
                    "From positon can't be same as to position"@
                } else {
                    "Invalid move shape"@
                }),
            },
    {
        if from == to {
            return Err(String::from_str("From positon can't be same as to position"));
        }
        let df: i16 = to.file as i16 - from.file as i16;
        let dr: i16 = to.rank as i16 - from.rank as i16;
        let delta_file: i16 = if df < 0 {
            -df
        } else {
            df
        };
        let delta_rank: i16 = if dr < 0 {
            -dr
        } else {
            dr
        };
        let distance: u8 = if delta_file > delta_rank {
            delta_file as u8
        } else {
            delta_rank as u8
        };
        if (delta_file == 2 && delta_rank == 1) || (delta_file == 1 && delta_rank == 2) {
            return Ok(MoveShape::Knight);
        }
        let data = ShapeData {
            forward_only: to.rank > from.rank,
            backward_only: to.rank < from.rank,
            distance,
        };
        if delta_file == 0 || delta_rank == 0 {
            return Ok(MoveShape::Straight(data));
        }
        if delta_file == delta_rank {
            return Ok(MoveShape::Diagonal(data));
        }
        Err(String::from_str("Invalid move shape"))
    }
}

#[derive(Clone, Copy, PartialEq, Eq, Debug, Structural)]
/// The six kinds of pieces.
pub enum PieceType {
    Pawn,
    Bishop,
    Knight,
    Rook,
    Queen,
    King,
}

#[derive(Clone, Copy, PartialEq, Eq, Debug, Structural)]
/// The two sides.
pub enum PieceColor {
    White,
    Black,
}

impl PieceColor {
    /// The other colour.
    pub open spec fn opponent(self) -> PieceColor {
        match self {
            PieceColor::White => PieceColor::Black,
            PieceColor::Black => PieceColor::White,
        }
    }

    /// The rank on which this colour's pawns start.
    pub open spec fn pawn_rank(self) -> int {
        match self {
            PieceColor::White => 1,
            PieceColor::Black => 6,
        }
    }

    /// Whether a move with these direction flags advances a pawn of this colour.
    pub open spec fn advances(self, data: ShapeData) -> bool {
        match self {
            PieceColor::White => data.forward_only,
            PieceColor::Black => data.backward_only,
        }
    }
}

#[derive(Clone, Copy, PartialEq, Eq, Debug, Structural)]
/// A piece: its kind and its colour.
pub struct Piece {
    pub type_: PieceType,
    pub color: PieceColor,
}

impl Piece {
    /// The shapes this piece may make, whatever stands on the board. A king's
    /// straight move of two squares is allowed here only so that castling can
    /// be examined; it is never an ordinary king move.
    pub open spec fn allows(self, shape: MoveShape) -> bool {
        match (self.type_, shape) {
            (PieceType::Rook, MoveShape::Straight(_)) => true,
            (PieceType::Bishop, MoveShape::Diagonal(_)) => true,
            (PieceType::Queen, MoveShape::Straight(_)) => true,
            (PieceType::Queen, MoveShape::Diagonal(_)) => true,
            (PieceType::Knight, MoveShape::Knight) => true,
            (PieceType::King, MoveShape::Straight(data)) => data.distance == 1 || data.distance
                == 2,
            (PieceType::King, MoveShape::Diagonal(data)) => data.distance == 1,
            (PieceType::Pawn, MoveShape::Straight(data)) => self.color.advances(data) && (
            data.distance == 1 || data.distance == 2),
            (PieceType::Pawn, MoveShape::Diagonal(data)) => self.color.advances(data)
                && !self.color.opponent().advances(data) && data.distance == 1,
            _ => false,
        }
    }

    /// The pawn rules that depend on whether the move captures: a quiet move
    /// is straight, by one square or by two from the starting rank; a capture
    /// is diagonal by one square.
    pub open spec fn pawn_move_ok(self, move_: Move, is_capture: bool) -> bool {
        match (move_.shape_spec(), is_capture) {
            (Some(MoveShape::Straight(data)), false) => if data.distance == 2 {
                move_.from.rank == self.color.pawn_rank()
            } else {
                data.distance == 1
            },
            (Some(MoveShape::Diagonal(data)), true) => data.distance == 1,
            _ => false,
        }
    }

    /// Whether this piece may make a move of this shape, whatever stands on
    /// the board.
    pub fn shape_allowed(&self, shape: MoveShape) -> (r: bool)
        ensures
            r == self.allows(shape),
    {
        match (self.type_, shape) {
            (PieceType::Rook, MoveShape::Straight(_)) => true,
            (PieceType::Bishop, MoveShape::Diagonal(_)) => true,
            (PieceType::Queen, MoveShape::Straight(_)) => true,
            (PieceType::Queen, MoveShape::Diagonal(_)) => true,
            (PieceType::Knight, MoveShape::Knight) => true,
            (PieceType::King, MoveShape::Straight(data)) => data.distance == 1 || data.distance
                == 2,
            (PieceType::King, MoveShape::Diagonal(data)) => data.distance == 1,
            (PieceType::Pawn, MoveShape::Straight(data)) => match self.color {
                PieceColor::White => data.forward_only && (data.distance == 1 || data.distance
                    == 2),
                PieceColor::Black => data.backward_only && (data.distance == 1 || data.distance
                    == 2),
            },
            (PieceType::Pawn, MoveShape::Diagonal(data)) => match self.color {
                PieceColor::White => data.forward_only && !data.backward_only && data.distance
                    == 1,
                PieceColor::Black => !data.forward_only && data.backward_only && data.distance
                    == 1,
            },
            _ => false,
        }
    }

    /// Whether a pawn's move of an allowed shape suits what it does: a quiet
    /// move is straight, a capture diagonal.
    pub fn validate_pawn_rules(&self, move_: Move, is_capture: bool) -> (r: bool)
        ensures
            r == self.pawn_move_ok(move_, is_capture),
    {
        let Some(shape) = move_.shape() else {
            return false;
        };
        match (shape, is_capture) {
            (MoveShape::Straight(data), false) => {
                if data.distance == 2 {
                    let starting_rank: i8 = match self.color {
                        PieceColor::White => 1,
                        PieceColor::Black => 6,
                    };
                    move_.from.rank == starting_rank
                } else {
                    data.distance == 1
                }
            },
            (MoveShape::Diagonal(data), true) => data.distance == 1,
            _ => false,
        }
    }
}

/// The squares met when stepping from `cur` in direction `d`, `cur` included:
/// up to the first square that satisfies `stop`, or to the edge of the board.
pub open spec fn trail(cur: Position, d: Offset, stop: spec_fn(Position) -> bool) -> Seq<Position>
    decreases cur.room(d),
    when cur.on_board() && d.is_step()
{
    if stop(cur) || !cur.next_on_board(d) {
        seq![cur]
    } else {
        seq![cur] + trail(cur.shifted(d), d, stop)
    }
}

/// The squares met when stepping away from `start` in direction `d`, `start`
/// itself left out: up to the first square that satisfies `stop`, or to the
/// edge of the board.
pub open spec fn walk(start: Position, d: Offset, stop: spec_fn(Position) -> bool) -> Seq<Position> {
    if start.next_on_board(d) {
        trail(start.shifted(d), d, stop)
    } else {
        Seq::empty()
    }
}

/// The test that stops a walk on the square `to`.
pub open spec fn arrives_at(to: Position) -> spec_fn(Position) -> bool {
    |p: Position| p == to
}

/// A trail starts with the square it starts from.
pub proof fn lemma_trail_nonempty(cur: Position, d: Offset, stop: spec_fn(Position) -> bool)
    requires
        cur.on_board(),
        d.is_step(),
    ensures
        trail(cur, d, stop).len() >= 1,
        trail(cur, d, stop)[0] == cur,
{
}

/// A move from one square to another.
#[derive(Clone, Copy, PartialEq, Eq, Debug, Structural)]
pub struct Move {
    pub from: Position,
    pub to: Position,
}

impl Move {
    /// The shape of the move, if it has one.
    pub open spec fn shape_spec(self) -> Option<MoveShape> {
        MoveShape::classify(self.from, self.to)
    }

    /// Both squares lie on the board.
    pub open spec fn on_board(self) -> bool {
        self.from.on_board() && self.to.on_board()
    }

    /// The unit step that leads from the origin towards the destination.
    pub open spec fn step(self) -> Offset {
        Offset {
            file: sign(self.to.file - self.from.file) as i8,
            rank: sign(self.to.rank - self.from.rank) as i8,
        }
    }

    /// The squares the move passes over, destination included. A knight's leap
    /// passes over nothing but its destination. `None` for a move without a
    /// shape, unless it stays in place.
    pub open spec fn track(self) -> Option<Seq<Position>> {
        if self.from == self.to {
            Some(Seq::empty())
        } else {
            match self.shape_spec() {
                None => None,
                Some(MoveShape::Knight) => Some(seq![self.to]),
                Some(_) => Some(walk(self.from, self.step(), arrives_at(self.to))),
            }
        }
    }

    /// The move from `from` to `to`.
    pub fn new(from: Position, to: Position) -> (r: Self)
        ensures
            r == (Move { from, to }),
    {
        Self { from, to }
    }

    /// The square the move starts from.
    pub fn from(&self) -> (r: Position)
        ensures
            r == self.from,
    {
        self.from
    }

    /// The square the move ends on.
    pub fn to(&self) -> (r: Position)
        ensures
            r == self.to,
    {
        self.to
    }

    /// The shape of the move, if it has one.
    pub fn shape(&self) -> (r: Option<MoveShape>)
        ensures
            r == self.shape_spec(),
    {
        match MoveShape::from_positions(self.from, self.to) {
            Ok(shape) => Some(shape),
            Err(_) => None,
        }
    }

    /// Whether both squares lie on the board.
    pub fn is_on_board(&self) -> (r: bool)
        ensures
            r == self.on_board(),
    {
        self.from.is_on_board() && self.to.is_on_board()
    }

    /// The unit step towards the destination.
    pub fn direction(&self) -> (r: Offset)
        ensures
            r == self.step(),
    {
        let df: i16 = self.to.file as i16 - self.from.file as i16;
        let dr: i16 = self.to.rank as i16 - self.from.rank as i16;
        let file: i8 = if df > 0 {
            1
        } else if df < 0 {
            -1
        } else {
            0
        };
        let rank: i8 = if dr > 0 {
            1
        } else if dr < 0 {
            -1
        } else {
            0
        };
        Offset { file, rank }
    }

    /// The squares the move passes over, destination included: one square
    /// after another along a line, as far as the board reaches, or the
    /// destination alone for a knight's leap. Fails for a move without a
    /// shape, unless it stays in place.
    pub fn path(&self) -> (r: Result<Vec<Position>, String>)
        ensures
            match r {
                Ok(squares) => self.track() == Some(squares@),
                Err(e) => self.track() is None && e@ == "Invalid move shape"@,
            },
    {
        if self.from == self.to {
            return Ok(Vec::new());
        }
        let Some(shape) = self.shape() else {
            return Err(String::from_str("Invalid move shape"));
        };
        let mut positions: Vec<Position> = Vec::new();
        match shape {
            MoveShape::Knight => {
                positions.push(self.to);
                assert(positions@ =~= seq![self.to]);
                Ok(positions)
            },
            MoveShape::Straight(_) | MoveShape::Diagonal(_) => {
                let step = self.direction();
                let to = self.to;
                let ghost stop = arrives_at(to);
                let ghost full = walk(self.from, step, stop);
                assert(self.track() == Some(full));
                let Some(first) = self.from.stepped(step) else {
                    assert(positions@ =~= full);
                    return Ok(positions);
                };
                let mut current = first;
                loop
                    invariant
                        step.is_step(),
                        current.on_board(),
                        stop == arrives_at(to),
                        self.track() == Some(full),
                        positions@ + trail(current, step, stop) == full,
                    decreases current.room(step),
                {
                    positions.push(current);
                    if current == to {
                        assert(positions@ =~= full);
                        return Ok(positions);
                    }
                    match current.stepped(step) {
                        None => {
                            assert(positions@ =~= full);
                            return Ok(positions);
                        },
                        Some(next) => {
                            assert(positions@ + trail(next, step, stop) =~= full);
                            current = next;
                        },
                    }
                }
            },
        }
    }
}

} // verus!
