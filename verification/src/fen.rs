//! Reading a position from its textual notation: six fields separated by
//! white space, of which the first four are used.

use crate::board::{Board, CastlingRights, MoveTurn, Position};
use crate::model::BoardState;
use crate::piece::{Piece, PieceColor, PieceType};
use vstd::prelude::*;

verus! {

/// White space as Unicode defines it.
pub open spec fn is_space(c: char) -> bool {
    let n = c as u32;
    ||| 0x9 <= n <= 0xd
    ||| n == 0x20
    ||| n == 0x85
    ||| n == 0xa0
    ||| n == 0x1680
    ||| 0x2000 <= n <= 0x200a
    ||| n == 0x2028
    ||| n == 0x2029
    ||| n == 0x202f
    ||| n == 0x205f
    ||| n == 0x3000
}

/// Whether `c` separates fields: a slash between ranks, white space between
/// the fields of the notation.
pub open spec fn separates(c: char, slash: bool) -> bool {
    if slash {
        c == '/'
    } else {
        is_space(c)
    }
}

/// The fields with a further field at their end. Between slashes an empty
/// field counts; between white space it does not.
pub open spec fn closed(done: Seq<Seq<char>>, current: Seq<char>, slash: bool) -> Seq<Seq<char>> {
    if slash || current.len() > 0 {
        done.push(current)
    } else {
        done
    }
}

/// The fields completed and the field in progress once `text` has been read.
pub open spec fn scan(text: Seq<char>, slash: bool) -> (Seq<Seq<char>>, Seq<char>)
    decreases text.len(),
{
    if text.len() == 0 {
        (Seq::empty(), Seq::empty())
    } else {
        let (done, current) = scan(text.drop_last(), slash);
        if separates(text.last(), slash) {
            (closed(done, current, slash), Seq::empty())
        } else {
            (done, current.push(text.last()))
        }
    }
}

/// The fields of `text`: at slashes, empty fields included, or at runs of
/// white space.
pub open spec fn split(text: Seq<char>, slash: bool) -> Seq<Seq<char>> {
    closed(scan(text, slash).0, scan(text, slash).1, slash)
}

/// The piece that a letter stands for: upper case for White, lower case for
/// Black.
pub open spec fn piece_of(c: char) -> Option<Piece> {
    if c == 'P' {
        Some(Piece { type_: PieceType::Pawn, color: PieceColor::White })
    } else if c == 'N' {
        Some(Piece { type_: PieceType::Knight, color: PieceColor::White })
    } else if c == 'B' {
        Some(Piece { type_: PieceType::Bishop, color: PieceColor::White })
    } else if c == 'R' {
        Some(Piece { type_: PieceType::Rook, color: PieceColor::White })
    } else if c == 'Q' {
        Some(Piece { type_: PieceType::Queen, color: PieceColor::White })
    } else if c == 'K' {
        Some(Piece { type_: PieceType::King, color: PieceColor::White })
    } else if c == 'p' {
        Some(Piece { type_: PieceType::Pawn, color: PieceColor::Black })
    } else if c == 'n' {
        Some(Piece { type_: PieceType::Knight, color: PieceColor::Black })
    } else if c == 'b' {
        Some(Piece { type_: PieceType::Bishop, color: PieceColor::Black })
    } else if c == 'r' {
        Some(Piece { type_: PieceType::Rook, color: PieceColor::Black })
    } else if c == 'q' {
        Some(Piece { type_: PieceType::Queen, color: PieceColor::Black })
    } else if c == 'k' {
        Some(Piece { type_: PieceType::King, color: PieceColor::Black })
    } else {
        None
    }
}

/// The number of empty squares that a digit from 1 to 8 stands for.
pub open spec fn gap_of(c: char) -> Option<nat> {
    if '1' as u32 <= c as u32 <= '8' as u32 {
        Some((c as u32 - '0' as u32) as nat)
    } else {
        None
    }
}

/// The squares that one character of the placement stands for, if any.
pub open spec fn squares_of(c: char) -> Option<Seq<Option<Piece>>> {
    match gap_of(c) {
        Some(n) => Some(Seq::new(n, |i: int| None::<Piece>)),
        None => match piece_of(c) {
            Some(piece) => Some(seq![Some(piece)]),
            None => None,
        },
    }
}

/// The characters of the ranks in the order of the squares: the last rank
/// written comes first.
pub open spec fn rank_order(ranks: Seq<Seq<char>>) -> Seq<char>
    decreases ranks.len(),
{
    if ranks.len() == 0 {
        Seq::empty()
    } else {
        ranks.last() + rank_order(ranks.drop_last())
    }
}

/// The squares that the characters stand for, or the first character that
/// stands for none.
pub open spec fn decode(text: Seq<char>) -> Result<Seq<Option<Piece>>, char>
    decreases text.len(),
{
    if text.len() == 0 {
        Ok(Seq::empty())
    } else {
        match decode(text.drop_last()) {
            Err(c) => Err(c),
            Ok(squares) => match squares_of(text.last()) {
                Some(more) => Ok(squares + more),
                None => Err(text.last()),
            },
        }
    }
}

/// The rights that the castling field grants: one for each of the letters
/// K, Q, k and q that it holds.
pub open spec fn rights_of(field: Seq<char>) -> CastlingRights {
    CastlingRights {
        white_kingside: field.contains('K'),
        white_queenside: field.contains('Q'),
        black_kingside: field.contains('k'),
        black_queenside: field.contains('q'),
    }
}

/// The square that a file letter and a rank digit name. It may lie off the
/// board.
pub open spec fn square_of(file: char, rank: char) -> Position {
    Position { file: (file as u32 - 'a' as u32) as i8, rank: (rank as u32 - '1' as u32) as i8 }
}

/// Whether the field is two characters of the ASCII range, as the name of a
/// square is.
pub open spec fn names_square(field: Seq<char>) -> bool {
    field.len() == 2 && (field[0] as u32) < 128 && (field[1] as u32) < 128
}

/// What the notation `text` describes: a board, or the reason why it
/// describes none.
pub open spec fn parse(text: Seq<char>) -> Result<BoardState, Seq<char>> {
    let parts = split(text, false);
    if parts.len() != 6 {
        Err("FEN string must have 6 parts"@)
    } else if split(parts[0], true).len() != 8 {
        Err("FEN piece placement must have 8 ranks"@)
    } else {
        match decode(rank_order(split(parts[0], true))) {
            Err(c) => Err("Invalid piece character: "@.push(c)),
            Ok(squares) => if squares.len() != 64 {
                Err("Invalid number of pieces in FEN"@)
            } else if parts[1] != seq!['w'] && parts[1] != seq!['b'] {
                Err("Invalid active color"@)
            } else if parts[3] != seq!['-'] && !names_square(parts[3]) {
                Err("Invalid en passant square"@)
            } else if parts[3] != seq!['-'] && !square_of(parts[3][0], parts[3][1]).on_board() {
                Err("En passant square out of bounds"@)
            } else {
                Ok(
                    BoardState {
                        squares,
                        turn: if parts[1] == seq!['w'] {
                            MoveTurn::White
                        } else {
                            MoveTurn::Black
                        },
                        rights: rights_of(parts[2]),
                        en_passant: if parts[3] == seq!['-'] {
                            None
                        } else {
                            Some(square_of(parts[3][0], parts[3][1]))
                        },
                    },
                )
            },
        }
    }
}

/// The views of the fields.
pub open spec fn views(fields: Seq<Vec<char>>) -> Seq<Seq<char>> {
    fields.map_values(|field: Vec<char>| field@)
}

/// Whether `c` is white space as Unicode defines it.
pub fn is_white_space(c: char) -> (r: bool)
    ensures
        r == is_space(c),
{
    let n = c as u32;
    (0x9 <= n && n <= 0xd) || n == 0x20 || n == 0x85 || n == 0xa0 || n == 0x1680 || (0x2000 <= n
        && n <= 0x200a) || n == 0x2028 || n == 0x2029 || n == 0x202f || n == 0x205f || n == 0x3000
}

/// The characters of a string.
pub fn chars_of(text: &str) -> (r: Vec<char>)
    ensures
        r@ == text@,
{
    let n = text.unicode_len();
    let mut chars: Vec<char> = Vec::new();
    let mut i: usize = 0;
    while i < n
        invariant
            n == text@.len(),
            i <= n,
            chars@ == text@.take(i as int),
        decreases n - i,
    {
        chars.push(text.get_char(i));
        i = i + 1;
        assert(chars@ =~= text@.take(i as int));
    }
    assert(text@.take(n as int) =~= text@);
    chars
}

/// Splits `text` into fields: at slashes, empty fields included, or at runs of
/// white space.
pub fn split_fields(text: &Vec<char>, slash: bool) -> (r: Vec<Vec<char>>)
    ensures
        views(r@) == split(text@, slash),
{
    let mut done: Vec<Vec<char>> = Vec::new();
    let mut current: Vec<char> = Vec::new();
    let mut i: usize = 0;
    assert(views(done@) =~= Seq::empty());
    assert(text@.take(0) =~= Seq::empty());
    while i < text.len()
        invariant
            i <= text.len(),
            views(done@) == scan(text@.take(i as int), slash).0,
            current@ == scan(text@.take(i as int), slash).1,
        decreases text.len() - i,
    {
        let c = text[i];
        let ghost before = views(done@);
        let ghost field = current@;
        assert(text@.take(i + 1).drop_last() =~= text@.take(i as int));
        let separator = if slash {
            c == '/'
        } else {
            is_white_space(c)
        };
        if separator {
            if slash || current.len() > 0 {
                done.push(current);
                assert(views(done@) =~= before.push(field));
            }
            current = Vec::new();
        } else {
            current.push(c);
        }
        i = i + 1;
    }
    assert(text@.take(text.len() as int) =~= text@);
    if slash || current.len() > 0 {
        let ghost before = views(done@);
        let ghost field = current@;
        done.push(current);
        assert(views(done@) =~= before.push(field));
    }
    done
}

/// The piece that a letter stands for.
pub fn char_to_piece(c: char) -> (r: Option<Piece>)
    ensures
        r == piece_of(c),
{
    if c == 'P' {
        Some(Piece { type_: PieceType::Pawn, color: PieceColor::White })
    } else if c == 'N' {
        Some(Piece { type_: PieceType::Knight, color: PieceColor::White })
    } else if c == 'B' {
        Some(Piece { type_: PieceType::Bishop, color: PieceColor::White })
    } else if c == 'R' {
        Some(Piece { type_: PieceType::Rook, color: PieceColor::White })
    } else if c == 'Q' {
        Some(Piece { type_: PieceType::Queen, color: PieceColor::White })
    } else if c == 'K' {
        Some(Piece { type_: PieceType::King, color: PieceColor::White })
    } else if c == 'p' {
        Some(Piece { type_: PieceType::Pawn, color: PieceColor::Black })
    } else if c == 'n' {
        Some(Piece { type_: PieceType::Knight, color: PieceColor::Black })
    } else if c == 'b' {
        Some(Piece { type_: PieceType::Bishop, color: PieceColor::Black })
    } else if c == 'r' {
        Some(Piece { type_: PieceType::Rook, color: PieceColor::Black })
    } else if c == 'q' {
        Some(Piece { type_: PieceType::Queen, color: PieceColor::Black })
    } else if c == 'k' {
        Some(Piece { type_: PieceType::King, color: PieceColor::Black })
    } else {
        None
    }
}

/// The characters of the ranks in the order of the squares.
pub fn order_ranks(ranks: &Vec<Vec<char>>) -> (r: Vec<char>)
    ensures
        r@ == rank_order(views(ranks@)),
{
    let ghost all = views(ranks@);
    let mut ordered: Vec<char> = Vec::new();
    let mut left: usize = ranks.len();
    assert(all.take(left as int) =~= all);
    while left > 0
        invariant
            left <= ranks.len(),
            all == views(ranks@),
            ordered@ + rank_order(all.take(left as int)) == rank_order(all),
        decreases left,
    {
        left = left - 1;
        let rank = &ranks[left];
        let ghost before = ordered@;
        let mut j: usize = 0;
        while j < rank.len()
            invariant
                j <= rank.len(),
                ordered@ == before + rank@.take(j as int),
            decreases rank.len() - j,
        {
            ordered.push(rank[j]);
            j = j + 1;
            assert(ordered@ =~= before + rank@.take(j as int));
        }
        proof {
            assert(rank@.take(rank.len() as int) =~= rank@);
            assert(all.take(left + 1).last() == rank@);
            assert(all.take(left + 1).drop_last() =~= all.take(left as int));
            assert(ordered@ + rank_order(all.take(left as int)) =~= before + rank_order(
                all.take(left + 1),
            ));
        }
    }
    assert(ordered@ + Seq::<char>::empty() =~= ordered@);
    ordered
}

/// Appends a character to a message. This is `String::push` of the standard
/// library: the text afterwards is the text before with `c` at its end.
#[verifier::external_body]
fn push_char(text: &mut String, c: char)
    ensures
        final(text)@ == old(text)@.push(c),
{
    text.push(c);
}

/// The squares that the characters of a placement stand for, in their order;
/// fails at the first character that is neither a digit from 1 to 8 nor the
/// letter of a piece.
pub fn decode_squares(text: &Vec<char>) -> (r: Result<Vec<Option<Piece>>, char>)
    ensures
        match r {
            Ok(squares) => decode(text@) == Ok::<Seq<Option<Piece>>, char>(squares@),
            Err(c) => decode(text@) == Err::<Seq<Option<Piece>>, char>(c),
        },
{
    let mut squares: Vec<Option<Piece>> = Vec::new();
    let mut i: usize = 0;
    assert(text@.take(0) =~= Seq::empty());
    while i < text.len()
        invariant
            i <= text.len(),
            decode(text@.take(i as int)) == Ok::<Seq<Option<Piece>>, char>(squares@),
        decreases text.len() - i,
    {
        let c = text[i];
        let n = c as u32;
        let ghost before = squares@;
        assert(text@.take(i + 1).drop_last() =~= text@.take(i as int));
        if 49 <= n && n <= 56 {
            let gap = n - 48;

            let mut j: u32 = 0;
            while j < gap
                invariant
                    j <= gap,
                    squares@ == before + Seq::new(j as nat, |k: int| None::<Piece>),
                decreases gap - j,
            {
                squares.push(None);
                j = j + 1;
                assert(squares@ =~= before + Seq::new(j as nat, |k: int| None::<Piece>));
            }
        } else {
            match char_to_piece(c) {
                Some(piece) => {
                    squares.push(Some(piece));
                    assert(squares@ =~= before + seq![Some(piece)]);
                },
                None => {
                    proof {
                        lemma_decode_fails(text@, i as int);
                    }
                    return Err(c);
                },
            }
        }
        i = i + 1;
    }
    assert(text@.take(text.len() as int) =~= text@);
    Ok(squares)
}

/// Once a prefix of the text fails to decode, so does the text, at the same
/// character.
pub proof fn lemma_decode_fails(text: Seq<char>, i: int)
    requires
        0 <= i < text.len(),
        decode(text.take(i + 1)) is Err,
    ensures
        decode(text) == decode(text.take(i + 1)),
    decreases text.len(),
{
    if i + 1 == text.len() {
        assert(text.take(i + 1) =~= text);
    } else {
        assert(text.drop_last().take(i + 1) =~= text.take(i + 1));
        lemma_decode_fails(text.drop_last(), i);
    }
}

/// Whether the field holds the character.
pub fn holds(field: &Vec<char>, c: char) -> (r: bool)
    ensures
        r == field@.contains(c),
{
    let mut i: usize = 0;
    while i < field.len()
        invariant
            i <= field.len(),
            forall|j: int| 0 <= j < i ==> field@[j] != c,
        decreases field.len() - i,
    {
        if field[i] == c {
            return true;
        }
        i = i + 1;
    }
    false
}

/// Whether the field is the single character `c`.
pub fn is_single(field: &Vec<char>, c: char) -> (r: bool)
    ensures
        r == (field@ == seq![c]),
{
    let r = field.len() == 1 && field[0] == c;
    assert(r == (field@ =~= seq![c]));
    r
}

impl Board {
    /// Reads a position from its notation: the placement of the pieces from
    /// the highest rank to the lowest, the side to move, the castling rights
    /// and the en-passant target, followed by two fields that are not used.
    pub fn from_fen(fen: &str) -> (r: Result<Self, String>)
        ensures
            match r {
                Ok(board) => parse(fen@) == Ok::<BoardState, Seq<char>>(board@),
                Err(e) => parse(fen@) == Err::<BoardState, Seq<char>>(e@),
            },
    {
        let text = chars_of(fen);
        let parts = split_fields(&text, false);
        if parts.len() != 6 {
            return Err(String::from_str("FEN string must have 6 parts"));
        }
        assert(views(parts@)[0] == parts@[0]@);
        assert(views(parts@)[1] == parts@[1]@);
        assert(views(parts@)[2] == parts@[2]@);
        assert(views(parts@)[3] == parts@[3]@);
        let ranks = split_fields(&parts[0], true);
        if ranks.len() != 8 {
            return Err(String::from_str("FEN piece placement must have 8 ranks"));
        }
        let ordered = order_ranks(&ranks);
        let squares = match decode_squares(&ordered) {
            Ok(squares) => squares,
            Err(c) => {
                let mut message = String::from_str("Invalid piece character: ");
                push_char(&mut message, c);
                return Err(message);
            },
        };
        if squares.len() != 64 {
            return Err(String::from_str("Invalid number of pieces in FEN"));
        }
        let mut pieces: [Option<Piece>; 64] = [None;64];
        let mut i: usize = 0;
        while i < 64
            invariant
                i <= 64,
                squares@.len() == 64,
                forall|j: int| 0 <= j < i ==> pieces@[j] == squares@[j],
            decreases 64 - i,
        {
            pieces[i] = squares[i];
            i = i + 1;
        }
        assert(pieces@ =~= squares@);
        let move_turn = if is_single(&parts[1], 'w') {
            MoveTurn::White
        } else if is_single(&parts[1], 'b') {
            MoveTurn::Black
        } else {
            return Err(String::from_str("Invalid active color"));
        };
        let castling_rights = CastlingRights {
            white_kingside: holds(&parts[2], 'K'),
            white_queenside: holds(&parts[2], 'Q'),
            black_kingside: holds(&parts[2], 'k'),
            black_queenside: holds(&parts[2], 'q'),
        };
        let square = &parts[3];
        let en_passant_target = if is_single(square, '-') {
            None
        } else {
            if !(square.len() == 2 && (square[0] as u32) < 128 && (square[1] as u32) < 128) {
                return Err(String::from_str("Invalid en passant square"));
            }
            let file = (square[0] as u32 as i16 - 97) as i8;
            let rank = (square[1] as u32 as i16 - 49) as i8;
            let pos = Position::new(file, rank);
            if pos.is_on_board() {
                Some(pos)
            } else {
                return Err(String::from_str("En passant square out of bounds"));
            }
        };
        Ok(Board::new(pieces, move_turn, castling_rights, en_passant_target))
    }
}

} // verus!
