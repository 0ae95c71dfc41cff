//! Squares along a line: a closed form for the squares that a walk passes
//! over, and what follows from it for the paths of moves.

use crate::board::Position;
use crate::piece::{arrives_at, trail, walk, Move, MoveShape, Offset};
use vstd::prelude::*;

verus! {

/// `n` times a step component of -1, 0 or 1.
pub open spec fn scaled(component: int, n: int) -> int {
    if component > 0 {
        n
    } else if component < 0 {
        -n
    } else {
        0
    }
}

/// Whether `n` steps in direction `d` from `start` lead to a square on the
/// board.
pub open spec fn along_on_board(start: Position, d: Offset, n: int) -> bool {
    &&& 0 <= start.file + scaled(d.file as int, n) < 8
    &&& 0 <= start.rank + scaled(d.rank as int, n) < 8
}

/// The square `n` steps in direction `d` from `start`.
pub open spec fn along(start: Position, d: Offset, n: int) -> Position {
    Position {
        file: (start.file + scaled(d.file as int, n)) as i8,
        rank: (start.rank + scaled(d.rank as int, n)) as i8,
    }
}

/// The place of a direction among the eight directions of a ray.
pub open spec fn direction_index(d: Offset) -> int {
    if d.rank == 0 {
        if d.file > 0 {
            0
        } else {
            1
        }
    } else if d.file == 0 {
        if d.rank > 0 {
            2
        } else {
            3
        }
    } else if d.file > 0 {
        if d.rank > 0 {
            4
        } else {
            5
        }
    } else {
        if d.rank > 0 {
            6
        } else {
            7
        }
    }
}

/// The place of a knight's leap among the eight leaps.
pub open spec fn leap_index(m: Move) -> int {
    let files = m.to.file - m.from.file;
    let ranks = m.to.rank - m.from.rank;
    if files == 2 {
        if ranks == 1 {
            0
        } else {
            1
        }
    } else if files == -2 {
        if ranks == 1 {
            2
        } else {
            3
        }
    } else if files == 1 {
        if ranks == 2 {
            4
        } else {
            5
        }
    } else {
        if ranks == 2 {
            6
        } else {
            7
        }
    }
}

/// The number of squares that a move along a line covers.
pub open spec fn span(m: Move) -> int {
    let files = if m.to.file > m.from.file {
        m.to.file - m.from.file
    } else {
        m.from.file - m.to.file
    };
    let ranks = if m.to.rank > m.from.rank {
        m.to.rank - m.from.rank
    } else {
        m.from.rank - m.to.rank
    };
    if files > ranks {
        files
    } else {
        ranks
    }
}

/// Whether the move runs along a rank, a file or a diagonal.
pub open spec fn runs_along_line(m: Move) -> bool {
    m.shape_spec() is Some && m.shape_spec() != Some(MoveShape::Knight)
}

/// The square in the middle of a move of two squares.
pub open spec fn middle(m: Move) -> Position {
    Position {
        file: ((m.from.file + m.to.file) / 2) as i8,
        rank: ((m.from.rank + m.to.rank) / 2) as i8,
    }
}

/// The move the other way round.
pub open spec fn reversed(m: Move) -> Move {
    Move { from: m.to, to: m.from }
}

/// A trail passes over the squares along its direction one by one for as long
/// as they lie on the board and none of them stops it, and it ends on the
/// first square that stops it or has the edge of the board behind it.
pub proof fn lemma_trail_along(
    cur: Position,
    d: Offset,
    stop: spec_fn(Position) -> bool,
    n: int,
)
    requires
        cur.on_board(),
        d.is_step(),
        0 <= n,
        along_on_board(cur, d, n),
        forall|j: int| 0 <= j < n ==> !stop(#[trigger] along(cur, d, j)),
    ensures
        trail(cur, d, stop).len() > n,
        forall|j: int| 0 <= j <= n ==> trail(cur, d, stop)[j] == #[trigger] along(cur, d, j),
        stop(along(cur, d, n)) || !along_on_board(cur, d, n + 1) ==> trail(cur, d, stop).len() == n
            + 1,
    decreases n,
{
    if n == 0 {
        assert(along(cur, d, 0) == cur);
    } else {
        assert(along(cur, d, 0) == cur);
        let next = cur.shifted(d);
        assert(next == along(cur, d, 1));
        assert forall|j: int| 0 <= j < n - 1 implies !stop(#[trigger] along(next, d, j)) by {
            assert(along(next, d, j) == along(cur, d, j + 1));
        }
        assert(along(next, d, n - 1) == along(cur, d, n));
        lemma_trail_along(next, d, stop, n - 1);
        let rest = trail(next, d, stop);
        assert(trail(cur, d, stop) == seq![cur] + rest);
        assert forall|j: int| 0 <= j <= n implies trail(cur, d, stop)[j] == #[trigger] along(
            cur,
            d,
            j,
        ) by {
            if j > 0 {
                assert(rest[j - 1] == along(next, d, j - 1));
                assert(along(next, d, j - 1) == along(cur, d, j));
            }
        }
    }
}

/// A walk from `start` ends on the `n`-th square along its direction if the
/// squares before that one lie on the board and do not stop it, and that one
/// stops it or has the edge of the board behind it.
pub proof fn lemma_walk_ends(
    start: Position,
    d: Offset,
    stop: spec_fn(Position) -> bool,
    n: int,
)
    requires
        d.is_step(),
        1 <= n,
        along_on_board(start, d, 1),
        along_on_board(start, d, n),
        forall|j: int| 1 <= j < n ==> !stop(#[trigger] along(start, d, j)),
        stop(along(start, d, n)) || !along_on_board(start, d, n + 1),
    ensures
        walk(start, d, stop).len() == n,
        walk(start, d, stop).last() == along(start, d, n),
        forall|j: int| 1 <= j <= n ==> walk(start, d, stop)[j - 1] == #[trigger] along(start, d, j),
{
    let first = start.shifted(d);
    assert(first == along(start, d, 1));
    assert forall|j: int| 0 <= j < n - 1 implies !stop(#[trigger] along(first, d, j)) by {
        assert(along(first, d, j) == along(start, d, j + 1));
    }
    assert(along(first, d, n - 1) == along(start, d, n));
    lemma_trail_along(first, d, stop, n - 1);
    assert forall|j: int| 1 <= j <= n implies walk(start, d, stop)[j - 1] == #[trigger] along(
        start,
        d,
        j,
    ) by {
        assert(trail(first, d, stop)[j - 1] == along(first, d, j - 1));
        assert(along(first, d, j - 1) == along(start, d, j));
    }
}

/// The squares of a trail lie one step after another along its direction, on
/// the board; none but the last stops it, and the last stops it or has the
/// edge of the board behind it.
pub proof fn lemma_trail_shape(cur: Position, d: Offset, stop: spec_fn(Position) -> bool)
    requires
        cur.on_board(),
        d.is_step(),
    ensures
        1 <= trail(cur, d, stop).len() <= cur.room(d) + 1,
        forall|j: int|
            0 <= j < trail(cur, d, stop).len() ==> #[trigger] trail(cur, d, stop)[j] == along(
                cur,
                d,
                j,
            ) && along_on_board(cur, d, j),
        forall|j: int|
            0 <= j < trail(cur, d, stop).len() - 1 ==> !stop(#[trigger] trail(cur, d, stop)[j]),
        stop(trail(cur, d, stop).last()) || !along_on_board(cur, d, trail(cur, d, stop).len() as int),
    decreases cur.room(d),
{
    let squares = trail(cur, d, stop);
    assert(along(cur, d, 0) == cur);
    if stop(cur) || !cur.next_on_board(d) {
        assert(squares == seq![cur]);
    } else {
        let next = cur.shifted(d);
        let rest = trail(next, d, stop);
        lemma_trail_shape(next, d, stop);
        assert(squares == seq![cur] + rest);
        assert forall|j: int| 0 <= j < squares.len() implies #[trigger] squares[j] == along(
            cur,
            d,
            j,
        ) && along_on_board(cur, d, j) by {
            if j > 0 {
                assert(squares[j] == rest[j - 1]);
                assert(along(next, d, j - 1) == along(cur, d, j));
            }
        }
        assert forall|j: int| 0 <= j < squares.len() - 1 implies !stop(#[trigger] squares[j]) by {
            if j > 0 {
                assert(squares[j] == rest[j - 1]);
            }
        }
        assert(squares.last() == rest.last());
        assert(along_on_board(cur, d, squares.len() as int) == along_on_board(
            next,
            d,
            rest.len() as int,
        ));
    }
}

/// A move on the board along a line passes over the squares of that line one
/// by one and ends on its destination.
pub proof fn lemma_track_is_line(m: Move)
    requires
        m.on_board(),
        runs_along_line(m),
    ensures
        m.step().is_step(),
        1 <= span(m),
        m.to == along(m.from, m.step(), span(m)),
        m.track() matches Some(squares) && squares.len() == span(m) && (forall|j: int|
            1 <= j <= span(m) ==> squares[j - 1] == #[trigger] along(m.from, m.step(), j)),
{
    let d = m.step();
    let n = span(m);
    assert(m.to == along(m.from, d, n));
    assert forall|j: int| 1 <= j < n implies !(arrives_at(m.to))(
        #[trigger] along(m.from, d, j),
    ) by {}
    lemma_walk_ends(m.from, d, arrives_at(m.to), n);
}

} // verus!
