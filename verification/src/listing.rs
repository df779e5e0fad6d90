//! Facts about the lists of moves: where their entries come from and what
//! holds of every entry.

use crate::gather::{lemma_gather_contains, lemma_gather_index, lemma_gather_kept};
use crate::moves::{
    as_square, can_castle_left, can_castle_right, castling_moves, jump_moves, may_enter,
    move_pairs, nth_square, owned, pairs_upto, pawn_keeps, pawn_moves, pawn_target, piece_moves,
    ray_col, ray_reaches, ray_row, side_moves, sliding_moves, straight_moves, DIAGONAL_DIRS,
    KING_STEPS, KNIGHT_JUMPS, STRAIGHT_DIRS,
};
use crate::types::{on_board, Board, Square, Type};
use vstd::prelude::*;

verus! {

/// Every group of `side_moves` is a piece of the side on the board with its
/// own destinations.
pub proof fn lemma_side_moves_index(board: Board, is_white: bool, i: int)
    requires
        0 <= i < side_moves(board, is_white).len(),
    ensures
        on_board(
            side_moves(board, is_white)[i].0.0 as int,
            side_moves(board, is_white)[i].0.1 as int,
        ),
        owned(
            board,
            side_moves(board, is_white)[i].0.0 as int,
            side_moves(board, is_white)[i].0.1 as int,
            is_white,
        ),
        side_moves(board, is_white)[i].1 == piece_moves(
            board,
            side_moves(board, is_white)[i].0,
            is_white,
        ),
{
    let keep = |k: int| owned(board, k / 8, k % 8, is_white);
    let at = |k: int| (nth_square(k), piece_moves(board, nth_square(k), is_white));
    let k = lemma_gather_index(64, keep, at, i);
    assert(at(k) == side_moves(board, is_white)[i]);
}

/// Every piece of the side on the board has its group in `side_moves`.
pub proof fn lemma_side_moves_kept(board: Board, is_white: bool, from: Square) -> (i: int)
    requires
        on_board(from.0 as int, from.1 as int),
        owned(board, from.0 as int, from.1 as int, is_white),
    ensures
        0 <= i < side_moves(board, is_white).len(),
        side_moves(board, is_white)[i] == (from, piece_moves(board, from, is_white)),
{
    let keep = |k: int| owned(board, k / 8, k % 8, is_white);
    let at = |k: int| (nth_square(k), piece_moves(board, nth_square(k), is_white));
    let k = from.0 * 8 + from.1;
    assert(k / 8 == from.0 && k % 8 == from.1);
    assert(nth_square(k) == from);
    let i = lemma_gather_kept(64, keep, at, k);
    assert(at(k) == (from, piece_moves(board, from, is_white)));
    i
}

/// Every pseudo-legal destination lies on the board.
pub proof fn lemma_piece_moves_on_board(board: Board, from: Square, is_white: bool, j: int)
    requires
        on_board(from.0 as int, from.1 as int),
        0 <= j < piece_moves(board, from, is_white).len(),
    ensures
        on_board(
            piece_moves(board, from, is_white)[j].0 as int,
            piece_moves(board, from, is_white)[j].1 as int,
        ),
{
    reveal(piece_moves);
    match board.piece_at(from.0 as int, from.1 as int).piece_type {
        Type::Pawn(_) => {
            lemma_pawn_moves_on_board(board, from, is_white, j);
        },
        Type::Rook(_) => {
            lemma_sliding_moves_on_board(board, from, is_white, STRAIGHT_DIRS, j);
        },
        Type::Knight => {
            lemma_jump_moves_on_board(board, from, is_white, KNIGHT_JUMPS, j);
        },
        Type::Bishop => {
            lemma_sliding_moves_on_board(board, from, is_white, DIAGONAL_DIRS, j);
        },
        Type::Queen => {
            let straight = straight_moves(board, from, is_white);
            if j < straight.len() {
                lemma_sliding_moves_on_board(board, from, is_white, STRAIGHT_DIRS, j);
            } else {
                lemma_sliding_moves_on_board(
                    board,
                    from,
                    is_white,
                    DIAGONAL_DIRS,
                    j - straight.len(),
                );
            }
        },
        Type::King(_) => {
            let steps = jump_moves(board, from, is_white, KING_STEPS, 8);
            if j < steps.len() {
                lemma_jump_moves_on_board(board, from, is_white, KING_STEPS, j);
            }
        },
        Type::Empty => {},
    }
}

proof fn lemma_pawn_moves_on_board(board: Board, from: Square, is_white: bool, j: int)
    requires
        on_board(from.0 as int, from.1 as int),
        0 <= j < pawn_moves(board, from, is_white).len(),
    ensures
        on_board(
            pawn_moves(board, from, is_white)[j].0 as int,
            pawn_moves(board, from, is_white)[j].1 as int,
        ),
{
    let keep = |k: int| pawn_keeps(board, from, is_white, k);
    let at = |k: int|
        as_square(pawn_target(from, is_white, k).0, pawn_target(from, is_white, k).1);
    let k = lemma_gather_index(4, keep, at, j);
    assert(at(k) == pawn_moves(board, from, is_white)[j]);
}

proof fn lemma_jump_moves_on_board(
    board: Board,
    from: Square,
    is_white: bool,
    jumps: [(i32, i32); 8],
    j: int,
)
    requires
        0 <= j < jump_moves(board, from, is_white, jumps, 8).len(),
    ensures
        on_board(
            jump_moves(board, from, is_white, jumps, 8)[j].0 as int,
            jump_moves(board, from, is_white, jumps, 8)[j].1 as int,
        ),
{
    let keep = |k: int| may_enter(board, from.0 + jumps[k].0, from.1 + jumps[k].1, is_white);
    let at = |k: int| as_square(from.0 + jumps[k].0, from.1 + jumps[k].1);
    let k = lemma_gather_index(8, keep, at, j);
    assert(at(k) == jump_moves(board, from, is_white, jumps, 8)[j]);
}

proof fn lemma_sliding_moves_on_board(
    board: Board,
    from: Square,
    is_white: bool,
    dirs: [(i32, i32); 4],
    j: int,
)
    requires
        0 <= j < sliding_moves(board, from, is_white, dirs, 28).len(),
    ensures
        on_board(
            sliding_moves(board, from, is_white, dirs, 28)[j].0 as int,
            sliding_moves(board, from, is_white, dirs, 28)[j].1 as int,
        ),
{
    let keep = |k: int| ray_reaches(board, from, dirs[k % 4], k / 4 + 1, is_white);
    let at = |k: int|
        as_square(ray_row(from, dirs[k % 4], k / 4 + 1), ray_col(from, dirs[k % 4], k / 4 + 1));
    let k = lemma_gather_index(28, keep, at, j);
    assert(at(k) == sliding_moves(board, from, is_white, dirs, 28)[j]);
}

/// A pseudo-legal destination of a piece of the side `is_white` is vacant
/// or holds a piece of the other side.
pub proof fn lemma_piece_moves_enterable(board: Board, from: Square, is_white: bool, j: int)
    requires
        on_board(from.0 as int, from.1 as int),
        owned(board, from.0 as int, from.1 as int, is_white),
        0 <= j < piece_moves(board, from, is_white).len(),
    ensures
        may_enter(
            board,
            piece_moves(board, from, is_white)[j].0 as int,
            piece_moves(board, from, is_white)[j].1 as int,
            is_white,
        ),
{
    reveal(piece_moves);
    match board.piece_at(from.0 as int, from.1 as int).piece_type {
        Type::Pawn(_) => {
            let keep = |k: int| pawn_keeps(board, from, is_white, k);
            let at = |k: int|
                as_square(pawn_target(from, is_white, k).0, pawn_target(from, is_white, k).1);
            let k = lemma_gather_index(4, keep, at, j);
            assert(at(k) == pawn_moves(board, from, is_white)[j]);
        },
        Type::Rook(_) => {
            lemma_sliding_moves_enterable(board, from, is_white, STRAIGHT_DIRS, j);
        },
        Type::Knight => {
            lemma_jump_moves_enterable(board, from, is_white, KNIGHT_JUMPS, j);
        },
        Type::Bishop => {
            lemma_sliding_moves_enterable(board, from, is_white, DIAGONAL_DIRS, j);
        },
        Type::Queen => {
            let straight = straight_moves(board, from, is_white);
            if j < straight.len() {
                lemma_sliding_moves_enterable(board, from, is_white, STRAIGHT_DIRS, j);
            } else {
                lemma_sliding_moves_enterable(
                    board,
                    from,
                    is_white,
                    DIAGONAL_DIRS,
                    j - straight.len(),
                );
            }
        },
        Type::King(_) => {
            let steps = jump_moves(board, from, is_white, KING_STEPS, 8);
            if j < steps.len() {
                lemma_jump_moves_enterable(board, from, is_white, KING_STEPS, j);
            }
        },
        Type::Empty => {},
    }
}

proof fn lemma_jump_moves_enterable(
    board: Board,
    from: Square,
    is_white: bool,
    jumps: [(i32, i32); 8],
    j: int,
)
    requires
        0 <= j < jump_moves(board, from, is_white, jumps, 8).len(),
    ensures
        may_enter(
            board,
            jump_moves(board, from, is_white, jumps, 8)[j].0 as int,
            jump_moves(board, from, is_white, jumps, 8)[j].1 as int,
            is_white,
        ),
{
    let keep = |k: int| may_enter(board, from.0 + jumps[k].0, from.1 + jumps[k].1, is_white);
    let at = |k: int| as_square(from.0 + jumps[k].0, from.1 + jumps[k].1);
    let k = lemma_gather_index(8, keep, at, j);
    assert(at(k) == jump_moves(board, from, is_white, jumps, 8)[j]);
}

proof fn lemma_sliding_moves_enterable(
    board: Board,
    from: Square,
    is_white: bool,
    dirs: [(i32, i32); 4],
    j: int,
)
    requires
        0 <= j < sliding_moves(board, from, is_white, dirs, 28).len(),
    ensures
        may_enter(
            board,
            sliding_moves(board, from, is_white, dirs, 28)[j].0 as int,
            sliding_moves(board, from, is_white, dirs, 28)[j].1 as int,
            is_white,
        ),
{
    let keep = |k: int| ray_reaches(board, from, dirs[k % 4], k / 4 + 1, is_white);
    let at = |k: int|
        as_square(ray_row(from, dirs[k % 4], k / 4 + 1), ray_col(from, dirs[k % 4], k / 4 + 1));
    let k = lemma_gather_index(28, keep, at, j);
    assert(at(k) == sliding_moves(board, from, is_white, dirs, 28)[j]);
}

/// Every pair among the moves of the first `n` groups belongs to one of
/// them.
pub proof fn lemma_pairs_index(groups: Seq<(Square, Seq<Square>)>, n: nat, i: int) -> (at: (
    int,
    int,
))
    requires
        n <= groups.len(),
        0 <= i < pairs_upto(groups, n).len(),
    ensures
        0 <= at.0 < n,
        0 <= at.1 < groups[at.0].1.len(),
        pairs_upto(groups, n)[i] == (groups[at.0].0, groups[at.0].1[at.1]),
    decreases n,
{
    let before = pairs_upto(groups, (n - 1) as nat);
    if i < before.len() {
        lemma_pairs_index(groups, (n - 1) as nat, i)
    } else {
        (n - 1, i - before.len())
    }
}

/// Every move of each of the first `n` groups is among their pairs.
pub proof fn lemma_pairs_kept(groups: Seq<(Square, Seq<Square>)>, n: nat, a: int, b: int) -> (i:
    int)
    requires
        n <= groups.len(),
        0 <= a < n,
        0 <= b < groups[a].1.len(),
    ensures
        0 <= i < pairs_upto(groups, n).len(),
        pairs_upto(groups, n)[i] == (groups[a].0, groups[a].1[b]),
    decreases n,
{
    let before = pairs_upto(groups, (n - 1) as nat);
    if a < n - 1 {
        lemma_pairs_kept(groups, (n - 1) as nat, a, b)
    } else {
        before.len() + b
    }
}

/// Every pair of `move_pairs` is a pseudo-legal move of a piece of the side
/// between squares of the board.
pub proof fn lemma_move_pairs_index(board: Board, is_white: bool, i: int)
    requires
        0 <= i < move_pairs(board, is_white).len(),
    ensures
        on_board(
            move_pairs(board, is_white)[i].0.0 as int,
            move_pairs(board, is_white)[i].0.1 as int,
        ),
        on_board(
            move_pairs(board, is_white)[i].1.0 as int,
            move_pairs(board, is_white)[i].1.1 as int,
        ),
        owned(
            board,
            move_pairs(board, is_white)[i].0.0 as int,
            move_pairs(board, is_white)[i].0.1 as int,
            is_white,
        ),
        piece_moves(board, move_pairs(board, is_white)[i].0, is_white).contains(
            move_pairs(board, is_white)[i].1,
        ),
{
    let groups = side_moves(board, is_white);
    let at = lemma_pairs_index(groups, groups.len(), i);
    lemma_side_moves_index(board, is_white, at.0);
    lemma_piece_moves_on_board(board, groups[at.0].0, is_white, at.1);
}

/// Every pseudo-legal move of a piece of the side is a pair of
/// `move_pairs`.
pub proof fn lemma_move_pairs_kept(board: Board, is_white: bool, from: Square, to: Square) -> (i:
    int)
    requires
        on_board(from.0 as int, from.1 as int),
        owned(board, from.0 as int, from.1 as int, is_white),
        piece_moves(board, from, is_white).contains(to),
    ensures
        0 <= i < move_pairs(board, is_white).len(),
        move_pairs(board, is_white)[i] == (from, to),
{
    let groups = side_moves(board, is_white);
    let a = lemma_side_moves_kept(board, is_white, from);
    let list = piece_moves(board, from, is_white);
    let b = choose|b: int| 0 <= b < list.len() && list[b] == to;
    lemma_pairs_kept(groups, groups.len(), a, b)
}

/// A king or a rook that has moved castles no more: the castling
/// destinations are there only for a king that has not moved, and only
/// towards a rook that has not moved.
pub proof fn lemma_no_castling_after_moving(board: Board, from: Square)
    ensures
        board.piece_at(from.0 as int, from.1 as int).piece_type != Type::King(false)
            ==> castling_moves(board, from) == Seq::<Square>::empty(),
        board.piece_at(from.0 as int, from.1 - 4).piece_type != Type::Rook(false)
            ==> !can_castle_left(board, from),
        board.piece_at(from.0 as int, from.1 + 3).piece_type != Type::Rook(false)
            ==> !can_castle_right(board, from),
{
}

/// A square is among the moves of a jump table exactly when it lies one of
/// the eight jumps away and may be entered.
pub proof fn lemma_jump_moves_contain(
    board: Board,
    from: Square,
    is_white: bool,
    jumps: [(i32, i32); 8],
    to: Square,
)
    ensures
        jump_moves(board, from, is_white, jumps, 8).contains(to) <==> exists|k: int|
            0 <= k < 8 && #[trigger] may_enter(
                board,
                from.0 + jumps[k].0,
                from.1 + jumps[k].1,
                is_white,
            ) && to == as_square(from.0 + jumps[k].0, from.1 + jumps[k].1),
{
    let keep = |k: int| may_enter(board, from.0 + jumps[k].0, from.1 + jumps[k].1, is_white);
    let at = |k: int| as_square(from.0 + jumps[k].0, from.1 + jumps[k].1);
    lemma_gather_contains(8, keep, at, to);
    if jump_moves(board, from, is_white, jumps, 8).contains(to) {
        let k = choose|k: int| 0 <= k < 8 && #[trigger] keep(k) && at(k) == to;
        assert(may_enter(board, from.0 + jumps[k].0, from.1 + jumps[k].1, is_white));
    }
    if exists|k: int|
        0 <= k < 8 && #[trigger] may_enter(
            board,
            from.0 + jumps[k].0,
            from.1 + jumps[k].1,
            is_white,
        ) && to == as_square(from.0 + jumps[k].0, from.1 + jumps[k].1) {
        let k = choose|k: int|
            0 <= k < 8 && #[trigger] may_enter(
                board,
                from.0 + jumps[k].0,
                from.1 + jumps[k].1,
                is_white,
            ) && to == as_square(from.0 + jumps[k].0, from.1 + jumps[k].1);
        assert(keep(k) && at(k) == to);
    }
}

/// A square is among the moves of a sliding piece exactly when it is the
/// point that is reached at some distance from 1 to 7 along one of the four
/// directions.
pub proof fn lemma_sliding_moves_contain(
    board: Board,
    from: Square,
    is_white: bool,
    dirs: [(i32, i32); 4],
    to: Square,
)
    ensures
        sliding_moves(board, from, is_white, dirs, 28).contains(to) <==> exists|
            axis: int,
            dist: int,
        |
            0 <= axis < 4 && 1 <= dist <= 7 && #[trigger] ray_reaches(
                board,
                from,
                dirs[axis],
                dist,
                is_white,
            ) && to == as_square(ray_row(from, dirs[axis], dist), ray_col(from, dirs[axis], dist)),
{
    let keep = |k: int| ray_reaches(board, from, dirs[k % 4], k / 4 + 1, is_white);
    let at = |k: int|
        as_square(ray_row(from, dirs[k % 4], k / 4 + 1), ray_col(from, dirs[k % 4], k / 4 + 1));
    lemma_gather_contains(28, keep, at, to);
    if sliding_moves(board, from, is_white, dirs, 28).contains(to) {
        let k = choose|k: int| 0 <= k < 28 && #[trigger] keep(k) && at(k) == to;
        assert(ray_reaches(board, from, dirs[k % 4], k / 4 + 1, is_white));
    }
    if exists|axis: int, dist: int|
        0 <= axis < 4 && 1 <= dist <= 7 && #[trigger] ray_reaches(
            board,
            from,
            dirs[axis],
            dist,
            is_white,
        ) && to == as_square(ray_row(from, dirs[axis], dist), ray_col(from, dirs[axis], dist)) {
        let (axis, dist) = choose|axis: int, dist: int|
            0 <= axis < 4 && 1 <= dist <= 7 && #[trigger] ray_reaches(
                board,
                from,
                dirs[axis],
                dist,
                is_white,
            ) && to == as_square(ray_row(from, dirs[axis], dist), ray_col(from, dirs[axis], dist));
        let k = 4 * (dist - 1) + axis;
        assert(k % 4 == axis && k / 4 + 1 == dist);
        assert(keep(k) && at(k) == to);
    }
}

} // verus!
