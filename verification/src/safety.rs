//! What a move changes on the board and what it leaves as it was: the
//! safety of the mover's king and the truth of the cached king squares.

use crate::gather::lemma_gather_agree;
use crate::listing::{lemma_piece_moves_enterable, lemma_piece_moves_on_board};
use crate::moves::{
    as_square, attacked, attacks, can_castle_left, can_castle_right, castles_left, castles_right,
    castling_moves, forward, in_check, jump_moves, may_enter, move_outcome, owned, pawn_keeps,
    pawn_moves, pawn_target, piece_moves, promoted, promotion_due, ray_clear, ray_col, ray_reaches,
    ray_row, ray_vacant, recast, rook_relocated, shifted, sliding_moves, with_piece, DIAGONAL_DIRS,
    KING_STEPS, KNIGHT_JUMPS, STRAIGHT_DIRS,
};
use crate::types::{on_board, side_colour, Board, Piece, Square, Type};
use vstd::prelude::*;

verus! {

/// Replacing a piece changes that piece and nothing else.
pub proof fn lemma_with_piece(board: Board, row: int, col: int, piece: Piece)
    requires
        on_board(row, col),
    ensures
        with_piece(board, row, col, piece).kingpos_w == board.kingpos_w,
        with_piece(board, row, col, piece).kingpos_b == board.kingpos_b,
        with_piece(board, row, col, piece).piece_at(row, col) == piece,
        forall|r: int, c: int|
            on_board(r, c) ==> (#[trigger] with_piece(board, row, col, piece).tiles[r][c]).colour
                == board.tiles[r][c].colour,
        forall|r: int, c: int|
            on_board(r, c) && !(r == row && c == col) ==> #[trigger] with_piece(
                board,
                row,
                col,
                piece,
            ).tiles[r][c] == board.tiles[r][c],
{
    reveal(with_piece);
}

/// Relocating a rook changes its two squares and nothing else.
pub proof fn lemma_rook_relocated(board: Board, row: int, src: int, dst: int)
    requires
        on_board(row, src),
        on_board(row, dst),
        src != dst,
    ensures
        rook_relocated(board, row, src, dst).kingpos_w == board.kingpos_w,
        rook_relocated(board, row, src, dst).kingpos_b == board.kingpos_b,
        rook_relocated(board, row, src, dst).piece_at(row, dst) == (Piece {
            piece_type: Type::Rook(true),
            colour: board.piece_at(row, src).colour,
        }),
        rook_relocated(board, row, src, dst).piece_at(row, src) == (Piece {
            piece_type: Type::Empty,
            colour: board.piece_at(row, src).colour,
        }),
        forall|r: int, c: int|
            on_board(r, c) && !(r == row && (c == src || c == dst)) ==> #[trigger] rook_relocated(
                board,
                row,
                src,
                dst,
            ).tiles[r][c] == board.tiles[r][c],
{
    let colour = board.piece_at(row, src).colour;
    let placed = with_piece(board, row, dst, Piece { piece_type: Type::Rook(true), colour });
    lemma_with_piece(board, row, dst, Piece { piece_type: Type::Rook(true), colour });
    lemma_with_piece(placed, row, src, Piece { piece_type: Type::Empty, colour });
}

/// The square to which a piece has been shifted holds that piece, marked as
/// moved, unless it is the square the piece came from.
pub proof fn lemma_shifted_target(board: Board, from: Square, to: Square, is_white: bool)
    requires
        on_board(from.0 as int, from.1 as int),
        on_board(to.0 as int, to.1 as int),
    ensures
        from != to ==> shifted(board, from, to, is_white).piece_at(to.0 as int, to.1 as int) == (
        Piece {
            piece_type: board.piece_at(from.0 as int, from.1 as int).piece_type.moved(),
            colour: board.piece_at(from.0 as int, from.1 as int).colour,
        }),
        from == to ==> shifted(board, from, to, is_white).vacant(to.0 as int, to.1 as int),
        shifted(board, from, to, is_white).kingpos_w == if is_white && board.piece_at(
            from.0 as int,
            from.1 as int,
        ).piece_type is King {
            to
        } else {
            board.kingpos_w
        },
        shifted(board, from, to, is_white).kingpos_b == if !is_white && board.piece_at(
            from.0 as int,
            from.1 as int,
        ).piece_type is King {
            to
        } else {
            board.kingpos_b
        },
{
    reveal(shifted);
    let mover = board.piece_at(from.0 as int, from.1 as int);
    let castled = if castles_left(board, from, to) {
        rook_relocated(board, from.0 as int, from.1 - 4, from.1 - 1)
    } else if castles_right(board, from, to) {
        rook_relocated(board, from.0 as int, from.1 + 3, from.1 + 1)
    } else {
        board
    };
    let lifted = Piece { piece_type: mover.piece_type.moved(), colour: mover.colour };
    let landed = with_piece(castled, to.0 as int, to.1 as int, lifted);
    let left = Piece { piece_type: Type::Empty, colour: mover.colour };
    lemma_with_piece(castled, to.0 as int, to.1 as int, lifted);
    lemma_with_piece(landed, from.0 as int, from.1 as int, left);
    if castles_left(board, from, to) {
        lemma_rook_relocated(board, from.0 as int, from.1 - 4, from.1 - 1);
    } else if castles_right(board, from, to) {
        lemma_rook_relocated(board, from.0 as int, from.1 + 3, from.1 + 1);
    }
}

/// A shift leaves every square as it was, but for the two squares of the
/// move and, in castling, the two squares of the rook.
pub proof fn lemma_shifted_elsewhere(
    board: Board,
    from: Square,
    to: Square,
    is_white: bool,
    row: int,
    col: int,
)
    requires
        on_board(from.0 as int, from.1 as int),
        on_board(to.0 as int, to.1 as int),
        on_board(row, col),
        !(row == from.0 && col == from.1),
        !(row == to.0 && col == to.1),
        castles_left(board, from, to) ==> !(row == from.0 && (col == from.1 - 4 || col == from.1
            - 1)),
        castles_right(board, from, to) ==> !(row == from.0 && (col == from.1 + 3 || col == from.1
            + 1)),
    ensures
        shifted(board, from, to, is_white).tiles[row][col] == board.tiles[row][col],
{
    reveal(shifted);
    let mover = board.piece_at(from.0 as int, from.1 as int);
    let castled = if castles_left(board, from, to) {
        rook_relocated(board, from.0 as int, from.1 - 4, from.1 - 1)
    } else if castles_right(board, from, to) {
        rook_relocated(board, from.0 as int, from.1 + 3, from.1 + 1)
    } else {
        board
    };
    let lifted = Piece { piece_type: mover.piece_type.moved(), colour: mover.colour };
    let landed = with_piece(castled, to.0 as int, to.1 as int, lifted);
    let left = Piece { piece_type: Type::Empty, colour: mover.colour };
    lemma_with_piece(castled, to.0 as int, to.1 as int, lifted);
    lemma_with_piece(landed, from.0 as int, from.1 as int, left);
    if castles_left(board, from, to) {
        lemma_rook_relocated(board, from.0 as int, from.1 - 4, from.1 - 1);
    } else if castles_right(board, from, to) {
        lemma_rook_relocated(board, from.0 as int, from.1 + 3, from.1 + 1);
    }
    assert(landed.tiles[row][col] == castled.tiles[row][col]);
    assert(castled.tiles[row][col] == board.tiles[row][col]);
}

/// The two boards look the same on `(row, col)` to the side `is_white`: the
/// square is vacant on both or on neither, it holds the same colour, it
/// holds an unmoved rook on both or on neither, and a piece of the side is
/// the same piece on both.
pub open spec fn same_to(one: Board, two: Board, row: int, col: int, is_white: bool) -> bool {
    &&& one.vacant(row, col) == two.vacant(row, col)
    &&& one.piece_at(row, col).colour == two.piece_at(row, col).colour
    &&& (one.piece_at(row, col).piece_type == Type::Rook(false)) == (two.piece_at(
        row,
        col,
    ).piece_type == Type::Rook(false))
    &&& one.piece_at(row, col).colour == side_colour(is_white) ==> one.piece_at(row, col)
        == two.piece_at(row, col)
}

/// The two boards look the same on every square to the side `is_white`.
pub open spec fn alike(one: Board, two: Board, is_white: bool) -> bool {
    forall|row: int, col: int|
        on_board(row, col) ==> #[trigger] same_to(one, two, row, col, is_white)
}

proof fn lemma_alike_may_enter(one: Board, two: Board, is_white: bool, row: int, col: int)
    requires
        alike(one, two, is_white),
    ensures
        may_enter(one, row, col, is_white) == may_enter(two, row, col, is_white),
{
    if on_board(row, col) {
        assert(same_to(one, two, row, col, is_white));
    }
}

proof fn lemma_alike_jumps(
    one: Board,
    two: Board,
    is_white: bool,
    from: Square,
    jumps: [(i32, i32); 8],
)
    requires
        alike(one, two, is_white),
    ensures
        jump_moves(one, from, is_white, jumps, 8) == jump_moves(two, from, is_white, jumps, 8),
{
    let keep_one = |k: int| may_enter(one, from.0 + jumps[k].0, from.1 + jumps[k].1, is_white);
    let keep_two = |k: int| may_enter(two, from.0 + jumps[k].0, from.1 + jumps[k].1, is_white);
    let at = |k: int| as_square(from.0 + jumps[k].0, from.1 + jumps[k].1);
    assert forall|k: int| 0 <= k < 8 implies #[trigger] keep_one(k) == keep_two(k) by {
        lemma_alike_may_enter(one, two, is_white, from.0 + jumps[k].0, from.1 + jumps[k].1);
    }
    lemma_gather_agree(8, keep_one, at, keep_two, at);
}

proof fn lemma_alike_ray(
    one: Board,
    two: Board,
    is_white: bool,
    from: Square,
    dir: (i32, i32),
    dist: int,
)
    requires
        alike(one, two, is_white),
    ensures
        ray_reaches(one, from, dir, dist, is_white) == ray_reaches(two, from, dir, dist, is_white),
{
    assert forall|e: int|
        ray_vacant(one, from, dir, e) == #[trigger] ray_vacant(two, from, dir, e) by {
        if on_board(ray_row(from, dir, e), ray_col(from, dir, e)) {
            assert(same_to(one, two, ray_row(from, dir, e), ray_col(from, dir, e), is_white));
        }
    }
    assert(ray_clear(one, from, dir, dist) == ray_clear(two, from, dir, dist)) by {
        if ray_clear(one, from, dir, dist) {
            assert forall|e: int| 1 <= e < dist implies #[trigger] ray_vacant(two, from, dir, e) by {
                assert(ray_vacant(one, from, dir, e));
            }
        }
        if ray_clear(two, from, dir, dist) {
            assert forall|e: int| 1 <= e < dist implies #[trigger] ray_vacant(one, from, dir, e) by {
                assert(ray_vacant(two, from, dir, e));
            }
        }
    }
    lemma_alike_may_enter(
        one,
        two,
        is_white,
        ray_row(from, dir, dist),
        ray_col(from, dir, dist),
    );
}

proof fn lemma_alike_sliding(
    one: Board,
    two: Board,
    is_white: bool,
    from: Square,
    dirs: [(i32, i32); 4],
)
    requires
        alike(one, two, is_white),
    ensures
        sliding_moves(one, from, is_white, dirs, 28) == sliding_moves(
            two,
            from,
            is_white,
            dirs,
            28,
        ),
{
    let keep_one = |k: int| ray_reaches(one, from, dirs[k % 4], k / 4 + 1, is_white);
    let keep_two = |k: int| ray_reaches(two, from, dirs[k % 4], k / 4 + 1, is_white);
    let at = |k: int|
        as_square(ray_row(from, dirs[k % 4], k / 4 + 1), ray_col(from, dirs[k % 4], k / 4 + 1));
    assert forall|k: int| 0 <= k < 28 implies #[trigger] keep_one(k) == keep_two(k) by {
        lemma_alike_ray(one, two, is_white, from, dirs[k % 4], k / 4 + 1);
    }
    lemma_gather_agree(28, keep_one, at, keep_two, at);
}

proof fn lemma_alike_pawn(one: Board, two: Board, is_white: bool, from: Square)
    requires
        alike(one, two, is_white),
        on_board(from.0 as int, from.1 as int),
        one.piece_at(from.0 as int, from.1 as int).colour == side_colour(is_white),
    ensures
        pawn_moves(one, from, is_white) == pawn_moves(two, from, is_white),
{
    let keep_one = |k: int| pawn_keeps(one, from, is_white, k);
    let keep_two = |k: int| pawn_keeps(two, from, is_white, k);
    let at = |k: int|
        as_square(pawn_target(from, is_white, k).0, pawn_target(from, is_white, k).1);
    let row = from.0 + forward(is_white);
    let col = from.1 as int;
    assert(same_to(one, two, from.0 as int, from.1 as int, is_white));
    assert forall|k: int| 0 <= k < 4 implies #[trigger] keep_one(k) == keep_two(k) by {
        if on_board(row, col) {
            assert(same_to(one, two, row, col, is_white));
        }
        if on_board(row + forward(is_white), col) {
            assert(same_to(one, two, row + forward(is_white), col, is_white));
        }
        if on_board(row, col - 1) {
            assert(same_to(one, two, row, col - 1, is_white));
        }
        if on_board(row, col + 1) {
            assert(same_to(one, two, row, col + 1, is_white));
        }
    }
    lemma_gather_agree(4, keep_one, at, keep_two, at);
}

proof fn lemma_alike_castling(one: Board, two: Board, is_white: bool, from: Square)
    requires
        alike(one, two, is_white),
        on_board(from.0 as int, from.1 as int),
        one.piece_at(from.0 as int, from.1 as int).colour == side_colour(is_white),
    ensures
        can_castle_left(one, from) == can_castle_left(two, from),
        can_castle_right(one, from) == can_castle_right(two, from),
        castling_moves(one, from) == castling_moves(two, from),
{
    let row = from.0 as int;
    let col = from.1 as int;
    assert(same_to(one, two, row, col, is_white));
    if col >= 4 {
        assert(same_to(one, two, row, col - 1, is_white));
        assert(same_to(one, two, row, col - 2, is_white));
        assert(same_to(one, two, row, col - 3, is_white));
        assert(same_to(one, two, row, col - 4, is_white));
    }
    if col + 3 <= 7 {
        assert(same_to(one, two, row, col + 1, is_white));
        assert(same_to(one, two, row, col + 2, is_white));
        assert(same_to(one, two, row, col + 3, is_white));
    }
}

/// On boards that look alike to a side, each of its pieces has the same
/// pseudo-legal moves.
pub proof fn lemma_alike_piece_moves(one: Board, two: Board, is_white: bool, from: Square)
    requires
        alike(one, two, is_white),
        on_board(from.0 as int, from.1 as int),
        one.piece_at(from.0 as int, from.1 as int).colour == side_colour(is_white),
    ensures
        piece_moves(one, from, is_white) == piece_moves(two, from, is_white),
{
    reveal(piece_moves);
    assert(same_to(one, two, from.0 as int, from.1 as int, is_white));
    lemma_alike_pawn(one, two, is_white, from);
    lemma_alike_sliding(one, two, is_white, from, STRAIGHT_DIRS);
    lemma_alike_sliding(one, two, is_white, from, DIAGONAL_DIRS);
    lemma_alike_jumps(one, two, is_white, from, KNIGHT_JUMPS);
    lemma_alike_jumps(one, two, is_white, from, KING_STEPS);
    lemma_alike_castling(one, two, is_white, from);
}

/// On boards that look alike to a side, that side attacks the same
/// squares.
pub proof fn lemma_alike_attacked(one: Board, two: Board, is_white: bool, target: Square)
    requires
        alike(one, two, is_white),
    ensures
        attacked(one, target, is_white) == attacked(two, target, is_white),
{
    assert forall|from: Square|
        attacks(one, from, target, is_white) == #[trigger] attacks(
            two,
            from,
            target,
            is_white,
        ) by {
        if on_board(from.0 as int, from.1 as int) {
            assert(same_to(one, two, from.0 as int, from.1 as int, is_white));
            if owned(one, from.0 as int, from.1 as int, is_white) {
                lemma_alike_piece_moves(one, two, is_white, from);
            }
        }
    }
    if attacked(one, target, is_white) {
        let from = choose|from: Square| attacks(one, from, target, is_white);
        assert(attacks(two, from, target, is_white));
    }
    if attacked(two, target, is_white) {
        let from = choose|from: Square| attacks(two, from, target, is_white);
        assert(attacks(one, from, target, is_white));
    }
}

/// Turning a piece of the side `is_white` that is no unmoved rook into a
/// queen, a knight, a bishop or a moved rook leaves that side's king as safe
/// as it was.
pub proof fn lemma_recast_keeps_check(board: Board, square: Square, kind: Type, is_white: bool)
    requires
        on_board(square.0 as int, square.1 as int),
        !board.vacant(square.0 as int, square.1 as int),
        board.piece_at(square.0 as int, square.1 as int).piece_type != Type::Rook(false),
        board.piece_at(square.0 as int, square.1 as int).colour == side_colour(is_white),
        kind == Type::Queen || kind == Type::Knight || kind == Type::Bishop || kind == Type::Rook(
            true,
        ),
    ensures
        in_check(recast(board, square, kind), is_white) == in_check(board, is_white),
{
    let next = recast(board, square, kind);
    let piece = Piece {
        piece_type: kind,
        colour: board.piece_at(square.0 as int, square.1 as int).colour,
    };
    lemma_with_piece(board, square.0 as int, square.1 as int, piece);
    let foe = !is_white;
    assert forall|row: int, col: int| on_board(row, col) implies #[trigger] same_to(
        board,
        next,
        row,
        col,
        foe,
    ) by {
        if row == square.0 && col == square.1 {
        } else {
            assert(next.tiles[row][col] == board.tiles[row][col]);
        }
    }
    lemma_alike_attacked(board, next, foe, board.king_square(is_white));
}

/// The promotion of a pawn of the side `is_white` to a queen, a knight, a
/// bishop or a rook that has moved leaves that side's king as safe as it
/// was.
pub proof fn lemma_promotion_keeps_check(
    board: Board,
    square: Square,
    choice: Type,
    is_white: bool,
)
    requires
        on_board(square.0 as int, square.1 as int),
        board.piece_at(square.0 as int, square.1 as int).colour == side_colour(is_white),
        choice == Type::Queen || choice == Type::Knight || choice == Type::Bishop || choice
            == Type::Rook(true),
    ensures
        in_check(promoted(board, square, choice), is_white) == in_check(board, is_white),
{
    if promotion_due(board, square) {
        lemma_recast_keeps_check(board, square, choice, is_white);
    }
}

/// A move of an own piece that is not refused leaves the mover's king
/// unattacked, whether or not a pawn was promoted.
pub proof fn lemma_accepted_move_is_safe(board: Board, from: Square, to: Square, is_white: bool)
    requires
        on_board(from.0 as int, from.1 as int),
        on_board(to.0 as int, to.1 as int),
        board.piece_at(from.0 as int, from.1 as int).colour == side_colour(is_white),
        move_outcome(board, from, to, is_white) is Ok,
    ensures
        !in_check(move_outcome(board, from, to, is_white)->Ok_0, is_white),
{
    reveal(move_outcome);
    let next = shifted(board, from, to, is_white);
    lemma_shifted_target(board, from, to, is_white);
    if from != to {
        lemma_promotion_keeps_check(next, to, Type::Queen, is_white);
    }
}

/// The cached king squares stay true to the board: on a board whose cached
/// squares hold the kings, and on which the king of the other side is not
/// attacked, a pseudo-legal move of a piece of the side to move that is not
/// refused leads to a board whose cached squares hold the kings.
pub proof fn lemma_move_keeps_kings_in_sync(board: Board, from: Square, to: Square, is_white: bool)
    requires
        board.kings_in_sync(),
        !in_check(board, !is_white),
        on_board(from.0 as int, from.1 as int),
        owned(board, from.0 as int, from.1 as int, is_white),
        piece_moves(board, from, is_white).contains(to),
        move_outcome(board, from, to, is_white) is Ok,
    ensures
        move_outcome(board, from, to, is_white)->Ok_0.kings_in_sync(),
{
    reveal(move_outcome);
    let list = piece_moves(board, from, is_white);
    let j = choose|j: int| 0 <= j < list.len() && list[j] == to;
    lemma_piece_moves_on_board(board, from, is_white, j);
    lemma_piece_moves_enterable(board, from, is_white, j);
    let own = board.king_square(is_white);
    let foe = board.king_square(!is_white);
    assert(to != foe) by {
        if to == foe {
            assert(attacks(board, from, foe, is_white));
        }
    }
    assert(to != own);
    assert(to != from);
    let next = shifted(board, from, to, is_white);
    lemma_shifted_target(board, from, to, is_white);
    let mover = board.piece_at(from.0 as int, from.1 as int);
    assert(from != foe);
    lemma_shifted_elsewhere(board, from, to, is_white, foe.0 as int, foe.1 as int);
    if !(mover.piece_type is King) {
        assert(from != own);
        lemma_shifted_elsewhere(board, from, to, is_white, own.0 as int, own.1 as int);
    }
    assert(next.kings_in_sync());
    if promotion_due(next, to) {
        lemma_with_piece(
            next,
            to.0 as int,
            to.1 as int,
            Piece {
                piece_type: Type::Queen,
                colour: next.piece_at(to.0 as int, to.1 as int).colour,
            },
        );
    }
}

} // verus!
