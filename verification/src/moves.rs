//! Pseudo-legal move generation, move application with the check test, and
//! check and mate detection.

use crate::cpu::get_all_moves;
use crate::gather::gather;
use crate::listing::{lemma_piece_moves_on_board, lemma_side_moves_index, lemma_side_moves_kept};
use crate::safety::{lemma_accepted_move_is_safe, lemma_shifted_target, lemma_with_piece};
use crate::types::{on_board, side_colour, Board, Colour, Error, Piece, Square, Tile, Type};
use vstd::prelude::*;

verus! {

/// The knight's jumps, in the order in which they are generated.
pub const KNIGHT_JUMPS: [(i32, i32); 8] = [
    (2, 1),
    (2, -1),
    (-2, 1),
    (-2, -1),
    (1, 2),
    (1, -2),
    (-1, 2),
    (-1, -2),
];

/// The king's single steps, in the order in which they are generated.
pub const KING_STEPS: [(i32, i32); 8] = [
    (1, 1),
    (1, -1),
    (-1, 1),
    (-1, -1),
    (1, 0),
    (-1, 0),
    (0, 1),
    (0, -1),
];

/// The four directions of a rook, in generation order.
pub const STRAIGHT_DIRS: [(i32, i32); 4] = [(0, -1), (-1, 0), (0, 1), (1, 0)];

/// The four directions of a bishop, in generation order.
pub const DIAGONAL_DIRS: [(i32, i32); 4] = [(1, 1), (1, -1), (-1, 1), (-1, -1)];

/// A pair of on-board coordinates as a square.
pub open spec fn as_square(row: int, col: int) -> Square {
    (row as usize, col as usize)
}

/// A piece of the side `is_white` may move onto `(row, col)`: the square is
/// on the board and is vacant or holds a piece of the other colour.
pub open spec fn may_enter(board: Board, row: int, col: int, is_white: bool) -> bool {
    on_board(row, col) && (board.vacant(row, col) || board.piece_at(row, col).colour
        != side_colour(is_white))
}

/// The first `n` jumps of the table `jumps` from `from`, kept where the
/// target may be entered.
pub open spec fn jump_moves(
    board: Board,
    from: Square,
    is_white: bool,
    jumps: [(i32, i32); 8],
    n: nat,
) -> Seq<Square> {
    gather(
        n,
        |k: int| may_enter(board, from.0 + jumps[k].0, from.1 + jumps[k].1, is_white),
        |k: int| as_square(from.0 + jumps[k].0, from.1 + jumps[k].1),
    )
}

/// The pseudo-legal knight moves from `from` for the side `is_white`.
pub open spec fn knight_moves(board: Board, from: Square, is_white: bool) -> Seq<Square> {
    jump_moves(board, from, is_white, KNIGHT_JUMPS, 8)
}

/// `dist` steps along one coordinate of a direction: forwards, backwards or
/// not at all, by the sign of `unit`.
pub open spec fn along(unit: int, dist: int) -> int {
    if unit > 0 {
        dist
    } else if unit < 0 {
        -dist
    } else {
        0
    }
}

/// The row of the point `dist` steps from `from` in direction `dir`.
pub open spec fn ray_row(from: Square, dir: (i32, i32), dist: int) -> int {
    from.0 + along(dir.0 as int, dist)
}

/// The column of the point `dist` steps from `from` in direction `dir`.
pub open spec fn ray_col(from: Square, dir: (i32, i32), dist: int) -> int {
    from.1 + along(dir.1 as int, dist)
}

/// The point `dist` steps along the ray is a vacant square of the board.
pub open spec fn ray_vacant(board: Board, from: Square, dir: (i32, i32), dist: int) -> bool {
    on_board(ray_row(from, dir, dist), ray_col(from, dir, dist)) && board.vacant(
        ray_row(from, dir, dist),
        ray_col(from, dir, dist),
    )
}

/// Every point of the ray nearer than `dist` is a vacant square.
pub open spec fn ray_clear(board: Board, from: Square, dir: (i32, i32), dist: int) -> bool {
    forall|e: int| 1 <= e < dist ==> #[trigger] ray_vacant(board, from, dir, e)
}

/// A sliding piece of the side `is_white` reaches the point `dist` steps
/// along the ray: nothing stands in between, and it may enter the square.
pub open spec fn ray_reaches(
    board: Board,
    from: Square,
    dir: (i32, i32),
    dist: int,
    is_white: bool,
) -> bool {
    ray_clear(board, from, dir, dist) && may_enter(
        board,
        ray_row(from, dir, dist),
        ray_col(from, dir, dist),
        is_white,
    )
}

/// The squares that a sliding piece reaches along the directions `dirs`,
/// nearest first and, at equal distance, in the order of `dirs`. Candidate
/// `k` is the point at distance `k / 4 + 1` in direction `k % 4`; `n` of them
/// are considered.
pub open spec fn sliding_moves(
    board: Board,
    from: Square,
    is_white: bool,
    dirs: [(i32, i32); 4],
    n: nat,
) -> Seq<Square> {
    gather(
        n,
        |k: int| ray_reaches(board, from, dirs[k % 4], k / 4 + 1, is_white),
        |k: int|
            as_square(ray_row(from, dirs[k % 4], k / 4 + 1), ray_col(from, dirs[k % 4], k / 4 + 1)),
    )
}

/// The pseudo-legal moves of a rook on `from`, up to seven steps along each
/// rank and file.
pub open spec fn straight_moves(board: Board, from: Square, is_white: bool) -> Seq<Square> {
    sliding_moves(board, from, is_white, STRAIGHT_DIRS, 28)
}

/// The pseudo-legal moves of a bishop on `from`.
pub open spec fn diagonal_moves(board: Board, from: Square, is_white: bool) -> Seq<Square> {
    sliding_moves(board, from, is_white, DIAGONAL_DIRS, 28)
}

/// The row direction in which the pawns of a side advance.
pub open spec fn forward(is_white: bool) -> int {
    if is_white {
        -1
    } else {
        1
    }
}

/// The pawn on `from` captures on `(row, col)`: the square is on the board
/// and holds a piece of another colour than the piece on `from`.
pub open spec fn pawn_takes(board: Board, from: Square, row: int, col: int) -> bool {
    &&& on_board(row, col)
    &&& !board.vacant(row, col)
    &&& board.piece_at(row, col).colour != board.piece_at(from.0 as int, from.1 as int).colour
}

/// The target of the pawn's candidate `k`: the single step, the double step,
/// the capture towards column 0 and the capture towards column 7.
pub open spec fn pawn_target(from: Square, is_white: bool, k: int) -> (int, int) {
    let row = from.0 + forward(is_white);
    if k == 0 {
        (row, from.1 as int)
    } else if k == 1 {
        (row + forward(is_white), from.1 as int)
    } else if k == 2 {
        (row, from.1 - 1)
    } else {
        (row, from.1 + 1)
    }
}

/// Whether the pawn's candidate `k` is pseudo-legal. A pawn steps onto a
/// vacant square, and an unmoved pawn may pass over a vacant square onto a
/// second one; captures need a piece of the other colour on the target.
pub open spec fn pawn_keeps(board: Board, from: Square, is_white: bool, k: int) -> bool {
    let kind = board.piece_at(from.0 as int, from.1 as int).piece_type;
    let row = from.0 + forward(is_white);
    let col = from.1 as int;
    if k == 0 {
        kind is Pawn && on_board(row, col) && board.vacant(row, col)
    } else if k == 1 {
        &&& kind == Type::Pawn(false)
        &&& on_board(row, col)
        &&& board.vacant(row, col)
        &&& on_board(row + forward(is_white), col)
        &&& board.vacant(row + forward(is_white), col)
    } else if k == 2 {
        pawn_takes(board, from, row, col - 1)
    } else {
        pawn_takes(board, from, row, col + 1)
    }
}

/// The first `n` candidates of the pawn on `from` that are pseudo-legal.
pub open spec fn pawn_moves_upto(board: Board, from: Square, is_white: bool, n: nat) -> Seq<
    Square,
> {
    gather(
        n,
        |k: int| pawn_keeps(board, from, is_white, k),
        |k: int| as_square(pawn_target(from, is_white, k).0, pawn_target(from, is_white, k).1),
    )
}

/// The pseudo-legal pawn moves from `from`: forward steps first, then
/// captures.
pub open spec fn pawn_moves(board: Board, from: Square, is_white: bool) -> Seq<Square> {
    pawn_moves_upto(board, from, is_white, 4)
}

/// The king on `from` may castle towards column 0: it has not moved, the
/// three squares beside it are vacant and an unmoved rook stands on the
/// fourth.
pub open spec fn can_castle_left(board: Board, from: Square) -> bool {
    let row = from.0 as int;
    let col = from.1 as int;
    &&& board.piece_at(row, col).piece_type == Type::King(false)
    &&& col >= 4
    &&& board.vacant(row, col - 1)
    &&& board.vacant(row, col - 2)
    &&& board.vacant(row, col - 3)
    &&& board.piece_at(row, col - 4).piece_type == Type::Rook(false)
}

/// The king on `from` may castle towards column 7: it has not moved, the two
/// squares beside it are vacant and an unmoved rook stands on the third.
pub open spec fn can_castle_right(board: Board, from: Square) -> bool {
    let row = from.0 as int;
    let col = from.1 as int;
    &&& board.piece_at(row, col).piece_type == Type::King(false)
    &&& col + 3 <= 7
    &&& board.vacant(row, col + 1)
    &&& board.vacant(row, col + 2)
    &&& board.piece_at(row, col + 3).piece_type == Type::Rook(false)
}

/// The castling destinations of the king on `from`: two squares towards each
/// rook with which it may castle, the one towards column 0 first. Whether a
/// square on the king's way is attacked plays no part.
pub open spec fn castling_moves(board: Board, from: Square) -> Seq<Square> {
    let left = if can_castle_left(board, from) {
        seq![as_square(from.0 as int, from.1 - 2)]
    } else {
        Seq::empty()
    };
    let right = if can_castle_right(board, from) {
        seq![as_square(from.0 as int, from.1 + 2)]
    } else {
        Seq::empty()
    };
    left + right
}

/// The pseudo-legal king moves from `from`: single steps, then castling.
pub open spec fn king_moves(board: Board, from: Square, is_white: bool) -> Seq<Square> {
    jump_moves(board, from, is_white, KING_STEPS, 8) + castling_moves(board, from)
}

/// The pseudo-legal destinations of the piece on `from`, by its kind. A
/// queen moves as a rook and then as a bishop.
#[verifier::opaque]
pub open spec fn piece_moves(board: Board, from: Square, is_white: bool) -> Seq<Square> {
    match board.piece_at(from.0 as int, from.1 as int).piece_type {
        Type::Pawn(_) => pawn_moves(board, from, is_white),
        Type::Rook(_) => straight_moves(board, from, is_white),
        Type::Knight => knight_moves(board, from, is_white),
        Type::Bishop => diagonal_moves(board, from, is_white),
        Type::Queen => straight_moves(board, from, is_white) + diagonal_moves(
            board,
            from,
            is_white,
        ),
        Type::King(_) => king_moves(board, from, is_white),
        Type::Empty => Seq::empty(),
    }
}

/// The square `(row, col)` holds a piece of the side `is_white`.
pub open spec fn owned(board: Board, row: int, col: int, is_white: bool) -> bool {
    !board.vacant(row, col) && board.piece_at(row, col).colour == side_colour(is_white)
}

/// The square with number `k` when the board is read row by row.
pub open spec fn nth_square(k: int) -> Square {
    as_square(k / 8, k % 8)
}

/// The pieces of the side `is_white` among the first `n` squares, each with
/// its pseudo-legal destinations.
pub open spec fn side_moves_upto(board: Board, is_white: bool, n: nat) -> Seq<
    (Square, Seq<Square>),
> {
    gather(
        n,
        |k: int| owned(board, k / 8, k % 8, is_white),
        |k: int| (nth_square(k), piece_moves(board, nth_square(k), is_white)),
    )
}

/// Every piece of the side `is_white`, in row-major order of its square,
/// with its pseudo-legal destinations.
pub open spec fn side_moves(board: Board, is_white: bool) -> Seq<(Square, Seq<Square>)> {
    side_moves_upto(board, is_white, 64)
}

/// A list of pieces with their destinations, each destination list as a
/// sequence.
pub open spec fn groups_of(moves: Seq<(Square, Vec<Square>)>) -> Seq<(Square, Seq<Square>)> {
    Seq::new(moves.len(), |i: int| (moves[i].0, moves[i].1@))
}

/// The moves of the first `n` groups, each as a pair of squares.
pub open spec fn pairs_upto(groups: Seq<(Square, Seq<Square>)>, n: nat) -> Seq<(Square, Square)>
    decreases n,
{
    if n == 0 {
        Seq::empty()
    } else {
        pairs_upto(groups, (n - 1) as nat) + Seq::new(
            groups[n - 1].1.len(),
            |j: int| (groups[n - 1].0, groups[n - 1].1[j]),
        )
    }
}

/// Every pseudo-legal move of the side `is_white` as a pair `(from, to)`:
/// piece by piece in row-major order, and for each piece in the order in
/// which its destinations are generated.
pub open spec fn move_pairs(board: Board, is_white: bool) -> Seq<(Square, Square)> {
    pairs_upto(side_moves(board, is_white), side_moves(board, is_white).len())
}

/// The piece on `from` belongs to the side `by_white` and has `target`
/// among its pseudo-legal destinations.
pub open spec fn attacks(board: Board, from: Square, target: Square, by_white: bool) -> bool {
    &&& on_board(from.0 as int, from.1 as int)
    &&& owned(board, from.0 as int, from.1 as int, by_white)
    &&& piece_moves(board, from, by_white).contains(target)
}

/// Some piece of the side `by_white` has `target` among its pseudo-legal
/// destinations.
pub open spec fn attacked(board: Board, target: Square, by_white: bool) -> bool {
    exists|from: Square| #[trigger] attacks(board, from, target, by_white)
}

/// The cached king square of the side `is_white` is a pseudo-legal
/// destination of some piece of the other side.
pub open spec fn in_check(board: Board, is_white: bool) -> bool {
    attacked(board, board.king_square(is_white), !is_white)
}

/// The board with the piece on `(row, col)` replaced by `piece`.
#[verifier::opaque]
pub open spec fn with_piece(board: Board, row: int, col: int, piece: Piece) -> Board {
    Board {
        tiles: vstd::array::spec_array_update(
            board.tiles,
            row,
            vstd::array::spec_array_update(
                board.tiles[row],
                col,
                Tile { piece, colour: board.tiles[row][col].colour },
            ),
        ),
        ..board
    }
}

/// The move `from -> to` is the castling of the king on `from` towards
/// column 0.
pub open spec fn castles_left(board: Board, from: Square, to: Square) -> bool {
    can_castle_left(board, from) && to.0 == from.0 && to.1 == from.1 - 2
}

/// The move `from -> to` is the castling of the king on `from` towards
/// column 7.
pub open spec fn castles_right(board: Board, from: Square, to: Square) -> bool {
    can_castle_right(board, from) && to.0 == from.0 && to.1 == from.1 + 2
}

/// The board after the piece on `(row, src)` has gone to `(row, dst)` as a
/// rook that has moved.
pub open spec fn rook_relocated(board: Board, row: int, src: int, dst: int) -> Board {
    let colour = board.piece_at(row, src).colour;
    with_piece(
        with_piece(board, row, dst, Piece { piece_type: Type::Rook(true), colour }),
        row,
        src,
        Piece { piece_type: Type::Empty, colour },
    )
}

/// The board with the cached king square of the side `is_white` set.
pub open spec fn with_king_square(board: Board, is_white: bool, square: Square) -> Board {
    if is_white {
        Board { kingpos_w: square, ..board }
    } else {
        Board { kingpos_b: square, ..board }
    }
}

/// The board after the piece on `from` has been taken to `to`, before any
/// promotion. The piece is marked as moved; the square it leaves keeps an
/// `Empty` piece of its colour; a castling king takes its rook along; and a
/// king of any colour sets the cached king square of the side `is_white`.
#[verifier::opaque]
pub open spec fn shifted(board: Board, from: Square, to: Square, is_white: bool) -> Board {
    let mover = board.piece_at(from.0 as int, from.1 as int);
    let castled = if castles_left(board, from, to) {
        rook_relocated(board, from.0 as int, from.1 - 4, from.1 - 1)
    } else if castles_right(board, from, to) {
        rook_relocated(board, from.0 as int, from.1 + 3, from.1 + 1)
    } else {
        board
    };
    let placed = with_piece(
        with_piece(
            castled,
            to.0 as int,
            to.1 as int,
            Piece { piece_type: mover.piece_type.moved(), colour: mover.colour },
        ),
        from.0 as int,
        from.1 as int,
        Piece { piece_type: Type::Empty, colour: mover.colour },
    );
    if mover.piece_type is King {
        with_king_square(placed, is_white, to)
    } else {
        placed
    }
}

/// A pawn stands on `square`, and `square` is on row 0 or row 7.
pub open spec fn promotion_due(board: Board, square: Square) -> bool {
    board.piece_at(square.0 as int, square.1 as int).piece_type is Pawn && (square.0 == 0
        || square.0 == 7)
}

/// The board with the piece on `square` turned into one of kind `kind`.
pub open spec fn recast(board: Board, square: Square, kind: Type) -> Board {
    with_piece(
        board,
        square.0 as int,
        square.1 as int,
        Piece { piece_type: kind, colour: board.piece_at(square.0 as int, square.1 as int).colour },
    )
}

/// The board with a pawn on the last rank at `square` replaced by a piece of
/// kind `choice`; any other board unchanged.
pub open spec fn promoted(board: Board, square: Square, choice: Type) -> Board {
    if promotion_due(board, square) {
        recast(board, square, choice)
    } else {
        board
    }
}

/// What a move does: it is refused with `Error::Check` when it would leave
/// the king of the side `is_white` attacked, and else gives the shifted
/// board, on which a pawn that has reached the last rank becomes a queen.
#[verifier::opaque]
pub open spec fn move_outcome(board: Board, from: Square, to: Square, is_white: bool) -> Result<
    Board,
    Error,
> {
    let next = shifted(board, from, to, is_white);
    if in_check(next, is_white) {
        Err(Error::Check)
    } else {
        Ok(promoted(next, to, Type::Queen))
    }
}

/// The kind of piece that a typed choice stands for: `1` a queen, `2` a
/// knight, `3` a bishop and `4` a rook, which counts as moved.
pub open spec fn promotion_choice(text: Seq<char>) -> Option<Type> {
    if text.len() != 1 {
        None
    } else if text[0] == '1' {
        Some(Type::Queen)
    } else if text[0] == '2' {
        Some(Type::Knight)
    } else if text[0] == '3' {
        Some(Type::Bishop)
    } else if text[0] == '4' {
        Some(Type::Rook(true))
    } else {
        None
    }
}

/// What a turn does with the move `from -> to`: a move that is not among the
/// pseudo-legal moves of the piece on `from` is refused as illegal, and any
/// other is made unless it leaves the mover's king attacked.
pub open spec fn turn_outcome(board: Board, from: Square, to: Square, is_white: bool) -> Result<
    Board,
    Error,
> {
    if piece_moves(board, from, is_white).contains(to) {
        move_outcome(board, from, to, is_white)
    } else {
        Err(Error::IllegalMove)
    }
}

/// The side `is_white` has a pseudo-legal move `from -> to` of one of its
/// pieces that is not refused and after which its king is not attacked.
pub open spec fn escapes(board: Board, from: Square, to: Square, is_white: bool) -> bool {
    &&& on_board(from.0 as int, from.1 as int)
    &&& owned(board, from.0 as int, from.1 as int, is_white)
    &&& piece_moves(board, from, is_white).contains(to)
    &&& move_outcome(board, from, to, is_white) matches Ok(next) && !in_check(next, is_white)
}

/// Some move of the side `is_white` escapes.
pub open spec fn has_escape(board: Board, is_white: bool) -> bool {
    exists|from: Square, to: Square| #[trigger] escapes(board, from, to, is_white)
}

/// The side that has given mate, if either has. White's king is looked at
/// first: if it is in check, the answer depends on White alone. A side that
/// has no move and is not in check is not mated.
pub open spec fn mate_winner(board: Board) -> Option<Colour> {
    if in_check(board, true) {
        if has_escape(board, true) {
            None
        } else {
            Some(Colour::Black)
        }
    } else if in_check(board, false) {
        if has_escape(board, false) {
            None
        } else {
            Some(Colour::White)
        }
    } else {
        None
    }
}

/// The colour of the side to move.
fn colour_of(is_white: bool) -> (colour: Colour)
    ensures
        colour == side_colour(is_white),
{
    if is_white {
        Colour::White
    } else {
        Colour::Black
    }
}

/// Whether a piece of the side `is_white` may move onto the on-board square
/// `(row, col)`.
fn enterable(board: &Board, row: usize, col: usize, is_white: bool) -> (yes: bool)
    requires
        on_board(row as int, col as int),
    ensures
        yes == may_enter(*board, row as int, col as int, is_white),
{
    let piece = board.tiles[row][col].piece;
    piece.piece_type == Type::Empty || piece.colour != colour_of(is_white)
}

/// The targets of the jump table that the side `is_white` may enter.
fn jump_list(board: &Board, from: Square, is_white: bool, jumps: &[(i32, i32); 8]) -> (moves: Vec<
    Square,
>)
    requires
        on_board(from.0 as int, from.1 as int),
        forall|k: int| 0 <= k < 8 ==> -2 <= (#[trigger] jumps[k]).0 <= 2 && -2 <= jumps[k].1 <= 2,
    ensures
        moves@ == jump_moves(*board, from, is_white, *jumps, 8),
{
    let mut moves: Vec<Square> = Vec::new();
    let mut k: usize = 0;
    while k < 8
        invariant
            k <= 8,
            on_board(from.0 as int, from.1 as int),
            forall|j: int|
                0 <= j < 8 ==> -2 <= (#[trigger] jumps[j]).0 <= 2 && -2 <= jumps[j].1 <= 2,
            moves@ == jump_moves(*board, from, is_white, *jumps, k as nat),
        decreases 8 - k,
    {
        let row: i32 = from.0 as i32 + jumps[k].0;
        let col: i32 = from.1 as i32 + jumps[k].1;
        if 0 <= row && row <= 7 && 0 <= col && col <= 7 {
            if enterable(board, row as usize, col as usize, is_white) {
                moves.push((row as usize, col as usize));
            }
        }
        k += 1;
    }
    moves
}

/// The pseudo-legal knight moves from `from`.
pub fn legal_knight_moves(board: Board, from: (usize, usize), is_white: bool) -> (moves: Vec<
    (usize, usize),
>)
    requires
        on_board(from.0 as int, from.1 as int),
    ensures
        moves@ == knight_moves(board, from, is_white),
{
    jump_list(&board, from, is_white, &KNIGHT_JUMPS)
}

/// `dist` steps along one coordinate of a direction.
fn step(unit: i32, dist: i32) -> (shift: i32)
    requires
        0 <= dist <= 8,
    ensures
        shift == along(unit as int, dist as int),
{
    if unit > 0 {
        dist
    } else if unit < 0 {
        -dist
    } else {
        0
    }
}

/// A ray is clear up to one step further exactly when it is clear so far and
/// the next point is a vacant square.
proof fn lemma_ray_clear_step(board: Board, from: Square, dir: (i32, i32), dist: int)
    requires
        dist >= 1,
    ensures
        ray_clear(board, from, dir, dist + 1) == (ray_clear(board, from, dir, dist) && ray_vacant(
            board,
            from,
            dir,
            dist,
        )),
{
    if ray_clear(board, from, dir, dist) && ray_vacant(board, from, dir, dist) {
        assert forall|e: int| 1 <= e < dist + 1 implies #[trigger] ray_vacant(
            board,
            from,
            dir,
            e,
        ) by {
            if e < dist {
            }
        }
    }
    if ray_clear(board, from, dir, dist + 1) {
        assert(ray_vacant(board, from, dir, dist));
        assert forall|e: int| 1 <= e < dist implies #[trigger] ray_vacant(board, from, dir, e) by {
        }
    }
}

/// The squares that a sliding piece on `from` reaches along `dirs`.
fn slide_list(board: &Board, from: Square, is_white: bool, dirs: &[(i32, i32); 4]) -> (moves: Vec<
    Square,
>)
    requires
        on_board(from.0 as int, from.1 as int),
    ensures
        moves@ == sliding_moves(*board, from, is_white, *dirs, 28),
{
    let mut open: [bool; 4] = [true;4];
    let mut moves: Vec<Square> = Vec::new();
    let mut dist: i32 = 1;
    while dist <= 7
        invariant
            1 <= dist <= 8,
            on_board(from.0 as int, from.1 as int),
            forall|a: int|
                0 <= a < 4 ==> #[trigger] open[a] == ray_clear(*board, from, dirs[a], dist as int),
            moves@ == sliding_moves(*board, from, is_white, *dirs, (4 * (dist - 1)) as nat),
        decreases 8 - dist,
    {
        let mut axis: usize = 0;
        while axis < 4
            invariant
                1 <= dist <= 7,
                axis <= 4,
                on_board(from.0 as int, from.1 as int),
                forall|a: int|
                    0 <= a < axis ==> #[trigger] open[a] == ray_clear(
                        *board,
                        from,
                        dirs[a],
                        dist + 1,
                    ),
                forall|a: int|
                    axis <= a < 4 ==> #[trigger] open[a] == ray_clear(
                        *board,
                        from,
                        dirs[a],
                        dist as int,
                    ),
                moves@ == sliding_moves(
                    *board,
                    from,
                    is_white,
                    *dirs,
                    (4 * (dist - 1) + axis) as nat,
                ),
            decreases 4 - axis,
        {
            let ghost k = 4 * (dist - 1) + axis;
            assert(k % 4 == axis && k / 4 + 1 == dist);
            let dir = dirs[axis];
            proof {
                lemma_ray_clear_step(*board, from, dir, dist as int);
            }
            if open[axis] {
                let row: i32 = from.0 as i32 + step(dir.0, dist);
                let col: i32 = from.1 as i32 + step(dir.1, dist);
                if row < 0 || row > 7 || col < 0 || col > 7 {
                    open[axis] = false;
                } else if board.tiles[row as usize][col as usize].piece.piece_type == Type::Empty {
                    moves.push((row as usize, col as usize));
                } else {
                    if enterable(board, row as usize, col as usize, is_white) {
                        moves.push((row as usize, col as usize));
                    }
                    open[axis] = false;
                }
            }
            axis += 1;
        }
        dist += 1;
    }
    moves
}

/// The pseudo-legal moves of a rook on `from`.
pub fn legal_straight_moves(board: Board, from: (usize, usize), is_white: bool) -> (moves: Vec<
    (usize, usize),
>)
    requires
        on_board(from.0 as int, from.1 as int),
    ensures
        moves@ == straight_moves(board, from, is_white),
{
    slide_list(&board, from, is_white, &STRAIGHT_DIRS)
}

/// The pseudo-legal moves of a bishop on `from`.
pub fn legal_diagonal_moves(board: Board, from: (usize, usize), is_white: bool) -> (moves: Vec<
    (usize, usize),
>)
    requires
        on_board(from.0 as int, from.1 as int),
    ensures
        moves@ == diagonal_moves(board, from, is_white),
{
    slide_list(&board, from, is_white, &DIAGONAL_DIRS)
}

/// The pawn's candidate `k` where it is pseudo-legal.
fn pawn_candidate(board: &Board, from: Square, is_white: bool, k: usize) -> (target: Option<Square>)
    requires
        on_board(from.0 as int, from.1 as int),
        k < 4,
    ensures
        target is Some == pawn_keeps(*board, from, is_white, k as int),
        target matches Some(square) ==> square == as_square(
            pawn_target(from, is_white, k as int).0,
            pawn_target(from, is_white, k as int).1,
        ),
{
    let mover = board.tiles[from.0][from.1].piece;
    let ahead: i32 = if is_white {
        -1
    } else {
        1
    };
    let row: i32 = from.0 as i32 + ahead;
    let col: i32 = from.1 as i32;
    if row < 0 || row > 7 {
        return None;
    }
    if k < 2 {
        let step_free = board.tiles[row as usize][from.1].piece.piece_type == Type::Empty;
        match mover.piece_type {
            Type::Pawn(has_moved) => {
                if !step_free {
                    None
                } else if k == 0 {
                    Some((row as usize, from.1))
                } else {
                    let far: i32 = row + ahead;
                    if !has_moved && 0 <= far && far <= 7
                        && board.tiles[far as usize][from.1].piece.piece_type == Type::Empty {
                        Some((far as usize, from.1))
                    } else {
                        None
                    }
                }
            },
            _ => None,
        }
    } else {
        let side: i32 = if k == 2 {
            col - 1
        } else {
            col + 1
        };
        if side < 0 || side > 7 {
            return None;
        }
        let target = board.tiles[row as usize][side as usize].piece;
        if target.piece_type != Type::Empty && target.colour != mover.colour {
            Some((row as usize, side as usize))
        } else {
            None
        }
    }
}

/// The pseudo-legal pawn moves from `from`, where the side `is_white`
/// advances towards row 0 and the other side towards row 7.
pub fn legal_pawn_moves(board: Board, from: (usize, usize), is_white: bool) -> (moves: Vec<
    (usize, usize),
>)
    requires
        on_board(from.0 as int, from.1 as int),
    ensures
        moves@ == pawn_moves(board, from, is_white),
{
    let mut moves: Vec<Square> = Vec::new();
    let mut k: usize = 0;
    while k < 4
        invariant
            k <= 4,
            on_board(from.0 as int, from.1 as int),
            moves@ == pawn_moves_upto(board, from, is_white, k as nat),
        decreases 4 - k,
    {
        match pawn_candidate(&board, from, is_white, k) {
            Some(square) => {
                moves.push(square);
            },
            None => {},
        }
        k += 1;
    }
    moves
}

/// The pseudo-legal king moves from `from`: the single steps, then the
/// castling destinations.
pub fn legal_king_moves(board: Board, from: (usize, usize), is_white: bool) -> (moves: Vec<
    (usize, usize),
>)
    requires
        on_board(from.0 as int, from.1 as int),
    ensures
        moves@ == king_moves(board, from, is_white),
{
    let mut moves = jump_list(&board, from, is_white, &KING_STEPS);
    let ghost steps = moves@;
    let row = from.0;
    let col = from.1;
    if board.tiles[row][col].piece.piece_type == Type::King(false) {
        if col >= 4 && board.tiles[row][col - 1].piece.piece_type == Type::Empty
            && board.tiles[row][col - 2].piece.piece_type == Type::Empty && board.tiles[row][col
            - 3].piece.piece_type == Type::Empty && board.tiles[row][col - 4].piece.piece_type
            == Type::Rook(false) {
            moves.push((row, col - 2));
        }
        if col + 3 <= 7 && board.tiles[row][col + 1].piece.piece_type == Type::Empty
            && board.tiles[row][col + 2].piece.piece_type == Type::Empty && board.tiles[row][col
            + 3].piece.piece_type == Type::Rook(false) {
            moves.push((row, col + 2));
        }
    }
    assert(moves@ == steps + castling_moves(board, from));
    moves
}

/// The pseudo-legal destinations of the piece on `from`, which must hold
/// one.
pub fn legal_moves(board: Board, from: (usize, usize), is_white: bool) -> (moves: Vec<
    (usize, usize),
>)
    requires
        on_board(from.0 as int, from.1 as int),
        !board.vacant(from.0 as int, from.1 as int),
    ensures
        moves@ == piece_moves(board, from, is_white),
{
    proof {
        reveal(piece_moves);
    }
    match board.tiles[from.0][from.1].piece.piece_type {
        Type::Pawn(_) => legal_pawn_moves(board, from, is_white),
        Type::Rook(_) => legal_straight_moves(board, from, is_white),
        Type::Knight => legal_knight_moves(board, from, is_white),
        Type::Bishop => legal_diagonal_moves(board, from, is_white),
        Type::Queen => {
            let mut moves = legal_straight_moves(board, from, is_white);
            let mut diagonal = legal_diagonal_moves(board, from, is_white);
            moves.append(&mut diagonal);
            moves
        },
        Type::King(_) => legal_king_moves(board, from, is_white),
        Type::Empty => unreached(),
    }
}

/// Whether the king of the side `is_white` is attacked.
pub fn is_in_check(board: Board, is_white: bool) -> (check: bool)
    ensures
        check == in_check(board, is_white),
{
    let moves = get_all_moves(board, !is_white);
    let king = if is_white {
        board.kingpos_w
    } else {
        board.kingpos_b
    };
    let mut i: usize = 0;
    while i < moves.len()
        invariant
            i <= moves.len(),
            king == board.king_square(is_white),
            groups_of(moves@) == side_moves(board, !is_white),
            forall|a: int, b: int|
                0 <= a < i && 0 <= b < moves[a].1.len() ==> #[trigger] moves[a].1[b] != king,
        decreases moves.len() - i,
    {
        let mut j: usize = 0;
        while j < moves[i].1.len()
            invariant
                i < moves.len(),
                j <= moves[i as int].1.len(),
                king == board.king_square(is_white),
                groups_of(moves@) == side_moves(board, !is_white),
                forall|b: int| 0 <= b < j ==> #[trigger] moves[i as int].1[b] != king,
            decreases moves[i as int].1.len() - j,
        {
            let to = moves[i].1[j];
            if to.0 == king.0 && to.1 == king.1 {
                proof {
                    lemma_side_moves_index(board, !is_white, i as int);
                    let group = side_moves(board, !is_white)[i as int];
                    assert(group == groups_of(moves@)[i as int]);
                    assert(group.1[j as int] == king);
                    assert(attacks(board, group.0, king, !is_white));
                }
                return true;
            }
            j += 1;
        }
        i += 1;
    }
    proof {
        let foe = !is_white;
        assert forall|from: Square| !#[trigger] attacks(board, from, king, foe) by {
            if attacks(board, from, king, foe) {
                let a = lemma_side_moves_kept(board, foe, from);
                let group = side_moves(board, foe)[a];
                assert(group == groups_of(moves@)[a]);
                let b = choose|b: int| 0 <= b < group.1.len() && group.1[b] == king;
                assert(moves[a].1[b] == king);
            }
        }
    }
    false
}

/// Puts `piece` on the square `(row, col)`.
fn put(board: &mut Board, row: usize, col: usize, piece: Piece)
    requires
        on_board(row as int, col as int),
    ensures
        *final(board) == with_piece(*old(board), row as int, col as int, piece),
{
    proof {
        reveal(with_piece);
    }
    board.tiles[row][col].piece = piece;
}

/// Takes the piece on `(row, src)` to `(row, dst)` as a rook that has moved.
fn relocate_rook(board: &mut Board, row: usize, src: usize, dst: usize)
    requires
        on_board(row as int, src as int),
        on_board(row as int, dst as int),
    ensures
        *final(board) == rook_relocated(*old(board), row as int, src as int, dst as int),
{
    let colour = board.tiles[row][src].piece.colour;
    put(board, row, dst, Piece { piece_type: Type::Rook(true), colour });
    put(board, row, src, Piece { piece_type: Type::Empty, colour });
}

/// Whether the king on `from` may castle towards column 0.
fn castle_left_open(board: &Board, from: Square) -> (open: bool)
    requires
        on_board(from.0 as int, from.1 as int),
    ensures
        open == can_castle_left(*board, from),
{
    let row = from.0;
    let col = from.1;
    board.tiles[row][col].piece.piece_type == Type::King(false) && col >= 4
        && board.tiles[row][col - 1].piece.piece_type == Type::Empty && board.tiles[row][col
        - 2].piece.piece_type == Type::Empty && board.tiles[row][col - 3].piece.piece_type
        == Type::Empty && board.tiles[row][col - 4].piece.piece_type == Type::Rook(false)
}

/// Whether the king on `from` may castle towards column 7.
fn castle_right_open(board: &Board, from: Square) -> (open: bool)
    requires
        on_board(from.0 as int, from.1 as int),
    ensures
        open == can_castle_right(*board, from),
{
    let row = from.0;
    let col = from.1;
    board.tiles[row][col].piece.piece_type == Type::King(false) && col + 3 <= 7
        && board.tiles[row][col + 1].piece.piece_type == Type::Empty && board.tiles[row][col
        + 2].piece.piece_type == Type::Empty && board.tiles[row][col + 3].piece.piece_type
        == Type::Rook(false)
}

/// The kind of piece with its has-moved flag set.
fn mark_moved(kind: Type) -> (marked: Type)
    ensures
        marked == kind.moved(),
{
    match kind {
        Type::Pawn(_) => Type::Pawn(true),
        Type::Rook(_) => Type::Rook(true),
        Type::King(_) => Type::King(true),
        other => other,
    }
}

/// Takes the piece on `from` to `to` without asking whether the move is
/// safe.
fn shift(board: &mut Board, from: Square, to: Square, is_white: bool)
    requires
        on_board(from.0 as int, from.1 as int),
        on_board(to.0 as int, to.1 as int),
    ensures
        *final(board) == shifted(*old(board), from, to, is_white),
{
    proof {
        reveal(shifted);
    }
    let mover = board.tiles[from.0][from.1].piece;
    let left = castle_left_open(board, from) && to.0 == from.0 && to.1 + 2 == from.1;
    let right = castle_right_open(board, from) && to.0 == from.0 && to.1 == from.1 + 2;
    if left {
        relocate_rook(board, from.0, from.1 - 4, from.1 - 1);
    } else if right {
        relocate_rook(board, from.0, from.1 + 3, from.1 + 1);
    }
    let lifted = Piece { piece_type: mark_moved(mover.piece_type), colour: mover.colour };
    put(board, to.0, to.1, lifted);
    put(board, from.0, from.1, Piece { piece_type: Type::Empty, colour: mover.colour });
    match mover.piece_type {
        Type::King(_) => {
            if is_white {
                board.kingpos_w = to;
            } else {
                board.kingpos_b = to;
            }
        },
        _ => {},
    }
}

/// Replaces a pawn on the last rank at `square` by a piece of kind `choice`.
fn promote(board: &mut Board, square: Square, choice: Type)
    requires
        on_board(square.0 as int, square.1 as int),
    ensures
        *final(board) == promoted(*old(board), square, choice),
{
    let piece = board.tiles[square.0][square.1].piece;
    match piece.piece_type {
        Type::Pawn(_) => {
            if square.0 == 0 || square.0 == 7 {
                put(board, square.0, square.1, Piece { piece_type: choice, colour: piece.colour });
            }
        },
        _ => {},
    }
}

/// Makes the move `from -> to` for the side `is_white`, unless it would
/// leave that side's king attacked: then the board stays as it was and the
/// move is refused with `Error::Check`. A pawn arriving on the last rank
/// becomes a queen; where a player is to choose, `pawn_promotes` tells
/// beforehand that the choice is due, and `pawn_swap` makes it afterwards.
pub fn move_piece(
    board: &mut Board,
    from: (usize, usize),
    to: (usize, usize),
    is_white: bool,
) -> (done: Result<(), Error>)
    requires
        on_board(from.0 as int, from.1 as int),
        on_board(to.0 as int, to.1 as int),
    ensures
        match move_outcome(*old(board), from, to, is_white) {
            Ok(next) => done == Ok::<(), Error>(()) && *final(board) == next,
            Err(error) => done == Err::<(), Error>(error) && *final(board) == *old(board),
        },
        done is Ok <==> !in_check(shifted(*old(board), from, to, is_white), is_white),
        done is Err ==> done == Err::<(), Error>(Error::Check),
        done is Ok && old(board).piece_at(from.0 as int, from.1 as int).colour == side_colour(
            is_white,
        ) ==> !in_check(*final(board), is_white),
        old(board).wf() ==> final(board).wf(),
{
    proof {
        reveal(move_outcome);
        lemma_shifted_target(*board, from, to, is_white);
        if move_outcome(*board, from, to, is_white) is Ok && board.piece_at(
            from.0 as int,
            from.1 as int,
        ).colour == side_colour(is_white) {
            lemma_accepted_move_is_safe(*board, from, to, is_white);
        }
    }
    let mut next = *board;
    shift(&mut next, from, to, is_white);
    if is_in_check(next, is_white) {
        return Err(Error::Check);
    }
    promote(&mut next, to, Type::Queen);
    proof {
        let shifted_board = shifted(*board, from, to, is_white);
        if promotion_due(shifted_board, to) {
            lemma_with_piece(
                shifted_board,
                to.0 as int,
                to.1 as int,
                Piece {
                    piece_type: Type::Queen,
                    colour: shifted_board.piece_at(to.0 as int, to.1 as int).colour,
                },
            );
        }
    }
    *board = next;
    Ok(())
}

/// Whether the move `from -> to` takes a pawn to the last rank, so that the
/// player is to be asked what it becomes.
pub fn pawn_promotes(board: Board, from: (usize, usize), to: (usize, usize)) -> (due: bool)
    requires
        on_board(from.0 as int, from.1 as int),
        on_board(to.0 as int, to.1 as int),
    ensures
        due == promotion_due(shifted(board, from, to, true), to),
        due == promotion_due(shifted(board, from, to, false), to),
        due == (board.piece_at(from.0 as int, from.1 as int).piece_type is Pawn && from != to && (
        to.0 == 0 || to.0 == 7)),
{
    proof {
        lemma_shifted_target(board, from, to, true);
        lemma_shifted_target(board, from, to, false);
    }
    match board.tiles[from.0][from.1].piece.piece_type {
        Type::Pawn(_) => !(from.0 == to.0 && from.1 == to.1) && (to.0 == 0 || to.0 == 7),
        _ => false,
    }
}

/// Turns the piece on `to` into the piece that the player's `choice` stands
/// for. Any other choice is refused with `Error::OutOfBounds`, and the board
/// stays as it was.
pub fn pawn_swap(board: &mut Board, to: (usize, usize), choice: &str) -> (done: Result<(), Error>)
    requires
        on_board(to.0 as int, to.1 as int),
    ensures
        match promotion_choice(choice@) {
            Some(kind) => done == Ok::<(), Error>(()) && *final(board) == recast(
                *old(board),
                to,
                kind,
            ),
            None => done == Err::<(), Error>(Error::OutOfBounds) && *final(board) == *old(board),
        },
{
    if choice.unicode_len() != 1 {
        return Err(Error::OutOfBounds);
    }
    let kind = match choice.get_char(0) {
        '1' => Type::Queen,
        '2' => Type::Knight,
        '3' => Type::Bishop,
        '4' => Type::Rook(true),
        _ => {
            return Err(Error::OutOfBounds);
        },
    };
    let colour = board.tiles[to.0][to.1].piece.colour;
    put(board, to.0, to.1, Piece { piece_type: kind, colour });
    Ok(())
}

/// Plays the move `from -> to` of the piece on `from` for the side
/// `is_white`, or refuses it and leaves the board as it was.
pub fn new_turn(
    board: &mut Board,
    from: (usize, usize),
    to: (usize, usize),
    is_white: bool,
) -> (done: Result<(), Error>)
    requires
        on_board(from.0 as int, from.1 as int),
        !old(board).vacant(from.0 as int, from.1 as int),
    ensures
        match turn_outcome(*old(board), from, to, is_white) {
            Ok(next) => done == Ok::<(), Error>(()) && *final(board) == next,
            Err(error) => done == Err::<(), Error>(error) && *final(board) == *old(board),
        },
        done is Ok && old(board).piece_at(from.0 as int, from.1 as int).colour == side_colour(
            is_white,
        ) ==> !in_check(*final(board), is_white),
        old(board).wf() ==> final(board).wf(),
{
    let moves = legal_moves(*board, from, is_white);
    let mut j: usize = 0;
    while j < moves.len()
        invariant
            j <= moves.len(),
            on_board(from.0 as int, from.1 as int),
            moves@ == piece_moves(*board, from, is_white),
            *board == *old(board),
            forall|b: int| 0 <= b < j ==> moves[b] != to,
        decreases moves.len() - j,
    {
        if moves[j].0 == to.0 && moves[j].1 == to.1 {
            proof {
                lemma_piece_moves_on_board(*board, from, is_white, j as int);
                assert(moves@[j as int] == to);
            }
            return move_piece(board, from, to, is_white);
        }
        j += 1;
    }
    Err(Error::IllegalMove)
}

/// Whether some move of the side `is_white` escapes.
fn can_escape(board: Board, is_white: bool) -> (found: bool)
    ensures
        found == has_escape(board, is_white),
{
    let moves = get_all_moves(board, is_white);
    let mut i: usize = 0;
    while i < moves.len()
        invariant
            i <= moves.len(),
            groups_of(moves@) == side_moves(board, is_white),
            forall|a: int, b: int|
                0 <= a < i && 0 <= b < moves[a].1.len() ==> !#[trigger] escapes(
                    board,
                    moves[a].0,
                    moves[a].1[b],
                    is_white,
                ),
        decreases moves.len() - i,
    {
        let from = moves[i].0;
        proof {
            lemma_side_moves_index(board, is_white, i as int);
            assert(side_moves(board, is_white)[i as int] == groups_of(moves@)[i as int]);
        }
        let mut j: usize = 0;
        while j < moves[i].1.len()
            invariant
                i < moves.len(),
                j <= moves[i as int].1.len(),
                from == moves[i as int].0,
                on_board(from.0 as int, from.1 as int),
                owned(board, from.0 as int, from.1 as int, is_white),
                moves[i as int].1@ == piece_moves(board, from, is_white),
                groups_of(moves@) == side_moves(board, is_white),
                forall|b: int|
                    0 <= b < j ==> !#[trigger] escapes(board, from, moves[i as int].1[b], is_white),
            decreases moves[i as int].1.len() - j,
        {
            let to = moves[i].1[j];
            proof {
                lemma_piece_moves_on_board(board, from, is_white, j as int);
            }
            let mut test_board = board;
            match move_piece(&mut test_board, from, to, is_white) {
                Ok(_) => {
                    if !is_in_check(test_board, is_white) {
                        proof {
                            assert(piece_moves(board, from, is_white)[j as int] == to);
                            assert(escapes(board, from, to, is_white));
                        }
                        return true;
                    }
                },
                Err(_) => {},
            }
            j += 1;
        }
        i += 1;
    }
    proof {
        assert forall|from: Square, to: Square| !#[trigger] escapes(board, from, to, is_white) by {
            if escapes(board, from, to, is_white) {
                let a = lemma_side_moves_kept(board, is_white, from);
                assert(side_moves(board, is_white)[a] == groups_of(moves@)[a]);
                let list = piece_moves(board, from, is_white);
                let b = choose|b: int| 0 <= b < list.len() && list[b] == to;
                assert(moves[a].1[b] == to);
                assert(!escapes(board, moves[a].0, moves[a].1[b], is_white));
            }
        }
    }
    false
}

/// The winner, if a side is mated: a side is mated when its king is in
/// check and none of its moves escapes.
pub fn check_for_mates(board: Board) -> (winner: Option<Colour>)
    ensures
        winner == mate_winner(board),
{
    if is_in_check(board, true) {
        if can_escape(board, true) {
            return None;
        }
        return Some(Colour::Black);
    }
    if is_in_check(board, false) {
        if can_escape(board, false) {
            return None;
        }
        return Some(Colour::White);
    }
    None
}

} // verus!
