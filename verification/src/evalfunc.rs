//! Positional scoring: piece-square tables and the structural terms for open
//! files, blocked diagonals and passed pawns.

use crate::gather::total;
use crate::types::{on_board, side_colour, Board, Colour, Type};
use vstd::prelude::*;

verus! {

/// The piece-square table of the knight, as White reads it.
pub const KNIGHT_POSITIONAL_VALUES: [[i32; 8]; 8] = [
    [-10, -5, -3, -3, -3, -3, -5, -10],
    [-5, 0, 0, 0, 0, 0, 0, -5],
    [-3, 0, 5, 5, 5, 5, 0, -3],
    [-3, 5, 5, 5, 5, 5, 5, -3],
    [-3, 0, 5, 5, 5, 5, 0, -3],
    [-3, 5, 5, 5, 5, 5, 5, -3],
    [-5, 0, 0, 0, 0, 0, 0, -5],
    [-10, -5, -3, -3, -3, -3, -5, -10],
];

/// The piece-square table of the bishop, as White reads it.
pub const BISHOP_POSITIONAL_VALUES: [[i32; 8]; 8] = [
    [-20, -10, -10, -5, -5, -10, -10, -20],
    [-10, 0, 0, 0, 0, 0, 0, -10],
    [-10, 0, 5, 5, 5, 5, 0, -10],
    [-5, 0, 5, 5, 5, 5, 0, -5],
    [-5, 0, 5, 5, 5, 5, 0, -5],
    [-10, 0, 5, 5, 5, 5, 0, -10],
    [-10, 0, 0, 0, 0, 0, 0, -10],
    [-20, -10, -10, -5, -5, -10, -10, -20],
];

/// The piece-square table of the rook, as White reads it.
pub const ROOK_POSITIONAL_VALUES: [[i32; 8]; 8] = [
    [0, 0, 0, 5, 5, 0, 0, 0],
    [-5, 0, 0, 0, 0, 0, 0, -5],
    [-5, 0, 0, 0, 0, 0, 0, -5],
    [-5, 0, 0, 0, 0, 0, 0, -5],
    [-5, 0, 0, 0, 0, 0, 0, -5],
    [-5, 0, 0, 0, 0, 0, 0, -5],
    [5, 10, 10, 10, 10, 10, 10, 5],
    [0, 0, 0, 0, 0, 0, 0, 0],
];

/// The piece-square table of the queen, as White reads it.
pub const QUEEN_POSITIONAL_VALUES: [[i32; 8]; 8] = [
    [-20, -10, -10, -5, -5, -10, -10, -20],
    [-10, 0, 0, 0, 0, 0, 0, -10],
    [-10, 0, 5, 5, 5, 5, 0, -10],
    [-5, 0, 5, 5, 5, 5, 0, -5],
    [0, 0, 5, 5, 5, 5, 0, -5],
    [-10, 5, 5, 5, 5, 5, 0, -10],
    [-10, 0, 5, 0, 0, 0, 0, -10],
    [-20, -10, -10, -5, -5, -10, -10, -20],
];

/// The bonus of a passed pawn by the number of rows between it and its
/// promotion row.
pub const PASSED_PAWN_BONUS: [i32; 8] = [20, 10, 5, 3, 2, 1, 1, 1];

/// The row at which a table is read for a piece of `colour` on `row`: the
/// tables are laid out for White and mirrored top to bottom for Black.
pub open spec fn table_row(row: int, colour: Colour) -> int {
    if colour == Colour::White {
        row
    } else {
        7 - row
    }
}

/// The entry of a piece-square table for a piece of `colour` on
/// `(row, col)`.
pub open spec fn table_value(table: [[i32; 8]; 8], row: int, col: int, colour: Colour) -> int {
    table[table_row(row, colour)][col] as int
}

/// The positional value of a pawn: the rows between it and the far rank of
/// its own side, less one on the inner columns. Like the tables, it is laid
/// out for White and mirrored top to bottom for Black.
pub open spec fn pawn_position(row: int, col: int, colour: Colour) -> int {
    let inner: int = if 0 < col < 7 {
        1
    } else {
        0
    };
    7 - table_row(row, colour) - inner
}

/// No other piece stands on the column of `(row, col)`.
pub open spec fn open_file(board: Board, row: int, col: int) -> bool {
    forall|r: int| 0 <= r < 8 && r != row ==> #[trigger] board.vacant(r, col)
}

/// The square `(row, col)` is off the board or holds a piece.
pub open spec fn closed(board: Board, row: int, col: int) -> bool {
    !on_board(row, col) || !board.vacant(row, col)
}

/// A piece on `(row, col)` cannot step along either diagonal: each of its
/// four diagonal neighbours is off the board or holds a piece of any colour.
pub open spec fn diagonally_blocked(board: Board, row: int, col: int) -> bool {
    &&& closed(board, row - 1, col - 1)
    &&& closed(board, row + 1, col + 1)
    &&& closed(board, row - 1, col + 1)
    &&& closed(board, row + 1, col - 1)
}

/// The positional value of a bishop: its table entry, less 5 when it is
/// diagonally blocked.
pub open spec fn bishop_position(board: Board, row: int, col: int, colour: Colour) -> int {
    table_value(BISHOP_POSITIONAL_VALUES, row, col, colour) - if diagonally_blocked(
        board,
        row,
        col,
    ) {
        5int
    } else {
        0int
    }
}

/// The positional value of a rook: its table entry, plus 5 on an open file.
pub open spec fn rook_position(board: Board, row: int, col: int, colour: Colour) -> int {
    table_value(ROOK_POSITIONAL_VALUES, row, col, colour) + if open_file(board, row, col) {
        5int
    } else {
        0int
    }
}

/// The positional value of a queen: its table entry, plus 5 on an open file,
/// less 5 when it is diagonally blocked.
pub open spec fn queen_position(board: Board, row: int, col: int, colour: Colour) -> int {
    table_value(QUEEN_POSITIONAL_VALUES, row, col, colour) + if open_file(board, row, col) {
        5int
    } else {
        0int
    } - if diagonally_blocked(board, row, col) {
        5int
    } else {
        0int
    }
}

/// No pawn of the other colour stands on the column `col`.
pub open spec fn passed_pawn(board: Board, col: int, colour: Colour) -> bool {
    forall|r: int|
        0 <= r < 8 ==> !(#[trigger] board.piece_at(r, col).piece_type is Pawn && board.piece_at(
            r,
            col,
        ).colour != colour)
}

/// The bonus of a pawn of `colour` on `(row, col)`: nothing unless it is
/// passed, and else the more the nearer it is to its promotion row.
pub open spec fn passed_bonus(board: Board, row: int, col: int, colour: Colour) -> int {
    if passed_pawn(board, col, colour) {
        PASSED_PAWN_BONUS[table_row(row, colour)] as int
    } else {
        0
    }
}

/// What the square `(row, col)` adds to the passed-pawn balance of the side
/// `is_white`: the bonus of an own pawn, the negated bonus of a pawn of the
/// other side.
pub open spec fn passed_term(board: Board, row: int, col: int, is_white: bool) -> int {
    let piece = board.piece_at(row, col);
    if !(piece.piece_type is Pawn) {
        0
    } else if piece.colour == side_colour(is_white) {
        passed_bonus(board, row, col, piece.colour)
    } else {
        -passed_bonus(board, row, col, piece.colour)
    }
}

/// The passed-pawn bonuses of the side `is_white` less those of the other
/// side, summed over the first `n` squares.
pub open spec fn passed_pawns_upto(board: Board, is_white: bool, n: nat) -> int {
    total(n, |k: int| passed_term(board, k / 8, k % 8, is_white))
}

/// The passed-pawn balance of the whole board for the side `is_white`.
pub open spec fn passed_pawns_balance(board: Board, is_white: bool) -> int {
    passed_pawns_upto(board, is_white, 64)
}

/// The two colours are valued alike: a black piece on `(row, col)` has the
/// positional value of the same white piece on `(7 - row, col)`.
pub proof fn lemma_values_mirror(table: [[i32; 8]; 8], row: int, col: int)
    requires
        on_board(row, col),
    ensures
        table_value(table, row, col, Colour::Black) == table_value(
            table,
            7 - row,
            col,
            Colour::White,
        ),
        pawn_position(row, col, Colour::Black) == pawn_position(7 - row, col, Colour::White),
        PASSED_PAWN_BONUS[table_row(row, Colour::Black)] == PASSED_PAWN_BONUS[table_row(
            7 - row,
            Colour::White,
        )],
{
}

/// The nearer a pawn is to its promotion row, the larger its bonus.
pub proof fn lemma_passed_bonus_monotone(near: int, far: int)
    requires
        0 <= near <= far < 8,
    ensures
        PASSED_PAWN_BONUS[near] >= PASSED_PAWN_BONUS[far],
        PASSED_PAWN_BONUS[far] >= 1,
        PASSED_PAWN_BONUS[near] <= 20,
{
}

/// Reads a piece-square table for a piece of `colour`.
fn table_lookup(table: &[[i32; 8]; 8], row: usize, col: usize, colour: Colour) -> (value: i32)
    requires
        on_board(row as int, col as int),
    ensures
        value == table_value(*table, row as int, col as int, colour),
{
    match colour {
        Colour::White => table[row][col],
        Colour::Black => table[7 - row][col],
    }
}

/// The positional value of a pawn of `color` on `(row, col)`.
pub fn pawn_positional_value(row: usize, col: usize, color: Colour) -> (value: i32)
    requires
        on_board(row as int, col as int),
    ensures
        value == pawn_position(row as int, col as int, color),
{
    let inner: i32 = if col > 0 && col < 7 {
        1
    } else {
        0
    };
    match color {
        Colour::White => 7 - row as i32 - inner,
        Colour::Black => row as i32 - inner,
    }
}

/// The positional value of a knight of `color` on `(row, col)`: its table
/// entry.
pub fn knight_positional_value(row: usize, col: usize, color: Colour) -> (value: i32)
    requires
        on_board(row as int, col as int),
    ensures
        value == table_value(KNIGHT_POSITIONAL_VALUES, row as int, col as int, color),
        -10 <= value <= 5,
{
    table_lookup(&KNIGHT_POSITIONAL_VALUES, row, col, color)
}

/// Whether `(row, col)`, given with signed coordinates, is off the board or
/// holds a piece.
fn is_closed(board: &Board, row: i32, col: i32) -> (yes: bool)
    ensures
        yes == closed(*board, row as int, col as int),
{
    if row < 0 || row > 7 || col < 0 || col > 7 {
        true
    } else {
        board.tiles[row as usize][col as usize].piece.piece_type != Type::Empty
    }
}

/// Whether a piece on `(row, col)` has no vacant diagonal neighbour.
pub fn is_diagonally_blocked(row: usize, col: usize, color: Colour, board: Board) -> (blocked: bool)
    requires
        on_board(row as int, col as int),
    ensures
        blocked == diagonally_blocked(board, row as int, col as int),
{
    let r = row as i32;
    let c = col as i32;
    is_closed(&board, r - 1, c - 1) && is_closed(&board, r + 1, c + 1) && is_closed(
        &board,
        r - 1,
        c + 1,
    ) && is_closed(&board, r + 1, c - 1)
}

/// Whether no other piece stands on the column of `(row, col)`.
pub fn is_open_file(row: usize, col: usize, board: Board) -> (open: bool)
    requires
        on_board(row as int, col as int),
    ensures
        open == open_file(board, row as int, col as int),
{
    let mut i: usize = 0;
    while i < 8
        invariant
            i <= 8,
            on_board(row as int, col as int),
            forall|r: int| 0 <= r < i && r != row ==> #[trigger] board.vacant(r, col as int),
        decreases 8 - i,
    {
        if i != row && board.tiles[i][col].piece.piece_type != Type::Empty {
            assert(!board.vacant(i as int, col as int));
            return false;
        }
        i += 1;
    }
    true
}

/// The positional value of a bishop of `color` on `(row, col)`.
pub fn bishop_positional_value(row: usize, col: usize, color: Colour, board: Board) -> (value: i32)
    requires
        on_board(row as int, col as int),
    ensures
        value == bishop_position(board, row as int, col as int, color),
        -25 <= value <= 5,
{
    let mut value = table_lookup(&BISHOP_POSITIONAL_VALUES, row, col, color);
    if is_diagonally_blocked(row, col, color, board) {
        value -= 5;
    }
    value
}

/// The positional value of a rook of `color` on `(row, col)`.
pub fn rook_positional_value(row: usize, col: usize, color: Colour, board: Board) -> (value: i32)
    requires
        on_board(row as int, col as int),
    ensures
        value == rook_position(board, row as int, col as int, color),
        -5 <= value <= 15,
{
    let mut value = table_lookup(&ROOK_POSITIONAL_VALUES, row, col, color);
    if is_open_file(row, col, board) {
        value += 5;
    }
    value
}

/// The positional value of a queen of `color` on `(row, col)`.
pub fn queen_positional_value(row: usize, col: usize, color: Colour, board: Board) -> (value: i32)
    requires
        on_board(row as int, col as int),
    ensures
        value == queen_position(board, row as int, col as int, color),
        -25 <= value <= 10,
{
    let mut value = table_lookup(&QUEEN_POSITIONAL_VALUES, row, col, color);
    if is_open_file(row, col, board) {
        value += 5;
    }
    if is_diagonally_blocked(row, col, color, board) {
        value -= 5;
    }
    value
}

/// Whether no pawn of the other colour stands on the column of the pawn of
/// `color` on `(row, col)`.
pub fn is_passed_pawn(row: usize, col: usize, color: Colour, board: Board) -> (passed: bool)
    requires
        on_board(row as int, col as int),
    ensures
        passed == passed_pawn(board, col as int, color),
{
    let mut i: usize = 0;
    while i < 8
        invariant
            i <= 8,
            on_board(row as int, col as int),
            forall|r: int|
                0 <= r < i ==> !(#[trigger] board.piece_at(r, col as int).piece_type is Pawn
                    && board.piece_at(r, col as int).colour != color),
        decreases 8 - i,
    {
        let piece = board.tiles[i][col].piece;
        match piece.piece_type {
            Type::Pawn(_) => {
                if piece.colour != color {
                    assert(board.piece_at(i as int, col as int).piece_type is Pawn);
                    return false;
                }
            },
            _ => {},
        }
        i += 1;
    }
    true
}

/// The bonus of the pawn of `color` on `(row, col)` for being passed.
pub fn passed_pawns_value_helper(row: usize, col: usize, color: Colour, board: Board) -> (value:
    i32)
    requires
        on_board(row as int, col as int),
    ensures
        value == passed_bonus(board, row as int, col as int, color),
        0 <= value <= 20,
{
    if !is_passed_pawn(row, col, color, board) {
        return 0;
    }
    match color {
        Colour::White => PASSED_PAWN_BONUS[row],
        Colour::Black => PASSED_PAWN_BONUS[7 - row],
    }
}

/// The passed-pawn bonuses of the side `is_white` less those of the other
/// side.
pub fn passed_pawns_value(board: Board, is_white: bool) -> (value: i32)
    ensures
        value == passed_pawns_balance(board, is_white),
{
    let side = if is_white {
        Colour::White
    } else {
        Colour::Black
    };
    let mut value: i32 = 0;
    let mut i: usize = 0;
    while i < 8
        invariant
            i <= 8,
            side == side_colour(is_white),
            value == passed_pawns_upto(board, is_white, (8 * i) as nat),
            -20 * (8 * i) <= value <= 20 * (8 * i),
        decreases 8 - i,
    {
        let mut j: usize = 0;
        while j < 8
            invariant
                i < 8,
                j <= 8,
                side == side_colour(is_white),
                value == passed_pawns_upto(board, is_white, (8 * i + j) as nat),
                -20 * (8 * i + j) <= value <= 20 * (8 * i + j),
            decreases 8 - j,
        {
            let ghost k = 8 * i + j;
            assert(k / 8 == i && k % 8 == j);
            let piece = board.tiles[i][j].piece;
            match piece.piece_type {
                Type::Pawn(_) => {
                    let bonus = passed_pawns_value_helper(i, j, piece.colour, board);
                    if piece.colour == side {
                        value += bonus;
                    } else {
                        value -= bonus;
                    }
                },
                _ => {},
            }
            j += 1;
        }
        i += 1;
    }
    value
}

} // verus!
