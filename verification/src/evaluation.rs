//! A material and piece-square evaluation from White's point of view.

use crate::gather::total;
use crate::moves::{check_for_mates, mate_winner};
use crate::types::{on_board, Board, Colour, Type};
use vstd::prelude::*;

verus! {

/// The piece-square table of the pawn, as White reads it.
pub const PAWN_TABLE: [[i32; 8]; 8] = [
    [0, 0, 0, 0, 0, 0, 0, 0],
    [50, 50, 50, 50, 50, 50, 50, 50],
    [10, 10, 20, 30, 30, 20, 10, 10],
    [5, 5, 10, 25, 25, 10, 5, 5],
    [0, 0, 0, 20, 20, 0, 0, 0],
    [5, -5, -10, 0, 0, -10, -5, 5],
    [5, 10, 10, -20, -20, 10, 10, 5],
    [0, 0, 0, 0, 0, 0, 0, 0],
];

/// The piece-square table of the knight, as White reads it.
pub const KNIGHT_TABLE: [[i32; 8]; 8] = [
    [-50, -40, -30, -30, -30, -30, -40, -50],
    [-40, -20, 0, 0, 0, 0, -20, -40],
    [-30, 0, 10, 15, 15, 10, 0, -30],
    [-30, 5, 15, 20, 20, 15, 5, -30],
    [-30, 0, 15, 20, 20, 15, 0, -30],
    [-30, 5, 10, 15, 15, 10, 5, -30],
    [-40, -20, 0, 5, 5, 0, -20, -40],
    [-50, -40, -30, -30, -30, -30, -40, -50],
];

/// The piece-square table of the bishop, as White reads it.
pub const BISHOP_TABLE: [[i32; 8]; 8] = [
    [-20, -10, -10, -10, -10, -10, -10, -20],
    [-10, 0, 0, 0, 0, 0, 0, -10],
    [-10, 0, 5, 10, 10, 5, 0, -10],
    [-10, 5, 5, 10, 10, 5, 5, -10],
    [-10, 0, 10, 10, 10, 10, 0, -10],
    [-10, 10, 10, 10, 10, 10, 10, -10],
    [-10, 5, 0, 0, 0, 0, 5, -10],
    [-20, -10, -10, -10, -10, -10, -10, -20],
];

/// The piece-square table of the rook, as White reads it.
pub const ROOK_TABLE: [[i32; 8]; 8] = [
    [0, 0, 0, 0, 0, 0, 0, 0],
    [5, 10, 10, 10, 10, 10, 10, 5],
    [-5, 0, 0, 0, 0, 0, 0, -5],
    [-5, 0, 0, 0, 0, 0, 0, -5],
    [-5, 0, 0, 0, 0, 0, 0, -5],
    [-5, 0, 0, 0, 0, 0, 0, -5],
    [-5, 0, 0, 0, 0, 0, 0, -5],
    [0, 0, 0, 5, 5, 0, 0, 0],
];

/// The piece-square table of the queen, as White reads it.
pub const QUEEN_TABLE: [[i32; 8]; 8] = [
    [-20, -10, -10, -5, -5, -10, -10, -20],
    [-10, 0, 0, 0, 0, 0, 0, -10],
    [-10, 0, 5, 5, 5, 5, 0, -10],
    [-5, 0, 5, 5, 5, 5, 0, -5],
    [0, 0, 5, 5, 5, 5, 0, -5],
    [-10, 5, 5, 5, 5, 5, 0, -10],
    [-10, 0, 5, 0, 0, 0, 0, -10],
    [-20, -10, -10, -5, -5, -10, -10, -20],
];

/// The piece-square table of the king, as White reads it.
pub const KING_TABLE: [[i32; 8]; 8] = [
    [-30, -40, -40, -50, -50, -40, -40, -30],
    [-30, -40, -40, -50, -50, -40, -40, -30],
    [-30, -40, -40, -50, -50, -40, -40, -30],
    [-30, -40, -40, -50, -50, -40, -40, -30],
    [-20, -30, -30, -40, -40, -30, -30, -20],
    [-10, -20, -20, -20, -20, -20, -20, -10],
    [20, 20, 0, 0, 0, 0, 20, 20],
    [20, 30, 10, 0, 0, 10, 30, 20],
];

/// The value of a kind of piece in hundredths of a pawn.
pub open spec fn piece_value(kind: Type) -> int {
    match kind {
        Type::Pawn(_) => 100,
        Type::Knight => 320,
        Type::Bishop => 330,
        Type::Rook(_) => 500,
        Type::Queen => 900,
        Type::King(_) => 20000,
        Type::Empty => 0,
    }
}

/// The entry of the table of `kind` at `(row, col)`.
pub open spec fn table_entry(kind: Type, row: int, col: int) -> int {
    match kind {
        Type::Pawn(_) => PAWN_TABLE[row][col] as int,
        Type::Knight => KNIGHT_TABLE[row][col] as int,
        Type::Bishop => BISHOP_TABLE[row][col] as int,
        Type::Rook(_) => ROOK_TABLE[row][col] as int,
        Type::Queen => QUEEN_TABLE[row][col] as int,
        Type::King(_) => KING_TABLE[row][col] as int,
        Type::Empty => 0,
    }
}

/// What the square `(row, col)` adds to White's advantage: the value of a
/// white piece with its table entry, and the negated value of a black piece
/// with the entry of the mirrored row.
pub open spec fn balance_term(board: Board, row: int, col: int) -> int {
    let piece = board.piece_at(row, col);
    if piece.colour == Colour::White {
        piece_value(piece.piece_type) + table_entry(piece.piece_type, row, col)
    } else {
        -(piece_value(piece.piece_type) + table_entry(piece.piece_type, 7 - row, col))
    }
}

/// White's advantage over the first `n` squares.
pub open spec fn balance_upto(board: Board, n: nat) -> int {
    total(n, |k: int| balance_term(board, k / 8, k % 8))
}

/// How much better White stands than Black: the largest score where White
/// has given mate, the smallest where Black has, and else the balance of
/// material and placement.
pub open spec fn white_advantage(board: Board) -> int {
    match mate_winner(board) {
        Some(Colour::White) => i32::MAX as int,
        Some(Colour::Black) => i32::MIN as int,
        None => balance_upto(board, 64),
    }
}

/// The value of the piece on `(row, col)` with the table entry of its
/// colour.
fn worth(board: &Board, row: usize, col: usize) -> (value: i32)
    requires
        on_board(row as int, col as int),
    ensures
        board.piece_at(row as int, col as int).colour == Colour::White ==> value == balance_term(
            *board,
            row as int,
            col as int,
        ),
        board.piece_at(row as int, col as int).colour == Colour::Black ==> value == -balance_term(
            *board,
            row as int,
            col as int,
        ),
        -50 <= value <= 20030,
{
    let piece = board.tiles[row][col].piece;
    let line = match piece.colour {
        Colour::White => row,
        Colour::Black => 7 - row,
    };
    match piece.piece_type {
        Type::Pawn(_) => 100 + PAWN_TABLE[line][col],
        Type::Knight => 320 + KNIGHT_TABLE[line][col],
        Type::Bishop => 330 + BISHOP_TABLE[line][col],
        Type::Rook(_) => 500 + ROOK_TABLE[line][col],
        Type::Queen => 900 + QUEEN_TABLE[line][col],
        Type::King(_) => 20000 + KING_TABLE[line][col],
        Type::Empty => 0,
    }
}

/// How much better White stands than Black.
pub fn evaluate_board(board: Board) -> (score: i32)
    ensures
        score == white_advantage(board),
{
    match check_for_mates(board) {
        Some(Colour::White) => {
            return i32::MAX;
        },
        Some(Colour::Black) => {
            return i32::MIN;
        },
        None => {},
    }
    let mut white_score: i32 = 0;
    let mut black_score: i32 = 0;
    let mut row: usize = 0;
    while row < 8
        invariant
            row <= 8,
            white_score - black_score == balance_upto(board, (8 * row) as nat),
            -50 * (8 * row) <= white_score <= 20030 * (8 * row),
            -50 * (8 * row) <= black_score <= 20030 * (8 * row),
        decreases 8 - row,
    {
        let mut col: usize = 0;
        while col < 8
            invariant
                row < 8,
                col <= 8,
                white_score - black_score == balance_upto(board, (8 * row + col) as nat),
                -50 * (8 * row + col) <= white_score <= 20030 * (8 * row + col),
                -50 * (8 * row + col) <= black_score <= 20030 * (8 * row + col),
            decreases 8 - col,
        {
            let ghost k = 8 * row + col;
            assert(k / 8 == row && k % 8 == col);
            let value = worth(&board, row, col);
            match board.tiles[row][col].piece.colour {
                Colour::White => {
                    white_score += value;
                },
                Colour::Black => {
                    black_score += value;
                },
            }
            col += 1;
        }
        row += 1;
    }
    white_score - black_score
}

} // verus!
