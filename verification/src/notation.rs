//! Moves as text: coordinates such as `e2e4` in, square names out, and the
//! checks that a typed move has to pass before it is played.

use crate::types::{on_board, side_colour, Board, Colour, Error, Square, Type};
use vstd::prelude::*;
use vstd::string::*;

verus! {

/// The coordinate that stands for a square that does not exist.
pub const NO_SQUARE: usize = 99;

/// The column of a file letter from `a` to `h`.
pub open spec fn file_column(letter: char) -> Option<int> {
    if letter == 'a' {
        Some(0)
    } else if letter == 'b' {
        Some(1)
    } else if letter == 'c' {
        Some(2)
    } else if letter == 'd' {
        Some(3)
    } else if letter == 'e' {
        Some(4)
    } else if letter == 'f' {
        Some(5)
    } else if letter == 'g' {
        Some(6)
    } else if letter == 'h' {
        Some(7)
    } else {
        None
    }
}

/// The row of a rank digit from `1` to `8`: rank 8 is row 0.
pub open spec fn rank_row(digit: char) -> Option<int> {
    if digit == '8' {
        Some(0)
    } else if digit == '7' {
        Some(1)
    } else if digit == '6' {
        Some(2)
    } else if digit == '5' {
        Some(3)
    } else if digit == '4' {
        Some(4)
    } else if digit == '3' {
        Some(5)
    } else if digit == '2' {
        Some(6)
    } else if digit == '1' {
        Some(7)
    } else {
        None
    }
}

/// The square named by a file letter and a rank digit, or `(99, 99)` where
/// they name none.
pub open spec fn named_square(letter: char, digit: char) -> Square {
    match (rank_row(digit), file_column(letter)) {
        (Some(row), Some(col)) => (row as usize, col as usize),
        _ => (NO_SQUARE, NO_SQUARE),
    }
}

/// The two squares named by the first four characters of a text.
pub open spec fn named_move(text: Seq<char>) -> (Square, Square) {
    (named_square(text[0], text[1]), named_square(text[2], text[3]))
}

/// The letter of a column.
pub open spec fn file_letter(col: int) -> char {
    if col == 0 {
        'a'
    } else if col == 1 {
        'b'
    } else if col == 2 {
        'c'
    } else if col == 3 {
        'd'
    } else if col == 4 {
        'e'
    } else if col == 5 {
        'f'
    } else if col == 6 {
        'g'
    } else {
        'h'
    }
}

/// The digit of a row.
pub open spec fn rank_digit(row: int) -> char {
    if row == 0 {
        '8'
    } else if row == 1 {
        '7'
    } else if row == 2 {
        '6'
    } else if row == 3 {
        '5'
    } else if row == 4 {
        '4'
    } else if row == 5 {
        '3'
    } else if row == 6 {
        '2'
    } else {
        '1'
    }
}

/// The name of a square, such as `e4` for `(4, 4)`, or `ERR` for a pair
/// that is no square of the board.
pub open spec fn square_name(square: Square) -> Seq<char> {
    if on_board(square.0 as int, square.1 as int) {
        seq![file_letter(square.1 as int), rank_digit(square.0 as int)]
    } else {
        seq!['E', 'R', 'R']
    }
}

/// The name of a square names that square.
pub proof fn lemma_name_names_square(square: Square)
    requires
        on_board(square.0 as int, square.1 as int),
    ensures
        square_name(square).len() == 2,
        named_square(square_name(square)[0], square_name(square)[1]) == square,
{
}

/// The square named by a file letter and a rank digit.
fn square_of(letter: char, digit: char) -> (square: (usize, usize))
    ensures
        square == named_square(letter, digit),
{
    let col: usize = match letter {
        'a' => 0,
        'b' => 1,
        'c' => 2,
        'd' => 3,
        'e' => 4,
        'f' => 5,
        'g' => 6,
        'h' => 7,
        _ => NO_SQUARE,
    };
    let row: usize = match digit {
        '8' => 0,
        '7' => 1,
        '6' => 2,
        '5' => 3,
        '4' => 4,
        '3' => 5,
        '2' => 6,
        '1' => 7,
        _ => NO_SQUARE,
    };
    if row == NO_SQUARE || col == NO_SQUARE {
        (NO_SQUARE, NO_SQUARE)
    } else {
        (row, col)
    }
}

/// Reads the source and the destination of a move from the first four
/// characters of `input`. A pair of characters that names no square reads as
/// `(99, 99)`.
pub fn match_input(input: String) -> (squares: ((usize, usize), (usize, usize)))
    requires
        input@.len() >= 4,
    ensures
        squares == named_move(input@),
{
    let text = input.as_str();
    let from = square_of(text.get_char(0), text.get_char(1));
    let to = square_of(text.get_char(2), text.get_char(3));
    (from, to)
}

/// The name of a square, or `ERR` for a pair that is no square of the
/// board.
pub fn reverse_match_input(input: (usize, usize)) -> (name: String)
    ensures
        name@ == square_name(input),
{
    proof {
        reveal_strlit("ERR");
        reveal_strlit("a");
        reveal_strlit("b");
        reveal_strlit("c");
        reveal_strlit("d");
        reveal_strlit("e");
        reveal_strlit("f");
        reveal_strlit("g");
        reveal_strlit("h");
        reveal_strlit("1");
        reveal_strlit("2");
        reveal_strlit("3");
        reveal_strlit("4");
        reveal_strlit("5");
        reveal_strlit("6");
        reveal_strlit("7");
        reveal_strlit("8");
    }
    if input.0 > 7 || input.1 > 7 {
        let name = String::from_str("ERR");
        assert(name@ =~= square_name(input));
        return name;
    }
    let file: &str = match input.1 {
        0 => "a",
        1 => "b",
        2 => "c",
        3 => "d",
        4 => "e",
        5 => "f",
        6 => "g",
        _ => "h",
    };
    let rank: &str = match input.0 {
        0 => "8",
        1 => "7",
        2 => "6",
        3 => "5",
        4 => "4",
        5 => "3",
        6 => "2",
        _ => "1",
    };
    let mut name = String::from_str(file);
    name.append(rank);
    assert(name@ =~= square_name(input));
    name
}

/// What becomes of a typed move on a board: the two squares it names, or
/// the first reason for which it is turned down. The text must be four
/// plain characters; both squares must exist; the source must hold a piece,
/// and one of the side to move; the destination must not hold another.
pub open spec fn checked_input(board: Board, text: Seq<char>, is_white: bool) -> Result<
    (Square, Square),
    Error,
> {
    let from = named_move(text).0;
    let to = named_move(text).1;
    if text.len() != 4 || !vstd::utf8::is_ascii_chars(text) {
        Err(Error::Length)
    } else if from.0 == NO_SQUARE || to.0 == NO_SQUARE {
        Err(Error::OutOfBounds)
    } else if board.vacant(from.0 as int, from.1 as int) {
        Err(Error::Empty)
    } else if board.piece_at(from.0 as int, from.1 as int).colour != side_colour(is_white) {
        Err(Error::EnemyMove)
    } else if !board.vacant(to.0 as int, to.1 as int) && board.piece_at(
        to.0 as int,
        to.1 as int,
    ).colour == side_colour(is_white) {
        Err(Error::TeamDmg)
    } else {
        Ok((from, to))
    }
}

/// Checks a typed move of the side `is_white` and gives its two squares.
pub fn handle_input(board: Board, input: String, is_white: bool) -> (checked: Result<
    ((usize, usize), (usize, usize)),
    Error,
>)
    ensures
        checked == checked_input(board, input@, is_white),
        checked matches Ok(squares) ==> on_board(squares.0.0 as int, squares.0.1 as int)
            && on_board(squares.1.0 as int, squares.1.1 as int),
{
    let colour = if is_white {
        Colour::White
    } else {
        Colour::Black
    };
    if !input.as_str().is_ascii() || input.as_str().unicode_len() != 4 {
        return Err(Error::Length);
    }
    let (from, to) = match_input(input);
    if from.0 == NO_SQUARE || to.0 == NO_SQUARE {
        return Err(Error::OutOfBounds);
    }
    if board.tiles[from.0][from.1].piece.piece_type == Type::Empty {
        return Err(Error::Empty);
    }
    if board.tiles[from.0][from.1].piece.colour != colour {
        return Err(Error::EnemyMove);
    }
    let target = board.tiles[to.0][to.1].piece;
    if target.piece_type != Type::Empty && target.colour == colour {
        return Err(Error::TeamDmg);
    }
    Ok((from, to))
}

/// What a player is told when a move is turned down.
pub open spec fn error_text(error: Error) -> Seq<char> {
    match error {
        Error::Empty => "You can't move an empty tile!"@,
        Error::Length => "Your input needs to be 4 chars long!"@,
        Error::IllegalMove => "Illegal move!"@,
        Error::OutOfBounds => "Invalid choice!"@,
        Error::EnemyMove => "You can't move your opponent's piece!"@,
        Error::TeamDmg => "You cannot attack your own piece!"@,
        Error::Check => "You cannot move into check!"@,
    }
}

/// What a player is told when a move is turned down.
pub fn input_error(error: Error) -> (text: &'static str)
    ensures
        text@ == error_text(error),
{
    match error {
        Error::Empty => "You can't move an empty tile!",
        Error::Length => "Your input needs to be 4 chars long!",
        Error::IllegalMove => "Illegal move!",
        Error::OutOfBounds => "Invalid choice!",
        Error::EnemyMove => "You can't move your opponent's piece!",
        Error::TeamDmg => "You cannot attack your own piece!",
        Error::Check => "You cannot move into check!",
    }
}

} // verus!
