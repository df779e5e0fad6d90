use c_chess::cpu::evaluate_board;
use c_chess::evalfunc::{
    bishop_positional_value, is_diagonally_blocked, is_open_file, is_passed_pawn,
    knight_positional_value, passed_pawns_value, passed_pawns_value_helper,
    pawn_positional_value, queen_positional_value, rook_positional_value,
};
use c_chess::types::{Board, Colour, Piece, Tile, Type};

fn empty_board() -> Board {
    let blank = Tile {
        piece: Piece { piece_type: Type::Empty, colour: Colour::White },
        colour: Colour::White,
    };
    Board { tiles: [[blank; 8]; 8], kingpos_w: (7, 4), kingpos_b: (0, 4) }
}

fn place(board: &mut Board, square: (usize, usize), piece_type: Type, colour: Colour) {
    board.tiles[square.0][square.1].piece = Piece { piece_type, colour };
    if let Type::King(_) = piece_type {
        match colour {
            Colour::White => board.kingpos_w = square,
            Colour::Black => board.kingpos_b = square,
        }
    }
}

fn bare_kings() -> Board {
    let mut board = empty_board();
    place(&mut board, (7, 4), Type::King(true), Colour::White);
    place(&mut board, (0, 4), Type::King(true), Colour::Black);
    board
}

#[test]
fn pawn_value_counts_rows_from_the_far_rank() {
    assert_eq!(pawn_positional_value(6, 0, Colour::White), 1);
    assert_eq!(pawn_positional_value(6, 4, Colour::White), 0);
    assert_eq!(pawn_positional_value(1, 7, Colour::White), 6);
    assert_eq!(pawn_positional_value(0, 3, Colour::White), 6);
    assert_eq!(pawn_positional_value(1, 0, Colour::Black), 1);
    assert_eq!(pawn_positional_value(1, 4, Colour::Black), 0);
    assert_eq!(pawn_positional_value(6, 6, Colour::Black), 5);
    assert_eq!(pawn_positional_value(7, 7, Colour::Black), 7);
    for row in 0..8 {
        for col in 0..8 {
            assert_eq!(
                pawn_positional_value(row, col, Colour::White),
                pawn_positional_value(7 - row, col, Colour::Black)
            );
        }
    }
}

#[test]
fn knight_table_is_read_mirrored_for_black() {
    assert_eq!(knight_positional_value(0, 0, Colour::White), -10);
    assert_eq!(knight_positional_value(3, 1, Colour::White), 5);
    assert_eq!(knight_positional_value(4, 1, Colour::White), 0);
    assert_eq!(knight_positional_value(3, 1, Colour::Black), 0);
    assert_eq!(knight_positional_value(4, 1, Colour::Black), 5);
    assert_eq!(knight_positional_value(7, 1, Colour::Black), -5);
}

#[test]
fn queen_table_is_mirrored_top_to_bottom_only() {
    let board = empty_board();
    assert_eq!(queen_positional_value(4, 0, Colour::White, board), 0 + 5);
    assert_eq!(queen_positional_value(4, 7, Colour::White, board), -5 + 5);
    assert_eq!(queen_positional_value(3, 0, Colour::Black, board), 0 + 5);
    assert_eq!(queen_positional_value(3, 7, Colour::Black, board), -5 + 5);
    assert_eq!(queen_positional_value(5, 1, Colour::White, board), 5 + 5);
    assert_eq!(queen_positional_value(2, 1, Colour::Black, board), 5 + 5);
    assert_eq!(queen_positional_value(2, 6, Colour::Black, board), 0 + 5);
}

#[test]
fn open_file_has_no_other_piece() {
    let mut board = empty_board();
    place(&mut board, (4, 3), Type::Rook(true), Colour::White);
    assert!(is_open_file(4, 3, board));
    assert_eq!(rook_positional_value(4, 3, Colour::White, board), 0 + 5);
    assert_eq!(rook_positional_value(6, 3, Colour::White, board), 10);
    assert_eq!(rook_positional_value(6, 2, Colour::White, board), 10 + 5);
    assert_eq!(rook_positional_value(1, 3, Colour::Black, board), 10);
    place(&mut board, (0, 3), Type::Pawn(true), Colour::Black);
    assert!(!is_open_file(4, 3, board));
    assert_eq!(rook_positional_value(4, 3, Colour::White, board), 0);
    assert!(is_open_file(4, 2, board));
    assert!(is_open_file(0, 3, board) == false);
}

#[test]
fn rook_table_values() {
    let board = Board::new();
    assert_eq!(rook_positional_value(7, 0, Colour::White, board), 0);
    assert_eq!(rook_positional_value(0, 0, Colour::Black, board), 0);
    assert_eq!(rook_positional_value(0, 3, Colour::White, board), 5);
    assert_eq!(rook_positional_value(3, 0, Colour::White, board), -5);
}

#[test]
fn blocked_diagonals_have_no_vacant_neighbour() {
    let board = Board::new();
    assert!(is_diagonally_blocked(7, 2, Colour::White, board));
    assert!(is_diagonally_blocked(0, 5, Colour::Black, board));
    assert!(!is_diagonally_blocked(6, 2, Colour::White, board));
    let mut board = empty_board();
    assert!(!is_diagonally_blocked(0, 0, Colour::White, board));
    place(&mut board, (1, 1), Type::Pawn(true), Colour::Black);
    assert!(is_diagonally_blocked(0, 0, Colour::White, board));
    place(&mut board, (3, 3), Type::Pawn(true), Colour::White);
    place(&mut board, (3, 5), Type::Pawn(true), Colour::White);
    place(&mut board, (5, 3), Type::Pawn(true), Colour::Black);
    assert!(!is_diagonally_blocked(4, 4, Colour::White, board));
    place(&mut board, (5, 5), Type::Knight, Colour::Black);
    assert!(is_diagonally_blocked(4, 4, Colour::White, board));
}

#[test]
fn bishop_loses_five_when_blocked() {
    let board = Board::new();
    assert_eq!(bishop_positional_value(7, 2, Colour::White, board), -10 - 5);
    assert_eq!(bishop_positional_value(0, 2, Colour::Black, board), -10 - 5);
    let board = empty_board();
    assert_eq!(bishop_positional_value(7, 2, Colour::White, board), -10);
    assert_eq!(bishop_positional_value(4, 3, Colour::White, board), 5);
    assert_eq!(bishop_positional_value(0, 0, Colour::Black, board), -20);
}

#[test]
fn queen_gains_and_loses_by_structure() {
    let board = Board::new();
    assert_eq!(queen_positional_value(7, 3, Colour::White, board), -5 - 5);
    assert_eq!(queen_positional_value(0, 3, Colour::Black, board), -5 - 5);
    let mut board = empty_board();
    place(&mut board, (4, 4), Type::Queen, Colour::White);
    assert_eq!(queen_positional_value(4, 4, Colour::White, board), 5 + 5);
    place(&mut board, (3, 3), Type::Pawn(true), Colour::White);
    place(&mut board, (3, 5), Type::Pawn(true), Colour::White);
    place(&mut board, (5, 3), Type::Pawn(true), Colour::Black);
    place(&mut board, (5, 5), Type::Pawn(true), Colour::Black);
    assert_eq!(queen_positional_value(4, 4, Colour::White, board), 5 + 5 - 5);
    place(&mut board, (0, 4), Type::Rook(true), Colour::Black);
    assert_eq!(queen_positional_value(4, 4, Colour::White, board), 5 - 5);
}

#[test]
fn passed_pawn_has_no_enemy_pawn_on_its_file() {
    let board = Board::new();
    assert!(!is_passed_pawn(6, 0, Colour::White, board));
    assert!(!is_passed_pawn(1, 0, Colour::Black, board));
    let mut board = empty_board();
    place(&mut board, (6, 2), Type::Pawn(false), Colour::White);
    place(&mut board, (5, 2), Type::Pawn(true), Colour::White);
    place(&mut board, (1, 2), Type::Knight, Colour::Black);
    assert!(is_passed_pawn(6, 2, Colour::White, board));
    place(&mut board, (7, 2), Type::Pawn(true), Colour::Black);
    assert!(!is_passed_pawn(6, 2, Colour::White, board));
    assert!(!is_passed_pawn(7, 2, Colour::Black, board));
    assert!(is_passed_pawn(6, 3, Colour::White, board));
}

#[test]
fn passed_bonus_grows_towards_promotion() {
    let board = empty_board();
    let by_distance = [20, 10, 5, 3, 2, 1, 1, 1];
    for row in 0..8 {
        assert_eq!(passed_pawns_value_helper(row, 0, Colour::White, board), by_distance[row]);
        assert_eq!(passed_pawns_value_helper(row, 0, Colour::Black, board), by_distance[7 - row]);
    }
    let mut board = empty_board();
    place(&mut board, (1, 5), Type::Pawn(false), Colour::Black);
    assert_eq!(passed_pawns_value_helper(4, 5, Colour::White, board), 0);
    assert_eq!(passed_pawns_value_helper(4, 5, Colour::Black, board), 3);
}

#[test]
fn passed_pawns_are_balanced_between_the_sides() {
    assert_eq!(passed_pawns_value(Board::new(), true), 0);
    assert_eq!(passed_pawns_value(Board::new(), false), 0);
    let mut board = empty_board();
    place(&mut board, (2, 0), Type::Pawn(true), Colour::White);
    place(&mut board, (3, 7), Type::Pawn(true), Colour::Black);
    place(&mut board, (4, 3), Type::Pawn(true), Colour::White);
    place(&mut board, (3, 3), Type::Pawn(true), Colour::Black);
    assert_eq!(passed_pawns_value(board, true), 5 - 2);
    assert_eq!(passed_pawns_value(board, false), 2 - 5);
}

#[test]
fn starting_position_scores() {
    let board = Board::new();
    assert_eq!(evaluate_board(board, true), 0);
    assert_eq!(evaluate_board(board, false), 0);
}

#[test]
fn bare_kings_score_nothing() {
    let board = bare_kings();
    assert_eq!(evaluate_board(board, true), 0);
    assert_eq!(evaluate_board(board, false), 0);
}

#[test]
fn material_and_position_add_up() {
    let mut board = bare_kings();
    place(&mut board, (4, 3), Type::Knight, Colour::White);
    assert_eq!(evaluate_board(board, true), 3 + 5);
    place(&mut board, (3, 0), Type::Rook(true), Colour::Black);
    assert_eq!(evaluate_board(board, true), 8 - (5 - 5 + 5));
    place(&mut board, (5, 6), Type::Pawn(true), Colour::White);
    assert_eq!(evaluate_board(board, true), 8 - 5 + (1 + 1 + 1));
    assert_eq!(evaluate_board(board, false), -(8 - 5 + 3));
    place(&mut board, (2, 2), Type::Queen, Colour::Black);
    assert_eq!(evaluate_board(board, true), 6 - (9 + 5 + 5));
    place(&mut board, (6, 1), Type::Bishop, Colour::White);
    assert_eq!(evaluate_board(board, true), -13 + (3 + 0));
}

#[test]
fn scores_of_the_two_sides_are_opposite() {
    let mut board = Board::new();
    place(&mut board, (6, 4), Type::Empty, Colour::White);
    place(&mut board, (4, 4), Type::Pawn(true), Colour::White);
    place(&mut board, (0, 1), Type::Empty, Colour::Black);
    place(&mut board, (2, 2), Type::Knight, Colour::Black);
    let white = evaluate_board(board, true);
    let black = evaluate_board(board, false);
    assert_eq!(white, -black);
    assert_eq!(white, 2);
}

#[test]
fn mate_is_the_extreme_score() {
    let mut board = empty_board();
    place(&mut board, (0, 0), Type::King(true), Colour::Black);
    place(&mut board, (7, 0), Type::Rook(true), Colour::White);
    place(&mut board, (1, 1), Type::Rook(true), Colour::White);
    place(&mut board, (2, 2), Type::King(true), Colour::White);
    assert_eq!(evaluate_board(board, true), i32::MAX);
    assert_eq!(evaluate_board(board, false), i32::MIN);
    assert_eq!(c_chess::evaluation::evaluate_board(board), i32::MAX);
    let mut board = empty_board();
    place(&mut board, (7, 7), Type::King(true), Colour::White);
    place(&mut board, (0, 7), Type::Rook(true), Colour::Black);
    place(&mut board, (6, 6), Type::Rook(true), Colour::Black);
    place(&mut board, (5, 5), Type::King(true), Colour::Black);
    assert_eq!(evaluate_board(board, true), i32::MIN);
    assert_eq!(evaluate_board(board, false), i32::MAX);
    assert_eq!(c_chess::evaluation::evaluate_board(board), i32::MIN);
}

#[test]
fn white_advantage_is_nothing_at_the_start() {
    assert_eq!(c_chess::evaluation::evaluate_board(Board::new()), 0);
}

#[test]
fn white_advantage_counts_material_and_tables() {
    let mut board = bare_kings();
    assert_eq!(c_chess::evaluation::evaluate_board(board), 0);
    place(&mut board, (6, 3), Type::Pawn(false), Colour::White);
    assert_eq!(c_chess::evaluation::evaluate_board(board), 100 - 20);
    place(&mut board, (1, 3), Type::Pawn(false), Colour::Black);
    assert_eq!(c_chess::evaluation::evaluate_board(board), 0);
    place(&mut board, (2, 2), Type::Knight, Colour::Black);
    assert_eq!(c_chess::evaluation::evaluate_board(board), -(320 + 10));
    place(&mut board, (4, 4), Type::Queen, Colour::White);
    assert_eq!(c_chess::evaluation::evaluate_board(board), -330 + 900 + 5);
    place(&mut board, (0, 0), Type::Rook(false), Colour::Black);
    assert_eq!(c_chess::evaluation::evaluate_board(board), 575 - (500 + 0));
    place(&mut board, (5, 1), Type::Bishop, Colour::White);
    assert_eq!(c_chess::evaluation::evaluate_board(board), 75 + 330 + 10);
}
