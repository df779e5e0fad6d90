use c_chess::cpu::{candidate_moves, get_all_moves};
use c_chess::moves::{
    legal_diagonal_moves, legal_king_moves, legal_knight_moves, legal_moves, legal_pawn_moves,
    legal_straight_moves,
};
use c_chess::types::{Board, Colour, Piece, Tile, Type};

fn empty_board() -> Board {
    let blank = Tile {
        piece: Piece { piece_type: Type::Empty, colour: Colour::White },
        colour: Colour::White,
    };
    Board { tiles: [[blank; 8]; 8], kingpos_w: (7, 4), kingpos_b: (0, 4) }
}

fn place(board: &mut Board, square: (usize, usize), piece_type: Type, colour: Colour) {
    board.tiles[square.0][square.1].piece = Piece { piece_type, colour };
    if let Type::King(_) = piece_type {
        match colour {
            Colour::White => board.kingpos_w = square,
            Colour::Black => board.kingpos_b = square,
        }
    }
}

#[test]
fn knight_jumps_in_table_order() {
    let mut board = empty_board();
    place(&mut board, (4, 4), Type::Knight, Colour::White);
    assert_eq!(
        legal_knight_moves(board, (4, 4), true),
        vec![(6, 5), (6, 3), (2, 5), (2, 3), (5, 6), (5, 2), (3, 6), (3, 2)]
    );
}

#[test]
fn knight_in_the_corner_stays_on_the_board() {
    let mut board = empty_board();
    place(&mut board, (0, 0), Type::Knight, Colour::Black);
    assert_eq!(legal_knight_moves(board, (0, 0), false), vec![(2, 1), (1, 2)]);
}

#[test]
fn knight_takes_foes_and_spares_friends() {
    let mut board = empty_board();
    place(&mut board, (4, 4), Type::Knight, Colour::White);
    place(&mut board, (6, 5), Type::Pawn(true), Colour::White);
    place(&mut board, (2, 3), Type::Pawn(true), Colour::Black);
    assert_eq!(
        legal_knight_moves(board, (4, 4), true),
        vec![(6, 3), (2, 5), (2, 3), (5, 6), (5, 2), (3, 6), (3, 2)]
    );
}

#[test]
fn rook_slides_nearest_squares_first() {
    let mut board = empty_board();
    place(&mut board, (4, 4), Type::Rook(true), Colour::White);
    assert_eq!(
        legal_straight_moves(board, (4, 4), true),
        vec![
            (4, 3),
            (3, 4),
            (4, 5),
            (5, 4),
            (4, 2),
            (2, 4),
            (4, 6),
            (6, 4),
            (4, 1),
            (1, 4),
            (4, 7),
            (7, 4),
            (4, 0),
            (0, 4)
        ]
    );
}

#[test]
fn rook_stops_at_friend_and_takes_foe() {
    let mut board = empty_board();
    place(&mut board, (4, 4), Type::Rook(true), Colour::White);
    place(&mut board, (4, 2), Type::Pawn(true), Colour::White);
    place(&mut board, (2, 4), Type::Pawn(true), Colour::Black);
    place(&mut board, (4, 5), Type::Knight, Colour::Black);
    assert_eq!(
        legal_straight_moves(board, (4, 4), true),
        vec![(4, 3), (3, 4), (4, 5), (5, 4), (2, 4), (6, 4), (7, 4)]
    );
}

#[test]
fn bishop_slides_along_both_diagonals() {
    let mut board = empty_board();
    place(&mut board, (4, 4), Type::Bishop, Colour::Black);
    assert_eq!(
        legal_diagonal_moves(board, (4, 4), false),
        vec![
            (5, 5),
            (5, 3),
            (3, 5),
            (3, 3),
            (6, 6),
            (6, 2),
            (2, 6),
            (2, 2),
            (7, 7),
            (7, 1),
            (1, 7),
            (1, 1),
            (0, 0)
        ]
    );
}

#[test]
fn bishop_is_shut_in_at_the_start() {
    let board = Board::new();
    assert_eq!(legal_diagonal_moves(board, (7, 2), true), vec![]);
    assert_eq!(legal_moves(board, (7, 2), true), vec![]);
}

#[test]
fn queen_moves_as_rook_then_as_bishop() {
    let mut board = empty_board();
    place(&mut board, (0, 0), Type::Queen, Colour::White);
    let mut expected = legal_straight_moves(board, (0, 0), true);
    expected.extend(legal_diagonal_moves(board, (0, 0), true));
    assert_eq!(expected.len(), 21);
    assert_eq!(legal_moves(board, (0, 0), true), expected);
    assert_eq!(legal_moves(board, (0, 0), true)[0], (0, 1));
    assert_eq!(legal_moves(board, (0, 0), true)[14], (1, 1));
}

#[test]
fn unmoved_pawn_steps_once_or_twice() {
    let board = Board::new();
    assert_eq!(legal_pawn_moves(board, (6, 4), true), vec![(5, 4), (4, 4)]);
    assert_eq!(legal_pawn_moves(board, (1, 0), false), vec![(2, 0), (3, 0)]);
}

#[test]
fn moved_pawn_steps_once_and_takes() {
    let mut board = empty_board();
    place(&mut board, (4, 4), Type::Pawn(true), Colour::White);
    place(&mut board, (3, 3), Type::Pawn(true), Colour::Black);
    assert_eq!(legal_pawn_moves(board, (4, 4), true), vec![(3, 4), (3, 3)]);
    assert_eq!(legal_pawn_moves(board, (3, 3), false), vec![(4, 3), (4, 4)]);
}

#[test]
fn pawn_is_blocked_by_any_piece_ahead() {
    let mut board = empty_board();
    place(&mut board, (6, 4), Type::Pawn(false), Colour::White);
    place(&mut board, (5, 4), Type::Knight, Colour::Black);
    assert_eq!(legal_pawn_moves(board, (6, 4), true), vec![]);
    let mut board = empty_board();
    place(&mut board, (6, 4), Type::Pawn(false), Colour::White);
    place(&mut board, (4, 4), Type::Knight, Colour::White);
    assert_eq!(legal_pawn_moves(board, (6, 4), true), vec![(5, 4)]);
}

#[test]
fn pawn_takes_diagonally_only_foes() {
    let mut board = empty_board();
    place(&mut board, (6, 4), Type::Pawn(false), Colour::White);
    place(&mut board, (5, 3), Type::Rook(true), Colour::Black);
    place(&mut board, (5, 5), Type::Rook(true), Colour::White);
    assert_eq!(legal_pawn_moves(board, (6, 4), true), vec![(5, 4), (4, 4), (5, 3)]);
}

#[test]
fn pawn_on_the_last_rank_has_no_move() {
    let mut board = empty_board();
    place(&mut board, (0, 0), Type::Pawn(true), Colour::White);
    place(&mut board, (7, 7), Type::Pawn(true), Colour::Black);
    assert_eq!(legal_pawn_moves(board, (0, 0), true), vec![]);
    assert_eq!(legal_pawn_moves(board, (7, 7), false), vec![]);
}

#[test]
fn pawn_on_the_edge_takes_towards_the_board() {
    let mut board = empty_board();
    place(&mut board, (4, 0), Type::Pawn(true), Colour::White);
    place(&mut board, (3, 1), Type::Pawn(true), Colour::Black);
    place(&mut board, (3, 0), Type::Pawn(true), Colour::Black);
    assert_eq!(legal_pawn_moves(board, (4, 0), true), vec![(3, 1)]);
}

#[test]
fn king_steps_in_table_order() {
    let mut board = empty_board();
    place(&mut board, (4, 4), Type::King(true), Colour::White);
    assert_eq!(
        legal_king_moves(board, (4, 4), true),
        vec![(5, 5), (5, 3), (3, 5), (3, 3), (5, 4), (3, 4), (4, 5), (4, 3)]
    );
}

#[test]
fn castling_appears_for_unmoved_king_and_rooks() {
    let mut board = empty_board();
    place(&mut board, (7, 4), Type::King(false), Colour::White);
    place(&mut board, (7, 0), Type::Rook(false), Colour::White);
    place(&mut board, (7, 7), Type::Rook(false), Colour::White);
    assert_eq!(
        legal_king_moves(board, (7, 4), true),
        vec![(6, 5), (6, 3), (6, 4), (7, 5), (7, 3), (7, 2), (7, 6)]
    );
    assert_eq!(legal_moves(board, (7, 4), true), legal_king_moves(board, (7, 4), true));
}

#[test]
fn castling_is_gone_once_the_king_has_moved() {
    let mut board = empty_board();
    place(&mut board, (7, 4), Type::King(true), Colour::White);
    place(&mut board, (7, 0), Type::Rook(false), Colour::White);
    place(&mut board, (7, 7), Type::Rook(false), Colour::White);
    assert_eq!(
        legal_king_moves(board, (7, 4), true),
        vec![(6, 5), (6, 3), (6, 4), (7, 5), (7, 3)]
    );
}

#[test]
fn castling_is_gone_towards_a_rook_that_has_moved() {
    let mut board = empty_board();
    place(&mut board, (0, 4), Type::King(false), Colour::Black);
    place(&mut board, (0, 0), Type::Rook(true), Colour::Black);
    place(&mut board, (0, 7), Type::Rook(false), Colour::Black);
    let moves = legal_king_moves(board, (0, 4), false);
    assert!(!moves.contains(&(0, 2)));
    assert!(moves.contains(&(0, 6)));
    place(&mut board, (0, 7), Type::Rook(true), Colour::Black);
    assert!(!legal_king_moves(board, (0, 4), false).contains(&(0, 6)));
}

#[test]
fn castling_needs_the_squares_between_to_be_vacant() {
    let mut board = Board::new();
    assert!(!legal_king_moves(board, (7, 4), true).contains(&(7, 6)));
    assert!(!legal_king_moves(board, (7, 4), true).contains(&(7, 2)));
    place(&mut board, (7, 5), Type::Empty, Colour::White);
    place(&mut board, (7, 6), Type::Empty, Colour::White);
    assert!(legal_king_moves(board, (7, 4), true).contains(&(7, 6)));
    place(&mut board, (7, 1), Type::Empty, Colour::White);
    place(&mut board, (7, 2), Type::Empty, Colour::White);
    assert!(!legal_king_moves(board, (7, 4), true).contains(&(7, 2)));
    place(&mut board, (7, 3), Type::Empty, Colour::White);
    assert!(legal_king_moves(board, (7, 4), true).contains(&(7, 2)));
}

#[test]
fn castling_does_not_ask_whether_the_way_is_attacked() {
    let mut board = empty_board();
    place(&mut board, (7, 4), Type::King(false), Colour::White);
    place(&mut board, (7, 7), Type::Rook(false), Colour::White);
    place(&mut board, (0, 5), Type::Rook(true), Colour::Black);
    assert!(legal_king_moves(board, (7, 4), true).contains(&(7, 6)));
}

#[test]
fn king_away_from_its_file_castles_only_where_the_rook_fits() {
    let mut board = empty_board();
    place(&mut board, (7, 2), Type::King(false), Colour::White);
    place(&mut board, (7, 5), Type::Rook(false), Colour::White);
    place(&mut board, (7, 0), Type::Rook(false), Colour::White);
    let moves = legal_king_moves(board, (7, 2), true);
    assert!(moves.contains(&(7, 4)));
    assert_eq!(moves.len(), 6);
}

#[test]
fn all_moves_are_listed_piece_by_piece_in_row_major_order() {
    let board = Board::new();
    let white = get_all_moves(board, true);
    assert_eq!(white.len(), 16);
    assert_eq!(white[0], ((6, 0), vec![(5, 0), (4, 0)]));
    assert_eq!(white[8], ((7, 0), vec![]));
    assert_eq!(white[9], ((7, 1), vec![(5, 2), (5, 0)]));
    assert_eq!(white[14], ((7, 6), vec![(5, 7), (5, 5)]));
    let black = get_all_moves(board, false);
    assert_eq!(black.len(), 16);
    assert_eq!(black[0], ((0, 0), vec![]));
    assert_eq!(black[1], ((0, 1), vec![(2, 2), (2, 0)]));
    assert_eq!(black[8], ((1, 0), vec![(2, 0), (3, 0)]));
    assert_eq!(c_chess::engine::get_all_moves(board, true), white);
}

#[test]
fn candidate_moves_flatten_the_list() {
    let board = Board::new();
    let pairs = candidate_moves(board, true);
    assert_eq!(pairs.len(), 20);
    assert_eq!(pairs[0], ((6, 0), (5, 0)));
    assert_eq!(pairs[1], ((6, 0), (4, 0)));
    assert_eq!(pairs[16], ((7, 1), (5, 2)));
    assert_eq!(pairs[19], ((7, 6), (5, 5)));
    assert_eq!(candidate_moves(empty_board(), true), vec![]);
}
