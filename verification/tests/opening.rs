use c_chess::cpu::{candidate_moves, get_all_moves};
use c_chess::moves::move_piece;
use c_chess::opening::{movable_pieces, pick_move, random_move};
use c_chess::types::{Board, Colour, Piece, Tile, Type};

fn empty_board() -> Board {
    let blank = Tile {
        piece: Piece { piece_type: Type::Empty, colour: Colour::White },
        colour: Colour::White,
    };
    Board { tiles: [[blank; 8]; 8], kingpos_w: (7, 4), kingpos_b: (0, 4) }
}

#[test]
fn pieces_without_a_move_are_left_out() {
    let board = Board::new();
    let kept = movable_pieces(get_all_moves(board, true));
    assert_eq!(kept.len(), 10);
    assert_eq!(kept[0], ((6, 0), vec![(5, 0), (4, 0)]));
    assert_eq!(kept[8], ((7, 1), vec![(5, 2), (5, 0)]));
    assert_eq!(kept[9], ((7, 6), vec![(5, 7), (5, 5)]));
    assert_eq!(movable_pieces(vec![]), vec![]);
    assert_eq!(movable_pieces(vec![((3, 3), vec![])]), vec![]);
}

#[test]
fn two_draws_pick_a_piece_and_a_destination() {
    let kept = vec![((6, 0), vec![(5, 0), (4, 0)]), ((7, 1), vec![(5, 2)])];
    assert_eq!(pick_move(&kept, 0, 0), Some(((6, 0), (5, 0))));
    assert_eq!(pick_move(&kept, 0, 1), Some(((6, 0), (4, 0))));
    assert_eq!(pick_move(&kept, 1, 0), Some(((7, 1), (5, 2))));
    assert_eq!(pick_move(&kept, 1, 1), None);
    assert_eq!(pick_move(&kept, 2, 0), None);
    assert_eq!(pick_move(&vec![], 0, 0), None);
}

#[test]
fn random_move_is_one_of_the_moves() {
    let board = Board::new();
    for round in 0..200 {
        let side = round % 2 == 0;
        let picked = random_move(board, side);
        assert!(picked.is_some());
        assert!(candidate_moves(board, side).contains(&picked.unwrap()));
    }
}

#[test]
fn random_move_is_none_where_nothing_can_move() {
    let mut board = empty_board();
    assert_eq!(random_move(board, true), None);
    assert_eq!(random_move(board, false), None);
    board.tiles[0][0].piece = Piece { piece_type: Type::Pawn(true), colour: Colour::White };
    assert_eq!(random_move(board, true), None);
}

#[test]
fn random_games_stay_within_the_rules() {
    let mut board = Board::new();
    let mut side = true;
    for _ in 0..400 {
        let Some((from, to)) = random_move(board, side) else {
            break;
        };
        let before = board;
        match move_piece(&mut board, from, to, side) {
            Ok(()) => {
                assert!(!c_chess::moves::is_in_check(board, side));
                let white = board.tiles[board.kingpos_w.0][board.kingpos_w.1].piece;
                let black = board.tiles[board.kingpos_b.0][board.kingpos_b.1].piece;
                assert!(matches!(white.piece_type, Type::King(_)) && white.colour == Colour::White);
                assert!(matches!(black.piece_type, Type::King(_)) && black.colour == Colour::Black);
                side = !side;
            }
            Err(_) => assert_eq!(board, before),
        }
    }
}
