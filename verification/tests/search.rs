use c_chess::cache::PositionCache;
use c_chess::cpu::{evaluate_board, get_best_move, negamax, negate, SCORE_LIMIT};
use c_chess::engine::{max_move, min_move, minimax};
use c_chess::moves::{check_for_mates, is_in_check, move_piece};
use c_chess::types::{Board, Colour, Piece, Tile, Type};

fn empty_board() -> Board {
    let blank = Tile {
        piece: Piece { piece_type: Type::Empty, colour: Colour::White },
        colour: Colour::White,
    };
    Board { tiles: [[blank; 8]; 8], kingpos_w: (7, 4), kingpos_b: (0, 4) }
}

fn place(board: &mut Board, square: (usize, usize), piece_type: Type, colour: Colour) {
    board.tiles[square.0][square.1].piece = Piece { piece_type, colour };
    if let Type::King(_) = piece_type {
        match colour {
            Colour::White => board.kingpos_w = square,
            Colour::Black => board.kingpos_b = square,
        }
    }
}

fn fools_mate_position() -> Board {
    let mut board = Board::new();
    assert_eq!(move_piece(&mut board, (6, 5), (5, 5), true), Ok(()));
    assert_eq!(move_piece(&mut board, (1, 4), (3, 4), false), Ok(()));
    assert_eq!(move_piece(&mut board, (6, 6), (4, 6), true), Ok(()));
    board
}

#[test]
fn negation_turns_the_smallest_score_into_the_largest() {
    assert_eq!(negate(0), 0);
    assert_eq!(negate(7), -7);
    assert_eq!(negate(-1000000), 1000000);
    assert_eq!(negate(i32::MAX), -i32::MAX);
    assert_eq!(negate(i32::MIN), i32::MAX);
    assert_eq!(SCORE_LIMIT, 1000000);
}

#[test]
fn depth_zero_search_is_the_evaluation() {
    let mut cache = PositionCache::new();
    let mut board = Board::new();
    assert_eq!(negamax(board, 0, -5, 5, true, &mut cache), 0);
    assert_eq!(move_piece(&mut board, (6, 0), (4, 0), true), Ok(()));
    assert_eq!(negamax(board, 0, -5, 5, true, &mut cache), 2);
    assert_eq!(negamax(board, 0, i32::MIN, i32::MAX, false, &mut cache), -2);
    assert_eq!(negamax(board, 0, 100, -100, false, &mut cache), evaluate_board(board, false));
    assert_eq!(cache.get(&board.tiles, true, 0), None);
    let mated = {
        let mut board = fools_mate_position();
        assert_eq!(move_piece(&mut board, (0, 3), (4, 7), false), Ok(()));
        board
    };
    assert_eq!(negamax(mated, 0, -5, 5, true, &mut cache), i32::MIN);
    assert_eq!(negamax(mated, 0, -5, 5, false, &mut cache), i32::MAX);
}

#[test]
fn side_without_a_move_scores_the_lower_limit() {
    let mated = {
        let mut board = fools_mate_position();
        assert_eq!(move_piece(&mut board, (0, 3), (4, 7), false), Ok(()));
        board
    };
    let mut cache = PositionCache::new();
    assert_eq!(negamax(mated, 1, -SCORE_LIMIT, SCORE_LIMIT, true, &mut cache), -SCORE_LIMIT);
    assert_eq!(cache.get(&mated.tiles, true, 1), Some(-SCORE_LIMIT));
    assert_eq!(negamax(mated, 3, -SCORE_LIMIT, SCORE_LIMIT, true, &mut cache), -SCORE_LIMIT);
}

#[test]
fn search_takes_the_best_reply_at_depth_one() {
    let mut board = empty_board();
    place(&mut board, (7, 7), Type::King(true), Colour::White);
    place(&mut board, (0, 0), Type::King(true), Colour::Black);
    place(&mut board, (4, 4), Type::Rook(true), Colour::White);
    place(&mut board, (4, 1), Type::Queen, Colour::Black);
    let mut cache = PositionCache::new();
    let score = negamax(board, 1, -SCORE_LIMIT, SCORE_LIMIT, true, &mut cache);
    let mut best = i32::MIN;
    for (from, to) in c_chess::cpu::candidate_moves(board, true) {
        let mut after = board;
        if move_piece(&mut after, from, to, true).is_ok() {
            best = best.max(-evaluate_board(after, false));
        }
    }
    assert_eq!(score, best);
    let mut taken = board;
    assert_eq!(move_piece(&mut taken, (4, 4), (4, 1), true), Ok(()));
    assert_eq!(score, evaluate_board(taken, true));
}

#[test]
fn score_that_reaches_beta_cuts_the_search_off() {
    let board = Board::new();
    let mut cache = PositionCache::new();
    assert_eq!(negamax(board, 1, -10, -5, true, &mut cache), -5);
    assert_eq!(cache.get(&board.tiles, true, 1), None);
    assert_eq!(negamax(board, 1, -10, -7, true, &mut cache), -7);
    assert_eq!(cache.get(&board.tiles, true, 1), None);
}

#[test]
fn repeated_search_returns_the_remembered_score() {
    let board = Board::new();
    let mut cache = PositionCache::new();
    let first = negamax(board, 2, -SCORE_LIMIT, SCORE_LIMIT, true, &mut cache);
    assert_eq!(cache.get(&board.tiles, true, 2), Some(first));
    assert_eq!(negamax(board, 2, -SCORE_LIMIT, SCORE_LIMIT, true, &mut cache), first);
    assert_eq!(negamax(board, 2, -3, 3, true, &mut cache), first);
    assert_eq!(negamax(board, 2, first + 1, first + 2, true, &mut cache), first);
    let mut fresh = PositionCache::new();
    assert_eq!(negamax(board, 2, -SCORE_LIMIT, SCORE_LIMIT, true, &mut fresh), first);
}

#[test]
fn entry_of_one_depth_is_not_returned_for_another() {
    let board = Board::new();
    let mut cache = PositionCache::new();
    cache.insert(board.tiles, true, 2, 777);
    assert_eq!(negamax(board, 2, -SCORE_LIMIT, SCORE_LIMIT, true, &mut cache), 777);
    assert_eq!(cache.get(&board.tiles, true, 1), None);
    assert_eq!(cache.get(&board.tiles, true, 3), None);
    assert_eq!(cache.get(&board.tiles, false, 2), None);
    let mut fresh = PositionCache::new();
    let honest = negamax(board, 1, -SCORE_LIMIT, SCORE_LIMIT, true, &mut fresh);
    assert_ne!(honest, 777);
    assert_eq!(negamax(board, 1, -SCORE_LIMIT, SCORE_LIMIT, true, &mut cache), honest);
    assert_eq!(negamax(board, 0, -SCORE_LIMIT, SCORE_LIMIT, true, &mut cache), 0);
    assert_eq!(cache.get(&board.tiles, true, 2), Some(777));
}

#[test]
fn cache_keeps_keys_apart() {
    let board = Board::new();
    let mut other = board;
    other.tiles[4][4].piece.colour = Colour::Black;
    let mut cache = PositionCache::new();
    assert_eq!(cache.get(&board.tiles, true, 1), None);
    cache.insert(board.tiles, true, 1, 5);
    cache.insert(board.tiles, false, 1, 6);
    cache.insert(board.tiles, true, 2, 7);
    cache.insert(other.tiles, true, 1, 8);
    assert_eq!(cache.get(&board.tiles, true, 1), Some(5));
    assert_eq!(cache.get(&board.tiles, false, 1), Some(6));
    assert_eq!(cache.get(&board.tiles, true, 2), Some(7));
    assert_eq!(cache.get(&other.tiles, true, 1), Some(8));
    assert_eq!(cache.get(&other.tiles, true, 2), None);
    cache.insert(board.tiles, true, 1, -9);
    assert_eq!(cache.get(&board.tiles, true, 1), Some(-9));
    assert_eq!(cache.get(&board.tiles, false, 1), Some(6));
    assert_eq!(cache.get(&other.tiles, true, 1), Some(8));
}

#[test]
fn search_finds_the_fools_mate() {
    let mut board = fools_mate_position();
    let best = get_best_move(board, 2, false);
    assert_eq!(best, ((0, 3), (4, 7)));
    assert_eq!(move_piece(&mut board, best.0, best.1, false), Ok(()));
    assert!(is_in_check(board, true));
    assert_eq!(check_for_mates(board), Some(Colour::Black));
}

#[test]
fn search_at_depth_zero_takes_the_best_evaluation() {
    let mut board = empty_board();
    place(&mut board, (7, 7), Type::King(true), Colour::White);
    place(&mut board, (0, 0), Type::King(true), Colour::Black);
    place(&mut board, (4, 4), Type::Rook(true), Colour::White);
    place(&mut board, (4, 1), Type::Queen, Colour::Black);
    place(&mut board, (6, 0), Type::Pawn(false), Colour::White);
    place(&mut board, (6, 1), Type::Pawn(false), Colour::White);
    place(&mut board, (1, 6), Type::Pawn(false), Colour::Black);
    place(&mut board, (1, 7), Type::Pawn(false), Colour::Black);
    let mut expected = ((0, 0), (0, 0));
    let mut top = i32::MIN;
    for (from, to) in c_chess::cpu::candidate_moves(board, true) {
        let mut after = board;
        if move_piece(&mut after, from, to, true).is_ok() {
            let score = negate(evaluate_board(after, false));
            if score > top {
                top = score;
                expected = (from, to);
            }
        }
    }
    assert_eq!(get_best_move(board, 0, true), expected);
    assert_eq!(expected, ((4, 4), (6, 4)));
    let mut after = board;
    assert_eq!(move_piece(&mut after, (4, 4), (6, 4), true), Ok(()));
    assert_eq!(top, evaluate_board(after, true));
}

#[test]
fn search_without_a_move_returns_the_corner_pair() {
    let mated = {
        let mut board = fools_mate_position();
        assert_eq!(move_piece(&mut board, (0, 3), (4, 7), false), Ok(()));
        board
    };
    assert_eq!(get_best_move(mated, 1, true), ((0, 0), (0, 0)));
    assert_eq!(max_move(mated, 1), ((0, 0), (0, 0)));
}

#[test]
fn search_chooses_the_first_of_equal_moves() {
    let mut board = empty_board();
    place(&mut board, (7, 7), Type::King(true), Colour::White);
    place(&mut board, (0, 0), Type::King(true), Colour::Black);
    let best = get_best_move(board, 0, true);
    let mut scores = vec![];
    for (from, to) in c_chess::cpu::candidate_moves(board, true) {
        let mut after = board;
        if move_piece(&mut after, from, to, true).is_ok() {
            scores.push(((from, to), negate(evaluate_board(after, false))));
        }
    }
    let top = scores.iter().map(|entry| entry.1).max().unwrap();
    let first = scores.iter().find(|entry| entry.1 == top).unwrap().0;
    assert_eq!(best, first);
}

#[test]
fn few_moves_deepen_the_search() {
    let mut board = empty_board();
    place(&mut board, (7, 7), Type::King(true), Colour::White);
    place(&mut board, (0, 0), Type::King(true), Colour::Black);
    place(&mut board, (5, 1), Type::Pawn(true), Colour::White);
    let best = get_best_move(board, 0, true);
    let mut cache = PositionCache::new();
    let mut expected = ((0, 0), (0, 0));
    let mut top = None;
    for (from, to) in c_chess::cpu::candidate_moves(board, true) {
        let mut after = board;
        if move_piece(&mut after, from, to, true).is_ok() {
            let score = negate(negamax(after, 1, -SCORE_LIMIT, SCORE_LIMIT, false, &mut cache));
            if top.map_or(true, |best| score > best) {
                top = Some(score);
                expected = (from, to);
            }
        }
    }
    assert_eq!(best, expected);
}

#[test]
fn minimax_at_depth_zero_is_whites_advantage() {
    let board = Board::new();
    assert_eq!(minimax(board, 0, i32::MIN, i32::MAX, true), 0);
    assert_eq!(minimax(board, 0, 3, -3, false), 0);
    let mut board = empty_board();
    place(&mut board, (7, 7), Type::King(true), Colour::White);
    place(&mut board, (0, 0), Type::King(true), Colour::Black);
    place(&mut board, (4, 4), Type::Queen, Colour::White);
    assert_eq!(
        minimax(board, 0, i32::MIN, i32::MAX, false),
        c_chess::evaluation::evaluate_board(board)
    );
}

#[test]
fn minimax_takes_the_best_value_for_the_side_to_move() {
    let mut board = empty_board();
    place(&mut board, (7, 7), Type::King(true), Colour::White);
    place(&mut board, (0, 0), Type::King(true), Colour::Black);
    place(&mut board, (4, 4), Type::Rook(true), Colour::White);
    place(&mut board, (4, 1), Type::Queen, Colour::Black);
    let mut highest = i32::MIN;
    for (from, to) in c_chess::cpu::candidate_moves(board, true) {
        let mut after = board;
        if move_piece(&mut after, from, to, true).is_ok() {
            highest = highest.max(c_chess::evaluation::evaluate_board(after));
        }
    }
    assert_eq!(minimax(board, 1, i32::MIN, i32::MAX, true), highest);
    let mut lowest = i32::MAX;
    for (from, to) in c_chess::cpu::candidate_moves(board, false) {
        let mut after = board;
        if move_piece(&mut after, from, to, false).is_ok() {
            lowest = lowest.min(c_chess::evaluation::evaluate_board(after));
        }
    }
    assert_eq!(minimax(board, 1, i32::MIN, i32::MAX, false), lowest);
}

#[test]
fn engine_moves_take_the_hanging_piece() {
    let mut board = empty_board();
    place(&mut board, (7, 7), Type::King(true), Colour::White);
    place(&mut board, (0, 0), Type::King(true), Colour::Black);
    place(&mut board, (4, 4), Type::Rook(true), Colour::White);
    place(&mut board, (4, 1), Type::Queen, Colour::Black);
    assert_eq!(max_move(board, 1), ((4, 4), (4, 1)));
    assert_eq!(min_move(board, 1), ((4, 1), (4, 4)));
}

#[test]
fn engine_finds_the_fools_mate() {
    let board = fools_mate_position();
    assert_eq!(min_move(board, 2), ((0, 3), (4, 7)));
}

#[test]
fn search_at_depth_zero_takes_the_first_mate() {
    let mut board = empty_board();
    place(&mut board, (0, 0), Type::King(true), Colour::Black);
    place(&mut board, (1, 1), Type::Rook(true), Colour::White);
    place(&mut board, (2, 2), Type::King(true), Colour::White);
    place(&mut board, (7, 7), Type::Rook(true), Colour::White);
    let best = get_best_move(board, 0, true);
    assert_eq!(best, ((7, 7), (7, 0)));
    assert_eq!(move_piece(&mut board, best.0, best.1, true), Ok(()));
    assert_eq!(check_for_mates(board), Some(Colour::White));
}
