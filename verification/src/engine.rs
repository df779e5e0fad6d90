//! Minimax search with alpha-beta pruning in which White maximises and
//! Black minimises White's advantage.

use crate::cpu::candidate_moves;
use crate::evaluation::{evaluate_board, white_advantage};
use crate::listing::{lemma_move_pairs_index, lemma_piece_moves_on_board, lemma_side_moves_index};
use crate::moves::{groups_of, move_outcome, move_pairs, move_piece, piece_moves, side_moves};
use crate::types::{on_board, Board, Square};
use vstd::prelude::*;

verus! {

/// How far the search of one position has come: the bounds of the window
/// and the best value so far.
pub struct Window {
    pub alpha: int,
    pub beta: int,
    pub best: int,
}

/// The window after a move of value `value`: White raises the best value
/// and the lower bound to it, Black lowers the best value and the upper
/// bound to it.
pub open spec fn narrowed(window: Window, value: int, is_white: bool) -> Window {
    if is_white {
        Window {
            alpha: if value > window.alpha {
                value
            } else {
                window.alpha
            },
            beta: window.beta,
            best: if value > window.best {
                value
            } else {
                window.best
            },
        }
    } else {
        Window {
            alpha: window.alpha,
            beta: if value < window.beta {
                value
            } else {
                window.beta
            },
            best: if value < window.best {
                value
            } else {
                window.best
            },
        }
    }
}

/// The search of the first `n` moves of one piece, from the window `start`:
/// the window afterwards, and whether the window closed, which ends the
/// search of this piece. Refused moves are passed over.
pub open spec fn piece_search(
    board: Board,
    depth: i32,
    is_white: bool,
    group: (Square, Seq<Square>),
    start: Window,
    n: nat,
) -> (Window, bool)
    decreases depth, 0nat, n,
{
    if n == 0 || depth <= 0 {
        (start, false)
    } else {
        let before = piece_search(board, depth, is_white, group, start, (n - 1) as nat);
        if before.1 {
            before
        } else {
            match move_outcome(board, group.0, group.1[n - 1], is_white) {
                Err(_) => before,
                Ok(next) => {
                    let value = minimax_value(
                        next,
                        (depth - 1) as i32,
                        before.0.alpha,
                        before.0.beta,
                        !is_white,
                    );
                    let window = narrowed(before.0, value, is_white);
                    (window, window.beta <= window.alpha)
                },
            }
        }
    }
}

/// The search of the first `n` pieces of the side `is_white`. A closed
/// window ends the search of one piece, not that of the pieces after it.
pub open spec fn pieces_search(
    board: Board,
    depth: i32,
    alpha: int,
    beta: int,
    is_white: bool,
    n: nat,
) -> Window
    decreases depth, 1nat, n,
{
    if n == 0 || depth <= 0 {
        Window {
            alpha,
            beta,
            best: if is_white {
                i32::MIN as int
            } else {
                i32::MAX as int
            },
        }
    } else {
        let before = pieces_search(board, depth, alpha, beta, is_white, (n - 1) as nat);
        let group = side_moves(board, is_white)[n - 1];
        piece_search(board, depth, is_white, group, before, group.1.len()).0
    }
}

/// The value of a position by a search `depth` levels deep: White's
/// advantage at depth 0, and else the best value of the moves of the side to
/// move.
pub open spec fn minimax_value(
    board: Board,
    depth: i32,
    alpha: int,
    beta: int,
    is_white: bool,
) -> int
    decreases depth, 2nat, 0nat,
{
    if depth <= 0 {
        white_advantage(board)
    } else {
        pieces_search(
            board,
            depth,
            alpha,
            beta,
            is_white,
            side_moves(board, is_white).len(),
        ).best
    }
}

/// A chosen move and its value.
pub struct Choice {
    pub best_move: (Square, Square),
    pub best_value: int,
}

/// The choice of the side `is_white` among the first `n` of its
/// pseudo-legal moves. Every move that is not refused is valued by a search
/// of the position it leads to, one level less deep and within the full
/// window. White keeps the first move of the highest value above the
/// smallest score, Black the first move of the lowest value below the
/// largest; where there is none, the choice is `((0, 0), (0, 0))`.
pub open spec fn choice_upto(board: Board, depth: i32, is_white: bool, n: nat) -> Choice
    decreases n,
{
    if n == 0 {
        Choice {
            best_move: ((0, 0), (0, 0)),
            best_value: if is_white {
                i32::MIN as int
            } else {
                i32::MAX as int
            },
        }
    } else {
        let before = choice_upto(board, depth, is_white, (n - 1) as nat);
        let pair = move_pairs(board, is_white)[n - 1];
        match move_outcome(board, pair.0, pair.1, is_white) {
            Err(_) => before,
            Ok(next) => {
                let value = minimax_value(
                    next,
                    (depth - 1) as i32,
                    i32::MIN as int,
                    i32::MAX as int,
                    !is_white,
                );
                if (is_white && value > before.best_value) || (!is_white && value
                    < before.best_value) {
                    Choice { best_move: pair, best_value: value }
                } else {
                    before
                }
            },
        }
    }
}

/// The move that the side `is_white` chooses by a search of the given
/// depth.
pub open spec fn choice(board: Board, depth: i32, is_white: bool) -> (Square, Square) {
    choice_upto(
        board,
        depth,
        is_white,
        move_pairs(board, is_white).len(),
    ).best_move
}

/// Once the window has closed, further moves of the piece change nothing.
proof fn lemma_piece_search_stops(
    board: Board,
    depth: i32,
    is_white: bool,
    group: (Square, Seq<Square>),
    start: Window,
    i: nat,
    n: nat,
)
    requires
        piece_search(board, depth, is_white, group, start, i).1,
        i <= n,
    ensures
        piece_search(board, depth, is_white, group, start, n) == piece_search(
            board,
            depth,
            is_white,
            group,
            start,
            i,
        ),
    decreases n,
{
    if i < n {
        lemma_piece_search_stops(board, depth, is_white, group, start, i, (n - 1) as nat);
    }
}

/// Every piece of the side `is_white`, in row-major order of its square,
/// with its pseudo-legal destinations.
pub fn get_all_moves(board: Board, is_white: bool) -> (moves: Vec<
    ((usize, usize), Vec<(usize, usize)>),
>)
    ensures
        groups_of(moves@) == side_moves(board, is_white),
{
    crate::cpu::get_all_moves(board, is_white)
}

/// The value of a position by a search `depth` levels deep within the
/// window from `alpha` to `beta`.
pub fn minimax(board: Board, depth: i32, alpha: i32, beta: i32, is_white: bool) -> (value: i32)
    requires
        depth >= 0,
    ensures
        value == minimax_value(board, depth, alpha as int, beta as int, is_white),
    decreases depth,
{
    if depth == 0 {
        return evaluate_board(board);
    }
    let moves = get_all_moves(board, is_white);
    let mut low: i32 = alpha;
    let mut high: i32 = beta;
    let mut best: i32 = if is_white {
        i32::MIN
    } else {
        i32::MAX
    };
    let mut i: usize = 0;
    while i < moves.len()
        invariant
            depth > 0,
            i <= moves.len(),
            groups_of(moves@) == side_moves(board, is_white),
            pieces_search(board, depth, alpha as int, beta as int, is_white, i as nat) == (Window {
                alpha: low as int,
                beta: high as int,
                best: best as int,
            }),
        decreases moves.len() - i,
    {
        let from = moves[i].0;
        let ghost group = side_moves(board, is_white)[i as int];
        let ghost start = Window { alpha: low as int, beta: high as int, best: best as int };
        proof {
            lemma_side_moves_index(board, is_white, i as int);
            assert(group == groups_of(moves@)[i as int]);
        }
        let mut stopped = false;
        let mut j: usize = 0;
        while j < moves[i].1.len() && !stopped
            invariant
                depth > 0,
                i < moves.len(),
                j <= moves[i as int].1.len(),
                from == moves[i as int].0,
                group == (moves[i as int].0, moves[i as int].1@),
                on_board(from.0 as int, from.1 as int),
                group.1 == piece_moves(board, from, is_white),
                piece_search(board, depth, is_white, group, start, j as nat) == (
                    Window { alpha: low as int, beta: high as int, best: best as int },
                    stopped,
                ),
            decreases moves[i as int].1.len() - j,
        {
            let to = moves[i].1[j];
            proof {
                lemma_piece_moves_on_board(board, from, is_white, j as int);
            }
            let mut new_board = board;
            match move_piece(&mut new_board, from, to, is_white) {
                Ok(_) => {
                    let value = minimax(new_board, depth - 1, low, high, !is_white);
                    if is_white {
                        if value > best {
                            best = value;
                        }
                        if value > low {
                            low = value;
                        }
                    } else {
                        if value < best {
                            best = value;
                        }
                        if value < high {
                            high = value;
                        }
                    }
                    if high <= low {
                        stopped = true;
                    }
                },
                Err(_) => {},
            }
            j += 1;
        }
        proof {
            if stopped {
                lemma_piece_search_stops(
                    board,
                    depth,
                    is_white,
                    group,
                    start,
                    j as nat,
                    group.1.len(),
                );
            }
        }
        i += 1;
    }
    best
}

/// Chooses a move for one side.
fn choose_move(board: Board, depth: i32, is_white: bool) -> (best_move: (
    (usize, usize),
    (usize, usize),
))
    requires
        depth >= 1,
    ensures
        best_move == choice(board, depth, is_white),
{
    let moves = candidate_moves(board, is_white);
    let mut best_value: i32 = if is_white {
        i32::MIN
    } else {
        i32::MAX
    };
    let mut best_move: ((usize, usize), (usize, usize)) = ((0, 0), (0, 0));
    let mut i: usize = 0;
    while i < moves.len()
        invariant
            depth >= 1,
            i <= moves.len(),
            moves@ == move_pairs(board, is_white),
            choice_upto(board, depth, is_white, i as nat) == (Choice {
                best_move,
                best_value: best_value as int,
            }),
        decreases moves.len() - i,
    {
        let from = moves[i].0;
        let to = moves[i].1;
        proof {
            lemma_move_pairs_index(board, is_white, i as int);
        }
        let mut new_board = board;
        match move_piece(&mut new_board, from, to, is_white) {
            Ok(_) => {
                let value = minimax(new_board, depth - 1, i32::MIN, i32::MAX, !is_white);
                if (is_white && value > best_value) || (!is_white && value < best_value) {
                    best_value = value;
                    best_move = (from, to);
                }
            },
            Err(_) => {},
        }
        i += 1;
    }
    best_move
}

/// The move that White, who maximises, chooses by a search of the given
/// depth.
pub fn max_move(board: Board, depth: i32) -> (best_move: ((usize, usize), (usize, usize)))
    requires
        depth >= 1,
    ensures
        best_move == choice(board, depth, true),
{
    choose_move(board, depth, true)
}

/// The move that Black, who minimises, chooses by a search of the given
/// depth.
pub fn min_move(board: Board, depth: i32) -> (best_move: ((usize, usize), (usize, usize)))
    requires
        depth >= 1,
    ensures
        best_move == choice(board, depth, false),
{
    choose_move(board, depth, false)
}

} // verus!
