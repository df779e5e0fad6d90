//! Position evaluation and negamax search with alpha-beta pruning and a
//! position cache.

use crate::cache::{position_key, PositionCache, PositionKey};
use crate::evalfunc::{
    bishop_position, bishop_positional_value, knight_positional_value, passed_bonus,
    passed_pawns_value_helper, pawn_position, pawn_positional_value, queen_position,
    queen_positional_value, rook_position, rook_positional_value, table_row, table_value,
    BISHOP_POSITIONAL_VALUES, KNIGHT_POSITIONAL_VALUES, PASSED_PAWN_BONUS, QUEEN_POSITIONAL_VALUES,
    ROOK_POSITIONAL_VALUES,
};
use crate::gather::{lemma_total_bounds, total};
use crate::listing::lemma_move_pairs_index;
use crate::moves::{
    check_for_mates, escapes, groups_of, has_escape, legal_moves, mate_winner, move_outcome,
    move_pairs, move_piece, pairs_upto, side_moves, side_moves_upto,
};
use crate::safety::lemma_accepted_move_is_safe;
use crate::types::{on_board, side_colour, Board, Colour, Square, Type};
use vstd::prelude::*;

verus! {

/// The bound of the search window at the root, and the score of a side
/// that has no move.
pub const SCORE_LIMIT: i32 = 1000000;

/// The material value of a kind of piece. The king has none.
pub open spec fn material(kind: Type) -> int {
    match kind {
        Type::Pawn(_) => 1,
        Type::Knight => 3,
        Type::Bishop => 3,
        Type::Rook(_) => 5,
        Type::Queen => 9,
        Type::King(_) => 0,
        Type::Empty => 0,
    }
}

/// The positional value of the piece on `(row, col)`, with its structural
/// terms.
pub open spec fn position_value(board: Board, row: int, col: int) -> int {
    let piece = board.piece_at(row, col);
    match piece.piece_type {
        Type::Pawn(_) => pawn_position(row, col, piece.colour) + passed_bonus(
            board,
            row,
            col,
            piece.colour,
        ),
        Type::Knight => table_value(KNIGHT_POSITIONAL_VALUES, row, col, piece.colour),
        Type::Bishop => bishop_position(board, row, col, piece.colour),
        Type::Rook(_) => rook_position(board, row, col, piece.colour),
        Type::Queen => queen_position(board, row, col, piece.colour),
        Type::King(_) => 0,
        Type::Empty => 0,
    }
}

/// What the piece on `(row, col)` is worth to its side.
pub open spec fn piece_score(board: Board, row: int, col: int) -> int {
    material(board.piece_at(row, col).piece_type) + position_value(board, row, col)
}

/// What the square `(row, col)` adds to the total of `colour`.
pub open spec fn side_term(board: Board, row: int, col: int, colour: Colour) -> int {
    if !board.vacant(row, col) && board.piece_at(row, col).colour == colour {
        piece_score(board, row, col)
    } else {
        0
    }
}

/// The total of `colour` over the first `n` squares.
pub open spec fn side_total_upto(board: Board, colour: Colour, n: nat) -> int {
    total(n, |k: int| side_term(board, k / 8, k % 8, colour))
}

/// The total of `colour`: the scores of all its pieces.
pub open spec fn side_total(board: Board, colour: Colour) -> int {
    side_total_upto(board, colour, 64)
}

/// The score of a position for the side `is_white`. A mate counts as the
/// largest score for the winner and the smallest for the loser; any other
/// position counts as the side's total less the other side's.
#[verifier::opaque]
pub open spec fn evaluation(board: Board, is_white: bool) -> int {
    match mate_winner(board) {
        Some(winner) => if winner == side_colour(is_white) {
            i32::MAX as int
        } else {
            i32::MIN as int
        },
        None => side_total(board, side_colour(is_white)) - side_total(
            board,
            side_colour(is_white).other(),
        ),
    }
}

/// A score seen from the other side. The smallest score has no negative
/// among the machine's integers: it turns into the largest.
pub open spec fn negated(score: int) -> int {
    if score == i32::MIN {
        i32::MAX as int
    } else {
        -score
    }
}

/// The larger of two scores.
pub open spec fn larger(one: int, two: int) -> int {
    if one >= two {
        one
    } else {
        two
    }
}

/// How far the search of one position has come: the best score and the
/// lower bound so far, whether a score reached the upper bound, and the
/// cache as the replies searched so far have left it.
pub struct SearchState {
    pub best: int,
    pub alpha: int,
    pub cut: bool,
    pub cache: Map<PositionKey, int>,
}

/// The search of a position after the first `n` of its pseudo-legal moves.
/// A move that is refused is passed over. Every other move is answered by a
/// search of the position it leads to, one level less deep, for the other
/// side and within the negated window; the negated result is the move's
/// score. A score that reaches the upper bound `beta` ends the search of
/// this position. Any other score raises the best score and the lower bound
/// where it exceeds them.
pub open spec fn search(
    cache: Map<PositionKey, int>,
    board: Board,
    depth: i32,
    alpha: int,
    beta: int,
    is_white: bool,
    n: nat,
) -> SearchState
    decreases depth, 0nat, n,
{
    if n == 0 || depth <= 0 {
        SearchState { best: -SCORE_LIMIT as int, alpha, cut: false, cache }
    } else {
        let before = search(cache, board, depth, alpha, beta, is_white, (n - 1) as nat);
        let pair = move_pairs(board, is_white)[n - 1];
        if before.cut {
            before
        } else {
            match move_outcome(board, pair.0, pair.1, is_white) {
                Err(_) => before,
                Ok(next) => {
                    let reply = negamax_outcome(
                        before.cache,
                        next,
                        (depth - 1) as i32,
                        negated(beta),
                        negated(before.alpha),
                        !is_white,
                    );
                    let score = negated(reply.0);
                    if score >= beta {
                        SearchState { cut: true, cache: reply.1, ..before }
                    } else {
                        SearchState {
                            best: larger(before.best, score),
                            alpha: larger(before.alpha, score),
                            cut: false,
                            cache: reply.1,
                        }
                    }
                },
            }
        }
    }
}

/// The score that the search gives a position, and the cache as it leaves
/// it. At depth 0 the score is the evaluation. At a greater depth a score
/// that the cache holds for exactly this position, side and depth is
/// returned as it is. Otherwise all moves are searched: if one of them
/// reached `beta`, the score is `beta` and nothing is remembered; else it is
/// the best score found, which is remembered.
pub open spec fn negamax_outcome(
    cache: Map<PositionKey, int>,
    board: Board,
    depth: i32,
    alpha: int,
    beta: int,
    is_white: bool,
) -> (int, Map<PositionKey, int>)
    decreases depth, 1nat, 0nat,
{
    let key = position_key(board.tiles, is_white, depth);
    if depth <= 0 {
        (evaluation(board, is_white), cache)
    } else if cache.contains_key(key) {
        (cache[key], cache)
    } else {
        let end = search(
            cache,
            board,
            depth,
            alpha,
            beta,
            is_white,
            move_pairs(board, is_white).len(),
        );
        if end.cut {
            (beta, end.cache)
        } else {
            (end.best, end.cache.insert(key, end.best))
        }
    }
}

/// The number of pseudo-legal moves that both sides have together.
pub open spec fn mobility(board: Board) -> nat {
    move_pairs(board, true).len() + move_pairs(board, false).len()
}

/// The depth at which the replies to the moves of a position are searched:
/// the nominal depth, one more where the two sides have fewer than 12 moves
/// together, two more where they have fewer than 6.
pub open spec fn extended_depth(board: Board, depth: i32) -> int {
    if mobility(board) < 6 {
        depth + 2
    } else if mobility(board) < 12 {
        depth + 1
    } else {
        depth as int
    }
}

/// How far the choice of a move has come: whether a move has been accepted
/// yet, the best of them with its score, and the cache as the searches so
/// far have left it.
pub struct RootState {
    pub found: bool,
    pub best_move: (Square, Square),
    pub best_score: int,
    pub cache: Map<PositionKey, int>,
}

/// The choice among the first `n` pseudo-legal moves of the side
/// `is_white`. The cache starts empty. A move that is refused is passed
/// over. Every other move is scored by the negated result of a search of the
/// position it leads to, `depth` levels deep, for the other side and within
/// the full window. The first accepted move is kept until a later one scores
/// strictly higher.
pub open spec fn root_search(board: Board, depth: i32, is_white: bool, n: nat) -> RootState
    decreases n,
{
    if n == 0 {
        RootState {
            found: false,
            best_move: ((0, 0), (0, 0)),
            best_score: -SCORE_LIMIT as int,
            cache: Map::empty(),
        }
    } else {
        let before = root_search(board, depth, is_white, (n - 1) as nat);
        let pair = move_pairs(board, is_white)[n - 1];
        match move_outcome(board, pair.0, pair.1, is_white) {
            Err(_) => before,
            Ok(next) => {
                let reply = negamax_outcome(
                    before.cache,
                    next,
                    depth,
                    -SCORE_LIMIT as int,
                    SCORE_LIMIT as int,
                    !is_white,
                );
                let score = negated(reply.0);
                if !before.found || score > before.best_score {
                    RootState { found: true, best_move: pair, best_score: score, cache: reply.1 }
                } else {
                    RootState { cache: reply.1, ..before }
                }
            },
        }
    }
}

/// The move that the search chooses for the side `is_white`: the first of
/// the accepted moves with the highest score, or `((0, 0), (0, 0))` where no
/// move is accepted.
pub open spec fn chosen_move(board: Board, depth: i32, is_white: bool) -> (Square, Square) {
    root_search(
        board,
        extended_depth(board, depth) as i32,
        is_white,
        move_pairs(board, is_white).len(),
    ).best_move
}

/// The move with number `k` among the pseudo-legal moves of the side is not
/// refused.
pub open spec fn accepted(board: Board, is_white: bool, k: int) -> bool {
    move_outcome(
        board,
        move_pairs(board, is_white)[k].0,
        move_pairs(board, is_white)[k].1,
        is_white,
    ) is Ok
}

/// The score that the choice of a move gives the move with number `k`: the
/// negated result of the search of the position it leads to, with the cache
/// as the moves before it have left it.
pub open spec fn move_score(board: Board, depth: i32, is_white: bool, k: int) -> int {
    negated(
        negamax_outcome(
            root_search(board, depth, is_white, k as nat).cache,
            move_outcome(
                board,
                move_pairs(board, is_white)[k].0,
                move_pairs(board, is_white)[k].1,
                is_white,
            )->Ok_0,
            depth,
            -SCORE_LIMIT as int,
            SCORE_LIMIT as int,
            !is_white,
        ).0,
    )
}

/// The cache `later` holds every entry of `earlier` unchanged, and every
/// entry that it holds besides is for a depth from 1 to `depth`.
pub open spec fn extends(
    earlier: Map<PositionKey, int>,
    later: Map<PositionKey, int>,
    depth: int,
) -> bool {
    &&& forall|key: PositionKey| #[trigger]
        earlier.contains_key(key) ==> later.contains_key(key) && later[key] == earlier[key]
    &&& forall|key: PositionKey| #[trigger]
        later.contains_key(key) && !earlier.contains_key(key) ==> 0 < key.depth <= depth
}

/// Every piece of the side `is_white`, in row-major order of its square,
/// with its pseudo-legal destinations.
pub fn get_all_moves(board: Board, is_white: bool) -> (moves: Vec<
    ((usize, usize), Vec<(usize, usize)>),
>)
    ensures
        groups_of(moves@) == side_moves(board, is_white),
{
    let mut moves: Vec<((usize, usize), Vec<(usize, usize)>)> = Vec::new();
    let side = if is_white {
        Colour::White
    } else {
        Colour::Black
    };
    let mut i: usize = 0;
    while i < 8
        invariant
            i <= 8,
            side == side_colour(is_white),
            groups_of(moves@) == side_moves_upto(board, is_white, (8 * i) as nat),
        decreases 8 - i,
    {
        let mut j: usize = 0;
        while j < 8
            invariant
                i < 8,
                j <= 8,
                side == side_colour(is_white),
                groups_of(moves@) == side_moves_upto(board, is_white, (8 * i + j) as nat),
            decreases 8 - j,
        {
            let ghost k = 8 * i + j;
            assert(k / 8 == i && k % 8 == j);
            let piece = board.tiles[i][j].piece;
            if piece.piece_type != Type::Empty && piece.colour == side {
                let piece_moves = legal_moves(board, (i, j), is_white);
                let ghost before = groups_of(moves@);
                moves.push(((i, j), piece_moves));
                assert(groups_of(moves@) == before.push(((i, j), piece_moves@)));
            }
            j += 1;
        }
        i += 1;
    }
    moves
}

/// Every pseudo-legal move of the side `is_white` as a pair `(from, to)`.
pub fn candidate_moves(board: Board, is_white: bool) -> (pairs: Vec<
    ((usize, usize), (usize, usize)),
>)
    ensures
        pairs@ == move_pairs(board, is_white),
{
    let moves = get_all_moves(board, is_white);
    let mut pairs: Vec<((usize, usize), (usize, usize))> = Vec::new();
    let mut i: usize = 0;
    while i < moves.len()
        invariant
            i <= moves.len(),
            groups_of(moves@) == side_moves(board, is_white),
            pairs@ == pairs_upto(side_moves(board, is_white), i as nat),
        decreases moves.len() - i,
    {
        let ghost group = side_moves(board, is_white)[i as int];
        assert(group == groups_of(moves@)[i as int]);
        let ghost before = pairs@;
        let mut j: usize = 0;
        while j < moves[i].1.len()
            invariant
                i < moves.len(),
                j <= moves[i as int].1.len(),
                group == (moves[i as int].0, moves[i as int].1@),
                pairs@ == before + Seq::new(j as nat, |b: int| (group.0, group.1[b])),
            decreases moves[i as int].1.len() - j,
        {
            pairs.push((moves[i].0, moves[i].1[j]));
            j += 1;
        }
        i += 1;
    }
    pairs
}

/// What the piece on `(row, col)` is worth to its side.
fn score_piece(board: &Board, row: usize, col: usize) -> (score: i32)
    requires
        on_board(row as int, col as int),
    ensures
        score == piece_score(*board, row as int, col as int),
        -22 <= score <= 28,
{
    let piece = board.tiles[row][col].piece;
    match piece.piece_type {
        Type::Pawn(_) => 1 + pawn_positional_value(row, col, piece.colour)
            + passed_pawns_value_helper(row, col, piece.colour, *board),
        Type::Knight => 3 + knight_positional_value(row, col, piece.colour),
        Type::Bishop => 3 + bishop_positional_value(row, col, piece.colour, *board),
        Type::Rook(_) => 5 + rook_positional_value(row, col, piece.colour, *board),
        Type::Queen => 9 + queen_positional_value(row, col, piece.colour, *board),
        Type::King(_) => 0,
        Type::Empty => 0,
    }
}

/// The score of a position for the side `is_white`.
pub fn evaluate_board(board: Board, is_white: bool) -> (score: i32)
    ensures
        score == evaluation(board, is_white),
{
    reveal(evaluation);
    match check_for_mates(board) {
        Some(Colour::White) => {
            return if is_white {
                i32::MAX
            } else {
                i32::MIN
            };
        },
        Some(Colour::Black) => {
            return if is_white {
                i32::MIN
            } else {
                i32::MAX
            };
        },
        None => {},
    }
    let mut white_score: i32 = 0;
    let mut black_score: i32 = 0;
    let mut i: usize = 0;
    while i < 8
        invariant
            i <= 8,
            white_score == side_total_upto(board, Colour::White, (8 * i) as nat),
            black_score == side_total_upto(board, Colour::Black, (8 * i) as nat),
            -22 * (8 * i) <= white_score <= 28 * (8 * i),
            -22 * (8 * i) <= black_score <= 28 * (8 * i),
        decreases 8 - i,
    {
        let mut j: usize = 0;
        while j < 8
            invariant
                i < 8,
                j <= 8,
                white_score == side_total_upto(board, Colour::White, (8 * i + j) as nat),
                black_score == side_total_upto(board, Colour::Black, (8 * i + j) as nat),
                -22 * (8 * i + j) <= white_score <= 28 * (8 * i + j),
                -22 * (8 * i + j) <= black_score <= 28 * (8 * i + j),
            decreases 8 - j,
        {
            let ghost k = 8 * i + j;
            assert(k / 8 == i && k % 8 == j);
            let piece = board.tiles[i][j].piece;
            if piece.piece_type != Type::Empty {
                let score = score_piece(&board, i, j);
                match piece.colour {
                    Colour::White => {
                        white_score += score;
                    },
                    Colour::Black => {
                        black_score += score;
                    },
                }
            }
            j += 1;
        }
        i += 1;
    }
    if is_white {
        white_score - black_score
    } else {
        black_score - white_score
    }
}

/// The score seen from the other side.
pub fn negate(score: i32) -> (other: i32)
    ensures
        other == negated(score as int),
{
    if score == i32::MIN {
        i32::MAX
    } else {
        -score
    }
}

/// Searches the position `depth` levels deep for the side `is_white`,
/// within the window from `alpha` to `beta`, with the scores already in
/// `old_boards`. Returns the score and leaves in `old_boards` what the
/// search has found.
pub fn negamax(
    board: Board,
    depth: i32,
    alpha: i32,
    beta: i32,
    is_white: bool,
    old_boards: &mut PositionCache,
) -> (score: i32)
    requires
        depth >= 0,
    ensures
        score == negamax_outcome(
            old(old_boards)@,
            board,
            depth,
            alpha as int,
            beta as int,
            is_white,
        ).0,
        final(old_boards)@ == negamax_outcome(
            old(old_boards)@,
            board,
            depth,
            alpha as int,
            beta as int,
            is_white,
        ).1,
        depth == 0 ==> score == evaluation(board, is_white) && final(old_boards)@ == old(
            old_boards,
        )@,
    decreases depth,
{
    if depth == 0 {
        return evaluate_board(board, is_white);
    }
    match old_boards.get(&board.tiles, is_white, depth) {
        Some(score) => {
            return score;
        },
        None => {},
    }
    let ghost start = old_boards@;
    let moves = candidate_moves(board, is_white);
    let mut best_score: i32 = -SCORE_LIMIT;
    let mut floor: i32 = alpha;
    let mut i: usize = 0;
    while i < moves.len()
        invariant
            depth > 0,
            i <= moves.len(),
            start == old(old_boards)@,
            !start.contains_key(position_key(board.tiles, is_white, depth)),
            moves@ == move_pairs(board, is_white),
            search(start, board, depth, alpha as int, beta as int, is_white, i as nat) == (
            SearchState {
                best: best_score as int,
                alpha: floor as int,
                cut: false,
                cache: old_boards@,
            }),
        decreases moves.len() - i,
    {
        let from = moves[i].0;
        let to = moves[i].1;
        proof {
            lemma_move_pairs_index(board, is_white, i as int);
        }
        let mut new_board = board;
        match move_piece(&mut new_board, from, to, is_white) {
            Ok(_) => {
                let reply = negamax(
                    new_board,
                    depth - 1,
                    negate(beta),
                    negate(floor),
                    !is_white,
                    old_boards,
                );
                let score = negate(reply);
                if score >= beta {
                    proof {
                        assert(search(
                            start,
                            board,
                            depth,
                            alpha as int,
                            beta as int,
                            is_white,
                            (i + 1) as nat,
                        ).cut);
                        lemma_search_cut_stays(
                            start,
                            board,
                            depth,
                            alpha as int,
                            beta as int,
                            is_white,
                            (i + 1) as nat,
                            moves@.len(),
                        );
                    }
                    return beta;
                }
                if score > best_score {
                    best_score = score;
                }
                if score > floor {
                    floor = score;
                }
            },
            Err(_) => {},
        }
        i += 1;
    }
    old_boards.insert(board.tiles, is_white, depth, best_score);
    best_score
}

/// Chooses a move for the side `is_white` by a search of the given depth,
/// which is extended when the two sides have few moves left.
pub fn get_best_move(board: Board, depth: i32, is_white: bool) -> (best_move: (
    (usize, usize),
    (usize, usize),
))
    requires
        0 <= depth <= i32::MAX - 2,
    ensures
        best_move == chosen_move(board, depth, is_white),
{
    let mut old_boards = PositionCache::new();
    let mut found = false;
    let mut best_score: i32 = -SCORE_LIMIT;
    let mut best_move: ((usize, usize), (usize, usize)) = ((0, 0), (0, 0));
    let moves = candidate_moves(board, is_white);
    let own = moves.len();
    let other = candidate_moves(board, !is_white).len();
    let reach = if own < 6 && other < 6 - own {
        depth + 2
    } else if own < 12 && other < 12 - own {
        depth + 1
    } else {
        depth
    };
    assert(reach == extended_depth(board, depth));
    let mut i: usize = 0;
    while i < moves.len()
        invariant
            reach >= 0,
            i <= moves.len(),
            moves@ == move_pairs(board, is_white),
            root_search(board, reach, is_white, i as nat) == (RootState {
                found,
                best_move,
                best_score: best_score as int,
                cache: old_boards@,
            }),
        decreases moves.len() - i,
    {
        let from = moves[i].0;
        let to = moves[i].1;
        proof {
            lemma_move_pairs_index(board, is_white, i as int);
        }
        let mut new_board = board;
        match move_piece(&mut new_board, from, to, is_white) {
            Ok(_) => {
                let reply = negamax(
                    new_board,
                    reach,
                    -SCORE_LIMIT,
                    SCORE_LIMIT,
                    !is_white,
                    &mut old_boards,
                );
                let score = negate(reply);
                if !found || score > best_score {
                    found = true;
                    best_score = score;
                    best_move = (from, to);
                }
            },
            Err(_) => {},
        }
        i += 1;
    }
    best_move
}

/// Unless a side is mated, the two sides score a position with opposite
/// signs.
pub proof fn lemma_evaluation_is_symmetric(board: Board)
    requires
        mate_winner(board) is None,
    ensures
        evaluation(board, true) == -evaluation(board, false),
{
    reveal(evaluation);
}

/// Every entry of the four piece-square tables lies between -20 and 10, and
/// every bonus of a passed pawn between 1 and 20.
pub proof fn lemma_table_bounds(row: int, col: int)
    requires
        on_board(row, col),
    ensures
        -10 <= KNIGHT_POSITIONAL_VALUES[row][col] <= 5,
        -20 <= BISHOP_POSITIONAL_VALUES[row][col] <= 5,
        -5 <= ROOK_POSITIONAL_VALUES[row][col] <= 10,
        -20 <= QUEEN_POSITIONAL_VALUES[row][col] <= 5,
        1 <= PASSED_PAWN_BONUS[row] <= 20,
{
    assert(-10 <= KNIGHT_POSITIONAL_VALUES[row][col] <= 5);
    assert(-20 <= BISHOP_POSITIONAL_VALUES[row][col] <= 5);
    assert(-5 <= ROOK_POSITIONAL_VALUES[row][col] <= 10);
    assert(-20 <= QUEEN_POSITIONAL_VALUES[row][col] <= 5);
    assert(1 <= PASSED_PAWN_BONUS[row] <= 20);
}

/// The score of a piece on the board is at least -22 and at most 28.
pub proof fn lemma_piece_score_bounds(board: Board, row: int, col: int)
    requires
        on_board(row, col),
    ensures
        -22 <= piece_score(board, row, col) <= 28,
{
    let colour = board.piece_at(row, col).colour;
    lemma_table_bounds(table_row(row, colour), col);
}

/// Mate outweighs everything else: the score of a position in which neither
/// side is mated lies well within the two scores that stand for a mate.
pub proof fn lemma_mate_outweighs_position(board: Board, is_white: bool)
    requires
        mate_winner(board) is None,
    ensures
        -3200 <= evaluation(board, is_white) <= 3200,
        i32::MIN < evaluation(board, is_white) < i32::MAX,
{
    reveal(evaluation);
    let own = side_colour(is_white);
    let other = own.other();
    let own_term = |k: int| side_term(board, k / 8, k % 8, own);
    let other_term = |k: int| side_term(board, k / 8, k % 8, other);
    assert forall|k: int| 0 <= k < 64 implies -22 <= #[trigger] own_term(k) <= 28 by {
        lemma_piece_score_bounds(board, k / 8, k % 8);
    }
    assert forall|k: int| 0 <= k < 64 implies -22 <= #[trigger] other_term(k) <= 28 by {
        lemma_piece_score_bounds(board, k / 8, k % 8);
    }
    lemma_total_bounds(64, own_term, -22, 28);
    lemma_total_bounds(64, other_term, -22, 28);
}

/// At depth 0 the search returns the evaluation, whatever the window and
/// the cache, and leaves the cache as it was.
pub proof fn lemma_depth_zero_is_evaluation(
    cache: Map<PositionKey, int>,
    board: Board,
    alpha: int,
    beta: int,
    is_white: bool,
)
    ensures
        negamax_outcome(cache, board, 0, alpha, beta, is_white) == (
            evaluation(board, is_white),
            cache,
        ),
{
}

/// Once a score has reached `beta`, further moves change nothing.
pub proof fn lemma_search_cut_stays(
    cache: Map<PositionKey, int>,
    board: Board,
    depth: i32,
    alpha: int,
    beta: int,
    is_white: bool,
    i: nat,
    n: nat,
)
    requires
        search(cache, board, depth, alpha, beta, is_white, i).cut,
        i <= n,
    ensures
        search(cache, board, depth, alpha, beta, is_white, n) == search(
            cache,
            board,
            depth,
            alpha,
            beta,
            is_white,
            i,
        ),
    decreases n,
{
    if i < n {
        lemma_search_cut_stays(cache, board, depth, alpha, beta, is_white, i, (n - 1) as nat);
    }
}

/// The cache only grows: a search leaves every entry that it found as it
/// was, and adds entries for no depth but those from 1 to its own.
pub proof fn lemma_negamax_extends(
    cache: Map<PositionKey, int>,
    board: Board,
    depth: i32,
    alpha: int,
    beta: int,
    is_white: bool,
)
    ensures
        extends(
            cache,
            negamax_outcome(cache, board, depth, alpha, beta, is_white).1,
            depth as int,
        ),
    decreases depth, 1nat, 0nat,
{
    if depth > 0 && !cache.contains_key(position_key(board.tiles, is_white, depth)) {
        lemma_search_extends(
            cache,
            board,
            depth,
            alpha,
            beta,
            is_white,
            move_pairs(board, is_white).len(),
        );
    }
}

/// The search of the moves of a position leaves every entry that it found
/// as it was, and adds entries only for depths below its own.
pub proof fn lemma_search_extends(
    cache: Map<PositionKey, int>,
    board: Board,
    depth: i32,
    alpha: int,
    beta: int,
    is_white: bool,
    n: nat,
)
    ensures
        extends(cache, search(cache, board, depth, alpha, beta, is_white, n).cache, depth - 1),
    decreases depth, 0nat, n,
{
    if n > 0 && depth > 0 {
        let before = search(cache, board, depth, alpha, beta, is_white, (n - 1) as nat);
        lemma_search_extends(cache, board, depth, alpha, beta, is_white, (n - 1) as nat);
        let pair = move_pairs(board, is_white)[n - 1];
        if !before.cut {
            match move_outcome(board, pair.0, pair.1, is_white) {
                Err(_) => {},
                Ok(next) => {
                    lemma_negamax_extends(
                        before.cache,
                        next,
                        (depth - 1) as i32,
                        negated(beta),
                        negated(before.alpha),
                        !is_white,
                    );
                },
            }
        }
    }
}

/// A search remembers its result unless a score reached `beta`: a search
/// deeper than 0 that found no entry and was not cut off leaves an entry for
/// its position, side and depth that holds the score it returned.
pub proof fn lemma_search_is_remembered(
    cache: Map<PositionKey, int>,
    board: Board,
    depth: i32,
    alpha: int,
    beta: int,
    is_white: bool,
)
    requires
        depth > 0,
        !search(
            cache,
            board,
            depth,
            alpha,
            beta,
            is_white,
            move_pairs(board, is_white).len(),
        ).cut,
    ensures
        negamax_outcome(cache, board, depth, alpha, beta, is_white).1.contains_key(
            position_key(board.tiles, is_white, depth),
        ),
        negamax_outcome(cache, board, depth, alpha, beta, is_white).1[position_key(
            board.tiles,
            is_white,
            depth,
        )] == negamax_outcome(cache, board, depth, alpha, beta, is_white).0,
{
}

/// A search that remembered its result is repeated exactly: a second search
/// of the same position for the same side at the same depth, with the cache
/// that the first one left and with any window, returns the same score and
/// leaves the cache as it found it. At depth 0 nothing is remembered, and
/// the two scores are equal all the same.
pub proof fn lemma_repeated_search_agrees(
    cache: Map<PositionKey, int>,
    board: Board,
    depth: i32,
    alpha: int,
    beta: int,
    alpha_again: int,
    beta_again: int,
    is_white: bool,
)
    requires
        depth >= 0,
        depth == 0 || negamax_outcome(cache, board, depth, alpha, beta, is_white).1.contains_key(
            position_key(board.tiles, is_white, depth),
        ),
    ensures
        negamax_outcome(
            negamax_outcome(cache, board, depth, alpha, beta, is_white).1,
            board,
            depth,
            alpha_again,
            beta_again,
            is_white,
        ) == negamax_outcome(cache, board, depth, alpha, beta, is_white),
{
    if depth > 0 && !cache.contains_key(position_key(board.tiles, is_white, depth)) {
        lemma_search_extends(
            cache,
            board,
            depth,
            alpha,
            beta,
            is_white,
            move_pairs(board, is_white).len(),
        );
    }
}

/// Entries of different depths are different entries: remembering a score
/// for one depth neither adds, removes nor changes the entry of the same
/// position and side for another depth.
pub proof fn lemma_depths_are_kept_apart(
    cache: Map<PositionKey, int>,
    board: Board,
    is_white: bool,
    depth: i32,
    other_depth: i32,
    score: int,
)
    requires
        depth != other_depth,
    ensures
        cache.insert(position_key(board.tiles, is_white, depth), score).contains_key(
            position_key(board.tiles, is_white, other_depth),
        ) == cache.contains_key(position_key(board.tiles, is_white, other_depth)),
        cache.insert(position_key(board.tiles, is_white, depth), score)[position_key(
            board.tiles,
            is_white,
            other_depth,
        )] == cache[position_key(board.tiles, is_white, other_depth)],
{
}

/// A search deeper than 0 takes a score from the cache only from the entry
/// for its own depth: where that entry is missing, entries for other depths
/// do not stand in for it, and the moves are searched.
pub proof fn lemma_only_own_depth_is_read(
    cache: Map<PositionKey, int>,
    board: Board,
    depth: i32,
    alpha: int,
    beta: int,
    is_white: bool,
)
    requires
        depth > 0,
    ensures
        cache.contains_key(position_key(board.tiles, is_white, depth)) ==> negamax_outcome(
            cache,
            board,
            depth,
            alpha,
            beta,
            is_white,
        ) == (cache[position_key(board.tiles, is_white, depth)], cache),
        !cache.contains_key(position_key(board.tiles, is_white, depth)) ==> ({
            let end = search(
                cache,
                board,
                depth,
                alpha,
                beta,
                is_white,
                move_pairs(board, is_white).len(),
            );
            negamax_outcome(cache, board, depth, alpha, beta, is_white).0 == if end.cut {
                beta
            } else {
                end.best
            }
        }),
{
}

/// A move is chosen exactly when some move is accepted.
pub proof fn lemma_choice_exists(board: Board, depth: i32, is_white: bool, n: nat)
    ensures
        root_search(board, depth, is_white, n).found <==> exists|k: int|
            0 <= k < n && #[trigger] accepted(board, is_white, k),
        !root_search(board, depth, is_white, n).found ==> root_search(
            board,
            depth,
            is_white,
            n,
        ).best_move == ((0usize, 0usize), (0usize, 0usize)),
    decreases n,
{
    if n > 0 {
        lemma_choice_exists(board, depth, is_white, (n - 1) as nat);
        if root_search(board, depth, is_white, n).found {
            if accepted(board, is_white, n - 1) {
            } else {
                let k = choose|k: int| 0 <= k < n - 1 && #[trigger] accepted(board, is_white, k);
                assert(accepted(board, is_white, k));
            }
        } else {
            assert forall|k: int| 0 <= k < n implies !#[trigger] accepted(board, is_white, k) by {
                if k < n - 1 {
                }
            }
        }
    }
}

/// The chosen move is the first of the accepted moves with the highest
/// score: it is accepted, no accepted move before it scores as much, and no
/// accepted move after it scores more.
pub proof fn lemma_choice_is_best(board: Board, depth: i32, is_white: bool, n: nat) -> (k: int)
    requires
        root_search(board, depth, is_white, n).found,
    ensures
        0 <= k < n,
        accepted(board, is_white, k),
        move_pairs(board, is_white)[k] == root_search(board, depth, is_white, n).best_move,
        move_score(board, depth, is_white, k) == root_search(board, depth, is_white, n).best_score,
        forall|j: int|
            0 <= j < k && #[trigger] accepted(board, is_white, j) ==> move_score(
                board,
                depth,
                is_white,
                j,
            ) < move_score(board, depth, is_white, k),
        forall|j: int|
            k <= j < n && #[trigger] accepted(board, is_white, j) ==> move_score(
                board,
                depth,
                is_white,
                j,
            ) <= move_score(board, depth, is_white, k),
    decreases n,
{
    let before = root_search(board, depth, is_white, (n - 1) as nat);
    if !accepted(board, is_white, n - 1) {
        lemma_choice_is_best(board, depth, is_white, (n - 1) as nat)
    } else if !before.found {
        lemma_choice_exists(board, depth, is_white, (n - 1) as nat);
        n - 1
    } else {
        let k = lemma_choice_is_best(board, depth, is_white, (n - 1) as nat);
        if move_score(board, depth, is_white, n - 1) > before.best_score {
            n - 1
        } else {
            k
        }
    }
}

/// A side of which no move escapes has no move that is accepted: whatever
/// one of its pieces does, the move is refused.
pub proof fn lemma_no_escape_is_no_move(board: Board, is_white: bool, k: int)
    requires
        !has_escape(board, is_white),
        0 <= k < move_pairs(board, is_white).len(),
    ensures
        !accepted(board, is_white, k),
{
    let pair = move_pairs(board, is_white)[k];
    lemma_move_pairs_index(board, is_white, k);
    if accepted(board, is_white, k) {
        lemma_accepted_move_is_safe(board, pair.0, pair.1, is_white);
        assert(escapes(board, pair.0, pair.1, is_white));
    }
}

/// Moves that are refused leave the search where it began.
pub proof fn lemma_search_of_refused_moves(
    cache: Map<PositionKey, int>,
    board: Board,
    depth: i32,
    alpha: int,
    beta: int,
    is_white: bool,
    n: nat,
)
    requires
        forall|k: int| 0 <= k < n ==> !#[trigger] accepted(board, is_white, k),
    ensures
        search(cache, board, depth, alpha, beta, is_white, n) == (SearchState {
            best: -SCORE_LIMIT as int,
            alpha,
            cut: false,
            cache,
        }),
    decreases n,
{
    if n > 0 && depth > 0 {
        lemma_search_of_refused_moves(cache, board, depth, alpha, beta, is_white, (n - 1) as nat);
        assert(!accepted(board, is_white, n - 1));
    }
}

/// A side without a move, be it mated or not, is given the lower limit: a
/// search deeper than 0 that finds no entry for the position returns
/// `-SCORE_LIMIT` and remembers it.
pub proof fn lemma_side_without_move_scores_limit(
    cache: Map<PositionKey, int>,
    board: Board,
    depth: i32,
    alpha: int,
    beta: int,
    is_white: bool,
)
    requires
        depth > 0,
        !cache.contains_key(position_key(board.tiles, is_white, depth)),
        !has_escape(board, is_white),
    ensures
        negamax_outcome(cache, board, depth, alpha, beta, is_white) == (
            -SCORE_LIMIT as int,
            cache.insert(position_key(board.tiles, is_white, depth), -SCORE_LIMIT as int),
        ),
{
    let n = move_pairs(board, is_white).len();
    assert forall|k: int| 0 <= k < n implies !#[trigger] accepted(board, is_white, k) by {
        lemma_no_escape_is_no_move(board, is_white, k);
    }
    lemma_search_of_refused_moves(cache, board, depth, alpha, beta, is_white, n);
}

/// Where the replies are not searched, a move that mates is chosen if there
/// is one: when the depth is 0 and is not extended, and some accepted move
/// leaves the other side mated, then the chosen move leaves the other side
/// mated.
pub proof fn lemma_mate_in_one_is_chosen(board: Board, is_white: bool, mating: int)
    requires
        extended_depth(board, 0) == 0,
        0 <= mating < move_pairs(board, is_white).len(),
        accepted(board, is_white, mating),
        mate_winner(
            move_outcome(
                board,
                move_pairs(board, is_white)[mating].0,
                move_pairs(board, is_white)[mating].1,
                is_white,
            )->Ok_0,
        ) == Some(side_colour(is_white)),
    ensures
        move_outcome(
            board,
            chosen_move(board, 0, is_white).0,
            chosen_move(board, 0, is_white).1,
            is_white,
        ) is Ok,
        mate_winner(
            move_outcome(
                board,
                chosen_move(board, 0, is_white).0,
                chosen_move(board, 0, is_white).1,
                is_white,
            )->Ok_0,
        ) == Some(side_colour(is_white)),
{
    reveal(evaluation);
    let n = move_pairs(board, is_white).len();
    lemma_choice_exists(board, 0, is_white, n);
    let k = lemma_choice_is_best(board, 0, is_white, n);
    let pair = move_pairs(board, is_white)[k];
    let next = move_outcome(board, pair.0, pair.1, is_white)->Ok_0;
    assert(move_score(board, 0, is_white, mating) == i32::MAX);
    assert(move_score(board, 0, is_white, k) >= i32::MAX);
    if mate_winner(next) is None {
        lemma_mate_outweighs_position(next, !is_white);
    }
}

} // verus!
