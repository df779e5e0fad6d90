//! Random moves, with which a game between two engines is opened so that no
//! two games are alike.

use crate::cpu::get_all_moves;
use crate::gather::{gather, lemma_gather_index, lemma_gather_kept};
use crate::listing::{lemma_pairs_index, lemma_pairs_kept};
use crate::moves::{groups_of, move_pairs, side_moves};
use crate::types::{Board, Square};
use vstd::prelude::*;

verus! {

/// The groups among the first `n` that have a destination.
pub open spec fn movable_upto(groups: Seq<(Square, Seq<Square>)>, n: nat) -> Seq<
    (Square, Seq<Square>),
> {
    gather(n, |k: int| groups[k].1.len() > 0, |k: int| groups[k])
}

/// The pieces that have a pseudo-legal move, each with its destinations.
pub open spec fn movable(groups: Seq<(Square, Seq<Square>)>) -> Seq<(Square, Seq<Square>)> {
    movable_upto(groups, groups.len())
}

/// A number below `bound` from the generator of the thread.
///
/// Calls `fastrand::usize` with the range `0..bound`. The contract claims
/// that the result lies in that range, and asks for a range that is not
/// empty, on which the call would panic. Which number comes is not said.
#[verifier::external_body]
fn random_below(bound: usize) -> (draw: usize)
    requires
        bound > 0,
    ensures
        draw < bound,
{
    fastrand::usize(0..bound)
}

/// The pieces that have a pseudo-legal move.
pub fn movable_pieces(moves: Vec<((usize, usize), Vec<(usize, usize)>)>) -> (kept: Vec<
    ((usize, usize), Vec<(usize, usize)>),
>)
    ensures
        groups_of(kept@) == movable(groups_of(moves@)),
{
    let ghost groups = groups_of(moves@);
    let mut moves = moves;
    let mut kept: Vec<((usize, usize), Vec<(usize, usize)>)> = Vec::new();
    let mut i: usize = 0;
    let total = moves.len();
    while i < total
        invariant
            i <= total,
            total == moves.len(),
            total == groups.len(),
            forall|k: int| i <= k < total ==> (#[trigger] moves[k].0, moves[k].1@) == groups[k],
            groups_of(kept@) == movable_upto(groups, i as nat),
        decreases total - i,
    {
        // The group is taken out of the list, which keeps an empty one in its place.
        let mut group: ((usize, usize), Vec<(usize, usize)>) = ((0, 0), Vec::new());
        assert((moves[i as int].0, moves[i as int].1@) == groups[i as int]);
        std::mem::swap(&mut moves[i], &mut group);
        if group.1.len() > 0 {
            let ghost before = groups_of(kept@);
            kept.push(group);
            assert(groups_of(kept@) == before.push(groups[i as int]));
        }
        i += 1;
    }
    kept
}

/// The move that two draws pick from the pieces that can move: the
/// destination `dest` of the piece `piece`, if there are such.
pub fn pick_move(
    kept: &Vec<((usize, usize), Vec<(usize, usize)>)>,
    piece: usize,
    dest: usize,
) -> (picked: Option<((usize, usize), (usize, usize))>)
    ensures
        picked == if piece < kept.len() && dest < kept[piece as int].1.len() {
            Some((kept[piece as int].0, kept[piece as int].1[dest as int]))
        } else {
            None
        },
{
    if piece < kept.len() && dest < kept[piece].1.len() {
        Some((kept[piece].0, kept[piece].1[dest]))
    } else {
        None
    }
}

/// A pseudo-legal move of the side `is_white`, chosen at random: first one
/// of the pieces that can move, then one of its destinations. There is none
/// where no piece of the side can move.
pub fn random_move(board: Board, is_white: bool) -> (picked: Option<
    ((usize, usize), (usize, usize)),
>)
    ensures
        picked is Some <==> move_pairs(board, is_white).len() > 0,
        picked matches Some(pair) ==> move_pairs(board, is_white).contains(pair),
{
    let kept = movable_pieces(get_all_moves(board, is_white));
    let ghost groups = side_moves(board, is_white);
    if kept.len() == 0 {
        proof {
            if move_pairs(board, is_white).len() > 0 {
                let at = lemma_pairs_index(groups, groups.len(), 0);
                let i = lemma_gather_kept(
                    groups.len(),
                    |k: int| groups[k].1.len() > 0,
                    |k: int| groups[k],
                    at.0,
                );
            }
        }
        return None;
    }
    let piece = random_below(kept.len());
    proof {
        let k = lemma_gather_index(
            groups.len(),
            |k: int| groups[k].1.len() > 0,
            |k: int| groups[k],
            piece as int,
        );
        assert(groups[k] == groups_of(kept@)[piece as int]);
    }
    let dest = random_below(kept[piece].1.len());
    proof {
        let k = lemma_gather_index(
            groups.len(),
            |k: int| groups[k].1.len() > 0,
            |k: int| groups[k],
            piece as int,
        );
        assert(groups[k] == groups_of(kept@)[piece as int]);
        let i = lemma_pairs_kept(groups, groups.len(), k, dest as int);
        assert(move_pairs(board, is_white)[i] == (
            kept[piece as int].0,
            kept[piece as int].1[dest as int],
        ));
    }
    pick_move(&kept, piece, dest)
}

} // verus!
