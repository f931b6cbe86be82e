//! Random generation of solvable starting boards.

use vstd::prelude::*;
use rand::seq::SliceRandom;
use crate::board::lemma_solved_board_solvable;
use crate::board::lemma_solved_board_tile_values;
use crate::board::solved_board;
use crate::board::spec_solvable;
use crate::board::tile_values;
use crate::board::validate_board_state;

verus! {

/// Relies on rand::seq::SliceRandom::shuffle (with rand::thread_rng as the
/// randomness source): it permutes the elements of the slice in place, so
/// the length and the multiset of elements are unchanged. Nothing is
/// assumed about the order that comes back.
#[verifier::external_body]
fn shuffle_tiles(board: &mut Vec<u8>)
    ensures
        final(board)@.len() == old(board)@.len(),
        final(board)@.to_multiset() == old(board)@.to_multiset(),
{
    board.as_mut_slice().shuffle(&mut rand::thread_rng());
}

/// Produces a random solvable starting board: draws uniformly random
/// permutations of {0, ..., 15} and redraws until one satisfies the
/// solvability parity law. About half of all draws are solvable, so a
/// redraw is rarely needed more than a few times; the draw count is
/// nevertheless capped so that the loop provably terminates, and if every
/// draw failed (statistically unreachable, and possible only with a broken
/// randomness source) the solved arrangement stands in as a last resort.
pub fn generate() -> (board: Vec<u8>)
    ensures
        board@.len() == 16,
        board@.to_multiset() == tile_values().to_multiset(),
        spec_solvable(board@),
{
    let mut board: Vec<u8> = Vec::new();
    for v in 0..16u8
        invariant
            board@.len() == v as int,
            forall|k: int| 0 <= k < v as int ==> board@[k] == k as u8,
    {
        board.push(v);
    }
    proof {
        assert(board@ =~= tile_values());
    }
    shuffle_tiles(&mut board);
    let mut ok = validate_board_state(board.as_slice());
    let mut redraws_left: u64 = 0xFFFF_FFFF;
    while !ok && redraws_left > 0
        invariant
            board@.len() == 16,
            board@.to_multiset() == tile_values().to_multiset(),
            ok == spec_solvable(board@),
        decreases redraws_left,
    {
        shuffle_tiles(&mut board);
        ok = validate_board_state(board.as_slice());
        redraws_left = redraws_left - 1;
    }
    if !ok {
        board = Vec::new();
        for k in 0..16usize
            invariant
                board@.len() == k as int,
                forall|m: int| 0 <= m < k as int ==> board@[m] == solved_board()[m],
        {
            let val: u8 = if k == 15 {
                0
            } else {
                (k + 1) as u8
            };
            board.push(val);
        }
        proof {
            assert(board@ =~= solved_board());
            lemma_solved_board_solvable();
            lemma_solved_board_tile_values();
        }
    }
    board
}

} // verus!
