//! A single game session: the current board, the cached blank position,
//! and whether the puzzle has been solved.

use vstd::prelude::*;
use crate::board::adjacent;
use crate::board::cell;
use crate::board::do_swap;
use crate::board::in_grid;
use crate::board::is_legal_move;
use crate::board::is_solved;
use crate::board::lemma_adjacent_cells_differ;
use crate::board::lemma_swap_exchanges_only;
use crate::board::lemma_swap_preserves_multiset;
use crate::board::solved_board;
use crate::board::spec_solvable;
use crate::board::swapped;
use crate::board::tile_values;
use crate::generate::generate;

verus! {

/// One game session. The board is created solvable by the generator and
/// is thereafter mutated only by `click`; once the solved arrangement is
/// reached the session freezes and further clicks are ignored.
pub struct GameState {
    board: Vec<u8>,
    zero: (u8, u8),
    solved: bool,
}

impl GameState {
    /// The current arrangement of tiles.
    pub closed spec fn tiles(self) -> Seq<u8> {
        self.board@
    }

    /// The cached grid position of the blank cell.
    pub closed spec fn blank(self) -> (u8, u8) {
        self.zero
    }

    /// Whether the session has reached the solved arrangement.
    pub closed spec fn finished(self) -> bool {
        self.solved
    }

    /// Session invariant: 16 cells holding the values {0, ..., 15} once
    /// each as a multiset, the cached blank position on the grid and
    /// holding 0, and the finished flag agreeing with the board.
    pub open spec fn wf(self) -> bool {
        &&& self.tiles().len() == 16
        &&& self.tiles().to_multiset() == tile_values().to_multiset()
        &&& in_grid(self.blank())
        &&& self.tiles()[cell(self.blank())] == 0
        &&& self.finished() == (self.tiles() == solved_board())
    }

    /// Starts a session on a freshly generated solvable board.
    pub fn new() -> (s: GameState)
        ensures
            s.wf(),
            spec_solvable(s.tiles()),
    {
        let board = generate();
        proof {
            board@.to_multiset_ensures();
            tile_values().to_multiset_ensures();
            assert(tile_values()[0] == 0);
            assert(tile_values().contains(0u8));
            assert(board@.to_multiset().count(0u8) > 0);
            assert(board@.contains(0u8));
        }
        let zero = find_blank(&board);
        let solved = is_solved(board.as_slice());
        GameState { board, zero, solved }
    }

    /// Handles one click on grid position `target`. A finished session
    /// ignores it. Otherwise, if the target is on the grid and adjacent
    /// to the blank, the tile slides into the blank, the blank position
    /// moves to the target, and the finished flag is refreshed; any other
    /// target leaves the session untouched.
    pub fn click(&mut self, target: (u8, u8))
        requires
            old(self).wf(),
        ensures
            final(self).wf(),
            old(self).finished() ==> *final(self) == *old(self),
            !old(self).finished() && in_grid(target) && adjacent(target, old(self).blank())
                ==> final(self).tiles() == swapped(old(self).tiles(), target, old(self).blank()),
            !old(self).finished() && in_grid(target) && adjacent(target, old(self).blank())
                ==> final(self).blank() == target,
            !old(self).finished() && !(in_grid(target) && adjacent(target, old(self).blank()))
                ==> *final(self) == *old(self),
    {
        if self.solved {
            return;
        }
        if is_legal_move(target, self.zero) {
            proof {
                lemma_adjacent_cells_differ(target, self.zero);
                lemma_swap_exchanges_only(self.board@, target, self.zero);
                lemma_swap_preserves_multiset(self.board@, target, self.zero);
            }
            do_swap(&mut self.board, target, self.zero);
            self.zero = target;
            self.solved = is_solved(self.board.as_slice());
        }
    }

    /// The current board, for rendering.
    pub fn board(&self) -> (b: &Vec<u8>)
        ensures
            b@ == self.tiles(),
    {
        &self.board
    }

    /// The cached position of the blank cell.
    pub fn blank_pos(&self) -> (p: (u8, u8))
        ensures
            p == self.blank(),
    {
        self.zero
    }

    /// Whether the puzzle has been solved.
    pub fn is_done(&self) -> (r: bool)
        ensures
            r == self.finished(),
    {
        self.solved
    }
}

/// Scans a board for the cell holding 0 and returns its grid position.
fn find_blank(board: &Vec<u8>) -> (p: (u8, u8))
    requires
        board@.len() == 16,
        board@.contains(0u8),
    ensures
        in_grid(p),
        board@[cell(p)] == 0,
{
    for y in 0..4usize
        invariant
            board@.len() == 16,
            forall|m: int| 0 <= m < 4 * y ==> board@[m] != 0,
    {
        for x in 0..4usize
            invariant
                board@.len() == 16,
                y < 4,
                forall|m: int| 0 <= m < 4 * y + x ==> board@[m] != 0,
        {
            if board[x + 4 * y] == 0 {
                return (x as u8, y as u8);
            }
        }
    }
    proof {
        let w = choose|m: int| 0 <= m < 16 && board@[m] == 0;
        assert(false);
    }
    (0, 0)
}

} // verus!
