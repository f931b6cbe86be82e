//! Board representation, solvability validation, and move application.
//!
//! A board is a sequence of 16 bytes holding the values {0, 1, ..., 15}
//! once each, indexed by `x + 4 * y` (x = column, y = row, both in 0..4);
//! the value 0 marks the blank cell.

use vstd::prelude::*;
use vstd::seq_lib::to_multiset_update;

verus! {

/// Linear cell index of a grid position, in the `x + 4 * y` scheme.
pub open spec fn cell(p: (u8, u8)) -> int {
    p.0 + 4 * p.1
}

/// A position lies on the 4x4 grid.
pub open spec fn in_grid(p: (u8, u8)) -> bool {
    p.0 < 4 && p.1 < 4
}

/// Two grid positions are adjacent: they differ by exactly 1 in one
/// coordinate and 0 in the other (orthogonal neighbours, never diagonal).
pub open spec fn adjacent(a: (u8, u8), b: (u8, u8)) -> bool {
    ||| (a.0 == b.0 && (a.1 == b.1 + 1 || b.1 == a.1 + 1))
    ||| (a.1 == b.1 && (a.0 == b.0 + 1 || b.0 == a.0 + 1))
}

/// The canonical solved arrangement: [1, 2, ..., 15, 0].
pub open spec fn solved_board() -> Seq<u8> {
    Seq::new(16, |i: int| if i == 15 { 0u8 } else { (i + 1) as u8 })
}

/// The values a board always holds, once each: 0, 1, ..., 15.
pub open spec fn tile_values() -> Seq<u8> {
    Seq::new(16, |i: int| i as u8)
}

/// Whether the ordered pair of cells (i, j), i < j, counts as an
/// inversion: the value at i exceeds the value at j, and the value at j
/// is not the blank (the blank never contributes an inversion; as the
/// value at i it can never exceed anything).
pub open spec fn counts_inversion(b: Seq<u8>, i: int, j: int) -> bool {
    b[i] > b[j] && b[j] != 0
}

/// Inversions that cell i forms with the cells i+1, ..., j-1.
pub open spec fn row_inversions(b: Seq<u8>, i: int, j: int) -> nat
    decreases j - i,
{
    if j <= i + 1 {
        0
    } else {
        row_inversions(b, i, j - 1) + if counts_inversion(b, i, j - 1) {
            1nat
        } else {
            0nat
        }
    }
}

/// Inversions formed by the cells 0, ..., i-1, each against every later cell.
pub open spec fn inversions_before(b: Seq<u8>, i: int) -> nat
    decreases i,
{
    if i <= 0 {
        0
    } else {
        inversions_before(b, i - 1) + row_inversions(b, i - 1, 16)
    }
}

/// The inversion count of a board: the number of cell pairs (i, j) with
/// i < j whose values are out of order, the blank excluded.
pub open spec fn inversion_count(b: Seq<u8>) -> nat {
    inversions_before(b, 15)
}

/// The last cell before j that holds the blank, or 0 if none does.
pub open spec fn last_blank_before(b: Seq<u8>, j: int) -> int
    decreases j,
{
    if j <= 0 {
        0
    } else if b[j - 1] == 0 {
        j - 1
    } else {
        last_blank_before(b, j - 1)
    }
}

/// The linear cell index of the blank (the cell holding 0).
pub open spec fn blank_cell(b: Seq<u8>) -> int {
    last_blank_before(b, 16)
}

/// The 15-puzzle parity law: a board is solvable exactly when one, and
/// only one, of these two holds: the blank's band (its cell index divided
/// by 4) is even, or the inversion count is even.
pub open spec fn spec_solvable(b: Seq<u8>) -> bool {
    (blank_cell(b) / 4 % 2 == 0) != (inversion_count(b) % 2 == 0)
}

/// The board that results from exchanging the values at positions t and z.
pub open spec fn swapped(b: Seq<u8>, t: (u8, u8), z: (u8, u8)) -> Seq<u8> {
    b.update(cell(t), b[cell(z)]).update(cell(z), b[cell(t)])
}

proof fn lemma_row_inversions_le(b: Seq<u8>, i: int, j: int)
    requires
        i + 1 <= j,
    ensures
        row_inversions(b, i, j) <= j - i - 1,
    decreases j - i,
{
    if j > i + 1 {
        lemma_row_inversions_le(b, i, j - 1);
    }
}

proof fn lemma_inversions_before_le(b: Seq<u8>, i: int)
    requires
        0 <= i <= 16,
    ensures
        inversions_before(b, i) <= 15 * i,
    decreases i,
{
    if i > 0 {
        lemma_inversions_before_le(b, i - 1);
        lemma_row_inversions_le(b, i - 1, 16);
    }
}

/// Linear cell index of a grid position, computed executably.
pub fn idx(x: usize, y: usize) -> (i: usize)
    requires
        x < 4,
        y < 4,
    ensures
        i == x + 4 * y,
        i < 16,
{
    x + 4 * y
}

/// Decides whether a board is solvable, by the parity law: counts the
/// inversions (excluding the blank), locates the blank's band, and
/// demands that exactly one of the two parities is even.
pub fn validate_board_state(board: &[u8]) -> (r: bool)
    requires
        board@.len() == 16,
    ensures
        r == spec_solvable(board@),
{
    let mut inv_count: u32 = 0;
    for i in 0..15usize
        invariant
            board@.len() == 16,
            inv_count == inversions_before(board@, i as int),
    {
        for j in (i + 1)..16usize
            invariant
                board@.len() == 16,
                i < 15,
                inv_count == inversions_before(board@, i as int) + row_inversions(
                    board@,
                    i as int,
                    j as int,
                ),
        {
            if board[j] != 0 && board[i] > board[j] {
                proof {
                    lemma_inversions_before_le(board@, i as int);
                    lemma_row_inversions_le(board@, i as int, j as int);
                }
                inv_count = inv_count + 1;
            }
        }
    }
    let mut zerow: usize = 0;
    for j in 0..16usize
        invariant
            board@.len() == 16,
            zerow < 16,
            zerow == last_blank_before(board@, j as int),
    {
        if board[j] == 0 {
            zerow = j;
        }
    }
    let band: usize = zerow / 4;
    (band % 2 == 0) != (inv_count % 2 == 0)
}

/// Decides whether a move of the cell at `target` into the blank at
/// `zero` is legal: the target lies on the grid and is orthogonally
/// adjacent to the blank.
pub fn is_legal_move(target: (u8, u8), zero: (u8, u8)) -> (r: bool)
    ensures
        r == (in_grid(target) && adjacent(target, zero)),
{
    if target.0 < 4 && target.1 < 4 {
        let dx = if target.0 >= zero.0 {
            target.0 - zero.0
        } else {
            zero.0 - target.0
        };
        let dy = if target.1 >= zero.1 {
            target.1 - zero.1
        } else {
            zero.1 - target.1
        };
        (dx == 0 && dy == 1) || (dx == 1 && dy == 0)
    } else {
        false
    }
}

/// Exchanges the values at positions loc1 and zero unconditionally.
pub fn do_swap(board: &mut Vec<u8>, loc1: (u8, u8), zero: (u8, u8))
    requires
        old(board)@.len() == 16,
        in_grid(loc1),
        in_grid(zero),
    ensures
        final(board)@ == swapped(old(board)@, loc1, zero),
        final(board)@.len() == 16,
{
    let il1 = idx(loc1.0 as usize, loc1.1 as usize);
    let il2 = idx(zero.0 as usize, zero.1 as usize);
    let l1 = board[il1];
    let l2 = board[il2];
    board[il1] = l2;
    board[il2] = l1;
    proof {
        assert(board@ =~= swapped(old(board)@, loc1, zero));
    }
}

/// Applies a move request: if `loc1` lies on the grid and is orthogonally
/// adjacent to `zero`, the two values are exchanged; any other request
/// (the blank itself, a diagonal neighbour, a farther cell, or a position
/// off the grid) leaves the board untouched.
pub fn swap(board: &mut Vec<u8>, loc1: (u8, u8), zero: (u8, u8))
    requires
        old(board)@.len() == 16,
        in_grid(zero),
    ensures
        final(board)@.len() == 16,
        in_grid(loc1) && adjacent(loc1, zero) ==> final(board)@ == swapped(old(board)@, loc1, zero),
        !(in_grid(loc1) && adjacent(loc1, zero)) ==> final(board)@ == old(board)@,
{
    if is_legal_move(loc1, zero) {
        do_swap(board, loc1, zero);
    }
}

/// Decides whether a board is the canonical solved arrangement
/// [1, 2, ..., 15, 0], position for position.
pub fn is_solved(board: &[u8]) -> (r: bool)
    ensures
        r == (board@ == solved_board()),
{
    if board.len() != 16 {
        return false;
    }
    for k in 0..16usize
        invariant
            board@.len() == 16,
            forall|m: int| 0 <= m < k ==> board@[m] == solved_board()[m],
    {
        let expected: u8 = if k == 15 {
            0
        } else {
            (k + 1) as u8
        };
        if board[k] != expected {
            return false;
        }
    }
    proof {
        assert(board@ =~= solved_board());
    }
    true
}

/// Two adjacent grid positions occupy distinct cells.
pub proof fn lemma_adjacent_cells_differ(t: (u8, u8), z: (u8, u8))
    requires
        in_grid(t),
        in_grid(z),
        adjacent(t, z),
    ensures
        cell(t) != cell(z),
{
}

/// A swap exchanges exactly the two values at t and z and leaves the
/// other fourteen cells unchanged.
pub proof fn lemma_swap_exchanges_only(b: Seq<u8>, t: (u8, u8), z: (u8, u8))
    requires
        b.len() == 16,
        in_grid(t),
        in_grid(z),
        cell(t) != cell(z),
    ensures
        swapped(b, t, z).len() == 16,
        swapped(b, t, z)[cell(t)] == b[cell(z)],
        swapped(b, t, z)[cell(z)] == b[cell(t)],
        forall|k: int|
            0 <= k < 16 && k != cell(t) && k != cell(z) ==> swapped(b, t, z)[k] == b[k],
{
}

/// A legal move is its own inverse: moving a tile into the blank and then
/// moving it back restores the original board exactly.
pub proof fn lemma_swap_involution(b: Seq<u8>, t: (u8, u8), z: (u8, u8))
    requires
        b.len() == 16,
        in_grid(t),
        in_grid(z),
        adjacent(t, z),
    ensures
        swapped(swapped(b, t, z), z, t) == b,
{
    lemma_adjacent_cells_differ(t, z);
    assert(swapped(swapped(b, t, z), z, t) =~= b);
}

/// A swap never creates, destroys, or duplicates a tile value: the
/// multiset of values on the board is unchanged.
pub proof fn lemma_swap_preserves_multiset(b: Seq<u8>, t: (u8, u8), z: (u8, u8))
    requires
        b.len() == 16,
        in_grid(t),
        in_grid(z),
        cell(t) != cell(z),
    ensures
        swapped(b, t, z).to_multiset() == b.to_multiset(),
{
    broadcast use to_multiset_update;
    broadcast use vstd::multiset::group_multiset_axioms;

    let m = b.to_multiset();
    b.to_multiset_ensures();
    assert(b.contains(b[cell(t)]));
    assert(b.contains(b[cell(z)]));
    let s1 = b.update(cell(t), b[cell(z)]);
    assert(s1.to_multiset() == m.insert(b[cell(z)]).remove(b[cell(t)]));
    assert(s1.update(cell(z), b[cell(t)]).to_multiset() == s1.to_multiset().insert(
        b[cell(t)],
    ).remove(s1[cell(z)]));
    assert(swapped(b, t, z).to_multiset() =~= m);
}

proof fn lemma_solved_row_inversions_zero(i: int, j: int)
    requires
        0 <= i,
        i + 1 <= j <= 16,
    ensures
        row_inversions(solved_board(), i, j) == 0,
    decreases j - i,
{
    if j > i + 1 {
        lemma_solved_row_inversions_zero(i, j - 1);
        assert(!counts_inversion(solved_board(), i, j - 1));
    }
}

proof fn lemma_solved_inversions_zero(i: int)
    requires
        0 <= i <= 16,
    ensures
        inversions_before(solved_board(), i) == 0,
    decreases i,
{
    if i > 0 {
        lemma_solved_inversions_zero(i - 1);
        lemma_solved_row_inversions_zero(i - 1, 16);
    }
}

/// The solved arrangement is solvable: it has no inversions (an even
/// count) and its blank sits in band 3 (an odd band).
pub proof fn lemma_solved_board_solvable()
    ensures
        spec_solvable(solved_board()),
{
    lemma_solved_inversions_zero(15);
    assert(solved_board()[15] == 0);
    assert(blank_cell(solved_board()) == 15);
}

/// The solved arrangement holds exactly the values {0, 1, ..., 15}.
pub proof fn lemma_solved_board_tile_values()
    ensures
        solved_board().to_multiset() == tile_values().to_multiset(),
{
    let s = solved_board();
    let t = tile_values();
    s.to_multiset_ensures();
    t.to_multiset_ensures();
    assert(s.no_duplicates());
    assert(t.no_duplicates());
    s.lemma_multiset_has_no_duplicates();
    t.lemma_multiset_has_no_duplicates();
    assert forall|v: u8| s.to_multiset().count(v) == t.to_multiset().count(v) by {
        if v < 16 {
            assert(t[v as int] == v);
            assert(t.contains(v));
            if v == 0 {
                assert(s[15] == v);
            } else {
                assert(s[v as int - 1] == v);
            }
            assert(s.contains(v));
        } else {
            assert(forall|k: int| 0 <= k < 16 ==> t[k] != v);
            assert(!t.contains(v));
            assert(forall|k: int| 0 <= k < 16 ==> s[k] != v);
            assert(!s.contains(v));
        }
    }
    assert(s.to_multiset() =~= t.to_multiset());
}

} // verus!
