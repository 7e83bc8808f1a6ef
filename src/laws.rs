//! Properties of the engine that relate several operations or hold for all
//! inputs, proved over the board model that the operations' contracts use.

use vstd::prelude::*;

use crate::error::{Place, SudokoError};
use crate::grid::{
    lemma_filter_keeps_all, lemma_put_at, lemma_select_flags, no_repeat, GridView,
};
use crate::index::{coord_error, in_grid, index_of, lemma_slot_bijection};
use crate::value::{digit_value, full_values, SudokoValue};

verus! {

/// For every valid address, the block row and column with the position
/// inside the block give the address back, and the block index depends on
/// the block row and column alone.
pub proof fn law_index_round_trip(r: int, c: int)
    requires
        in_grid(r),
        in_grid(c),
    ensures
        ({
            let i = index_of(r, c);
            &&& 1 <= i.row_block <= 3
            &&& 1 <= i.col_block <= 3
            &&& 1 <= i.internal_row <= 3
            &&& 1 <= i.internal_col <= 3
            &&& (i.row_block - 1) * 3 + i.internal_row == r
            &&& (i.col_block - 1) * 3 + i.internal_col == c
            &&& i.row == r && i.col == c
            &&& i.index_block == (i.row_block - 1) * 3 + (i.col_block - 1)
        }),
{
}

/// An address with the row outside 1..=9 is refused for its row; one with
/// a valid row and the column outside 1..=9 for its column.
pub proof fn law_index_rejects(r: int, c: int)
    requires
        !(in_grid(r) && in_grid(c)),
    ensures
        !in_grid(r) ==> coord_error(r, c) == Some(SudokoError::InvalidRow),
        in_grid(r) ==> coord_error(r, c) == Some(SudokoError::InvalidColumn),
{
}

/// Selecting the same cell twice leaves the board as selecting it once.
pub proof fn law_select_idempotent(g: GridView, r: int, c: int)
    ensures
        g.select(r, c).select(r, c) == g.select(r, c),
{
}

/// After selecting one cell and then another, only the second is flagged,
/// on a board where every flagged cell is the selected one.
pub proof fn law_select_exclusive(g: GridView, r1: int, c1: int, r2: int, c2: int)
    requires
        g.wf(),
        g.flags_follow_selection(),
        in_grid(r1),
        in_grid(c1),
        in_grid(r2),
        in_grid(c2),
        r1 != r2 || c1 != c2,
    ensures
        forall|i: int, j: int|
            in_grid(i) && in_grid(j) ==> ((#[trigger] g.select(r1, c1).select(r2, c2).at(i, j)).selected
                <==> i == r2 && j == c2),
{
    lemma_select_flags(g, r1, c1);
    lemma_select_flags(g.select(r1, c1), r2, c2);
}

/// Once a digit is written and the board locked, writing that cell again
/// fails with `LockedCell`; after unlocking it succeeds.
pub proof fn law_lock_then_unlock(g: GridView, r: int, c: int, first: SudokoValue, second: SudokoValue)
    requires
        g.wf(),
        first.digit == Some(5u8),
        g.set_value(r, c, first) is Ok,
    ensures
        ({
            let g1 = g.set_value(r, c, first)->Ok_0;
            &&& g1.lock().set_value(r, c, second) == Err::<GridView, SudokoError>(SudokoError::LockedCell)
            &&& g1.lock().unlock().set_value(r, c, second) is Ok
        }),
{
    let g1 = g.set_value(r, c, first)->Ok_0;
    lemma_put_at(g, r, c, first, r, c);
    assert(g1.lock().locked.contains((r, c)));
}

/// On the empty board every digit may go in every cell.
pub proof fn law_empty_board_candidates(r: int, c: int)
    requires
        in_grid(r),
        in_grid(c),
    ensures
        GridView::empty().candidates(r, c) == full_values(),
{
    let g = GridView::empty();
    lemma_slot_bijection();
    let pred = |v: SudokoValue| g.is_candidate(r, c, v.digit.unwrap() as int);
    assert forall|k: int| 0 <= k < 9 implies pred(#[trigger] full_values()[k]) by {
        assert forall|i: int, j: int| in_grid(i) && in_grid(j) && GridView::sees(r, c, i, j)
            implies (#[trigger] g.at(i, j)).digit != Some((k + 1) as u8) by {}
    }
    lemma_filter_keeps_all(full_values(), pred);
}

/// With a single digit d placed at (r0, c0) on the empty board, d may go at
/// (r, c) exactly when (r, c) shares no row, column or block with (r0, c0).
pub proof fn law_single_digit_candidates(r0: int, c0: int, d: int, r: int, c: int)
    requires
        in_grid(r0),
        in_grid(c0),
        1 <= d <= 9,
        in_grid(r),
        in_grid(c),
    ensures
        GridView::empty().put(r0, c0, digit_value(d)).is_candidate(r, c, d)
            <==> !GridView::sees(r, c, r0, c0),
{
    let e = GridView::empty();
    let g = e.put(r0, c0, digit_value(d));
    lemma_slot_bijection();
    assert(e.wf()) by {
        assert forall|p: (int, int)| #[trigger] e.locked.contains(p) implies in_grid(p.0) && in_grid(p.1)
            && e.at(p.0, p.1).digit is Some by {}
    }
    lemma_put_at(e, r0, c0, digit_value(d), r0, c0);
    if !GridView::sees(r, c, r0, c0) {
        assert forall|i: int, j: int| in_grid(i) && in_grid(j) && GridView::sees(r, c, i, j)
            implies (#[trigger] g.at(i, j)).digit != Some(d as u8) by {
            lemma_put_at(e, r0, c0, digit_value(d), i, j);
        }
    }
}

/// When some block repeats a digit, validation reports a block, whatever
/// the rows and columns hold.
pub proof fn law_blocks_checked_first(g: GridView, r: Result<(), SudokoError>, b: int)
    requires
        g.validation(r),
        0 <= b < 9,
        !no_repeat(g.blocks[b]),
    ensures
        r matches Err(SudokoError::DuplicateValue(_, Place::Block(_))),
{
}

/// On a board whose only empty cell has a single candidate, a deduction
/// step fills that cell with it and reports that cell.
pub proof fn law_solve_last_cell(g: GridView, next: GridView, at: (int, int), r: int, c: int)
    requires
        in_grid(r),
        in_grid(c),
        g.at(r, c).digit is None,
        forall|i: int, j: int|
            in_grid(i) && in_grid(j) && !(i == r && j == c) ==> (#[trigger] g.at(i, j)).digit is Some,
        g.candidates(r, c).len() == 1,
        g.solve_step(next, at),
    ensures
        at == (r, c),
        next == g.put(r, c, g.candidates(r, c)[0]),
{
    assert(g.naked_single(r, c));
}

/// On a board with no empty cell, a deduction step changes nothing and
/// reports (1, 1).
pub proof fn law_solve_full_board(g: GridView, next: GridView, at: (int, int))
    requires
        forall|i: int, j: int| in_grid(i) && in_grid(j) ==> (#[trigger] g.at(i, j)).digit is Some,
        g.solve_step(next, at),
    ensures
        at == (1int, 1int),
        next == g,
{
    assert(!exists|i: int, j: int| g.naked_single(i, j));
    assert forall|b: int, d: int| 0 <= b < 9 && 1 <= d <= 9 implies !#[trigger] g.has_hidden_single(b, d) by {
        assert forall|i: int, j: int| !g.hidden_single(b, d, i, j) by {}
    }
}

} // verus!
