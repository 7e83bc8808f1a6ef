use vstd::prelude::*;

use crate::error::SudokoError;

verus! {

/// A coordinate of the grid (row or column) lies in 1..=9.
pub open spec fn in_grid(x: int) -> bool {
    1 <= x <= 9
}

/// Which third of the grid a row or column in 1..=9 falls in: 0, 1 or 2.
pub open spec fn band(x: int) -> int {
    if x <= 3 {
        0
    } else if x <= 6 {
        1
    } else {
        2
    }
}

/// The block (0..=8, row-major) holding cell (r, c).
pub open spec fn block_of(r: int, c: int) -> int {
    3 * band(r) + band(c)
}

/// The position (0..=8, row-major) of cell (r, c) inside its block.
pub open spec fn slot_of(r: int, c: int) -> int {
    3 * (r - 3 * band(r) - 1) + (c - 3 * band(c) - 1)
}

/// The row of the cell at position k of block b.
pub open spec fn cell_row(b: int, k: int) -> int {
    3 * (b / 3) + k / 3 + 1
}

/// The column of the cell at position k of block b.
pub open spec fn cell_col(b: int, k: int) -> int {
    3 * (b % 3) + k % 3 + 1
}

/// The error that an address (r, c) of the grid gives, if any: the row is
/// checked first.
pub open spec fn coord_error(r: int, c: int) -> Option<SudokoError> {
    if !in_grid(r) {
        Some(SudokoError::InvalidRow)
    } else if !in_grid(c) {
        Some(SudokoError::InvalidColumn)
    } else {
        None
    }
}

/// A cell address of the grid, resolved into block storage.
#[derive(Debug, Clone, Copy, PartialEq, Eq, Structural)]
pub struct SudokoIndex {
    pub row: usize,
    pub col: usize,
    /// The block row, 1..=3.
    pub row_block: usize,
    /// The block column, 1..=3.
    pub col_block: usize,
    /// The row inside the block, 1..=3.
    pub internal_row: usize,
    /// The column inside the block, 1..=3.
    pub internal_col: usize,
    /// The block, 0..=8 in row-major order.
    pub index_block: usize,
}

/// The resolved form of the grid address (r, c), for r and c in 1..=9.
pub open spec fn index_of(r: int, c: int) -> SudokoIndex {
    SudokoIndex {
        row: r as usize,
        col: c as usize,
        row_block: (band(r) + 1) as usize,
        col_block: (band(c) + 1) as usize,
        internal_row: (r - 3 * band(r)) as usize,
        internal_col: (c - 3 * band(c)) as usize,
        index_block: block_of(r, c) as usize,
    }
}

/// Cells of the grid and (block, position) pairs correspond one to one.
pub proof fn lemma_slot_bijection()
    ensures
        forall|r: int, c: int|
            #![trigger block_of(r, c), slot_of(r, c)]
            in_grid(r) && in_grid(c) ==> {
                &&& 0 <= block_of(r, c) < 9
                &&& 0 <= slot_of(r, c) < 9
                &&& cell_row(block_of(r, c), slot_of(r, c)) == r
                &&& cell_col(block_of(r, c), slot_of(r, c)) == c
            },
        forall|b: int, k: int|
            #![trigger cell_row(b, k), cell_col(b, k)]
            0 <= b < 9 && 0 <= k < 9 ==> {
                &&& in_grid(cell_row(b, k))
                &&& in_grid(cell_col(b, k))
                &&& block_of(cell_row(b, k), cell_col(b, k)) == b
                &&& slot_of(cell_row(b, k), cell_col(b, k)) == k
            },
{
}

/// Two cells of the grid with the same block and position are the same cell.
pub proof fn lemma_slot_injective(r1: int, c1: int, r2: int, c2: int)
    requires
        in_grid(r1),
        in_grid(c1),
        in_grid(r2),
        in_grid(c2),
        block_of(r1, c1) == block_of(r2, c2),
        slot_of(r1, c1) == slot_of(r2, c2),
    ensures
        r1 == r2,
        c1 == c2,
{
}

} // verus!
