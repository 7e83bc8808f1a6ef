use vstd::prelude::*;

verus! {

/// Where a repeated digit was found by board validation.
#[derive(Debug, Clone, Copy, PartialEq, Eq, Structural)]
pub enum Place {
    /// The block with this index (0 to 8, row-major).
    Block(usize),
    /// This row, at this column.
    Row(usize, usize),
    /// This column, at this row.
    Column(usize, usize),
}

/// The failures of the engine's operations.
#[derive(Debug, Clone, Copy, PartialEq, Eq, Structural)]
pub enum SudokoError {
    /// A row outside 1..=9 (or outside 1..=3 within a block).
    InvalidRow,
    /// A column outside 1..=9 (or outside 1..=3 within a block).
    InvalidColumn,
    /// A digit outside 0..=9 when building a cell value.
    InvalidDigit,
    /// A write to a locked cell.
    LockedCell,
    /// The digit appears twice in one block, row or column.
    DuplicateValue(u8, Place),
}

} // verus!
