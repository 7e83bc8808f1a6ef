use vstd::prelude::*;

use crate::error::SudokoError;
use crate::grid::{first_repeat, no_repeat, no_repeat_before, placed, repeats_at};
use crate::index::SudokoIndex;
use crate::value::SudokoValue;

verus! {

/// One 3x3 block: nine cells in row-major order.
#[derive(Debug)]
pub struct SudokoBlock {
    data: Vec<SudokoValue>,
}

impl View for SudokoBlock {
    type V = Seq<SudokoValue>;

    closed spec fn view(&self) -> Seq<SudokoValue> {
        self.data@
    }
}

/// The error that an address (r, c) inside a block gives, if any.
pub open spec fn block_coord_error(r: int, c: int) -> Option<SudokoError> {
    if !(1 <= r <= 3) {
        Some(SudokoError::InvalidRow)
    } else if !(1 <= c <= 3) {
        Some(SudokoError::InvalidColumn)
    } else {
        None
    }
}

/// The position of (r, c) inside a block.
pub open spec fn block_slot(r: int, c: int) -> int {
    (r - 1) * 3 + (c - 1)
}

/// The resolved form of the block address (r, c), for r and c in 1..=3.
pub open spec fn block_index_of(r: int, c: int) -> SudokoIndex {
    SudokoIndex {
        row: r as usize,
        col: c as usize,
        row_block: r as usize,
        col_block: c as usize,
        internal_row: r as usize,
        internal_col: c as usize,
        index_block: block_slot(r, c) as usize,
    }
}

impl SudokoBlock {
    /// Nine cells, each valid.
    pub open spec fn wf(&self) -> bool {
        &&& self@.len() == 9
        &&& forall|k: int| 0 <= k < 9 ==> (#[trigger] self@[k]).wf()
    }

    /// A block of nine empty, unselected cells.
    pub fn new() -> (r: SudokoBlock)
        ensures
            r.wf(),
            r@ == Seq::new(9, |k: int| SudokoValue { digit: None, selected: false }),
    {
        let r = SudokoBlock { data: vec![SudokoValue { digit: None, selected: false }; 9] };
        assert(r@ =~= Seq::new(9, |k: int| SudokoValue { digit: None, selected: false }));
        r
    }

    /// Checks an address inside the block (row, then column, each in 1..=3)
    /// and resolves it.
    pub fn convert_to_index(&self, row: usize, col: usize) -> (r: Result<SudokoIndex, SudokoError>)
        ensures
            match block_coord_error(row as int, col as int) {
                Some(e) => r == Err::<SudokoIndex, SudokoError>(e),
                None => r == Ok::<SudokoIndex, SudokoError>(block_index_of(row as int, col as int)),
            },
    {
        if !(1 <= row && row <= 3) {
            return Err(SudokoError::InvalidRow);
        }
        if !(1 <= col && col <= 3) {
            return Err(SudokoError::InvalidColumn);
        }
        let index_block = (row - 1) * 3 + (col - 1);
        Ok(SudokoIndex {
            row,
            col,
            row_block: row,
            col_block: col,
            internal_row: row,
            internal_col: col,
            index_block,
        })
    }

    /// The cell at (row, col) of the block.
    pub fn get_value(&self, row: usize, col: usize) -> (r: Result<SudokoValue, SudokoError>)
        requires
            self.wf(),
        ensures
            match block_coord_error(row as int, col as int) {
                Some(e) => r == Err::<SudokoValue, SudokoError>(e),
                None => r == Ok::<SudokoValue, SudokoError>(self@[block_slot(row as int, col as int)]),
            },
    {
        let index = self.convert_to_index(row, col)?;
        Ok(self.data[index.index_block])
    }

    /// The cell at position k (0..=8, row-major).
    pub(crate) fn slot(&self, k: usize) -> (r: SudokoValue)
        requires
            self.wf(),
            k < 9,
        ensures
            r == self@[k as int],
    {
        self.data[k]
    }

    /// The digits placed in the block, in cell order, unselected.
    pub fn get_values(&self) -> (r: Vec<SudokoValue>)
        requires
            self.wf(),
        ensures
            r@ == placed(self@),
    {
        let mut values: Vec<SudokoValue> = Vec::new();
        let mut k: usize = 0;
        while k < 9
            invariant
                self.wf(),
                k <= 9,
                values@ == placed(self@.subrange(0, k as int)),
            decreases 9 - k,
        {
            let v = self.data[k];
            assert(self@.subrange(0, k + 1).drop_last() =~= self@.subrange(0, k as int));
            if v.digit.is_some() {
                values.push(v.with_selected(false));
            }
            k = k + 1;
        }
        assert(self@.subrange(0, 9) =~= self@);
        values
    }

    /// Writes `value` at (row, col) of the block.
    pub fn set_value(&mut self, row: usize, col: usize, value: SudokoValue) -> (r: Result<(), SudokoError>)
        requires
            old(self).wf(),
            value.wf(),
        ensures
            final(self).wf(),
            match block_coord_error(row as int, col as int) {
                Some(e) => r == Err::<(), SudokoError>(e) && final(self)@ == old(self)@,
                None => r is Ok && final(self)@ == old(self)@.update(
                    block_slot(row as int, col as int),
                    value,
                ),
            },
    {
        let index = self.convert_to_index(row, col)?;
        self.data.set(index.index_block, value);
        Ok(())
    }

    /// Checks that no digit occurs twice in the block; on failure gives the
    /// digit at the first cell that repeats an earlier one.
    pub fn validate(&self) -> (r: Result<(), u8>)
        requires
            self.wf(),
        ensures
            r is Ok <==> no_repeat(self@),
            r matches Err(d) ==> exists|k: int| first_repeat(self@, k) && self@[k].digit == Some(d),
    {
        let mut seen: Vec<bool> = vec![false; 10];
        let mut k: usize = 0;
        while k < 9
            invariant
                self.wf(),
                k <= 9,
                seen@.len() == 10,
                no_repeat_before(self@, k as int),
                forall|d: int|
                    0 <= d < 10 ==> (#[trigger] seen@[d] <==> exists|j: int|
                        0 <= j < k && self@[j].digit == Some(d as u8)),
            decreases 9 - k,
        {
            let v = self.data[k];
            if let Some(d) = v.digit {
                if seen[d as usize] {
                    assert(seen@[d as int]);
                    assert(repeats_at(self@, k as int));
                    assert(first_repeat(self@, k as int));
                    return Err(d);
                }
                seen.set(d as usize, true);
            }
            assert forall|d: int| 0 <= d < 10 implies (#[trigger] seen@[d] <==> exists|j: int|
                0 <= j < k + 1 && self@[j].digit == Some(d as u8)) by {
                if self@[k as int].digit == Some(d as u8) {
                    assert(0 <= k < k + 1);
                }
            }
            k = k + 1;
        }
        Ok(())
    }
}

} // verus!
