use vstd::prelude::*;

use crate::block::SudokoBlock;
use crate::cursor::Cursor;
use crate::error::{Place, SudokoError};
use crate::grid::{first_repeat, lemma_candidates_wf, no_repeat, no_repeat_before, GridView};
use crate::index::{
    block_of, cell_col, cell_row, coord_error, in_grid, index_of, lemma_slot_bijection,
    slot_of, SudokoIndex,
};
use crate::value::{full_values, SudokoValue};

verus! {

/// The position of cell (r, c) in the row-major table of locks.
pub open spec fn lock_slot(r: int, c: int) -> int {
    (r - 1) * 9 + (c - 1)
}

/// A 9x9 board stored as nine blocks (row-major: 0 top-left, 8
/// bottom-right), with at most one selected cell and a set of locked cells.
#[derive(Debug)]
pub struct Sudoko {
    data: Vec<SudokoBlock>,
    selected: Option<SudokoIndex>,
    lock: Vec<bool>,
}

impl View for Sudoko {
    type V = GridView;

    closed spec fn view(&self) -> GridView {
        GridView {
            blocks: Seq::new(9, |b: int| self.data@[b]@),
            selected: match self.selected {
                Some(i) => Some((i.row as int, i.col as int)),
                None => None,
            },
            locked: Set::new(
                |p: (int, int)| in_grid(p.0) && in_grid(p.1) && self.lock@[lock_slot(p.0, p.1)],
            ),
        }
    }
}

/// The cell at position k of block b is empty and digit d may go there.
pub open spec fn slot_open(g: GridView, b: int, k: int, d: int) -> bool {
    &&& g.at(cell_row(b, k), cell_col(b, k)).digit is None
    &&& g.is_candidate(cell_row(b, k), cell_col(b, k), d)
}

/// A block position that alone admits digit d gives a hidden single.
proof fn lemma_hidden_at(g: GridView, b: int, d: int, f: int)
    requires
        0 <= b < 9,
        0 <= f < 9,
        slot_open(g, b, f, d),
        forall|k: int| 0 <= k < 9 && k != f ==> !#[trigger] slot_open(g, b, k, d),
    ensures
        g.hidden_single(b, d, cell_row(b, f), cell_col(b, f)),
{
    lemma_slot_bijection();
    let r = cell_row(b, f);
    let c = cell_col(b, f);
    assert forall|i: int, j: int|
        in_grid(i) && in_grid(j) && block_of(i, j) == b && g.at(i, j).digit is None
            && #[trigger] g.is_candidate(i, j, d) implies i == r && j == c by {
        let k = slot_of(i, j);
        assert(slot_open(g, b, k, d));
    }
}

/// Where no block position alone admits digit d, block b has no hidden
/// single for d.
proof fn lemma_no_hidden(g: GridView, b: int, d: int)
    requires
        0 <= b < 9,
        forall|f: int| 0 <= f < 9 && #[trigger] slot_open(g, b, f, d) ==> exists|k: int|
            0 <= k < 9 && k != f && slot_open(g, b, k, d),
    ensures
        !g.has_hidden_single(b, d),
{
    lemma_slot_bijection();
    assert forall|r: int, c: int| !g.hidden_single(b, d, r, c) by {
        if g.hidden_single(b, d, r, c) {
            let f = slot_of(r, c);
            assert(slot_open(g, b, f, d));
            let k = choose|k: int| 0 <= k < 9 && k != f && slot_open(g, b, k, d);
            assert(g.is_candidate(cell_row(b, k), cell_col(b, k), d));
        }
    }
}

impl Sudoko {
    pub closed spec fn wf(&self) -> bool {
        &&& self.data@.len() == 9
        &&& forall|b: int| 0 <= b < 9 ==> (#[trigger] self.data@[b]).wf()
        &&& self.lock@.len() == 81
        &&& self.selected matches Some(i) ==> in_grid(i.row as int) && in_grid(i.col as int) && i
            == index_of(i.row as int, i.col as int)
        &&& self@.wf()
    }

    /// The empty board: every cell empty and unselected, nothing locked.
    pub fn new() -> (r: Sudoko)
        ensures
            r.wf(),
            r@ == GridView::empty(),
    {
        let mut data: Vec<SudokoBlock> = Vec::new();
        let mut b: usize = 0;
        while b < 9
            invariant
                b <= 9,
                data@.len() == b,
                forall|i: int| 0 <= i < b ==> (#[trigger] data@[i]).wf() && data@[i]@ == Seq::new(
                    9,
                    |k: int| SudokoValue { digit: None, selected: false },
                ),
            decreases 9 - b,
        {
            data.push(SudokoBlock::new());
            b = b + 1;
        }
        let r = Sudoko { data, selected: None, lock: vec![false; 81] };
        assert(r@.blocks =~= GridView::empty().blocks);
        assert(r@.locked =~= GridView::empty().locked);
        r
    }

    /// Checks a grid address (row, then column, each in 1..=9) and gives its
    /// place in block storage.
    pub fn convert_to_index(row: usize, col: usize) -> (r: Result<SudokoIndex, SudokoError>)
        ensures
            match coord_error(row as int, col as int) {
                Some(e) => r == Err::<SudokoIndex, SudokoError>(e),
                None => r == Ok::<SudokoIndex, SudokoError>(index_of(row as int, col as int)),
            },
    {
        let (row_block, internal_row): (usize, usize) = if 1 <= row && row <= 3 {
            (1, row)
        } else if 4 <= row && row <= 6 {
            (2, row - 3)
        } else if 7 <= row && row <= 9 {
            (3, row - 6)
        } else {
            return Err(SudokoError::InvalidRow);
        };
        let (col_block, internal_col): (usize, usize) = if 1 <= col && col <= 3 {
            (1, col)
        } else if 4 <= col && col <= 6 {
            (2, col - 3)
        } else if 7 <= col && col <= 9 {
            (3, col - 6)
        } else {
            return Err(SudokoError::InvalidColumn);
        };
        let index_block = (row_block - 1) * 3 + (col_block - 1);
        Ok(SudokoIndex { row, col, row_block, col_block, internal_row, internal_col, index_block })
    }

    /// The cell at a valid address.
    fn cell(&self, row: usize, col: usize) -> (r: SudokoValue)
        requires
            self.wf(),
            in_grid(row as int),
            in_grid(col as int),
        ensures
            r == self@.at(row as int, col as int),
            r.wf(),
    {
        let index = Sudoko::convert_to_index(row, col).unwrap();
        let b = index.index_block;
        assert(self.data@[b as int].wf());
        let r = self.data[b].get_value(index.internal_row, index.internal_col).unwrap();
        assert(self@.blocks[b as int] == self.data@[b as int]@);
        r
    }

    /// Writes v at a valid address; a locked cell keeps a digit.
    fn put(&mut self, row: usize, col: usize, v: SudokoValue)
        requires
            old(self).wf(),
            in_grid(row as int),
            in_grid(col as int),
            v.wf(),
            old(self)@.locked.contains((row as int, col as int)) ==> v.digit is Some,
        ensures
            final(self).wf(),
            final(self)@ == old(self)@.put(row as int, col as int, v),
    {
        let ghost g = self@;
        let index = Sudoko::convert_to_index(row, col).unwrap();
        let b = index.index_block;
        assert(self.data@[b as int].wf());
        let _ = self.data[b].set_value(index.internal_row, index.internal_col, v);
        let ghost g2 = g.put(row as int, col as int, v);
        assert(self@.blocks =~= g2.blocks);
        assert(self@.locked =~= g2.locked);
        proof {
            lemma_slot_bijection();
            assert forall|p: (int, int)| #[trigger] g2.locked.contains(p) implies in_grid(p.0)
                && in_grid(p.1) && g2.at(p.0, p.1).digit is Some by {
                assert(g.locked.contains(p));
                if block_of(p.0, p.1) == block_of(row as int, col as int) && slot_of(p.0, p.1)
                    == slot_of(row as int, col as int) {
                    crate::index::lemma_slot_injective(p.0, p.1, row as int, col as int);
                }
            }
            assert forall|bb: int, k: int| 0 <= bb < 9 && 0 <= k < 9 implies (#[trigger] g2.blocks[bb][k]).wf() by {
                assert(g.blocks[bb].len() == 9);
            }
        }
    }

    /// The cell at (row, col).
    pub fn get_value(&self, row: usize, col: usize) -> (r: Result<SudokoValue, SudokoError>)
        requires
            self.wf(),
        ensures
            match coord_error(row as int, col as int) {
                Some(e) => r == Err::<SudokoValue, SudokoError>(e),
                None => r == Ok::<SudokoValue, SudokoError>(self@.at(row as int, col as int)),
            },
    {
        let _ = Sudoko::convert_to_index(row, col)?;
        Ok(self.cell(row, col))
    }

    /// Writes `value` at (row, col). A locked cell is refused with
    /// `LockedCell` before the address is checked; the board is not
    /// validated on write.
    pub fn set_value(&mut self, row: usize, col: usize, value: SudokoValue) -> (r: Result<(), SudokoError>)
        requires
            old(self).wf(),
            value.wf(),
        ensures
            final(self).wf(),
            match old(self)@.set_value(row as int, col as int, value) {
                Ok(g) => r is Ok && final(self)@ == g,
                Err(e) => r == Err::<(), SudokoError>(e) && final(self)@ == old(self)@,
            },
    {
        if self.is_locked(row, col) {
            return Err(SudokoError::LockedCell);
        }
        let _ = Sudoko::convert_to_index(row, col)?;
        self.put(row, col, value);
        Ok(())
    }

    /// Whether (row, col) is locked.
    pub fn is_locked(&self, row: usize, col: usize) -> (r: bool)
        requires
            self.wf(),
        ensures
            r == self@.locked.contains((row as int, col as int)),
    {
        if 1 <= row && row <= 9 && 1 <= col && col <= 9 {
            self.lock[(row - 1) * 9 + (col - 1)]
        } else {
            false
        }
    }

    /// Selects (row, col): the flag of the previously selected cell is
    /// cleared and that of (row, col) set; selecting the selected cell again
    /// changes nothing.
    pub fn select_value(&mut self, row: usize, col: usize) -> (r: Result<(), SudokoError>)
        requires
            old(self).wf(),
        ensures
            final(self).wf(),
            match coord_error(row as int, col as int) {
                Some(e) => r == Err::<(), SudokoError>(e) && final(self)@ == old(self)@,
                None => r is Ok && final(self)@ == old(self)@.select(row as int, col as int),
            },
    {
        let index = Sudoko::convert_to_index(row, col)?;
        if let Some(s) = self.selected {
            if s == index {
                return Ok(());
            }
            let v = self.cell(s.row, s.col);
            self.put(s.row, s.col, v.with_selected(false));
        }
        let v = self.cell(row, col);
        self.put(row, col, v.with_selected(true));
        self.selected = Some(index);
        Ok(())
    }

    /// Clears the selection and the flag of the selected cell.
    pub fn unselect_value(&mut self) -> (r: Result<(), SudokoError>)
        requires
            old(self).wf(),
        ensures
            final(self).wf(),
            r is Ok,
            final(self)@ == old(self)@.unselect(),
    {
        if let Some(s) = self.selected {
            let v = self.cell(s.row, s.col);
            self.put(s.row, s.col, v.with_selected(false));
        }
        self.selected = None;
        Ok(())
    }

    /// Locks every non-empty cell.
    pub fn lock(&mut self) -> (r: Result<(), SudokoError>)
        requires
            old(self).wf(),
        ensures
            final(self).wf(),
            r is Ok,
            final(self)@ == old(self)@.lock(),
    {
        let ghost g = self@;
        let mut row: usize = 1;
        while row <= 9
            invariant
                self.wf(),
                1 <= row <= 10,
                self@.blocks == g.blocks,
                self@.selected == g.selected,
                forall|i: int, j: int|
                    in_grid(i) && in_grid(j) ==> (#[trigger] self.lock@[lock_slot(i, j)] == (
                    g.locked.contains((i, j)) || (i < row && g.at(i, j).digit is Some))),
            decreases 10 - row,
        {
            let mut col: usize = 1;
            while col <= 9
                invariant
                    self.wf(),
                    1 <= row <= 9,
                    1 <= col <= 10,
                    self@.blocks == g.blocks,
                    self@.selected == g.selected,
                    forall|i: int, j: int|
                        in_grid(i) && in_grid(j) ==> (#[trigger] self.lock@[lock_slot(i, j)] == (
                        g.locked.contains((i, j)) || ((i < row || (i == row && j < col))
                            && g.at(i, j).digit is Some))),
                decreases 10 - col,
            {
                let v = self.cell(row, col);
                if v.digit.is_some() {
                    let ghost before = self@;
                    self.lock.set((row - 1) * 9 + (col - 1), true);
                    assert(self@.blocks =~= before.blocks);
                    assert forall|p: (int, int)| #[trigger] self@.locked.contains(p) implies in_grid(
                        p.0,
                    ) && in_grid(p.1) && self@.at(p.0, p.1).digit is Some by {
                        if lock_slot(p.0, p.1) != lock_slot(row as int, col as int) {
                            assert(before.locked.contains(p));
                        }
                    }
                    assert(self@.wf());
                }
                col = col + 1;
            }
            row = row + 1;
        }
        assert(self@.locked =~= g.lock().locked);
        Ok(())
    }

    /// Empties the set of locked cells.
    pub fn unlock(&mut self)
        requires
            old(self).wf(),
        ensures
            final(self).wf(),
            final(self)@ == old(self)@.unlock(),
    {
        self.lock = vec![false; 81];
        assert(self@.locked =~= Set::empty());
    }

    /// Checks that no digit occurs twice in row `row`; on failure names the
    /// digit and the first column that repeats an earlier one.
    pub fn validate_row(&self, row: usize) -> (r: Result<(), SudokoError>)
        requires
            self.wf(),
        ensures
            !in_grid(row as int) ==> r == Err::<(), SudokoError>(SudokoError::InvalidRow),
            in_grid(row as int) ==> (r is Ok <==> no_repeat(self@.row(row as int))),
            in_grid(row as int) ==> (r matches Err(e) ==> exists|d: u8, j: usize|
                e == SudokoError::DuplicateValue(d, Place::Row(row, j)) && in_grid(j as int)
                    && first_repeat(self@.row(row as int), j - 1) && self@.at(row as int, j as int).digit
                    == Some(d)),
    {
        if !(1 <= row && row <= 9) {
            return Err(SudokoError::InvalidRow);
        }
        let ghost s = self@.row(row as int);
        let mut seen: Vec<bool> = vec![false; 10];
        let mut col: usize = 1;
        while col <= 9
            invariant
                self.wf(),
                in_grid(row as int),
                s == self@.row(row as int),
                1 <= col <= 10,
                seen@.len() == 10,
                no_repeat_before(s, col - 1),
                forall|d: int|
                    0 <= d < 10 ==> (#[trigger] seen@[d] <==> exists|j: int|
                        0 <= j < col - 1 && s[j].digit == Some(d as u8)),
            decreases 10 - col,
        {
            let v = self.cell(row, col);
            assert(s[col - 1] == v);
            if let Some(d) = v.digit {
                if seen[d as usize] {
                    assert(seen@[d as int]);
                    assert(first_repeat(s, col - 1));
                    return Err(SudokoError::DuplicateValue(d, Place::Row(row, col)));
                }
                seen.set(d as usize, true);
            }
            assert forall|d: int| 0 <= d < 10 implies (#[trigger] seen@[d] <==> exists|j: int|
                0 <= j < col && s[j].digit == Some(d as u8)) by {
                if s[col - 1].digit == Some(d as u8) {
                    assert(0 <= col - 1 < col);
                }
            }
            col = col + 1;
        }
        Ok(())
    }

    /// Checks that no digit occurs twice in column `col`; on failure names
    /// the digit and the first row that repeats an earlier one.
    pub fn validate_col(&self, col: usize) -> (r: Result<(), SudokoError>)
        requires
            self.wf(),
        ensures
            !in_grid(col as int) ==> r == Err::<(), SudokoError>(SudokoError::InvalidColumn),
            in_grid(col as int) ==> (r is Ok <==> no_repeat(self@.col(col as int))),
            in_grid(col as int) ==> (r matches Err(e) ==> exists|d: u8, i: usize|
                e == SudokoError::DuplicateValue(d, Place::Column(col, i)) && in_grid(i as int)
                    && first_repeat(self@.col(col as int), i - 1) && self@.at(i as int, col as int).digit
                    == Some(d)),
    {
        if !(1 <= col && col <= 9) {
            return Err(SudokoError::InvalidColumn);
        }
        let ghost s = self@.col(col as int);
        let mut seen: Vec<bool> = vec![false; 10];
        let mut row: usize = 1;
        while row <= 9
            invariant
                self.wf(),
                in_grid(col as int),
                s == self@.col(col as int),
                1 <= row <= 10,
                seen@.len() == 10,
                no_repeat_before(s, row - 1),
                forall|d: int|
                    0 <= d < 10 ==> (#[trigger] seen@[d] <==> exists|i: int|
                        0 <= i < row - 1 && s[i].digit == Some(d as u8)),
            decreases 10 - row,
        {
            let v = self.cell(row, col);
            assert(s[row - 1] == v);
            if let Some(d) = v.digit {
                if seen[d as usize] {
                    assert(seen@[d as int]);
                    assert(first_repeat(s, row - 1));
                    return Err(SudokoError::DuplicateValue(d, Place::Column(col, row)));
                }
                seen.set(d as usize, true);
            }
            assert forall|d: int| 0 <= d < 10 implies (#[trigger] seen@[d] <==> exists|i: int|
                0 <= i < row && s[i].digit == Some(d as u8)) by {
                if s[row - 1].digit == Some(d as u8) {
                    assert(0 <= row - 1 < row);
                }
            }
            row = row + 1;
        }
        Ok(())
    }

    /// Checks the whole board: every block, then every row, then every
    /// column; the first repeated digit found in that order is reported.
    pub fn validate(&self) -> (r: Result<(), SudokoError>)
        requires
            self.wf(),
        ensures
            self@.validation(r),
    {
        let mut b: usize = 0;
        while b < 9
            invariant
                self.wf(),
                b <= 9,
                forall|b2: int| 0 <= b2 < b ==> no_repeat(#[trigger] self@.blocks[b2]),
            decreases 9 - b,
        {
            assert(self.data@[b as int].wf());
            assert(self@.blocks[b as int] == self.data@[b as int]@);
            match self.data[b].validate() {
                Ok(()) => {},
                Err(d) => {
                    return Err(SudokoError::DuplicateValue(d, Place::Block(b)));
                },
            }
            b = b + 1;
        }
        let mut row: usize = 1;
        while row <= 9
            invariant
                self.wf(),
                1 <= row <= 10,
                forall|b2: int| 0 <= b2 < 9 ==> no_repeat(#[trigger] self@.blocks[b2]),
                forall|i: int| 1 <= i < row ==> no_repeat(#[trigger] self@.row(i)),
            decreases 10 - row,
        {
            self.validate_row(row)?;
            row = row + 1;
        }
        let mut col: usize = 1;
        while col <= 9
            invariant
                self.wf(),
                1 <= col <= 10,
                forall|b2: int| 0 <= b2 < 9 ==> no_repeat(#[trigger] self@.blocks[b2]),
                forall|i: int| 1 <= i <= 9 ==> no_repeat(#[trigger] self@.row(i)),
                forall|j: int| 1 <= j < col ==> no_repeat(#[trigger] self@.col(j)),
            decreases 10 - col,
        {
            self.validate_col(col)?;
            col = col + 1;
        }
        Ok(())
    }

    /// For each digit d in 1..=9, whether d may go at (row, col); entry 0 is
    /// unused.
    fn candidate_mask(&self, row: usize, col: usize) -> (m: Vec<bool>)
        requires
            self.wf(),
            in_grid(row as int),
            in_grid(col as int),
        ensures
            m@.len() == 10,
            forall|d: int| 1 <= d <= 9 ==> (#[trigger] m@[d] == self@.is_candidate(row as int, col as int, d)),
    {
        let ghost g = self@;
        let mut mask: Vec<bool> = vec![true; 10];
        mask.set(0, false);
        // other cells of the column
        let mut i: usize = 1;
        while i <= 9
            invariant
                self.wf(),
                g == self@,
                in_grid(row as int),
                in_grid(col as int),
                1 <= i <= 10,
                mask@.len() == 10,
                forall|d: int|
                    1 <= d <= 9 ==> (#[trigger] mask@[d] == forall|i2: int|
                        1 <= i2 < i && i2 != row ==> g.at(i2, col as int).digit != Some(d as u8)),
            decreases 10 - i,
        {
            if i != row {
                let v = self.cell(i, col);
                if let Some(d) = v.digit {
                    mask.set(d as usize, false);
                }
            }
            i = i + 1;
        }
        // other cells of the row
        let mut j: usize = 1;
        while j <= 9
            invariant
                self.wf(),
                g == self@,
                in_grid(row as int),
                in_grid(col as int),
                1 <= j <= 10,
                mask@.len() == 10,
                forall|d: int|
                    1 <= d <= 9 ==> (#[trigger] mask@[d] == ((forall|i2: int|
                        1 <= i2 <= 9 && i2 != row ==> g.at(i2, col as int).digit != Some(d as u8))
                        && forall|j2: int|
                        1 <= j2 < j && j2 != col ==> g.at(row as int, j2).digit != Some(d as u8))),
            decreases 10 - j,
        {
            if j != col {
                let v = self.cell(row, j);
                if let Some(d) = v.digit {
                    mask.set(d as usize, false);
                }
            }
            j = j + 1;
        }
        // every cell of the block
        let index = Sudoko::convert_to_index(row, col).unwrap();
        let b = index.index_block;
        assert(self.data@[b as int].wf());
        assert(g.blocks[b as int] == self.data@[b as int]@);
        let mut k: usize = 0;
        while k < 9
            invariant
                self.wf(),
                g == self@,
                in_grid(row as int),
                in_grid(col as int),
                b == block_of(row as int, col as int),
                self.data@[b as int].wf(),
                g.blocks[b as int] == self.data@[b as int]@,
                k <= 9,
                mask@.len() == 10,
                forall|d: int|
                    1 <= d <= 9 ==> (#[trigger] mask@[d] == ((forall|i2: int|
                        1 <= i2 <= 9 && i2 != row ==> g.at(i2, col as int).digit != Some(d as u8))
                        && (forall|j2: int|
                        1 <= j2 <= 9 && j2 != col ==> g.at(row as int, j2).digit != Some(d as u8))
                        && forall|k2: int| 0 <= k2 < k ==> g.blocks[b as int][k2].digit != Some(d as u8))),
            decreases 9 - k,
        {
            let v = self.data[b].slot(k);
            if let Some(d) = v.digit {
                mask.set(d as usize, false);
            }
            k = k + 1;
        }
        proof {
            lemma_slot_bijection();
            assert forall|d: int| 1 <= d <= 9 implies (#[trigger] mask@[d] == g.is_candidate(
                row as int,
                col as int,
                d,
            )) by {
                if mask@[d] {
                    assert forall|i2: int, j2: int|
                        in_grid(i2) && in_grid(j2) && GridView::sees(row as int, col as int, i2, j2)
                            implies (#[trigger] g.at(i2, j2)).digit != Some(d as u8) by {
                        if block_of(i2, j2) == b {
                            assert(g.at(i2, j2) == g.blocks[b as int][slot_of(i2, j2)]);
                        }
                    }
                }
                if g.is_candidate(row as int, col as int, d) {
                    assert forall|k2: int| 0 <= k2 < 9 implies g.blocks[b as int][k2].digit != Some(
                        d as u8,
                    ) by {
                        let i2 = cell_row(b as int, k2);
                        let j2 = cell_col(b as int, k2);
                        assert(g.at(i2, j2) == g.blocks[b as int][k2]);
                    }
                    assert forall|i2: int| 1 <= i2 <= 9 && i2 != row implies g.at(i2, col as int).digit
                        != Some(d as u8) by {
                        assert(GridView::sees(row as int, col as int, i2, col as int));
                    }
                    assert forall|j2: int| 1 <= j2 <= 9 && j2 != col implies g.at(row as int, j2).digit
                        != Some(d as u8) by {
                        assert(GridView::sees(row as int, col as int, row as int, j2));
                    }
                }
            }
        }
        mask
    }

    /// The digits that may go at (row, col), in ascending order, or `None`
    /// when no digit fits there.
    pub fn find_possible_values(&self, row: usize, col: usize) -> (r: Result<Option<Vec<SudokoValue>>, SudokoError>)
        requires
            self.wf(),
        ensures
            match coord_error(row as int, col as int) {
                Some(e) => r matches Err(e2) && e2 == e,
                None => match r {
                    Ok(Some(v)) => v@ == self@.candidates(row as int, col as int) && v@.len() > 0,
                    Ok(None) => self@.candidates(row as int, col as int).len() == 0,
                    Err(_) => false,
                },
            },
    {
        let _ = Sudoko::convert_to_index(row, col)?;
        let mask = self.candidate_mask(row, col);
        let full = SudokoValue::full_hashset();
        let ghost pred = |v: SudokoValue| self@.is_candidate(row as int, col as int, v.digit.unwrap() as int);
        let mut possible_values: Vec<SudokoValue> = Vec::new();
        let mut i: usize = 0;
        while i < 9
            invariant
                self.wf(),
                in_grid(row as int),
                in_grid(col as int),
                mask@.len() == 10,
                forall|d: int| 1 <= d <= 9 ==> (#[trigger] mask@[d] == self@.is_candidate(row as int, col as int, d)),
                full@ == full_values(),
                pred == (|v: SudokoValue| self@.is_candidate(row as int, col as int, v.digit.unwrap() as int)),
                i <= 9,
                possible_values@ == full_values().subrange(0, i as int).filter(pred),
            decreases 9 - i,
        {
            let v = full[i];
            assert(full_values().subrange(0, i + 1) =~= full_values().subrange(0, i as int).push(v));
            proof {
                full_values().subrange(0, i as int).lemma_filter_push(v, pred);
            }
            assert(pred(v) == mask@[i + 1]);
            if mask[i + 1] {
                possible_values.push(v);
            }
            i = i + 1;
        }
        assert(full_values().subrange(0, 9) =~= full_values());
        if possible_values.len() == 0 {
            return Ok(None);
        }
        Ok(Some(possible_values))
    }

    /// Makes one deduction: fills the first empty cell in row-major order
    /// that has a single candidate; failing that, the first cell (by block,
    /// then by digit) that is the only place of its block for a digit.
    /// Returns the cell filled, or (1, 1) with the board unchanged when no
    /// deduction is found.
    pub fn solve_step(&mut self) -> (r: Result<Cursor, SudokoError>)
        requires
            old(self).wf(),
        ensures
            final(self).wf(),
            r matches Ok(cur) && old(self)@.solve_step(final(self)@, (cur.row as int, cur.col as int)),
    {
        let ghost g = self@;
        // naked singles
        let mut row: usize = 1;
        while row <= 9
            invariant
                self.wf(),
                self@ == g,
                g == old(self)@,
                1 <= row <= 10,
                forall|i: int, j: int| GridView::before(i, j, row as int, 1) ==> !#[trigger] g.naked_single(i, j),
            decreases 10 - row,
        {
            let mut col: usize = 1;
            while col <= 9
                invariant
                    self.wf(),
                    self@ == g,
                    g == old(self)@,
                g == old(self)@,
                    1 <= row <= 9,
                    1 <= col <= 10,
                    forall|i: int, j: int|
                        GridView::before(i, j, row as int, col as int) ==> !#[trigger] g.naked_single(i, j),
                decreases 10 - col,
            {
                let v = self.cell(row, col);
                if v.digit.is_none() {
                    if let Ok(Some(values)) = self.find_possible_values(row, col) {
                        if values.len() == 1 {
                            let value = values[0];
                            proof {
                                lemma_candidates_wf(g, row as int, col as int);
                            }
                            self.put(row, col, value);
                            assert(g.naked_single(row as int, col as int));
                            assert(g.first_naked_single(row as int, col as int));
                            assert(value == g.candidates(row as int, col as int)[0]);
                            return Ok(Cursor { row, col });
                        }
                    }
                }
                col = col + 1;
            }
            row = row + 1;
        }
        assert(!exists|i: int, j: int| g.naked_single(i, j));
        // hidden singles
        let mut b: usize = 0;
        while b < 9
            invariant
                self.wf(),
                self@ == g,
                g == old(self)@,
                b <= 9,
                !exists|i: int, j: int| g.naked_single(i, j),
                forall|b2: int, d2: int| 0 <= b2 < b ==> !#[trigger] g.has_hidden_single(b2, d2),
            decreases 9 - b,
        {
            let mut masks: Vec<Vec<bool>> = Vec::new();
            let mut k: usize = 0;
            while k < 9
                invariant
                    self.wf(),
                    self@ == g,
                    g == old(self)@,
                g == old(self)@,
                    b < 9,
                    k <= 9,
                    masks@.len() == k,
                    forall|k2: int| 0 <= k2 < k ==> (#[trigger] masks@[k2])@.len() == 10,
                    forall|k2: int, d: int|
                        0 <= k2 < k && 1 <= d <= 9 ==> ((#[trigger] masks@[k2]@[d]) == slot_open(g, b as int, k2, d)),
                decreases 9 - k,
            {
                let r = 3 * (b / 3) + k / 3 + 1;
                let c = 3 * (b % 3) + k % 3 + 1;
                proof {
                    lemma_slot_bijection();
                    assert(r == cell_row(b as int, k as int) && c == cell_col(b as int, k as int));
                }
                let v = self.cell(r, c);
                if v.digit.is_none() {
                    masks.push(self.candidate_mask(r, c));
                } else {
                    masks.push(vec![false; 10]);
                }
                k = k + 1;
            }
            let mut d: usize = 1;
            while d <= 9
                invariant
                    self.wf(),
                    self@ == g,
                    g == old(self)@,
                g == old(self)@,
                    b < 9,
                    1 <= d <= 10,
                    !exists|i: int, j: int| g.naked_single(i, j),
                    masks@.len() == 9,
                    forall|k2: int| 0 <= k2 < 9 ==> (#[trigger] masks@[k2])@.len() == 10,
                    forall|k2: int, d: int|
                        0 <= k2 < 9 && 1 <= d <= 9 ==> ((#[trigger] masks@[k2]@[d]) == slot_open(g, b as int, k2, d)),
                    forall|b2: int, d2: int| 0 <= b2 < b ==> !#[trigger] g.has_hidden_single(b2, d2),
                    forall|d2: int| 1 <= d2 < d ==> !#[trigger] g.has_hidden_single(b as int, d2),
                decreases 10 - d,
            {
                let mut found: Option<usize> = None;
                let mut multiple = false;
                let ghost mut w1: int = 0;
                let ghost mut w2: int = 0;
                let mut k: usize = 0;
                while k < 9
                    invariant
                        b < 9,
                        1 <= d <= 9,
                        k <= 9,
                        masks@.len() == 9,
                        forall|k2: int| 0 <= k2 < 9 ==> (#[trigger] masks@[k2])@.len() == 10,
                        forall|k2: int, d: int|
                            0 <= k2 < 9 && 1 <= d <= 9 ==> ((#[trigger] masks@[k2]@[d]) == slot_open(g, b as int, k2, d)),
                        !multiple && found is None ==> forall|k2: int|
                            0 <= k2 < k ==> !#[trigger] slot_open(g, b as int, k2, d as int),
                        !multiple && found is Some ==> ({
                            let f = found->0 as int;
                            &&& f < k
                            &&& slot_open(g, b as int, f, d as int)
                            &&& forall|k2: int| 0 <= k2 < k && k2 != f ==> !#[trigger] slot_open(g, b as int, k2, d as int)
                        }),
                        multiple ==> 0 <= w1 < 9 && 0 <= w2 < 9 && w1 != w2 && slot_open(g, b as int, w1, d as int)
                            && slot_open(g, b as int, w2, d as int),
                    decreases 9 - k,
                {
                    if masks[k][d] {
                        match found {
                            None => {
                                found = Some(k);
                            },
                            Some(f) => {
                                if !multiple {
                                    proof {
                                        w1 = f as int;
                                        w2 = k as int;
                                    }
                                }
                                multiple = true;
                            },
                        }
                    }
                    k = k + 1;
                }
                if !multiple {
                    if let Some(f) = found {
                        let r = 3 * (b / 3) + f / 3 + 1;
                        let c = 3 * (b % 3) + f % 3 + 1;
                        proof {
                            lemma_slot_bijection();
                            lemma_hidden_at(g, b as int, d as int, f as int);
                            assert(g.has_hidden_single(b as int, d as int));
                            assert(g.first_hidden_single(b as int, d as int, r as int, c as int));
                            assert(0 <= b < 9 && 1 <= d <= 9 && g.has_hidden_single(b as int, d as int));
                        }
                        self.put(r, c, SudokoValue { digit: Some(d as u8), selected: false });
                        return Ok(Cursor { row: r, col: c });
                    }
                }
                proof {
                    assert forall|f: int| 0 <= f < 9 && #[trigger] slot_open(g, b as int, f, d as int) implies exists|k: int|
                        0 <= k < 9 && k != f && slot_open(g, b as int, k, d as int) by {
                        if f != w1 {
                            assert(slot_open(g, b as int, w1, d as int));
                        } else {
                            assert(slot_open(g, b as int, w2, d as int));
                        }
                    }
                    lemma_no_hidden(g, b as int, d as int);
                }
                d = d + 1;
            }
            proof {
                assert forall|d2: int| !#[trigger] g.has_hidden_single(b as int, d2) by {
                    if !(1 <= d2 <= 9) && g.has_hidden_single(b as int, d2) {
                        let (r, c) = choose|r: int, c: int| g.hidden_single(b as int, d2, r, c);
                        assert(g.is_candidate(r, c, d2));
                    }
                }
            }
            b = b + 1;
        }
        Ok(Cursor::new())
    }

    /// Makes one deduction step, as `solve_step` does, and drops the cell it
    /// reports.
    pub fn solve(&mut self) -> (r: Result<(), SudokoError>)
        requires
            old(self).wf(),
        ensures
            final(self).wf(),
            r is Ok,
            exists|at: (int, int)| old(self)@.solve_step(final(self)@, at),
    {
        match self.solve_step() {
            Ok(cur) => {
                assert(old(self)@.solve_step(self@, (cur.row as int, cur.col as int)));
                Ok(())
            },
            Err(e) => Err(e),
        }
    }
}

} // verus!
