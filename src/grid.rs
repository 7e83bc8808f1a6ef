use vstd::prelude::*;

use crate::error::{Place, SudokoError};
use crate::index::{
    block_of, coord_error, in_grid, lemma_slot_bijection, lemma_slot_injective, slot_of,
};
use crate::value::{digit_value, full_values, SudokoValue};

verus! {

/// Position k of `s` holds a digit that an earlier position already holds.
pub open spec fn repeats_at(s: Seq<SudokoValue>, k: int) -> bool {
    &&& 0 <= k < s.len()
    &&& s[k].digit is Some
    &&& exists|j: int| 0 <= j < k && s[j].digit == s[k].digit
}

/// No position before n repeats a digit.
pub open spec fn no_repeat_before(s: Seq<SudokoValue>, n: int) -> bool {
    forall|k: int| 0 <= k < n ==> !repeats_at(s, k)
}

/// No digit occurs twice in `s`.
pub open spec fn no_repeat(s: Seq<SudokoValue>) -> bool {
    no_repeat_before(s, s.len() as int)
}

/// Position k is the first one that repeats a digit.
pub open spec fn first_repeat(s: Seq<SudokoValue>, k: int) -> bool {
    repeats_at(s, k) && no_repeat_before(s, k)
}

/// The digits placed in `s`, in order, unselected.
pub open spec fn placed(s: Seq<SudokoValue>) -> Seq<SudokoValue>
    decreases s.len(),
{
    if s.len() == 0 {
        Seq::empty()
    } else {
        let rest = placed(s.drop_last());
        if s.last().digit is Some {
            rest.push(s.last().unflagged())
        } else {
            rest
        }
    }
}

/// The mathematical state of a board: its nine blocks of nine cells, the
/// selected cell and the locked cells.
pub struct GridView {
    pub blocks: Seq<Seq<SudokoValue>>,
    pub selected: Option<(int, int)>,
    pub locked: Set<(int, int)>,
}

impl GridView {
    /// The board with every cell empty and unselected, nothing selected and
    /// nothing locked.
    pub open spec fn empty() -> GridView {
        GridView {
            blocks: Seq::new(9, |b: int| Seq::new(9, |k: int| SudokoValue { digit: None, selected: false })),
            selected: None,
            locked: Set::empty(),
        }
    }

    /// The cell at row r, column c.
    pub open spec fn at(self, r: int, c: int) -> SudokoValue {
        self.blocks[block_of(r, c)][slot_of(r, c)]
    }

    pub open spec fn wf(self) -> bool {
        &&& self.blocks.len() == 9
        &&& forall|b: int| 0 <= b < 9 ==> (#[trigger] self.blocks[b]).len() == 9
        &&& forall|b: int, k: int| 0 <= b < 9 && 0 <= k < 9 ==> (#[trigger] self.blocks[b][k]).wf()
        &&& self.selected matches Some((r, c)) ==> in_grid(r) && in_grid(c)
        &&& forall|p: (int, int)| #[trigger] self.locked.contains(p)
            ==> in_grid(p.0) && in_grid(p.1) && self.at(p.0, p.1).digit is Some
    }

    /// Every cell whose flag is set is the selected cell.
    pub open spec fn flags_follow_selection(self) -> bool {
        forall|r: int, c: int|
            in_grid(r) && in_grid(c) && (#[trigger] self.at(r, c)).selected
                ==> self.selected == Some((r, c))
    }

    /// The board with cell (r, c) replaced by v.
    pub open spec fn put(self, r: int, c: int, v: SudokoValue) -> GridView {
        let b = block_of(r, c);
        GridView {
            blocks: self.blocks.update(b, self.blocks[b].update(slot_of(r, c), v)),
            selected: self.selected,
            locked: self.locked,
        }
    }

    /// The board with the flag of cell (r, c) set to `flag`, its digit kept.
    pub open spec fn flag(self, r: int, c: int, flag: bool) -> GridView {
        self.put(r, c, SudokoValue { digit: self.at(r, c).digit, selected: flag })
    }

    /// Selecting (r, c): nothing changes if it is already selected; else the
    /// flag of the old selection is cleared, that of (r, c) set, and (r, c)
    /// becomes the selection.
    pub open spec fn select(self, r: int, c: int) -> GridView {
        if self.selected == Some((r, c)) {
            self
        } else {
            let g = match self.selected {
                Some((r0, c0)) => self.flag(r0, c0, false),
                None => self,
            }.flag(r, c, true);
            GridView { blocks: g.blocks, selected: Some((r, c)), locked: g.locked }
        }
    }

    /// Clearing the selection and the flag of the selected cell.
    pub open spec fn unselect(self) -> GridView {
        let g = match self.selected {
            Some((r0, c0)) => self.flag(r0, c0, false),
            None => self,
        };
        GridView { blocks: g.blocks, selected: None, locked: g.locked }
    }

    /// Locking adds every non-empty cell to the locked set.
    pub open spec fn lock(self) -> GridView {
        GridView {
            blocks: self.blocks,
            selected: self.selected,
            locked: self.locked.union(
                Set::new(|p: (int, int)| in_grid(p.0) && in_grid(p.1) && self.at(p.0, p.1).digit is Some),
            ),
        }
    }

    /// Unlocking empties the locked set.
    pub open spec fn unlock(self) -> GridView {
        GridView { blocks: self.blocks, selected: self.selected, locked: Set::empty() }
    }

    /// Writing v at (r, c): refused on a locked cell, then on a bad address.
    pub open spec fn set_value(self, r: int, c: int, v: SudokoValue) -> Result<GridView, SudokoError> {
        if self.locked.contains((r, c)) {
            Err(SudokoError::LockedCell)
        } else if let Some(e) = coord_error(r, c) {
            Err(e)
        } else {
            Ok(self.put(r, c, v))
        }
    }

    /// The nine cells of row r, by column.
    pub open spec fn row(self, r: int) -> Seq<SudokoValue> {
        Seq::new(9, |j: int| self.at(r, j + 1))
    }

    /// The nine cells of column c, by row.
    pub open spec fn col(self, c: int) -> Seq<SudokoValue> {
        Seq::new(9, |i: int| self.at(i + 1, c))
    }

    /// Cells (r, c) and (i, j) share a row, a column or a block.
    pub open spec fn sees(r: int, c: int, i: int, j: int) -> bool {
        i == r || j == c || block_of(i, j) == block_of(r, c)
    }

    /// Digit d may go at (r, c): no cell in its row, column or block holds d.
    pub open spec fn is_candidate(self, r: int, c: int, d: int) -> bool {
        &&& 1 <= d <= 9
        &&& forall|i: int, j: int|
            in_grid(i) && in_grid(j) && Self::sees(r, c, i, j)
                ==> (#[trigger] self.at(i, j)).digit != Some(d as u8)
    }

    /// The candidates of (r, c), as unselected values in ascending order.
    pub open spec fn candidates(self, r: int, c: int) -> Seq<SudokoValue> {
        full_values().filter(|v: SudokoValue| self.is_candidate(r, c, v.digit.unwrap() as int))
    }

    /// (r, c) is an empty cell with exactly one candidate.
    pub open spec fn naked_single(self, r: int, c: int) -> bool {
        &&& in_grid(r)
        &&& in_grid(c)
        &&& self.at(r, c).digit is None
        &&& self.candidates(r, c).len() == 1
    }

    /// (r, c) comes before (r2, c2) in row-major order.
    pub open spec fn before(r: int, c: int, r2: int, c2: int) -> bool {
        r < r2 || (r == r2 && c < c2)
    }

    /// (r, c) is the first naked single in row-major order.
    pub open spec fn first_naked_single(self, r: int, c: int) -> bool {
        &&& self.naked_single(r, c)
        &&& forall|i: int, j: int| Self::before(i, j, r, c) ==> !#[trigger] self.naked_single(i, j)
    }

    /// In block b, (r, c) is the only empty cell where digit d may go.
    pub open spec fn hidden_single(self, b: int, d: int, r: int, c: int) -> bool {
        &&& in_grid(r)
        &&& in_grid(c)
        &&& block_of(r, c) == b
        &&& self.at(r, c).digit is None
        &&& self.is_candidate(r, c, d)
        &&& forall|i: int, j: int|
            in_grid(i) && in_grid(j) && block_of(i, j) == b && self.at(i, j).digit is None
                && #[trigger] self.is_candidate(i, j, d) ==> i == r && j == c
    }

    /// Block b has a hidden single for digit d.
    pub open spec fn has_hidden_single(self, b: int, d: int) -> bool {
        exists|r: int, c: int| self.hidden_single(b, d, r, c)
    }

    /// (b, d) is the first pair, by block and then by digit, with a hidden
    /// single, and that single is at (r, c).
    pub open spec fn first_hidden_single(self, b: int, d: int, r: int, c: int) -> bool {
        &&& self.hidden_single(b, d, r, c)
        &&& forall|b2: int, d2: int|
            (0 <= b2 < b || (b2 == b && 1 <= d2 < d)) ==> !#[trigger] self.has_hidden_single(b2, d2)
    }

    /// What one deduction step does: the first naked single in row-major
    /// order is filled; failing that, the first hidden single by block and
    /// digit; failing that, nothing changes and the step reports (1, 1).
    pub open spec fn solve_step(self, next: GridView, at: (int, int)) -> bool {
        if exists|r: int, c: int| self.naked_single(r, c) {
            &&& self.first_naked_single(at.0, at.1)
            &&& next == self.put(at.0, at.1, self.candidates(at.0, at.1)[0])
        } else if exists|b: int, d: int| 0 <= b < 9 && 1 <= d <= 9 && self.has_hidden_single(b, d) {
            exists|b: int, d: int|
                self.first_hidden_single(b, d, at.0, at.1)
                    && next == self.put(at.0, at.1, digit_value(d))
        } else {
            &&& at == (1int, 1int)
            &&& next == self
        }
    }

    /// What validation reports: the first block with a repeated digit, else
    /// the first row, else the first column; `Ok` when there is none.
    pub open spec fn validation(self, r: Result<(), SudokoError>) -> bool {
        let blocks_ok = forall|b: int| 0 <= b < 9 ==> no_repeat(#[trigger] self.blocks[b]);
        let rows_ok = forall|i: int| 1 <= i <= 9 ==> no_repeat(#[trigger] self.row(i));
        match r {
            Ok(()) => blocks_ok && rows_ok && forall|j: int| 1 <= j <= 9 ==> no_repeat(#[trigger] self.col(j)),
            Err(SudokoError::DuplicateValue(d, Place::Block(b))) => {
                &&& b < 9
                &&& forall|b2: int| 0 <= b2 < b ==> no_repeat(#[trigger] self.blocks[b2])
                &&& exists|k: int| first_repeat(self.blocks[b as int], k)
                    && self.blocks[b as int][k].digit == Some(d)
            },
            Err(SudokoError::DuplicateValue(d, Place::Row(i, j))) => {
                &&& blocks_ok
                &&& in_grid(i as int)
                &&& forall|i2: int| 1 <= i2 < i ==> no_repeat(#[trigger] self.row(i2))
                &&& in_grid(j as int)
                &&& first_repeat(self.row(i as int), j - 1)
                &&& self.at(i as int, j as int).digit == Some(d)
            },
            Err(SudokoError::DuplicateValue(d, Place::Column(j, i))) => {
                &&& blocks_ok
                &&& rows_ok
                &&& in_grid(j as int)
                &&& forall|j2: int| 1 <= j2 < j ==> no_repeat(#[trigger] self.col(j2))
                &&& in_grid(i as int)
                &&& first_repeat(self.col(j as int), i - 1)
                &&& self.at(i as int, j as int).digit == Some(d)
            },
            _ => false,
        }
    }
}

/// Every candidate of a cell is an unselected digit value.
pub proof fn lemma_candidates_wf(g: GridView, r: int, c: int)
    ensures
        forall|i: int|
            0 <= i < g.candidates(r, c).len() ==> (#[trigger] g.candidates(r, c)[i]).wf()
                && g.candidates(r, c)[i].digit is Some,
{
    let pred = |v: SudokoValue| g.is_candidate(r, c, v.digit.unwrap() as int);
    assert forall|i: int| 0 <= i < g.candidates(r, c).len() implies (#[trigger] g.candidates(r, c)[i]).wf()
        && g.candidates(r, c)[i].digit is Some by {
        let x = g.candidates(r, c)[i];
        full_values().lemma_filter_contains_rev(pred, x);
        assert(full_values().contains(x));
    }
}

/// Writing a cell changes that cell and no other.
pub proof fn lemma_put_at(g: GridView, r: int, c: int, v: SudokoValue, i: int, j: int)
    requires
        g.wf(),
        in_grid(r),
        in_grid(c),
        in_grid(i),
        in_grid(j),
    ensures
        g.put(r, c, v).at(i, j) == (if i == r && j == c {
            v
        } else {
            g.at(i, j)
        }),
{
    lemma_slot_bijection();
    if block_of(i, j) == block_of(r, c) && slot_of(i, j) == slot_of(r, c) {
        lemma_slot_injective(i, j, r, c);
    }
}

/// Writing a valid value keeps the board well formed, so long as a locked
/// cell keeps a digit.
pub proof fn lemma_put_wf(g: GridView, r: int, c: int, v: SudokoValue)
    requires
        g.wf(),
        in_grid(r),
        in_grid(c),
        v.wf(),
        g.locked.contains((r, c)) ==> v.digit is Some,
    ensures
        g.put(r, c, v).wf(),
{
    let h = g.put(r, c, v);
    lemma_slot_bijection();
    assert forall|b: int, k: int| 0 <= b < 9 && 0 <= k < 9 implies (#[trigger] h.blocks[b][k]).wf() by {
        assert(g.blocks[b].len() == 9);
    }
    assert forall|p: (int, int)| #[trigger] h.locked.contains(p) implies in_grid(p.0) && in_grid(p.1)
        && h.at(p.0, p.1).digit is Some by {
        assert(g.locked.contains(p));
        lemma_put_at(g, r, c, v, p.0, p.1);
    }
}

/// Selecting a cell of a board whose flags follow its selection gives such
/// a board again, with that cell selected and flagged.
pub proof fn lemma_select_flags(g: GridView, r: int, c: int)
    requires
        g.wf(),
        g.flags_follow_selection(),
        in_grid(r),
        in_grid(c),
    ensures
        g.select(r, c).wf(),
        g.select(r, c).flags_follow_selection(),
        g.select(r, c).selected == Some((r, c)),
        g.selected != Some((r, c)) ==> g.select(r, c).at(r, c).selected,
{
    if g.selected != Some((r, c)) {
        let g0 = match g.selected {
            Some((r0, c0)) => g.flag(r0, c0, false),
            None => g,
        };
        if let Some((r0, c0)) = g.selected {
            lemma_put_wf(g, r0, c0, SudokoValue { digit: g.at(r0, c0).digit, selected: false });
            assert forall|i: int, j: int|
                in_grid(i) && in_grid(j) && (#[trigger] g0.at(i, j)).selected implies false by {
                lemma_put_at(g, r0, c0, SudokoValue { digit: g.at(r0, c0).digit, selected: false }, i, j);
            }
        } else {
            assert forall|i: int, j: int|
                in_grid(i) && in_grid(j) && (#[trigger] g0.at(i, j)).selected implies false by {}
        }
        assert(g0.at(r, c).wf());
        lemma_put_wf(g0, r, c, SudokoValue { digit: g0.at(r, c).digit, selected: true });
        let h = g.select(r, c);
        lemma_put_at(g0, r, c, SudokoValue { digit: g0.at(r, c).digit, selected: true }, r, c);
        assert forall|i: int, j: int|
            in_grid(i) && in_grid(j) && (#[trigger] h.at(i, j)).selected implies h.selected == Some((i, j)) by {
            lemma_put_at(g0, r, c, SudokoValue { digit: g0.at(r, c).digit, selected: true }, i, j);
        }
    }
}

/// A filter that keeps every element keeps the sequence.
pub proof fn lemma_filter_keeps_all(s: Seq<SudokoValue>, pred: spec_fn(SudokoValue) -> bool)
    requires
        forall|i: int| 0 <= i < s.len() ==> pred(#[trigger] s[i]),
    ensures
        s.filter(pred) == s,
    decreases s.len(),
{
    reveal(Seq::filter);
    if s.len() > 0 {
        lemma_filter_keeps_all(s.drop_last(), pred);
        assert(s.drop_last().push(s.last()) =~= s);
    }
}

} // verus!
