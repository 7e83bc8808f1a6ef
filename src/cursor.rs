use vstd::prelude::*;

verus! {

/// A position on the 9x9 grid, moved one step at a time and kept inside
/// rows and columns 1 to 9.
#[derive(Debug, Clone, Copy, PartialEq, Eq, Structural)]
pub struct Cursor {
    pub row: usize,
    pub col: usize,
}

impl Cursor {
    /// The cursor at the top-left cell.
    pub fn new() -> (r: Cursor)
        ensures
            r.row == 1,
            r.col == 1,
    {
        Cursor { row: 1, col: 1 }
    }

    /// One column to the right; stays at column 9 (a column outside 1..=9
    /// is brought to 9).
    pub fn move_right(&mut self)
        ensures
            final(self).row == old(self).row,
            final(self).col == (if 1 <= old(self).col <= 8 {
                old(self).col + 1
            } else {
                9int
            }),
    {
        self.col = if 1 <= self.col && self.col <= 8 {
            self.col + 1
        } else {
            9
        };
    }

    /// One column to the left; a column outside 2..=9 is left as it is.
    pub fn move_left(&mut self)
        ensures
            final(self).row == old(self).row,
            final(self).col == (if 2 <= old(self).col <= 9 {
                old(self).col - 1
            } else {
                old(self).col as int
            }),
    {
        if 2 <= self.col && self.col <= 9 {
            self.col = self.col - 1;
        }
    }

    /// One row down; a row outside 1..=8 is left as it is.
    pub fn move_down(&mut self)
        ensures
            final(self).col == old(self).col,
            final(self).row == (if 1 <= old(self).row <= 8 {
                old(self).row + 1
            } else {
                old(self).row as int
            }),
    {
        if 1 <= self.row && self.row <= 8 {
            self.row = self.row + 1;
        }
    }

    /// One row up; a row outside 2..=9 is left as it is.
    pub fn move_up(&mut self)
        ensures
            final(self).col == old(self).col,
            final(self).row == (if 2 <= old(self).row <= 9 {
                old(self).row - 1
            } else {
                old(self).row as int
            }),
    {
        if 2 <= self.row && self.row <= 9 {
            self.row = self.row - 1;
        }
    }
}

} // verus!
