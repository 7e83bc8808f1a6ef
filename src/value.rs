use vstd::prelude::*;

use crate::error::SudokoError;

verus! {

/// The content of one cell: an optional digit 1..=9 and a presentation-only
/// "selected" flag.
#[derive(Debug, Clone, Copy, PartialEq, Eq, Structural)]
pub struct SudokoValue {
    pub digit: Option<u8>,
    pub selected: bool,
}

/// The unselected cell holding digit d.
pub open spec fn digit_value(d: int) -> SudokoValue {
    SudokoValue { digit: Some(d as u8), selected: false }
}

/// The nine digit values 1..=9, unselected, in ascending order.
pub open spec fn full_values() -> Seq<SudokoValue> {
    Seq::new(9, |i: int| digit_value(i + 1))
}

impl SudokoValue {
    /// The digit, if any, lies in 1..=9.
    pub open spec fn wf(self) -> bool {
        match self.digit {
            Some(d) => 1 <= d <= 9,
            None => true,
        }
    }

    /// The same digit, unselected.
    pub open spec fn unflagged(self) -> SudokoValue {
        SudokoValue { digit: self.digit, selected: false }
    }

    /// An unselected value from an optional digit: `None` or 0 is the empty
    /// cell, 1..=9 that digit, anything else `InvalidDigit`.
    pub fn new(value: Option<usize>) -> (r: Result<SudokoValue, SudokoError>)
        ensures
            match value {
                None => r == Ok::<SudokoValue, SudokoError>(
                    SudokoValue { digit: None, selected: false },
                ),
                Some(x) => if x == 0 {
                    r == Ok::<SudokoValue, SudokoError>(
                        SudokoValue { digit: None, selected: false },
                    )
                } else if x <= 9 {
                    r == Ok::<SudokoValue, SudokoError>(digit_value(x as int))
                } else {
                    r == Err::<SudokoValue, SudokoError>(SudokoError::InvalidDigit)
                },
            },
            r matches Ok(v) ==> v.wf(),
    {
        match value {
            None => Ok(SudokoValue { digit: None, selected: false }),
            Some(x) => {
                if x == 0 {
                    Ok(SudokoValue { digit: None, selected: false })
                } else if x <= 9 {
                    Ok(SudokoValue { digit: Some(x as u8), selected: false })
                } else {
                    Err(SudokoError::InvalidDigit)
                }
            },
        }
    }

    /// All nine digit values, unselected, in ascending order.
    pub fn full_hashset() -> (r: Vec<SudokoValue>)
        ensures
            r@ == full_values(),
    {
        let mut set: Vec<SudokoValue> = Vec::new();
        let mut i: u8 = 1;
        while i <= 9
            invariant
                1 <= i <= 10,
                set@ == full_values().subrange(0, i - 1),
            decreases 10 - i,
        {
            set.push(SudokoValue { digit: Some(i), selected: false });
            i = i + 1;
        }
        assert(set@ =~= full_values());
        set
    }

    /// The digit as a number, `None` for the empty cell.
    pub fn to_value(&self) -> (r: Option<usize>)
        ensures
            match self.digit {
                Some(d) => r == Some(d as usize),
                None => r is None,
            },
    {
        match self.digit {
            Some(d) => Some(d as usize),
            None => None,
        }
    }

    /// Whether the cell holds no digit.
    pub fn is_empty(&self) -> (r: bool)
        ensures
            r == (self.digit is None),
    {
        self.digit.is_none()
    }

    /// Whether the value is one that `new` can build (its digit in 1..=9).
    pub fn is_valid(&self) -> (r: bool)
        ensures
            r == self.wf(),
    {
        match self.digit {
            Some(d) => 1 <= d && d <= 9,
            None => true,
        }
    }

    /// The same digit with the selected flag set to `flag`.
    pub fn with_selected(&self, flag: bool) -> (r: SudokoValue)
        ensures
            r == (SudokoValue { digit: self.digit, selected: flag }),
    {
        SudokoValue { digit: self.digit, selected: flag }
    }
}

} // verus!
