//! What the score of a table entry says of the true score.

use vstd::prelude::*;

verus! {

#[derive(Clone, Copy, PartialEq, Eq, Structural, Debug)]
pub enum TTFlag {
    /// The true score is at most the stored one.
    Upper,
    /// The true score is at least the stored one.
    Lower,
    /// The stored score is the true one.
    Exact,
}

impl TTFlag {
    /// The number of the flag: 0, 1, 2.
    pub open spec fn idx(self) -> int {
        match self {
            TTFlag::Upper => 0,
            TTFlag::Lower => 1,
            TTFlag::Exact => 2,
        }
    }

    /// The flag with number `i`; `Exact` for a larger number.
    pub open spec fn of(i: int) -> TTFlag {
        if i == 0 {
            TTFlag::Upper
        } else if i == 1 {
            TTFlag::Lower
        } else {
            TTFlag::Exact
        }
    }

    pub fn index(self) -> (r: u8)
        ensures
            r == self.idx(),
            r < 3,
            TTFlag::of(r as int) == self,
    {
        match self {
            TTFlag::Upper => 0,
            TTFlag::Lower => 1,
            TTFlag::Exact => 2,
        }
    }

    pub fn from_index(val: u8) -> (r: TTFlag)
        ensures
            r == TTFlag::of(val as int),
    {
        match val {
            0 => TTFlag::Upper,
            1 => TTFlag::Lower,
            _ => TTFlag::Exact,
        }
    }
}

} // verus!
