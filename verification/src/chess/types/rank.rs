//! The ranks of the board, first to eighth.

use vstd::prelude::*;
use crate::chess::types::color::Color;

verus! {

#[derive(Clone, Copy, PartialEq, Eq, Structural, Debug)]
pub enum Rank {
    First,
    Second,
    Third,
    Fourth,
    Fifth,
    Sixth,
    Seventh,
    Eighth,
}

impl Rank {
    /// The rank's number, from 0.
    pub open spec fn idx(self) -> int {
        match self {
            Rank::First => 0,
            Rank::Second => 1,
            Rank::Third => 2,
            Rank::Fourth => 3,
            Rank::Fifth => 4,
            Rank::Sixth => 5,
            Rank::Seventh => 6,
            Rank::Eighth => 7,
        }
    }

    /// The rank with number `i`.
    pub open spec fn of(i: int) -> Rank {
        if i == 0 {
            Rank::First
        } else if i == 1 {
            Rank::Second
        } else if i == 2 {
            Rank::Third
        } else if i == 3 {
            Rank::Fourth
        } else if i == 4 {
            Rank::Fifth
        } else if i == 5 {
            Rank::Sixth
        } else if i == 6 {
            Rank::Seventh
        } else {
            Rank::Eighth
        }
    }

    pub fn index(self) -> (r: u8)
        ensures
            r == self.idx(),
            r < 8,
    {
        match self {
            Rank::First => 0,
            Rank::Second => 1,
            Rank::Third => 2,
            Rank::Fourth => 3,
            Rank::Fifth => 4,
            Rank::Sixth => 5,
            Rank::Seventh => 6,
            Rank::Eighth => 7,
        }
    }

    pub fn from_index(i: u8) -> (r: Rank)
        requires
            i < 8,
        ensures
            r.idx() == i,
            r == Rank::of(i as int),
    {
        match i {
            0 => Rank::First,
            1 => Rank::Second,
            2 => Rank::Third,
            3 => Rank::Fourth,
            4 => Rank::Fifth,
            5 => Rank::Sixth,
            6 => Rank::Seventh,
            _ => Rank::Eighth,
        }
    }

    pub proof fn lemma_idx(self)
        ensures
            0 <= self.idx() < 8,
            Rank::of(self.idx()) == self,
    {
    }

    pub proof fn lemma_of(i: int)
        requires
            0 <= i < 8,
        ensures
            Rank::of(i).idx() == i,
    {
    }

    /// The rank `amount` steps towards the eighth.
    pub fn add(&mut self, amount: u8)
        requires
            old(self).idx() + amount < 8,
        ensures
            final(self).idx() == old(self).idx() + amount,
    {
        *self = Rank::from_index(self.index() + amount);
    }

    /// The rank `amount` steps towards the first.
    pub fn sub(&mut self, amount: u8)
        requires
            old(self).idx() >= amount,
        ensures
            final(self).idx() == old(self).idx() - amount,
    {
        *self = Rank::from_index(self.index() - amount);
    }

    pub fn plus(&mut self)
        requires
            old(self).idx() < 7,
        ensures
            final(self).idx() == old(self).idx() + 1,
    {
        self.add(1);
    }

    pub fn minus(&mut self)
        requires
            old(self).idx() > 0,
        ensures
            final(self).idx() == old(self).idx() - 1,
    {
        self.sub(1);
    }

    /// The rank on which the pawns of `color` start.
    pub open spec fn pawn_start(color: Color) -> int {
        match color {
            Color::White => 1,
            Color::Black => 6,
        }
    }

    /// The rank on which a pawn of `color` is promoted.
    pub open spec fn pawn_last(color: Color) -> int {
        match color {
            Color::White => 7,
            Color::Black => 0,
        }
    }

    pub fn is_pawn_start(&self, color: Color) -> (r: bool)
        ensures
            r == (self.idx() == Rank::pawn_start(color)),
    {
        match color {
            Color::White => self.index() == 1,
            Color::Black => self.index() == 6,
        }
    }

    pub fn is_pawn_promotion(&self, color: Color) -> (r: bool)
        ensures
            r == (self.idx() == Rank::pawn_last(color)),
    {
        match color {
            Color::White => self.index() == 7,
            Color::Black => self.index() == 0,
        }
    }

    /// Whether a pawn of `color` on this rank is promoted by its next step.
    pub fn can_pawn_promote(&self, color: Color) -> (r: bool)
        ensures
            r == (self.idx() == Rank::pawn_start(color.flip())),
    {
        match color {
            Color::White => self.index() == 6,
            Color::Black => self.index() == 1,
        }
    }

    /// Whether a pawn of `color` lands on this rank after its double step.
    pub fn is_pawn_jump_end(&self, color: Color) -> (r: bool)
        ensures
            r == (self.idx() == (match color {
                Color::White => 3int,
                Color::Black => 4int,
            })),
    {
        match color {
            Color::White => self.index() == 3,
            Color::Black => self.index() == 4,
        }
    }

    /// The digit of the rank as a byte of text.
    pub open spec fn digit(self) -> u8 {
        (49 + self.idx()) as u8
    }

    /// The rank that the digit `c` names, if it names one.
    pub open spec fn of_digit(c: u8) -> Option<Rank> {
        if 49 <= c <= 56 {
            Some(Rank::of(c - 49))
        } else {
            None
        }
    }

    pub fn to_byte(self) -> (r: u8)
        ensures
            r == self.digit(),
    {
        49 + self.index()
    }

    pub fn from_byte(c: u8) -> (r: Option<Rank>)
        ensures
            r == Rank::of_digit(c),
    {
        if 49 <= c && c <= 56 {
            Some(Rank::from_index(c - 49))
        } else {
            None
        }
    }
}

} // verus!
