//! The files of the board, a to h.

use vstd::prelude::*;

verus! {

#[derive(Clone, Copy, PartialEq, Eq, Structural, Debug)]
pub enum File {
    A,
    B,
    C,
    D,
    E,
    F,
    G,
    H,
}

impl File {
    /// The file's number, from 0.
    pub open spec fn idx(self) -> int {
        match self {
            File::A => 0,
            File::B => 1,
            File::C => 2,
            File::D => 3,
            File::E => 4,
            File::F => 5,
            File::G => 6,
            File::H => 7,
        }
    }

    /// The file with number `i`.
    pub open spec fn of(i: int) -> File {
        if i == 0 {
            File::A
        } else if i == 1 {
            File::B
        } else if i == 2 {
            File::C
        } else if i == 3 {
            File::D
        } else if i == 4 {
            File::E
        } else if i == 5 {
            File::F
        } else if i == 6 {
            File::G
        } else {
            File::H
        }
    }

    pub fn index(self) -> (r: u8)
        ensures
            r == self.idx(),
            r < 8,
    {
        match self {
            File::A => 0,
            File::B => 1,
            File::C => 2,
            File::D => 3,
            File::E => 4,
            File::F => 5,
            File::G => 6,
            File::H => 7,
        }
    }

    pub fn from_index(i: u8) -> (r: File)
        requires
            i < 8,
        ensures
            r.idx() == i,
            r == File::of(i as int),
    {
        match i {
            0 => File::A,
            1 => File::B,
            2 => File::C,
            3 => File::D,
            4 => File::E,
            5 => File::F,
            6 => File::G,
            _ => File::H,
        }
    }

    pub proof fn lemma_idx(self)
        ensures
            0 <= self.idx() < 8,
            File::of(self.idx()) == self,
    {
    }

    pub proof fn lemma_of(i: int)
        requires
            0 <= i < 8,
        ensures
            File::of(i).idx() == i,
    {
    }

    /// The file `amount` steps towards the h-file.
    pub fn add(&mut self, amount: u8)
        requires
            old(self).idx() + amount < 8,
        ensures
            final(self).idx() == old(self).idx() + amount,
    {
        *self = File::from_index(self.index() + amount);
    }

    /// The file `amount` steps towards the a-file.
    pub fn sub(&mut self, amount: u8)
        requires
            old(self).idx() >= amount,
        ensures
            final(self).idx() == old(self).idx() - amount,
    {
        *self = File::from_index(self.index() - amount);
    }

    pub fn plus(&mut self)
        requires
            old(self).idx() < 7,
        ensures
            final(self).idx() == old(self).idx() + 1,
    {
        self.add(1);
    }

    pub fn minus(&mut self)
        requires
            old(self).idx() > 0,
        ensures
            final(self).idx() == old(self).idx() - 1,
    {
        self.sub(1);
    }

    /// The letter of the file as a byte of text.
    pub open spec fn letter(self) -> u8 {
        (97 + self.idx()) as u8
    }

    /// The file that the letter `c` names, if it names one.
    pub open spec fn of_letter(c: u8) -> Option<File> {
        if 97 <= c <= 104 {
            Some(File::of(c - 97))
        } else {
            None
        }
    }

    pub fn to_byte(self) -> (r: u8)
        ensures
            r == self.letter(),
    {
        97 + self.index()
    }

    pub fn from_byte(c: u8) -> (r: Option<File>)
        ensures
            r == File::of_letter(c),
    {
        if 97 <= c && c <= 104 {
            Some(File::from_index(c - 97))
        } else {
            None
        }
    }
}

} // verus!
