//! A set of squares in one 64-bit word.

use vstd::prelude::*;
use crate::chess::types::square::Square;
use crate::general::bits::{bit, member, group_bits};

verus! {

#[derive(Clone, Copy, PartialEq, Eq, Structural, Debug)]
pub struct Bitboard(pub u64);

impl Bitboard {
    /// Whether the square with number `i` is in the set.
    pub open spec fn holds(self, i: int) -> bool {
        member(self.0, i)
    }

    /// The empty set.
    pub fn empty() -> (r: Bitboard)
        ensures
            r.0 == 0,
    {
        Bitboard(0)
    }

    /// Takes `from` out of the set and puts `to` into it.
    pub fn move_piece(&mut self, from: Square, to: Square)
        ensures
            final(self).0 == (old(self).0 ^ bit(from.idx())) | bit(to.idx()),
            old(self).holds(from.idx()) ==> forall|i: int|
                0 <= i < 64 ==> #[trigger] member(final(self).0, i) == (i == to.idx() || (member(old(self).0, i)
                    && i != from.idx())),
    {
        self.remove_piece(from);
        self.add_piece(to);
        proof {
            from.lemma_idx();
            to.lemma_idx();
            broadcast use group_bits;
        }
    }

    /// Puts `square` into the set.
    pub fn add_piece(&mut self, square: Square)
        ensures
            final(self).0 == old(self).0 | bit(square.idx()),
            forall|i: int|
                0 <= i < 64 ==> #[trigger] member(final(self).0, i) == (member(old(self).0, i) || i
                    == square.idx()),
    {
        self.0 = self.0 | square.mask();
        proof {
            square.lemma_idx();
            broadcast use group_bits;
        }
    }

    /// Toggles `square`; this takes it out of a set that holds it.
    pub fn remove_piece(&mut self, square: Square)
        ensures
            final(self).0 == old(self).0 ^ bit(square.idx()),
            old(self).holds(square.idx()) ==> forall|i: int|
                0 <= i < 64 ==> #[trigger] member(final(self).0, i) == (member(old(self).0, i) && i
                    != square.idx()),
    {
        self.0 = self.0 ^ square.mask();
        proof {
            square.lemma_idx();
            broadcast use group_bits;
        }
    }
}

} // verus!
