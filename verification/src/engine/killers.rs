//! Killer moves: for each ply the two moves that last refuted a line there.

use vstd::prelude::*;
use crate::chess::move_ply::MovePly;

verus! {

pub struct Killers {
    moves: Vec<MovePly>,
}

impl Killers {
    pub closed spec fn wf(&self) -> bool {
        self.moves.len() == 512
    }

    /// The killer in the slot `slot`, 0 or 1, of the ply `depth`.
    pub closed spec fn slot(&self, depth: int, slot: int) -> MovePly {
        self.moves[2 * depth + slot]
    }

    pub fn contains(&self, depth: u8, checked_move: MovePly) -> (r: bool)
        requires
            self.wf(),
        ensures
            r == (self.slot(depth as int, 0) == checked_move || self.slot(depth as int, 1) == checked_move),
    {
        if self.first_occupancy(depth) == checked_move || self.second_occupancy(depth) == checked_move {
            return true;
        }
        false
    }

    fn first_occupancy(&self, depth: u8) -> (r: MovePly)
        requires
            self.wf(),
        ensures
            r == self.slot(depth as int, 0),
    {
        self.moves[2 * (depth as usize)]
    }

    fn second_occupancy(&self, depth: u8) -> (r: MovePly)
        requires
            self.wf(),
        ensures
            r == self.slot(depth as int, 1),
    {
        self.moves[2 * (depth as usize) + 1]
    }

    /// Makes `cur_move` the first killer of the ply `depth`; the first one so far becomes
    /// the second.
    pub fn update(&mut self, cur_move: MovePly, depth: u8)
        requires
            old(self).wf(),
        ensures
            final(self).wf(),
            final(self).slot(depth as int, 0) == cur_move,
            final(self).slot(depth as int, 1) == old(self).slot(depth as int, 0),
            forall|d: int, s: int|
                0 <= d < 256 && 0 <= s < 2 && d != depth ==> final(self).slot(d, s) == old(self).slot(d, s),
    {
        let first_occupancy = self.first_occupancy(depth);
        self.moves[2 * (depth as usize)] = cur_move;
        self.moves[2 * (depth as usize) + 1] = first_occupancy;
    }
}

impl Default for Killers {
    fn default() -> (r: Killers)
        ensures
            r.wf(),
            forall|d: int, s: int| 0 <= d < 256 && 0 <= s < 2 ==> r.slot(d, s).bits() == 0,
    {
        let mut moves: Vec<MovePly> = Vec::new();
        let mut i: usize = 0;
        while i < 512
            invariant
                i <= 512,
                moves.len() == i,
                forall|k: int| 0 <= k < i ==> moves[k].bits() == 0,
            decreases 512 - i,
        {
            moves.push(MovePly::default());
            i += 1;
        }
        Killers { moves }
    }
}

} // verus!
