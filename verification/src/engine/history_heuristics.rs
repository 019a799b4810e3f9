//! For each side and each pair of squares, how often a move between them refuted a line.

use vstd::prelude::*;
use crate::chess::move_ply::MovePly;
use crate::chess::types::color::Color;

verus! {

pub struct HistoryHeuristics {
    square_data: Vec<u16>,
}

impl HistoryHeuristics {
    pub closed spec fn wf(&self) -> bool {
        self.square_data.len() == 8192
    }

    /// The count of the moves of `side` from the square `from` to the square `to`.
    pub closed spec fn count(&self, side: Color, from: int, to: int) -> u16 {
        self.square_data[4096 * side.idx() + from + 64 * to]
    }

    pub fn get_history(&self, cur_move: MovePly, side_to_move: Color) -> (r: u16)
        requires
            self.wf(),
        ensures
            r == self.count(side_to_move, cur_move.from_idx(), cur_move.to_idx()),
    {
        let cur_square_data: usize = cur_move.squares_key();
        self.square_data[4096 * side_to_move.index() + cur_square_data]
    }

    /// Counts one more for the squares of `cur_move`. The count stops at 65535.
    pub fn update_history(&mut self, cur_move: MovePly, side_to_move: Color)
        requires
            old(self).wf(),
        ensures
            final(self).wf(),
            forall|side: Color, from: int, to: int|
                0 <= from < 64 && 0 <= to < 64 ==> #[trigger] final(self).count(side, from, to) == if side
                    == side_to_move && from == cur_move.from_idx() && to == cur_move.to_idx() {
                    if old(self).count(side, from, to) < u16::MAX {
                        (old(self).count(side, from, to) + 1) as u16
                    } else {
                        u16::MAX
                    }
                } else {
                    old(self).count(side, from, to)
                },
    {
        let cur_square_data: usize = cur_move.squares_key();
        let i: usize = 4096 * side_to_move.index() + cur_square_data;
        let before: u16 = self.square_data[i];
        if before < u16::MAX {
            self.square_data[i] = before + 1;
        }
        proof {
            cur_move.lemma_ranges();
        }
    }
}

impl Default for HistoryHeuristics {
    fn default() -> (r: HistoryHeuristics)
        ensures
            r.wf(),
            forall|side: Color, from: int, to: int|
                0 <= from < 64 && 0 <= to < 64 ==> #[trigger] r.count(side, from, to) == 0,
    {
        let mut square_data: Vec<u16> = Vec::new();
        let mut i: usize = 0;
        while i < 8192
            invariant
                i <= 8192,
                square_data.len() == i,
                forall|k: int| 0 <= k < i ==> square_data[k] == 0,
            decreases 8192 - i,
        {
            square_data.push(0);
            i += 1;
        }
        HistoryHeuristics { square_data }
    }
}

} // verus!
