//! For each side and each pair of squares, the move that last refuted a move between them.

use vstd::prelude::*;
use crate::chess::move_ply::MovePly;
use crate::chess::types::color::Color;

verus! {

pub struct CounterMoveHeuristics {
    square_data: Vec<MovePly>,
}

impl CounterMoveHeuristics {
    pub closed spec fn wf(&self) -> bool {
        self.square_data.len() == 8192
    }

    /// The answer recorded for `side` to a move from the square `from` to the square `to`.
    pub closed spec fn answer(&self, side: Color, from: int, to: int) -> MovePly {
        self.square_data[4096 * side.idx() + from + 64 * to]
    }

    pub fn get_counter_move(&self, cur_move: MovePly, side_to_move: Color) -> (r: MovePly)
        requires
            self.wf(),
        ensures
            r == self.answer(side_to_move, cur_move.from_idx(), cur_move.to_idx()),
    {
        let cur_square_data: usize = cur_move.squares_key();
        let counter_move = self.square_data[4096 * side_to_move.index() + cur_square_data];
        counter_move
    }

    pub fn update_counter_move(&mut self, cur_move: MovePly, counter_move: MovePly, side_to_move: Color)
        requires
            old(self).wf(),
        ensures
            final(self).wf(),
            forall|side: Color, from: int, to: int|
                0 <= from < 64 && 0 <= to < 64 ==> #[trigger] final(self).answer(side, from, to) == if side
                    == side_to_move && from == cur_move.from_idx() && to == cur_move.to_idx() {
                    counter_move
                } else {
                    old(self).answer(side, from, to)
                },
    {
        let cur_square_data: usize = cur_move.squares_key();
        self.square_data[4096 * side_to_move.index() + cur_square_data] = counter_move;
        proof {
            cur_move.lemma_ranges();
        }
    }
}

impl Default for CounterMoveHeuristics {
    fn default() -> (r: CounterMoveHeuristics)
        ensures
            r.wf(),
            forall|side: Color, from: int, to: int|
                0 <= from < 64 && 0 <= to < 64 ==> (#[trigger] r.answer(side, from, to)).bits() == 0,
    {
        let mut square_data: Vec<MovePly> = Vec::new();
        let mut i: usize = 0;
        while i < 8192
            invariant
                i <= 8192,
                square_data.len() == i,
                forall|k: int| 0 <= k < i ==> square_data[k].bits() == 0,
            decreases 8192 - i,
        {
            square_data.push(MovePly::default());
            i += 1;
        }
        CounterMoveHeuristics { square_data }
    }
}

} // verus!
