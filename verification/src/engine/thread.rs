//! What one search keeps for itself.

use vstd::prelude::*;
use crate::engine::counter_move_heuristics::CounterMoveHeuristics;
use crate::engine::history_heuristics::HistoryHeuristics;
use crate::engine::killers::Killers;

verus! {

pub struct ThreadData {
    pub killers: Killers,
    pub history_heuristics: HistoryHeuristics,
    pub counter_move_heuristics: CounterMoveHeuristics,
    pub nodes: u64,
    /// Whether the clock has said to a node of this search that the hard stop is reached. What
    /// a search returns after that counts for nothing.
    pub stopped: bool,
}

impl ThreadData {
    pub open spec fn wf(&self) -> bool {
        &&& self.killers.wf()
        &&& self.history_heuristics.wf()
        &&& self.counter_move_heuristics.wf()
    }
}

impl Default for ThreadData {
    fn default() -> (r: ThreadData)
        ensures
            r.wf(),
            r.nodes == 0,
            !r.stopped,
    {
        Self {
            killers: Killers::default(),
            history_heuristics: HistoryHeuristics::default(),
            counter_move_heuristics: CounterMoveHeuristics::default(),
            nodes: 0,
            stopped: false,
        }
    }
}

} // verus!
