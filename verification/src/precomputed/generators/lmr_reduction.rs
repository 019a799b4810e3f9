//! The table of late-move reductions: by how many plies a move that comes late in the order
//! is searched less deep. The numbers are worked out with logarithms outside this library,
//! which holds no floating-point arithmetic; here the table is kept and read.

use vstd::prelude::*;
use crate::chess::consts::{MAX_DEPTH, MAX_POSITIONAL_MOVES};

verus! {

pub struct LMRReduction {
    reduction_table: Vec<[u8; MAX_POSITIONAL_MOVES]>,
}

impl LMRReduction {
    /// The rows of the table, one for each depth.
    pub closed spec fn rows(&self) -> Seq<[u8; MAX_POSITIONAL_MOVES]> {
        self.reduction_table@
    }

    /// The table has a row for each depth.
    pub open spec fn wf(&self) -> bool {
        self.rows().len() == MAX_DEPTH
    }

    /// The table with the given rows, if there is one row for each depth.
    pub fn new(reduction_table: Vec<[u8; MAX_POSITIONAL_MOVES]>) -> (r: Option<LMRReduction>)
        ensures
            r.is_some() == (reduction_table@.len() == MAX_DEPTH),
            r matches Some(table) ==> table.wf() && table.rows() == reduction_table@,
    {
        if reduction_table.len() != MAX_DEPTH {
            return None;
        }
        Some(LMRReduction { reduction_table })
    }

    /// The reduction for the move at the place `move_order` at the depth `depth`.
    pub fn reduction(&self, depth: u8, move_order: u8) -> (r: u8)
        requires
            self.wf(),
        ensures
            r == self.rows()[depth as int]@[move_order as int],
    {
        self.reduction_table[depth as usize][move_order as usize]
    }

    /// The rows of the table.
    pub fn table(&self) -> (r: &Vec<[u8; MAX_POSITIONAL_MOVES]>)
        ensures
            r@ == self.rows(),
    {
        &self.reduction_table
    }
}

} // verus!
