//! How a game stands for the side to move.

use vstd::prelude::*;

verus! {

#[derive(Clone, Copy, PartialEq, Eq, Structural, Debug)]
pub enum MatchResult {
    Win,
    Loss,
    Draw,
    Ongoing,
}

} // verus!
