//! The tables that move generation and hashing read, made once and shared.

use vstd::prelude::*;
use crate::chess::consts::{NUM_DIAGONAL_ENTRIES, NUM_ORTHOGONAL_ENTRIES};
use crate::chess::geometry::{bishop_hits, queen_hits, rook_hits};
use crate::chess::types::piece::BasePiece;
use crate::chess::types::square::Square;
use crate::general::bits::{group_bits, member};
use crate::precomputed::generators::inbetween::InBetween;
use crate::precomputed::generators::movement_mask::MovementMasks;
use crate::precomputed::generators::slider_lookup::SliderLookup;
use crate::precomputed::generators::zobrist::Zobrist;

verus! {

pub struct Precomputed {
    pub movement_masks: MovementMasks,
    pub in_between: InBetween,
    pub zobrist: Zobrist,
    pub diagonal_lookup: SliderLookup<NUM_DIAGONAL_ENTRIES>,
    pub orthogonal_lookup: SliderLookup<NUM_ORTHOGONAL_ENTRIES>,
}

impl Precomputed {
    /// Every table holds what its generator promises.
    pub open spec fn wf(&self) -> bool {
        &&& self.movement_masks.wf()
        &&& self.in_between.wf()
        &&& self.zobrist.wf()
        &&& self.diagonal_lookup.wf()
        &&& self.orthogonal_lookup.wf()
    }

    /// Makes all tables. The Zobrist keys are drawn at random.
    pub fn new() -> (r: Precomputed)
        ensures
            r.wf(),
    {
        Precomputed {
            movement_masks: MovementMasks::new(),
            in_between: InBetween::new(),
            zobrist: Zobrist::new(),
            diagonal_lookup: SliderLookup::<NUM_DIAGONAL_ENTRIES>::new(),
            orthogonal_lookup: SliderLookup::<NUM_ORTHOGONAL_ENTRIES>::new(),
        }
    }
}

/// The squares that a rook on `square` reaches over `occupied`, the first piece in its way included.
#[inline(always)]
pub fn rook_lookup(tables: &Precomputed, square: Square, occupied: u64) -> (r: u64)
    requires
        tables.wf(),
    ensures
        forall|t: int| 0 <= t < 64 ==> (#[trigger] member(r, t) <==> rook_hits(occupied, square.idx(), t)),
{
    tables.orthogonal_lookup.lookup(square, occupied)
}

/// The squares that a bishop on `square` reaches over `occupied`, the first piece in its way included.
#[inline(always)]
pub fn bishop_lookup(tables: &Precomputed, square: Square, occupied: u64) -> (r: u64)
    requires
        tables.wf(),
    ensures
        forall|t: int| 0 <= t < 64 ==> (#[trigger] member(r, t) <==> bishop_hits(occupied, square.idx(), t)),
{
    tables.diagonal_lookup.lookup(square, occupied)
}

#[inline(always)]
pub fn queen_lookup(tables: &Precomputed, square: Square, occupied: u64) -> (r: u64)
    requires
        tables.wf(),
    ensures
        forall|t: int| 0 <= t < 64 ==> (#[trigger] member(r, t) <==> queen_hits(occupied, square.idx(), t)),
{
    let r: u64 = rook_lookup(tables, square, occupied) | bishop_lookup(tables, square, occupied);
    proof {
        broadcast use group_bits;
    }
    r
}

/// The squares that a slider of kind `slider_type` on `square` reaches over `occupied`.
#[inline(always)]
pub fn slider_lookup(tables: &Precomputed, slider_type: BasePiece, square: Square, occupied: u64) -> (r: u64)
    requires
        tables.wf(),
        slider_type == BasePiece::Bishop || slider_type == BasePiece::Rook || slider_type == BasePiece::Queen,
    ensures
        forall|t: int|
            0 <= t < 64 ==> (#[trigger] member(r, t) <==> (match slider_type {
                BasePiece::Bishop => bishop_hits(occupied, square.idx(), t),
                BasePiece::Rook => rook_hits(occupied, square.idx(), t),
                _ => queen_hits(occupied, square.idx(), t),
            })),
{
    match slider_type {
        BasePiece::Bishop => bishop_lookup(tables, square, occupied),
        BasePiece::Rook => rook_lookup(tables, square, occupied),
        _ => queen_lookup(tables, square, occupied),
    }
}

} // verus!
