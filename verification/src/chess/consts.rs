//! Sizes that the whole crate shares.

use vstd::prelude::*;

verus! {

pub const NUM_SQUARES: usize = 64;

pub const NUM_PIECES: usize = 12;

pub const NUM_FILES: usize = 8;

pub const NUM_RANKS: usize = 8;

/// The deepest ply that a search reaches.
pub const MAX_DEPTH: usize = 256;

/// The largest number of moves of a position that the table of reductions has a place for.
pub const MAX_POSITIONAL_MOVES: usize = 256;

pub const KNIGHT_DIRECTIONS: [(i8, i8); 8] = [
    (-2, 1),
    (-1, 2),
    (1, 2),
    (2, 1),
    (2, -1),
    (1, -2),
    (-1, -2),
    (-2, -1),
];

pub const BISHOP_DIRECTIONS: [(i8, i8); 4] = [(1, 1), (-1, 1), (-1, -1), (1, -1)];

pub const ROOK_DIRECTIONS: [(i8, i8); 4] = [(1, 0), (-1, 0), (0, 1), (0, -1)];

pub const QUEEN_DIRECTIONS: [(i8, i8); 8] = [
    (1, 1),
    (-1, 1),
    (-1, -1),
    (1, -1),
    (1, 0),
    (-1, 0),
    (0, 1),
    (0, -1),
];

pub const KING_DIRECTIONS: [(i8, i8); 8] = [
    (-1, 1),
    (0, 1),
    (1, 1),
    (1, 0),
    (1, -1),
    (0, -1),
    (-1, -1),
    (-1, 0),
];

pub const WHITE_PAWN_ATTACKS_DIRECTIONS: [(i8, i8); 2] = [(1, 1), (-1, 1)];

pub const BLACK_PAWN_ATTACKS_DIRECTIONS: [(i8, i8); 2] = [(1, -1), (-1, -1)];

/// The number of entries of the lookup table of the rook.
pub const NUM_ORTHOGONAL_ENTRIES: usize = 102400;

/// The number of entries of the lookup table of the bishop.
pub const NUM_DIAGONAL_ENTRIES: usize = 5248;

} // verus!
