pub mod zobrist;
pub mod helpers;
pub mod movement_mask;
pub mod inbetween;
pub mod slider_lookup;
pub mod lmr_reduction;
