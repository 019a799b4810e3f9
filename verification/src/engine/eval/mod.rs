pub mod network;
pub mod accumulator;
pub mod nnue;
