pub mod types;
pub mod consts;
pub mod bitboard;
pub mod move_ply;
pub mod piece_list;
pub mod position;
pub mod board_state;
pub mod board;
pub mod geometry;
pub mod move_list;
pub mod attacks;
pub mod move_generator;
pub mod fen;
pub mod perft;
pub mod legality;
