pub mod color;
pub mod file;
pub mod rank;
pub mod square;
pub mod piece;
pub mod move_flag;
