pub mod bits;
pub mod text;
