pub mod commands;
pub mod option_table;
pub mod parser;
