pub mod match_result;
pub mod tt_flag;
