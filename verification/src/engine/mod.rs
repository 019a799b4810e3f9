pub mod types;
pub mod arbiter;
pub mod killers;
pub mod history_heuristics;
pub mod counter_move_heuristics;
pub mod thread;
pub mod transposition;
pub mod search_limits;
pub mod eval;
pub mod see;
pub mod search;
