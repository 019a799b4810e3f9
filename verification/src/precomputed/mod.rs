pub mod generators;
pub mod accessor;
