//! The mutation generator: syntax trees, the rewrite patterns that walk
//! them, and what a language rulebook has to offer.

pub mod mutations;
pub mod parser;
pub mod patterns;
pub mod rules;
pub mod traits;
pub mod tree;
pub mod utils;
