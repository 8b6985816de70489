pub mod engine;
pub mod mutations;
pub mod syntax;
