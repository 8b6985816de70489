//! A mutation-testing engine: it turns parsed source files into byte-range
//! edits (mutants), keeps targets, mutants and outcomes in a catalog, and
//! decides how a test campaign proceeds.

pub mod chars;
pub mod cli;
pub mod cmds;
pub mod engine;
pub mod languages;
pub mod main_shared;
pub mod registry;
pub mod runner;
pub mod store;
pub mod text;
pub mod types;
