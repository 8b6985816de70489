//! The language rulebooks.

pub mod javascript;
pub mod rust;
pub mod solidity;
pub mod tolk;
