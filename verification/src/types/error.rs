//! What can go wrong in the catalog.

use crate::types::hash::HashError;
use vstd::prelude::*;

verus! {

/// Why the catalog gives no answer.
#[derive(Debug)]
pub enum StoreError {
    /// No row has this id.
    NotFound(i64),
    /// A row names a status that is none.
    InvalidStatus(String),
    /// A row holds a hash that is none.
    InvalidHash(HashError),
    /// A row holds a time that is not in the form of RFC 3339.
    InvalidTime(String),
    /// A table has given out its last id.
    Full,
}

} // verus!
