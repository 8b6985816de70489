//! The mutations of Solidity: the shared ones.

use crate::engine::mutations::{common_mutations, common_table, lemma_common_slugs_unique};
use crate::types::mutation::{slugs_unique, Mutation};
use vstd::prelude::*;

verus! {

/// The descriptors of the mutations of Solidity alone: there are none.
pub open spec fn solidity_only_table() -> Seq<Mutation> {
    Seq::empty()
}

/// The descriptors of the mutations of Solidity.
pub open spec fn solidity_table() -> Seq<Mutation> {
    common_table() + solidity_only_table()
}

/// The descriptors of the mutations of Solidity.
pub fn solidity_mutations() -> (r: Vec<Mutation>)
    ensures
        r@ == solidity_table(),
{
    let mutations = common_mutations();
    assert(mutations@ =~= solidity_table());
    mutations
}

/// No two mutations of Solidity have the same slug.
pub proof fn lemma_solidity_slugs_unique()
    ensures
        slugs_unique(solidity_table()),
{
    lemma_common_slugs_unique();
    assert(solidity_table() =~= common_table());
}

} // verus!
