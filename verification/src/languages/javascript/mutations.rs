//! The mutations of JavaScript: the shared ones.

use crate::engine::mutations::{common_mutations, common_table, lemma_common_slugs_unique};
use crate::types::mutation::{slugs_unique, Mutation};
use vstd::prelude::*;

verus! {

/// The descriptors of the mutations of JavaScript alone: there are none.
pub open spec fn javascript_only_table() -> Seq<Mutation> {
    Seq::empty()
}

/// The descriptors of the mutations of JavaScript.
pub open spec fn javascript_table() -> Seq<Mutation> {
    common_table() + javascript_only_table()
}

/// The descriptors of the mutations of JavaScript.
pub fn javascript_mutations() -> (r: Vec<Mutation>)
    ensures
        r@ == javascript_table(),
{
    let mutations = common_mutations();
    assert(mutations@ =~= javascript_table());
    mutations
}

/// No two mutations of JavaScript have the same slug.
pub proof fn lemma_javascript_slugs_unique()
    ensures
        slugs_unique(javascript_table()),
{
    lemma_common_slugs_unique();
    assert(javascript_table() =~= common_table());
}

} // verus!
