//! The mutations of Tolk: the shared ones.

use crate::engine::mutations::{common_mutations, common_table, lemma_common_slugs_unique};
use crate::types::mutation::{slugs_unique, Mutation};
use vstd::prelude::*;

verus! {

/// The descriptors of the mutations of Tolk alone: there are none.
pub open spec fn tolk_only_table() -> Seq<Mutation> {
    Seq::empty()
}

/// The descriptors of the mutations of Tolk.
pub open spec fn tolk_table() -> Seq<Mutation> {
    common_table() + tolk_only_table()
}

/// The descriptors of the mutations of Tolk.
pub fn tolk_mutations() -> (r: Vec<Mutation>)
    ensures
        r@ == tolk_table(),
{
    let mutations = common_mutations();
    assert(mutations@ =~= tolk_table());
    mutations
}

/// No two mutations of Tolk have the same slug.
pub proof fn lemma_tolk_slugs_unique()
    ensures
        slugs_unique(tolk_table()),
{
    lemma_common_slugs_unique();
    assert(tolk_table() =~= common_table());
}

} // verus!
