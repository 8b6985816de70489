//! The mutations of Rust: the shared ones, and the range of a `for`.

use crate::engine::mutations::{
    common_codes, common_mutations, common_table, lemma_common_codes, slug_code,
};
use crate::types::mutation::{slugs_unique, Mutation, MutationSeverity};
use vstd::prelude::*;

verus! {

/// The descriptors of the mutations of Rust alone.
pub open spec fn rust_only_table() -> Seq<Mutation> {
    seq![
        Mutation {
            slug: "RZ",
            description: "Replace what a for loop runs over with zero",
            severity: MutationSeverity::Medium,
        },
    ]
}

/// The descriptors of the mutations of Rust.
pub open spec fn rust_table() -> Seq<Mutation> {
    common_table() + rust_only_table()
}

/// The descriptors of the mutations of Rust.
pub fn rust_mutations() -> (r: Vec<Mutation>)
    ensures
        r@ == rust_table(),
{
    let mut mutations = common_mutations();
    mutations.push(
        Mutation {
            slug: "RZ",
            description: "Replace what a for loop runs over with zero",
            severity: MutationSeverity::Medium,
        },
    );
    assert(mutations@ =~= rust_table());
    mutations
}

/// No two mutations of Rust have the same slug.
pub proof fn lemma_rust_slugs_unique()
    ensures
        slugs_unique(rust_table()),
{
    lemma_common_codes();
    reveal_strlit("RZ");
    assert(slug_code("RZ"@) == 1381629952) by {
        assert("RZ"@.len() == 2 && "RZ"@[0] == 'R' && "RZ"@[1] == 'Z');
    }
    let table = rust_table();
    let codes = common_codes().push(1381629952);
    assert forall|i: int, j: int| 0 <= i < j < table.len() implies (#[trigger] table[i]).slug@ != (
    #[trigger] table[j]).slug@ by {
        assert(slug_code(table[i].slug@) == codes[i]);
        assert(slug_code(table[j].slug@) == codes[j]);
        assert(codes[i] != codes[j]);
    }
}

} // verus!
