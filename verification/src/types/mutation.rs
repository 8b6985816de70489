//! Mutation descriptors: what a rulebook advertises for each slug.

use vstd::prelude::*;

verus! {

/// How much an uncaught mutant of a kind says about the test suite.
#[derive(Debug, Clone, Copy, PartialEq, Eq, Structural, Hash)]
pub enum MutationSeverity {
    High,
    Medium,
    Low,
}

impl MutationSeverity {
    /// The rank of a severity: the higher the rank, the more severe.
    pub open spec fn spec_rank(self) -> u8 {
        match self {
            MutationSeverity::High => 2,
            MutationSeverity::Medium => 1,
            MutationSeverity::Low => 0,
        }
    }

    /// The rank of a severity: the higher the rank, the more severe.
    #[verifier::when_used_as_spec(spec_rank)]
    pub fn rank(self) -> (r: u8)
        ensures
            r == self.spec_rank(),
    {
        match self {
            MutationSeverity::High => 2,
            MutationSeverity::Medium => 1,
            MutationSeverity::Low => 0,
        }
    }

    /// Whether `self` is strictly more severe than `other`.
    pub fn outranks(self, other: MutationSeverity) -> (r: bool)
        ensures
            r == (self.spec_rank() > other.spec_rank()),
    {
        self.rank() > other.rank()
    }

    /// The name of the severity.
    pub fn to_string(&self) -> (r: String)
        ensures
            r@ == self.name(),
    {
        match self {
            MutationSeverity::High => "High".to_string(),
            MutationSeverity::Medium => "Medium".to_string(),
            MutationSeverity::Low => "Low".to_string(),
        }
    }

    /// The name of the severity.
    pub open spec fn name(self) -> Seq<char> {
        match self {
            MutationSeverity::High => "High"@,
            MutationSeverity::Medium => "Medium"@,
            MutationSeverity::Low => "Low"@,
        }
    }
}

/// One kind of mutation: its slug, what it does, and its severity.
#[derive(Debug, Clone, Copy)]
pub struct Mutation {
    pub slug: &'static str,
    pub description: &'static str,
    pub severity: MutationSeverity,
}

/// The position of the first descriptor with this slug, or the length of
/// the table where none has it.
pub open spec fn slug_position(table: Seq<Mutation>, slug: Seq<char>) -> int
    decreases table.len(),
{
    if table.len() == 0 {
        0
    } else if table[0].slug@ == slug {
        0
    } else {
        1 + slug_position(table.drop_first(), slug)
    }
}

/// No two descriptors of the table share a slug.
pub open spec fn slugs_unique(table: Seq<Mutation>) -> bool {
    forall|i: int, j: int|
        0 <= i < j < table.len() ==> (#[trigger] table[i]).slug@ != (#[trigger] table[j]).slug@
}

/// The severity of the first descriptor with this slug.
pub open spec fn severity_of(table: Seq<Mutation>, slug: Seq<char>) -> Option<MutationSeverity> {
    let at = slug_position(table, slug);
    if at < table.len() {
        Some(table[at].severity)
    } else {
        None
    }
}

/// Where `slug_position` points, the slug stands, and nowhere before.
pub proof fn lemma_slug_position(table: Seq<Mutation>, slug: Seq<char>)
    ensures
        0 <= slug_position(table, slug) <= table.len(),
        slug_position(table, slug) < table.len() ==> table[slug_position(table, slug)].slug@
            == slug,
        forall|k: int| 0 <= k < slug_position(table, slug) ==> (#[trigger] table[k]).slug@ != slug,
    decreases table.len(),
{
    if table.len() == 0 {
    } else if table[0].slug@ == slug {
    } else {
        let rest = table.drop_first();
        lemma_slug_position(rest, slug);
        let at = slug_position(rest, slug);
        assert forall|k: int| 0 <= k < 1 + at implies (#[trigger] table[k]).slug@ != slug by {
            if k > 0 {
                assert(table[k] == rest[k - 1]);
            }
        }
        if at < rest.len() {
            assert(table[1 + at] == rest[at]);
        }
    }
}

} // verus!
