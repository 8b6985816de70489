//! What a language has to offer to take part: a name, file extensions, a
//! grammar, its mutations, and the mutants of a target.

use crate::engine::parser::{records_fit, syntax_of};
use crate::engine::patterns::valid_edit;
use crate::engine::rules::{mutant_views, rulebook_mutants, SlugRule};
use crate::engine::tree::{records_form_tree, tell, NodeRecord, SyntaxTree};
use crate::text::str_eq;
use crate::types::mutant::{Mutant, MutantView};
use crate::types::mutation::{
    lemma_slug_position, severity_of, slug_position, Mutation, MutationSeverity,
};
use crate::types::target::Target;
use vstd::prelude::*;

verus! {

/// The slugs of the descriptors, in their order.
pub open spec fn slugs_of(table: Seq<Mutation>) -> Seq<Seq<char>> {
    table.map_values(|mutation: Mutation| mutation.slug@)
}

/// The texts as sequences of characters.
pub open spec fn texts(list: Seq<String>) -> Seq<Seq<char>> {
    list.map_values(|text: String| text@)
}

/// Whether each mutant is a true edit of the text of the target, for
/// that target and under a slug of the table.
pub open spec fn mutants_fit(target: Target, table: Seq<Mutation>, mutants: Seq<Mutant>) -> bool {
    forall|i: int|
        0 <= i < mutants.len() ==> {
            &&& valid_edit(target.bytes(), (#[trigger] mutants[i])@.edit())
            &&& mutants[i].target_id == target.id
            &&& exists|k: int|
                0 <= k < table.len() && (#[trigger] table[k]).slug@ == mutants[i].mutation_slug@
        }
}

/// Whether the tree is one of the text of the target: it is well formed,
/// and its nodes span whole characters of the text.
pub open spec fn reads(tree: SyntaxTree, target: Target) -> bool {
    tree.wf() && tree.fits(target.bytes())
}

/// What a rulebook proposes for a tree of the text of a target: for each
/// of its mutations in turn, the mutants of the rule with that slug.
pub open spec fn proposals(
    tree: SyntaxTree,
    target: Target,
    table: Seq<Mutation>,
    rules: Seq<SlugRule>,
) -> Seq<MutantView> {
    rulebook_mutants(tree@, target.bytes(), target.id, table, rules, table.len() as int)
}

/// Whether the mutants are what a rulebook proposes for what the parser
/// made of the text of a target. Where the parser gave nodes that form a
/// tree over the text, they are the proposals for the tree whose nodes
/// say what the parser reported; where it gave none, or what it gave is
/// no such tree, there are no mutants.
pub open spec fn proposed(
    parsed: Option<Seq<NodeRecord>>,
    target: Target,
    table: Seq<Mutation>,
    rules: Seq<SlugRule>,
    mutants: Seq<MutantView>,
) -> bool {
    if parsed is Some && records_form_tree(parsed->0) && records_fit(parsed->0, target.bytes()) {
        exists|tree: SyntaxTree| #[trigger]
            reads(tree, target) && tree@.len() == parsed->0.len() && tell(tree@, parsed->0)
                && mutants == proposals(tree, target, table, rules)
    } else {
        mutants.len() == 0
    }
}

/// A language rulebook.
pub trait LanguageEngine {
    /// The descriptors of the mutations of the language.
    spec fn table(&self) -> Seq<Mutation>;

    /// The name of the language.
    spec fn title(&self) -> Seq<char>;

    /// The file extensions of the language, without the dot.
    spec fn suffixes(&self) -> Seq<&'static str>;

    /// The rules of the language: for each slug, the rewrite that makes
    /// its mutants.
    spec fn rulebook(&self) -> Seq<SlugRule>;

    /// The name of the grammar by which the text of a target is parsed.
    spec fn grammar_for(&self, target: Target) -> Seq<char>;

    /// The name of the language.
    fn name(&self) -> (r: &'static str)
        ensures
            r@ == self.title(),
    ;

    /// The file extensions of the language, without the dot.
    fn extensions(&self) -> (r: Vec<&'static str>)
        ensures
            r@ == self.suffixes(),
    ;

    /// The grammar by which the language is parsed.
    fn tree_sitter_language(&self) -> (r: tree_sitter::Language);

    /// The descriptors of the mutations of the language.
    fn get_mutations(&self) -> (r: &Vec<Mutation>)
        ensures
            r@ == self.table(),
    ;

    /// The mutants of a target: what the rulebook proposes for the tree
    /// that the parser makes of the text under the grammar for the
    /// target, and none where it makes none. Each mutant is a true edit
    /// of the text.
    fn apply_all_mutations(&self, target: &Target) -> (r: Vec<Mutant>)
        ensures
            mutants_fit(*target, self.table(), r@),
            proposed(
                syntax_of(self.grammar_for(*target), target.text@),
                *target,
                self.table(),
                self.rulebook(),
                mutant_views(r@),
            ),
    ;

    /// The slugs of the language, in the order of its mutations.
    fn get_all_slugs(&self) -> (r: Vec<String>)
        ensures
            texts(r@) == slugs_of(self.table()),
    {
        let mutations = self.get_mutations();
        let mut slugs: Vec<String> = Vec::new();
        let mut at: usize = 0;
        assert(texts(slugs@) =~= slugs_of(mutations@.take(0)));
        while at < mutations.len()
            invariant
                0 <= at <= mutations@.len(),
                texts(slugs@) == slugs_of(mutations@.take(at as int)),
            decreases mutations@.len() - at,
        {
            let slug = mutations[at].slug.to_string();
            proof {
                assert(mutations@.take(at + 1) =~= mutations@.take(at as int).push(
                    mutations@[at as int],
                ));
                assert(slug@ == mutations@[at as int].slug@);
                assert(texts(slugs@.push(slug)) =~= texts(slugs@).push(slug@));
                assert(slugs_of(mutations@.take(at + 1)) =~= slugs_of(
                    mutations@.take(at as int),
                ).push(mutations@[at as int].slug@));
            }
            slugs.push(slug);
            at += 1;
        }
        assert(mutations@.take(mutations@.len() as int) =~= mutations@);
        slugs
    }

    /// The severity of the first mutation with this slug.
    fn get_severity_by_slug(&self, slug: &str) -> (r: Option<MutationSeverity>)
        ensures
            r == severity_of(self.table(), slug@),
    {
        find_severity(self.get_mutations(), slug)
    }
}

/// The severity of the first descriptor with this slug.
pub fn find_severity(mutations: &Vec<Mutation>, slug: &str) -> (r: Option<MutationSeverity>)
    ensures
        r == severity_of(mutations@, slug@),
{
    let mut at: usize = 0;
    while at < mutations.len()
        invariant
            0 <= at <= mutations@.len(),
            forall|k: int| 0 <= k < at ==> (#[trigger] mutations@[k]).slug@ != slug@,
        decreases mutations@.len() - at,
    {
        if str_eq(mutations[at].slug, slug) {
            proof {
                lemma_slug_position(mutations@, slug@);
                let found = slug_position(mutations@, slug@);
                if found > at {
                    assert(mutations@[at as int].slug@ != slug@);
                }
            }
            return Some(mutations[at].severity);
        }
        at += 1;
    }
    proof {
        lemma_slug_position(mutations@, slug@);
    }
    None
}

} // verus!
