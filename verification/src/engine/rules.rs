//! Rulebooks: which rewrite pattern a slug stands for in a language, and
//! how a rulebook turns a tree into mutants.

use crate::engine::patterns::{
    all_placed, placed, replace, replace_condition, replace_condition_edits, replace_edits,
    shuffle_nodes, shuffle_nodes_edits, shuffle_operators, shuffle_operators_edits, swap_args,
    swap_args_edits, views, wrap, wrap_edits, LacksText,
};
use crate::engine::tree::{SyntaxNode, SyntaxTree};
use crate::text::{bytes_of, str_eq};
use crate::types::mutant::{Mutant, MutantView, PartialMutant, PartialMutantView};
use crate::types::mutation::Mutation;
use vstd::prelude::*;

verus! {

/// What a slug does in a language: a rewrite pattern with the node kinds,
/// field names and texts of that language.
#[derive(Debug, Clone, Copy)]
pub enum Rule {
    /// `replace`, which passes over the nodes that hold `unless_holds`.
    Replace {
        kinds: &'static [&'static str],
        replacement: &'static str,
        unless_holds: &'static str,
    },
    /// `wrap`.
    Wrap { kinds: &'static [&'static str], prefix: &'static str, suffix: &'static str },
    /// `replace_condition`.
    ReplaceCondition {
        kind: &'static str,
        field: &'static str,
        keywords: &'static [&'static str],
        replacement: &'static str,
    },
    /// `swap_args`.
    SwapArgs { kinds: &'static [&'static str], field: &'static str },
    /// `shuffle_operators`.
    ShuffleOperators { kinds: &'static [&'static str], operators: &'static [&'static str] },
    /// `shuffle_nodes`.
    ShuffleNodes { kinds: &'static [&'static str], alternatives: &'static [&'static str] },
}

/// A slug and what it does.
#[derive(Debug, Clone, Copy)]
pub struct SlugRule {
    pub slug: &'static str,
    pub rule: Rule,
}

/// The edits that a rule proposes for a tree.
pub open spec fn rule_edits(nodes: Seq<SyntaxNode>, bytes: Seq<u8>, rule: Rule) -> Seq<
    PartialMutantView,
> {
    match rule {
        Rule::Replace { kinds, replacement, unless_holds } => replace_edits(
            nodes,
            bytes,
            kinds@,
            bytes_of(replacement@),
            LacksText { needle: unless_holds },
        ),
        Rule::Wrap { kinds, prefix, suffix } => wrap_edits(
            nodes,
            bytes,
            kinds@,
            bytes_of(prefix@),
            bytes_of(suffix@),
        ),
        Rule::ReplaceCondition { kind, field, keywords, replacement } => replace_condition_edits(
            nodes,
            bytes,
            kind@,
            field@,
            keywords@,
            bytes_of(replacement@),
        ),
        Rule::SwapArgs { kinds, field } => swap_args_edits(nodes, bytes, kinds@, field@),
        Rule::ShuffleOperators { kinds, operators } => shuffle_operators_edits(
            nodes,
            bytes,
            kinds@,
            operators@,
        ),
        Rule::ShuffleNodes { kinds, alternatives } => shuffle_nodes_edits(
            nodes,
            bytes,
            kinds@,
            alternatives@,
        ),
    }
}

/// The edits that a rule proposes for a tree.
pub fn apply_rule(tree: &SyntaxTree, source: &str, rule: &Rule) -> (r: Vec<PartialMutant>)
    requires
        tree.wf(),
        tree.fits(bytes_of(source@)),
    ensures
        views(r@) == rule_edits(tree@, bytes_of(source@), *rule),
        all_placed(tree@, bytes_of(source@), views(r@)),
{
    match rule {
        Rule::Replace { kinds, replacement, unless_holds } => replace(
            tree,
            source,
            kinds,
            replacement,
            &LacksText { needle: unless_holds },
        ),
        Rule::Wrap { kinds, prefix, suffix } => wrap(tree, source, kinds, prefix, suffix),
        Rule::ReplaceCondition { kind, field, keywords, replacement } => replace_condition(
            tree,
            source,
            kind,
            field,
            keywords,
            replacement,
        ),
        Rule::SwapArgs { kinds, field } => swap_args(tree, source, kinds, field),
        Rule::ShuffleOperators { kinds, operators } => shuffle_operators(
            tree,
            source,
            kinds,
            operators,
        ),
        Rule::ShuffleNodes { kinds, alternatives } => shuffle_nodes(
            tree,
            source,
            kinds,
            alternatives,
        ),
    }
}

/// The place of the first rule for the slug, or the number of rules
/// where there is none.
pub open spec fn rule_position(rules: Seq<SlugRule>, slug: Seq<char>, from: int) -> int
    decreases rules.len() - from,
{
    if from < 0 || from >= rules.len() {
        rules.len() as int
    } else if rules[from].slug@ == slug {
        from
    } else {
        rule_position(rules, slug, from + 1)
    }
}

/// The first rule for the slug.
pub open spec fn rule_for(rules: Seq<SlugRule>, slug: Seq<char>) -> Option<Rule> {
    let at = rule_position(rules, slug, 0);
    if 0 <= at < rules.len() {
        Some(rules[at].rule)
    } else {
        None
    }
}

/// The first rule for the slug.
pub fn find_rule(rules: &Vec<SlugRule>, slug: &str) -> (r: Option<Rule>)
    ensures
        r == rule_for(rules@, slug@),
{
    let mut at: usize = 0;
    while at < rules.len()
        invariant
            0 <= at <= rules@.len(),
            rule_position(rules@, slug@, 0) == rule_position(rules@, slug@, at as int),
        decreases rules@.len() - at,
    {
        if str_eq(rules[at].slug, slug) {
            return Some(rules[at].rule);
        }
        at += 1;
    }
    None
}

/// Whether the rulebook has a rule for each of the mutations.
pub open spec fn dispatches_all(mutations: Seq<Mutation>, rules: Seq<SlugRule>) -> bool {
    forall|k: int| 0 <= k < mutations.len() ==> rule_for(rules, (#[trigger] mutations[k]).slug@) is Some
}

/// A slug that stands in the rulebook has a rule.
pub proof fn lemma_rule_found(rules: Seq<SlugRule>, slug: Seq<char>, from: int, at: int)
    requires
        0 <= from <= at < rules.len(),
        rules[at].slug@ == slug,
    ensures
        from <= rule_position(rules, slug, from) <= at,
    decreases rules.len() - from,
{
    if rules[from].slug@ != slug {
        lemma_rule_found(rules, slug, from + 1, at);
    }
}

/// A rulebook that holds, at the place of each mutation, a rule under the
/// slug of that mutation, has a rule for each mutation.
pub proof fn lemma_aligned_dispatch(mutations: Seq<Mutation>, rules: Seq<SlugRule>)
    requires
        mutations.len() == rules.len(),
        forall|k: int| 0 <= k < mutations.len() ==> (#[trigger] mutations[k]).slug@ == rules[k].slug@,
    ensures
        dispatches_all(mutations, rules),
{
    assert forall|k: int| 0 <= k < mutations.len() implies rule_for(
        rules,
        (#[trigger] mutations[k]).slug@,
    ) is Some by {
        lemma_rule_found(rules, mutations[k].slug@, 0, k);
    }
}

/// The edit as a mutant of a target and a slug, not yet in the catalog.
pub open spec fn tag(edit: PartialMutantView, target_id: i64, slug: Seq<char>) -> MutantView {
    MutantView {
        id: 0,
        target_id,
        byte_offset: edit.byte_offset,
        line_offset: edit.line_offset,
        old_text: edit.old_text,
        new_text: edit.new_text,
        mutation_slug: slug,
    }
}

/// The edits as mutants of a target and a slug.
pub open spec fn tagged(edits: Seq<PartialMutantView>, target_id: i64, slug: Seq<char>) -> Seq<
    MutantView,
> {
    edits.map_values(|edit: PartialMutantView| tag(edit, target_id, slug))
}

/// What the mutants say.
pub open spec fn mutant_views(mutants: Seq<Mutant>) -> Seq<MutantView> {
    mutants.map_values(|mutant: Mutant| mutant@)
}

/// The mutants that a slug stands for in a rulebook: those of its rule,
/// and none where the rulebook has no rule for it.
pub open spec fn slug_mutants(
    nodes: Seq<SyntaxNode>,
    bytes: Seq<u8>,
    target_id: i64,
    rules: Seq<SlugRule>,
    slug: Seq<char>,
) -> Seq<MutantView> {
    match rule_for(rules, slug) {
        Some(rule) => tagged(rule_edits(nodes, bytes, rule), target_id, slug),
        None => Seq::empty(),
    }
}

/// The mutants of the first `upto` mutations of a rulebook, mutation by
/// mutation.
pub open spec fn rulebook_mutants(
    nodes: Seq<SyntaxNode>,
    bytes: Seq<u8>,
    target_id: i64,
    mutations: Seq<Mutation>,
    rules: Seq<SlugRule>,
    upto: int,
) -> Seq<MutantView>
    decreases upto,
{
    if upto <= 0 {
        Seq::empty()
    } else {
        rulebook_mutants(nodes, bytes, target_id, mutations, rules, upto - 1) + slug_mutants(
            nodes,
            bytes,
            target_id,
            rules,
            mutations[upto - 1].slug@,
        )
    }
}

/// Whether each mutant is a true edit of the text, within a node outside
/// of comments, for the target and under one of the slugs.
pub open spec fn sound_mutants(
    nodes: Seq<SyntaxNode>,
    bytes: Seq<u8>,
    target_id: i64,
    mutations: Seq<Mutation>,
    mutants: Seq<MutantView>,
) -> bool {
    forall|i: int|
        0 <= i < mutants.len() ==> {
            &&& placed(nodes, bytes, (#[trigger] mutants[i]).edit())
            &&& mutants[i].target_id == target_id
            &&& mutants[i].id == 0
            &&& exists|k: int|
                0 <= k < mutations.len() && (#[trigger] mutations[k]).slug@
                    == mutants[i].mutation_slug
        }
}

/// Mutants that are sound for a tree fit the target.
pub proof fn lemma_sound_mutants_fit(
    nodes: Seq<SyntaxNode>,
    target: crate::types::target::Target,
    table: Seq<Mutation>,
    mutants: Seq<Mutant>,
)
    requires
        sound_mutants(nodes, target.bytes(), target.id, table, mutant_views(mutants)),
    ensures
        crate::engine::traits::mutants_fit(target, table, mutants),
{
    let said = mutant_views(mutants);
    assert forall|i: int| 0 <= i < mutants.len() implies {
        &&& crate::engine::patterns::valid_edit(target.bytes(), (#[trigger] mutants[i])@.edit())
        &&& mutants[i].target_id == target.id
        &&& exists|k: int|
            0 <= k < table.len() && (#[trigger] table[k]).slug@ == mutants[i].mutation_slug@
    } by {
        assert(said[i] == mutants[i]@);
        assert(placed(nodes, target.bytes(), said[i].edit()));
        let k = choose|k: int|
            0 <= k < table.len() && (#[trigger] table[k]).slug@ == said[i].mutation_slug;
        assert(table[k].slug@ == mutants[i].mutation_slug@);
    }
}

/// Adds to `out` the edits as mutants of the target and the slug.
fn push_tagged(out: &mut Vec<Mutant>, edits: &Vec<PartialMutant>, target_id: i64, slug: &str)
    ensures
        mutant_views(final(out)@) == mutant_views(old(out)@) + tagged(
            views(edits@),
            target_id,
            slug@,
        ),
{
    let mut i: usize = 0;
    assert(mutant_views(out@) =~= mutant_views(old(out)@) + tagged(
        views(edits@.take(0)),
        target_id,
        slug@,
    ));
    while i < edits.len()
        invariant
            0 <= i <= edits@.len(),
            mutant_views(out@) == mutant_views(old(out)@) + tagged(
                views(edits@.take(i as int)),
                target_id,
                slug@,
            ),
        decreases edits@.len() - i,
    {
        let edit = &edits[i];
        let mutant = Mutant {
            id: 0,
            target_id,
            byte_offset: edit.byte_offset,
            line_offset: edit.line_offset,
            old_text: edit.old_text.clone(),
            new_text: edit.new_text.clone(),
            mutation_slug: slug.to_string(),
        };
        proof {
            assert(mutant@ == tag(edit@, target_id, slug@));
            assert(edits@.take(i + 1) =~= edits@.take(i as int).push(*edit));
            assert(tagged(views(edits@.take(i + 1)), target_id, slug@) =~= tagged(
                views(edits@.take(i as int)),
                target_id,
                slug@,
            ).push(mutant@));
            assert(mutant_views(out@.push(mutant)) =~= mutant_views(out@).push(mutant@));
        }
        out.push(mutant);
        i += 1;
    }
    assert(edits@.take(edits@.len() as int) =~= edits@);
}

/// The mutants that a rulebook proposes for a tree: for each mutation in
/// turn, what its rule proposes.
pub fn apply_rules(
    tree: &SyntaxTree,
    source: &str,
    target_id: i64,
    mutations: &Vec<Mutation>,
    rules: &Vec<SlugRule>,
) -> (r: Vec<Mutant>)
    requires
        tree.wf(),
        tree.fits(bytes_of(source@)),
    ensures
        mutant_views(r@) == rulebook_mutants(
            tree@,
            bytes_of(source@),
            target_id,
            mutations@,
            rules@,
            mutations@.len() as int,
        ),
        sound_mutants(tree@, bytes_of(source@), target_id, mutations@, mutant_views(r@)),
{
    let ghost bytes = bytes_of(source@);
    let mut out: Vec<Mutant> = Vec::new();
    let mut at: usize = 0;
    assert(mutant_views(out@) =~= rulebook_mutants(tree@, bytes, target_id, mutations@, rules@, 0));
    while at < mutations.len()
        invariant
            tree.wf(),
            tree.fits(bytes),
            bytes == bytes_of(source@),
            0 <= at <= mutations@.len(),
            mutant_views(out@) == rulebook_mutants(
                tree@,
                bytes,
                target_id,
                mutations@,
                rules@,
                at as int,
            ),
            sound_mutants(tree@, bytes, target_id, mutations@, mutant_views(out@)),
        decreases mutations@.len() - at,
    {
        let slug = mutations[at].slug;
        let ghost before = mutant_views(out@);
        match find_rule(rules, slug) {
            Some(rule) => {
                let edits = apply_rule(tree, source, &rule);
                push_tagged(&mut out, &edits, target_id, slug);
                proof {
                    let added = tagged(views(edits@), target_id, slug@);
                    let after = mutant_views(out@);
                    assert forall|i: int| 0 <= i < after.len() implies {
                        &&& placed(tree@, bytes, (#[trigger] after[i]).edit())
                        &&& after[i].target_id == target_id
                        &&& after[i].id == 0
                        &&& exists|k: int|
                            0 <= k < mutations@.len() && (#[trigger] mutations@[k]).slug@
                                == after[i].mutation_slug
                    } by {
                        if i < before.len() {
                            assert(after[i] == before[i]);
                        } else {
                            let edit = views(edits@)[i - before.len()];
                            assert(after[i] == added[i - before.len()]);
                            assert(after[i].edit() == edit);
                            assert(placed(tree@, bytes, edit));
                            assert(mutations@[at as int].slug@ == after[i].mutation_slug);
                        }
                    }
                }
            },
            None => {
                assert(before + slug_mutants(tree@, bytes, target_id, rules@, slug@) =~= before);
            },
        }
        at += 1;
    }
    out
}

} // verus!
