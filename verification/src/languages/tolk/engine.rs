//! The Tolk rulebook.

use crate::engine::parser::{parsed_nodes, syntax_of, tree_for, tree_of};
use crate::engine::rules::{
    apply_rules, dispatches_all, lemma_aligned_dispatch, lemma_sound_mutants_fit, mutant_views,
    rulebook_mutants, sound_mutants, Rule, SlugRule,
};
use crate::engine::traits::{reads, LanguageEngine};
use crate::engine::tree::SyntaxTree;
use crate::languages::tolk::mutations::{tolk_mutations, tolk_table};
use crate::languages::tolk::syntax::{
    ARGUMENTS, BINARY_OPERATOR, BOOLEAN, BREAK_STATEMENT, CONDITION, CONTINUE_STATEMENT,
    DO_WHILE_STATEMENT, EXPRESSION_STATEMENT, FUNCTION_CALL, IF_STATEMENT, LOCAL_VARS_DECLARATION,
    REPEAT_STATEMENT, RETURN_STATEMENT, SET_ASSIGNMENT, THROW_STATEMENT, WHILE_STATEMENT,
};
use crate::text::bytes_of;
use crate::types::mutant::Mutant;
use crate::types::mutation::Mutation;
use crate::types::target::Target;
use vstd::prelude::*;

verus! {

/// `Language::new` of tree-sitter on the grammar that tree-sitter-tolk
/// holds.
#[verifier::external_body]
fn tolk_grammar() -> (language: tree_sitter::Language) {
    tree_sitter::Language::new(tree_sitter_tolk::LANGUAGE)
}

/// `Parser::new`, `Parser::set_language` and `Parser::parse` of
/// tree-sitter, with the grammar that tree-sitter-tolk holds: what a
/// fresh parser makes of the text under that grammar, and nothing where
/// it gives no tree or refuses the grammar. The tree is not spelled out
/// here; what it holds has the name `syntax_of`.
#[verifier::external_body]
fn parse_tolk(source: &str) -> (parsed: Option<tree_sitter::Tree>)
    ensures
        parsed_nodes(parsed) == syntax_of("tolk"@, source@),
{
    let mut parser = tree_sitter::Parser::new();
    match parser.set_language(&tree_sitter::Language::new(tree_sitter_tolk::LANGUAGE)) {
        Ok(()) => parser.parse(source, None),
        Err(_) => None,
    }
}

/// What each slug does in Tolk, in the order of the mutations.
pub open spec fn tolk_rule_table() -> Seq<SlugRule> {
    seq![
        SlugRule { slug: "ER", rule: Rule::Replace {
            kinds: &[
                EXPRESSION_STATEMENT,
                RETURN_STATEMENT,
                THROW_STATEMENT,
                LOCAL_VARS_DECLARATION,
                IF_STATEMENT,
                WHILE_STATEMENT,
                DO_WHILE_STATEMENT,
                REPEAT_STATEMENT,
            ],
            replacement: "throw 0",
            unless_holds: "throw",
        } },
        SlugRule { slug: "CR", rule: Rule::Wrap {
            kinds: &[
                EXPRESSION_STATEMENT,
                RETURN_STATEMENT,
                THROW_STATEMENT,
                LOCAL_VARS_DECLARATION,
                IF_STATEMENT,
                WHILE_STATEMENT,
                DO_WHILE_STATEMENT,
                REPEAT_STATEMENT,
            ],
            prefix: "/* ",
            suffix: " */",
        } },
        SlugRule { slug: "IF", rule: Rule::ReplaceCondition {
            kind: IF_STATEMENT,
            field: CONDITION,
            keywords: &["if"],
            replacement: "false",
        } },
        SlugRule { slug: "IT", rule: Rule::ReplaceCondition {
            kind: IF_STATEMENT,
            field: CONDITION,
            keywords: &["if"],
            replacement: "true",
        } },
        SlugRule { slug: "WF", rule: Rule::ReplaceCondition {
            kind: WHILE_STATEMENT,
            field: CONDITION,
            keywords: &["while"],
            replacement: "false",
        } },
        SlugRule { slug: "AS", rule: Rule::SwapArgs { kinds: &[FUNCTION_CALL], field: ARGUMENTS } },
        SlugRule { slug: "AOS", rule: Rule::ShuffleOperators {
            kinds: &[BINARY_OPERATOR],
            operators: &["+", "-", "*", "/", "%"],
        } },
        SlugRule { slug: "AAOS", rule: Rule::ShuffleOperators {
            kinds: &[SET_ASSIGNMENT],
            operators: &["+=", "-=", "*=", "/="],
        } },
        SlugRule { slug: "BOS", rule: Rule::ShuffleOperators {
            kinds: &[BINARY_OPERATOR],
            operators: &["&", "|", "^"],
        } },
        SlugRule { slug: "BAOS", rule: Rule::ShuffleOperators {
            kinds: &[SET_ASSIGNMENT],
            operators: &["&=", "|=", "^="],
        } },
        SlugRule { slug: "BL", rule: Rule::ShuffleNodes {
            kinds: &[BOOLEAN],
            alternatives: &["true", "false"],
        } },
        SlugRule { slug: "COS", rule: Rule::ShuffleOperators {
            kinds: &[BINARY_OPERATOR],
            operators: &["==", "!=", "<", "<=", ">", ">="],
        } },
        SlugRule { slug: "LOS", rule: Rule::ShuffleOperators {
            kinds: &[BINARY_OPERATOR],
            operators: &["&&", "||"],
        } },
        SlugRule { slug: "SOS", rule: Rule::ShuffleOperators {
            kinds: &[BINARY_OPERATOR],
            operators: &["<<", ">>"],
        } },
        SlugRule { slug: "SAOS", rule: Rule::ShuffleOperators {
            kinds: &[SET_ASSIGNMENT],
            operators: &["<<=", ">>="],
        } },
        SlugRule { slug: "LC", rule: Rule::ShuffleNodes {
            kinds: &[BREAK_STATEMENT, CONTINUE_STATEMENT],
            alternatives: &["break", "continue"],
        } },
    ]
}

/// What each slug does in Tolk.
pub fn tolk_rules() -> (r: Vec<SlugRule>)
    ensures
        r@ == tolk_rule_table(),
{
    let r = vec![
        SlugRule { slug: "ER", rule: Rule::Replace {
            kinds: &[
                EXPRESSION_STATEMENT,
                RETURN_STATEMENT,
                THROW_STATEMENT,
                LOCAL_VARS_DECLARATION,
                IF_STATEMENT,
                WHILE_STATEMENT,
                DO_WHILE_STATEMENT,
                REPEAT_STATEMENT,
            ],
            replacement: "throw 0",
            unless_holds: "throw",
        } },
        SlugRule { slug: "CR", rule: Rule::Wrap {
            kinds: &[
                EXPRESSION_STATEMENT,
                RETURN_STATEMENT,
                THROW_STATEMENT,
                LOCAL_VARS_DECLARATION,
                IF_STATEMENT,
                WHILE_STATEMENT,
                DO_WHILE_STATEMENT,
                REPEAT_STATEMENT,
            ],
            prefix: "/* ",
            suffix: " */",
        } },
        SlugRule { slug: "IF", rule: Rule::ReplaceCondition {
            kind: IF_STATEMENT,
            field: CONDITION,
            keywords: &["if"],
            replacement: "false",
        } },
        SlugRule { slug: "IT", rule: Rule::ReplaceCondition {
            kind: IF_STATEMENT,
            field: CONDITION,
            keywords: &["if"],
            replacement: "true",
        } },
        SlugRule { slug: "WF", rule: Rule::ReplaceCondition {
            kind: WHILE_STATEMENT,
            field: CONDITION,
            keywords: &["while"],
            replacement: "false",
        } },
        SlugRule { slug: "AS", rule: Rule::SwapArgs { kinds: &[FUNCTION_CALL], field: ARGUMENTS } },
        SlugRule { slug: "AOS", rule: Rule::ShuffleOperators {
            kinds: &[BINARY_OPERATOR],
            operators: &["+", "-", "*", "/", "%"],
        } },
        SlugRule { slug: "AAOS", rule: Rule::ShuffleOperators {
            kinds: &[SET_ASSIGNMENT],
            operators: &["+=", "-=", "*=", "/="],
        } },
        SlugRule { slug: "BOS", rule: Rule::ShuffleOperators {
            kinds: &[BINARY_OPERATOR],
            operators: &["&", "|", "^"],
        } },
        SlugRule { slug: "BAOS", rule: Rule::ShuffleOperators {
            kinds: &[SET_ASSIGNMENT],
            operators: &["&=", "|=", "^="],
        } },
        SlugRule { slug: "BL", rule: Rule::ShuffleNodes {
            kinds: &[BOOLEAN],
            alternatives: &["true", "false"],
        } },
        SlugRule { slug: "COS", rule: Rule::ShuffleOperators {
            kinds: &[BINARY_OPERATOR],
            operators: &["==", "!=", "<", "<=", ">", ">="],
        } },
        SlugRule { slug: "LOS", rule: Rule::ShuffleOperators {
            kinds: &[BINARY_OPERATOR],
            operators: &["&&", "||"],
        } },
        SlugRule { slug: "SOS", rule: Rule::ShuffleOperators {
            kinds: &[BINARY_OPERATOR],
            operators: &["<<", ">>"],
        } },
        SlugRule { slug: "SAOS", rule: Rule::ShuffleOperators {
            kinds: &[SET_ASSIGNMENT],
            operators: &["<<=", ">>="],
        } },
        SlugRule { slug: "LC", rule: Rule::ShuffleNodes {
            kinds: &[BREAK_STATEMENT, CONTINUE_STATEMENT],
            alternatives: &["break", "continue"],
        } },
    ];
    assert(r@ =~= tolk_rule_table());
    r
}

/// Every mutation of Tolk has a rule: no slug of the rulebook is
/// unknown to it.
pub proof fn lemma_tolk_dispatch_total()
    ensures
        dispatches_all(tolk_table(), tolk_rule_table()),
{
    lemma_aligned_dispatch(tolk_table(), tolk_rule_table());
}

/// The rulebook of Tolk.
pub struct TolkLanguageEngine {
    mutations: Vec<Mutation>,
}

impl TolkLanguageEngine {
    #[verifier::type_invariant]
    spec fn holds_table(&self) -> bool {
        self.mutations@ == tolk_table()
    }

    /// The rulebook of Tolk: it holds the mutations of Tolk, in the
    /// order of their table.
    pub fn new() -> (r: Self)
        ensures
            r@ == tolk_table(),
    {
        Self { mutations: tolk_mutations() }
    }

    /// The mutants of a target, given the tree of its text: for each
    /// mutation of Tolk in turn, what its rule proposes.
    pub fn mutants_for_tree(&self, tree: &SyntaxTree, target: &Target) -> (r: Vec<Mutant>)
        requires
            tree.wf(),
            tree.fits(target.bytes()),
        ensures
            mutant_views(r@) == rulebook_mutants(
                tree@,
                target.bytes(),
                target.id,
                tolk_table(),
                tolk_rule_table(),
                tolk_table().len() as int,
            ),
            sound_mutants(tree@, target.bytes(), target.id, tolk_table(), mutant_views(r@)),
    {
        proof {
            use_type_invariant(self);
        }
        let rules = tolk_rules();
        apply_rules(tree, target.text.as_str(), target.id, &self.mutations, &rules)
    }
}

impl TolkLanguageEngine {
    /// The syntax tree of `source` in the grammar of Tolk: what the
    /// parser makes of it, where that is a tree whose nodes span whole
    /// characters of `source`.
    pub fn parse(&self, source: &str) -> (r: Option<SyntaxTree>)
        ensures
            tree_for(syntax_of("tolk"@, source@), bytes_of(source@), r),
    {
        tree_of(parse_tolk(source), source)
    }
}

impl LanguageEngine for TolkLanguageEngine {
    open spec fn table(&self) -> Seq<Mutation> {
        tolk_table()
    }

    open spec fn title(&self) -> Seq<char> {
        "Tolk"@
    }

    open spec fn suffixes(&self) -> Seq<&'static str> {
        seq!["tolk"]
    }

    open spec fn rulebook(&self) -> Seq<SlugRule> {
        tolk_rule_table()
    }

    open spec fn grammar_for(&self, target: Target) -> Seq<char> {
        "tolk"@
    }

    fn name(&self) -> (r: &'static str) {
        "Tolk"
    }

    fn extensions(&self) -> (r: Vec<&'static str>) {
        vec!["tolk"]
    }

    fn tree_sitter_language(&self) -> (r: tree_sitter::Language) {
        tolk_grammar()
    }

    fn get_mutations(&self) -> (r: &Vec<Mutation>) {
        proof {
            use_type_invariant(self);
        }
        &self.mutations
    }

    fn apply_all_mutations(&self, target: &Target) -> (r: Vec<Mutant>) {
        let tree = self.parse(target.text.as_str());
        match tree {
            None => {
                let none: Vec<Mutant> = Vec::new();
                assert(mutant_views(none@).len() == 0);
                none
            },
            Some(tree) => {
                let mutants = self.mutants_for_tree(&tree, target);
                proof {
                    lemma_sound_mutants_fit(tree@, *target, tolk_table(), mutants@);
                    assert(reads(tree, *target));
                }
                mutants
            },
        }
    }
}

/// What a rulebook of Tolk holds: its mutations.
impl View for TolkLanguageEngine {
    type V = Seq<Mutation>;

    closed spec fn view(&self) -> Seq<Mutation> {
        self.mutations@
    }
}

} // verus!
