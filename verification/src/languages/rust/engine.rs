//! The Rust rulebook.

use crate::engine::parser::{parsed_nodes, syntax_of, tree_for, tree_of};
use crate::engine::rules::{
    apply_rules, dispatches_all, lemma_aligned_dispatch, lemma_sound_mutants_fit, mutant_views,
    rulebook_mutants, sound_mutants, Rule, SlugRule,
};
use crate::engine::traits::{reads, LanguageEngine};
use crate::engine::tree::SyntaxTree;
use crate::languages::rust::mutations::{rust_mutations, rust_table};
use crate::languages::rust::syntax::{
    ARGUMENTS, BINARY_EXPRESSION, BOOLEAN, BREAK_STATEMENT, CONDITION, CONTINUE_STATEMENT,
    EXPRESSION_STATEMENT, FOREACH_STATEMENT, IF_STATEMENT, LET_STATEMENT, METHOD_CALL_EXPRESSION,
    RETURN_STATEMENT, STATIC_CALL_EXPRESSION, WHILE_STATEMENT,
};
use crate::text::bytes_of;
use crate::types::mutant::Mutant;
use crate::types::mutation::Mutation;
use crate::types::target::Target;
use vstd::prelude::*;

verus! {

/// `Language::new` of tree-sitter on the grammar that tree-sitter-rust
/// holds.
#[verifier::external_body]
fn rust_grammar() -> (language: tree_sitter::Language) {
    tree_sitter::Language::new(tree_sitter_rust::LANGUAGE)
}

/// `Parser::new`, `Parser::set_language` and `Parser::parse` of
/// tree-sitter, with the grammar that tree-sitter-rust holds: what a
/// fresh parser makes of the text under that grammar, and nothing where
/// it gives no tree or refuses the grammar. The tree is not spelled out
/// here; what it holds has the name `syntax_of`.
#[verifier::external_body]
fn parse_rust(source: &str) -> (parsed: Option<tree_sitter::Tree>)
    ensures
        parsed_nodes(parsed) == syntax_of("rust"@, source@),
{
    let mut parser = tree_sitter::Parser::new();
    match parser.set_language(&tree_sitter::Language::new(tree_sitter_rust::LANGUAGE)) {
        Ok(()) => parser.parse(source, None),
        Err(_) => None,
    }
}

/// What each slug does in Rust, in the order of the mutations.
pub open spec fn rust_rule_table() -> Seq<SlugRule> {
    seq![
        SlugRule {
            slug: "ER",
            rule: Rule::Replace {
                kinds: &[
                    EXPRESSION_STATEMENT,
                    RETURN_STATEMENT,
                    LET_STATEMENT,
                    IF_STATEMENT,
                    WHILE_STATEMENT,
                    FOREACH_STATEMENT,
                ],
                replacement: "assert!(false);",
                unless_holds: "assert!(",
            },
        },
        SlugRule {
            slug: "CR",
            rule: Rule::Wrap {
                kinds: &[
                    EXPRESSION_STATEMENT,
                    RETURN_STATEMENT,
                    LET_STATEMENT,
                    IF_STATEMENT,
                    WHILE_STATEMENT,
                    FOREACH_STATEMENT,
                ],
                prefix: "/* ",
                suffix: " */",
            },
        },
        SlugRule {
            slug: "IF",
            rule: Rule::ReplaceCondition {
                kind: IF_STATEMENT,
                field: CONDITION,
                keywords: &["if"],
                replacement: "false",
            },
        },
        SlugRule {
            slug: "IT",
            rule: Rule::ReplaceCondition {
                kind: IF_STATEMENT,
                field: CONDITION,
                keywords: &["if"],
                replacement: "true",
            },
        },
        SlugRule {
            slug: "WF",
            rule: Rule::ReplaceCondition {
                kind: WHILE_STATEMENT,
                field: CONDITION,
                keywords: &["while"],
                replacement: "false",
            },
        },
        SlugRule {
            slug: "AS",
            rule: Rule::SwapArgs {
                kinds: &[METHOD_CALL_EXPRESSION, STATIC_CALL_EXPRESSION],
                field: ARGUMENTS,
            },
        },
        SlugRule {
            slug: "AOS",
            rule: Rule::ShuffleOperators {
                kinds: &[BINARY_EXPRESSION],
                operators: &["+", "-", "*", "/"],
            },
        },
        SlugRule {
            slug: "AAOS",
            rule: Rule::ShuffleOperators {
                kinds: &[BINARY_EXPRESSION],
                operators: &["+=", "-=", "*=", "/="],
            },
        },
        SlugRule {
            slug: "BOS",
            rule: Rule::ShuffleOperators { kinds: &[BINARY_EXPRESSION], operators: &["&", "|", "^"] },
        },
        SlugRule {
            slug: "BAOS",
            rule: Rule::ShuffleOperators {
                kinds: &[BINARY_EXPRESSION],
                operators: &["&=", "|=", "^="],
            },
        },
        SlugRule {
            slug: "BL",
            rule: Rule::ShuffleNodes { kinds: &[BOOLEAN], alternatives: &["true", "false"] },
        },
        SlugRule {
            slug: "COS",
            rule: Rule::ShuffleOperators {
                kinds: &[BINARY_EXPRESSION],
                operators: &["==", "!=", "<", "<=", ">", ">="],
            },
        },
        SlugRule {
            slug: "LOS",
            rule: Rule::ShuffleOperators { kinds: &[BINARY_EXPRESSION], operators: &["&&", "||"] },
        },
        SlugRule {
            slug: "SOS",
            rule: Rule::ShuffleOperators { kinds: &[BINARY_EXPRESSION], operators: &["<<", ">>"] },
        },
        SlugRule {
            slug: "SAOS",
            rule: Rule::ShuffleOperators { kinds: &[BINARY_EXPRESSION], operators: &["<<=", ">>="] },
        },
        SlugRule {
            slug: "LC",
            rule: Rule::ShuffleNodes {
                kinds: &[BREAK_STATEMENT, CONTINUE_STATEMENT],
                alternatives: &["break", "continue"],
            },
        },
        SlugRule {
            slug: "RZ",
            rule: Rule::ReplaceCondition {
                kind: FOREACH_STATEMENT,
                field: CONDITION,
                keywords: &["for"],
                replacement: "0",
            },
        },
    ]
}

/// What each slug does in Rust.
pub fn rust_rules() -> (r: Vec<SlugRule>)
    ensures
        r@ == rust_rule_table(),
{
    let r = vec![
        SlugRule {
            slug: "ER",
            rule: Rule::Replace {
                kinds: &[
                    EXPRESSION_STATEMENT,
                    RETURN_STATEMENT,
                    LET_STATEMENT,
                    IF_STATEMENT,
                    WHILE_STATEMENT,
                    FOREACH_STATEMENT,
                ],
                replacement: "assert!(false);",
                unless_holds: "assert!(",
            },
        },
        SlugRule {
            slug: "CR",
            rule: Rule::Wrap {
                kinds: &[
                    EXPRESSION_STATEMENT,
                    RETURN_STATEMENT,
                    LET_STATEMENT,
                    IF_STATEMENT,
                    WHILE_STATEMENT,
                    FOREACH_STATEMENT,
                ],
                prefix: "/* ",
                suffix: " */",
            },
        },
        SlugRule {
            slug: "IF",
            rule: Rule::ReplaceCondition {
                kind: IF_STATEMENT,
                field: CONDITION,
                keywords: &["if"],
                replacement: "false",
            },
        },
        SlugRule {
            slug: "IT",
            rule: Rule::ReplaceCondition {
                kind: IF_STATEMENT,
                field: CONDITION,
                keywords: &["if"],
                replacement: "true",
            },
        },
        SlugRule {
            slug: "WF",
            rule: Rule::ReplaceCondition {
                kind: WHILE_STATEMENT,
                field: CONDITION,
                keywords: &["while"],
                replacement: "false",
            },
        },
        SlugRule {
            slug: "AS",
            rule: Rule::SwapArgs {
                kinds: &[METHOD_CALL_EXPRESSION, STATIC_CALL_EXPRESSION],
                field: ARGUMENTS,
            },
        },
        SlugRule {
            slug: "AOS",
            rule: Rule::ShuffleOperators {
                kinds: &[BINARY_EXPRESSION],
                operators: &["+", "-", "*", "/"],
            },
        },
        SlugRule {
            slug: "AAOS",
            rule: Rule::ShuffleOperators {
                kinds: &[BINARY_EXPRESSION],
                operators: &["+=", "-=", "*=", "/="],
            },
        },
        SlugRule {
            slug: "BOS",
            rule: Rule::ShuffleOperators { kinds: &[BINARY_EXPRESSION], operators: &["&", "|", "^"] },
        },
        SlugRule {
            slug: "BAOS",
            rule: Rule::ShuffleOperators {
                kinds: &[BINARY_EXPRESSION],
                operators: &["&=", "|=", "^="],
            },
        },
        SlugRule {
            slug: "BL",
            rule: Rule::ShuffleNodes { kinds: &[BOOLEAN], alternatives: &["true", "false"] },
        },
        SlugRule {
            slug: "COS",
            rule: Rule::ShuffleOperators {
                kinds: &[BINARY_EXPRESSION],
                operators: &["==", "!=", "<", "<=", ">", ">="],
            },
        },
        SlugRule {
            slug: "LOS",
            rule: Rule::ShuffleOperators { kinds: &[BINARY_EXPRESSION], operators: &["&&", "||"] },
        },
        SlugRule {
            slug: "SOS",
            rule: Rule::ShuffleOperators { kinds: &[BINARY_EXPRESSION], operators: &["<<", ">>"] },
        },
        SlugRule {
            slug: "SAOS",
            rule: Rule::ShuffleOperators { kinds: &[BINARY_EXPRESSION], operators: &["<<=", ">>="] },
        },
        SlugRule {
            slug: "LC",
            rule: Rule::ShuffleNodes {
                kinds: &[BREAK_STATEMENT, CONTINUE_STATEMENT],
                alternatives: &["break", "continue"],
            },
        },
        SlugRule {
            slug: "RZ",
            rule: Rule::ReplaceCondition {
                kind: FOREACH_STATEMENT,
                field: CONDITION,
                keywords: &["for"],
                replacement: "0",
            },
        },
    ];
    assert(r@ =~= rust_rule_table());
    r
}

/// Every mutation of Rust has a rule: no slug of the rulebook is unknown
/// to it.
pub proof fn lemma_rust_dispatch_total()
    ensures
        dispatches_all(rust_table(), rust_rule_table()),
{
    lemma_aligned_dispatch(rust_table(), rust_rule_table());
}

/// The rulebook of Rust.
pub struct RustLanguageEngine {
    mutations: Vec<Mutation>,
}

impl RustLanguageEngine {
    #[verifier::type_invariant]
    spec fn holds_table(&self) -> bool {
        self.mutations@ == rust_table()
    }

    /// The rulebook of Rust: it holds the mutations of Rust, in the
    /// order of their table.
    pub fn new() -> (r: Self)
        ensures
            r@ == rust_table(),
    {
        Self { mutations: rust_mutations() }
    }

    /// The mutants of a target, given the tree of its text: for each
    /// mutation of Rust in turn, what its rule proposes.
    pub fn mutants_for_tree(&self, tree: &SyntaxTree, target: &Target) -> (r: Vec<Mutant>)
        requires
            tree.wf(),
            tree.fits(target.bytes()),
        ensures
            mutant_views(r@) == rulebook_mutants(
                tree@,
                target.bytes(),
                target.id,
                rust_table(),
                rust_rule_table(),
                rust_table().len() as int,
            ),
            sound_mutants(tree@, target.bytes(), target.id, rust_table(), mutant_views(r@)),
    {
        proof {
            use_type_invariant(self);
        }
        let rules = rust_rules();
        apply_rules(tree, target.text.as_str(), target.id, &self.mutations, &rules)
    }
}

impl RustLanguageEngine {
    /// The syntax tree of `source` in the grammar of Rust: what the
    /// parser makes of it, where that is a tree whose nodes span whole
    /// characters of `source`.
    pub fn parse(&self, source: &str) -> (r: Option<SyntaxTree>)
        ensures
            tree_for(syntax_of("rust"@, source@), bytes_of(source@), r),
    {
        tree_of(parse_rust(source), source)
    }
}

impl LanguageEngine for RustLanguageEngine {
    open spec fn table(&self) -> Seq<Mutation> {
        rust_table()
    }

    open spec fn title(&self) -> Seq<char> {
        "Rust"@
    }

    open spec fn suffixes(&self) -> Seq<&'static str> {
        seq!["rs"]
    }

    open spec fn rulebook(&self) -> Seq<SlugRule> {
        rust_rule_table()
    }

    open spec fn grammar_for(&self, target: Target) -> Seq<char> {
        "rust"@
    }

    fn name(&self) -> (r: &'static str) {
        "Rust"
    }

    fn extensions(&self) -> (r: Vec<&'static str>) {
        vec!["rs"]
    }

    fn tree_sitter_language(&self) -> (r: tree_sitter::Language) {
        rust_grammar()
    }

    fn get_mutations(&self) -> (r: &Vec<Mutation>) {
        proof {
            use_type_invariant(self);
        }
        &self.mutations
    }

    fn apply_all_mutations(&self, target: &Target) -> (r: Vec<Mutant>) {
        let tree = self.parse(target.text.as_str());
        match tree {
            None => {
                let none: Vec<Mutant> = Vec::new();
                assert(mutant_views(none@).len() == 0);
                none
            },
            Some(tree) => {
                let mutants = self.mutants_for_tree(&tree, target);
                proof {
                    lemma_sound_mutants_fit(tree@, *target, rust_table(), mutants@);
                    assert(reads(tree, *target));
                }
                mutants
            },
        }
    }
}

/// What a rulebook of Rust holds: its mutations.
impl View for RustLanguageEngine {
    type V = Seq<Mutation>;

    closed spec fn view(&self) -> Seq<Mutation> {
        self.mutations@
    }
}

} // verus!
