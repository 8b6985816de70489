//! The JavaScript rulebook.

use crate::chars::{extension_of, path_extension, said};
use crate::engine::parser::{parsed_nodes, syntax_of, tree_for, tree_of};
use crate::engine::rules::{
    apply_rules, dispatches_all, lemma_aligned_dispatch, lemma_sound_mutants_fit, mutant_views,
    rulebook_mutants, sound_mutants, Rule, SlugRule,
};
use crate::engine::traits::{reads, LanguageEngine};
use crate::engine::tree::SyntaxTree;
use crate::languages::javascript::mutations::{javascript_mutations, javascript_table};
use crate::languages::javascript::syntax::{
    ARGUMENTS, BINARY_EXPRESSION, BREAK_STATEMENT, CALL_EXPRESSION, CONDITION, CONTINUE_STATEMENT,
    DO_STATEMENT, EXPRESSION_STATEMENT, FOR_IN_STATEMENT, FOR_STATEMENT, IF_STATEMENT,
    RETURN_STATEMENT, VARIABLE_DECLARATION, WHILE_STATEMENT,
};
use crate::text::{bytes_of, str_eq};
use crate::types::mutant::Mutant;
use crate::types::mutation::Mutation;
use crate::types::target::Target;
use vstd::prelude::*;

verus! {

/// `Language::new` of tree-sitter on the grammar that
/// tree-sitter-javascript holds.
#[verifier::external_body]
fn javascript_grammar() -> (language: tree_sitter::Language) {
    tree_sitter::Language::new(tree_sitter_javascript::LANGUAGE)
}

/// `Language::new` of tree-sitter on the TypeScript grammar that
/// tree-sitter-typescript holds.
#[verifier::external_body]
fn typescript_grammar() -> (language: tree_sitter::Language) {
    tree_sitter::Language::new(tree_sitter_typescript::LANGUAGE_TYPESCRIPT)
}

/// `Language::new` of tree-sitter on the TSX grammar that
/// tree-sitter-typescript holds.
#[verifier::external_body]
fn tsx_grammar() -> (language: tree_sitter::Language) {
    tree_sitter::Language::new(tree_sitter_typescript::LANGUAGE_TSX)
}

/// `Parser::new`, `Parser::set_language` and `Parser::parse` of
/// tree-sitter, with the grammar that tree-sitter-javascript holds: what
/// a fresh parser makes of the text under that grammar, and nothing where
/// it gives no tree or refuses the grammar. The tree is not spelled out
/// here; what it holds has the name `syntax_of`.
#[verifier::external_body]
fn parse_javascript(source: &str) -> (parsed: Option<tree_sitter::Tree>)
    ensures
        parsed_nodes(parsed) == syntax_of("javascript"@, source@),
{
    let mut parser = tree_sitter::Parser::new();
    match parser.set_language(&tree_sitter::Language::new(tree_sitter_javascript::LANGUAGE)) {
        Ok(()) => parser.parse(source, None),
        Err(_) => None,
    }
}

/// `Parser::new`, `Parser::set_language` and `Parser::parse` of
/// tree-sitter, with the TypeScript grammar that tree-sitter-typescript
/// holds: what a fresh parser makes of the text under that grammar, and
/// nothing where it gives no tree or refuses the grammar. The tree is not
/// spelled out here; what it holds has the name `syntax_of`.
#[verifier::external_body]
fn parse_typescript(source: &str) -> (parsed: Option<tree_sitter::Tree>)
    ensures
        parsed_nodes(parsed) == syntax_of("typescript"@, source@),
{
    let mut parser = tree_sitter::Parser::new();
    match parser.set_language(&tree_sitter::Language::new(tree_sitter_typescript::LANGUAGE_TYPESCRIPT)) {
        Ok(()) => parser.parse(source, None),
        Err(_) => None,
    }
}

/// `Parser::new`, `Parser::set_language` and `Parser::parse` of
/// tree-sitter, with the TSX grammar that tree-sitter-typescript holds:
/// what a fresh parser makes of the text under that grammar, and nothing
/// where it gives no tree or refuses the grammar. The tree is not spelled
/// out here; what it holds has the name `syntax_of`.
#[verifier::external_body]
fn parse_tsx(source: &str) -> (parsed: Option<tree_sitter::Tree>)
    ensures
        parsed_nodes(parsed) == syntax_of("tsx"@, source@),
{
    let mut parser = tree_sitter::Parser::new();
    match parser.set_language(&tree_sitter::Language::new(tree_sitter_typescript::LANGUAGE_TSX)) {
        Ok(()) => parser.parse(source, None),
        Err(_) => None,
    }
}

/// The grammars that the JavaScript rulebook parses with.
#[derive(Debug, Clone, Copy, PartialEq, Eq, Structural)]
pub enum Dialect {
    JavaScript,
    TypeScript,
    Tsx,
}

/// The grammar for a file with this extension: TypeScript for `ts`, TSX
/// for `tsx`, and JavaScript for every other one and for none.
pub open spec fn dialect_of(extension: Option<Seq<char>>) -> Dialect {
    if extension == Some("ts"@) {
        Dialect::TypeScript
    } else if extension == Some("tsx"@) {
        Dialect::Tsx
    } else {
        Dialect::JavaScript
    }
}

/// What each slug does in JavaScript, in the order of the mutations.
pub open spec fn javascript_rule_table() -> Seq<SlugRule> {
    seq![
        SlugRule { slug: "ER", rule: Rule::Replace {
            kinds: &[
                EXPRESSION_STATEMENT,
                RETURN_STATEMENT,
                VARIABLE_DECLARATION,
                IF_STATEMENT,
                WHILE_STATEMENT,
                FOR_STATEMENT,
                FOR_IN_STATEMENT,
                DO_STATEMENT,
            ],
            replacement: "throw new Error(\"mewt\");",
            unless_holds: "throw ",
        } },
        SlugRule { slug: "CR", rule: Rule::Wrap {
            kinds: &[
                EXPRESSION_STATEMENT,
                RETURN_STATEMENT,
                VARIABLE_DECLARATION,
                IF_STATEMENT,
                WHILE_STATEMENT,
                FOR_STATEMENT,
                FOR_IN_STATEMENT,
                DO_STATEMENT,
            ],
            prefix: "/* ",
            suffix: " */",
        } },
        SlugRule { slug: "IF", rule: Rule::ReplaceCondition {
            kind: IF_STATEMENT,
            field: CONDITION,
            keywords: &["if"],
            replacement: "false",
        } },
        SlugRule { slug: "IT", rule: Rule::ReplaceCondition {
            kind: IF_STATEMENT,
            field: CONDITION,
            keywords: &["if"],
            replacement: "true",
        } },
        SlugRule { slug: "WF", rule: Rule::ReplaceCondition {
            kind: WHILE_STATEMENT,
            field: CONDITION,
            keywords: &["while"],
            replacement: "false",
        } },
        SlugRule {
            slug: "AS",
            rule: Rule::SwapArgs {
                kinds: &[CALL_EXPRESSION],
                field: ARGUMENTS,
            },
        },
        SlugRule { slug: "AOS", rule: Rule::ShuffleOperators {
            kinds: &[BINARY_EXPRESSION],
            operators: &["+", "-", "*", "/", "%", "**"],
        } },
        SlugRule { slug: "AAOS", rule: Rule::ShuffleOperators {
            kinds: &[BINARY_EXPRESSION],
            operators: &["+=", "-=", "*=", "/=", "%=", "**="],
        } },
        SlugRule { slug: "BOS", rule: Rule::ShuffleOperators {
            kinds: &[BINARY_EXPRESSION],
            operators: &["&", "|", "^"],
        } },
        SlugRule { slug: "BAOS", rule: Rule::ShuffleOperators {
            kinds: &[BINARY_EXPRESSION],
            operators: &["&=", "|=", "^="],
        } },
        SlugRule { slug: "BL", rule: Rule::ShuffleNodes {
            kinds: &["true", "false"],
            alternatives: &["true", "false"],
        } },
        SlugRule { slug: "COS", rule: Rule::ShuffleOperators {
            kinds: &[BINARY_EXPRESSION],
            operators: &["==", "!=", "===", "!==", "<", "<=", ">", ">="],
        } },
        SlugRule { slug: "LOS", rule: Rule::ShuffleOperators {
            kinds: &[BINARY_EXPRESSION],
            operators: &["&&", "||"],
        } },
        SlugRule { slug: "SOS", rule: Rule::ShuffleOperators {
            kinds: &[BINARY_EXPRESSION],
            operators: &["<<", ">>", ">>>"],
        } },
        SlugRule { slug: "SAOS", rule: Rule::ShuffleOperators {
            kinds: &[BINARY_EXPRESSION],
            operators: &["<<=", ">>=", ">>>="],
        } },
        SlugRule { slug: "LC", rule: Rule::ShuffleNodes {
            kinds: &[BREAK_STATEMENT, CONTINUE_STATEMENT],
            alternatives: &["break", "continue"],
        } },
    ]
}

/// What each slug does in JavaScript.
pub fn javascript_rules() -> (r: Vec<SlugRule>)
    ensures
        r@ == javascript_rule_table(),
{
    let r = vec![
        SlugRule { slug: "ER", rule: Rule::Replace {
            kinds: &[
                EXPRESSION_STATEMENT,
                RETURN_STATEMENT,
                VARIABLE_DECLARATION,
                IF_STATEMENT,
                WHILE_STATEMENT,
                FOR_STATEMENT,
                FOR_IN_STATEMENT,
                DO_STATEMENT,
            ],
            replacement: "throw new Error(\"mewt\");",
            unless_holds: "throw ",
        } },
        SlugRule { slug: "CR", rule: Rule::Wrap {
            kinds: &[
                EXPRESSION_STATEMENT,
                RETURN_STATEMENT,
                VARIABLE_DECLARATION,
                IF_STATEMENT,
                WHILE_STATEMENT,
                FOR_STATEMENT,
                FOR_IN_STATEMENT,
                DO_STATEMENT,
            ],
            prefix: "/* ",
            suffix: " */",
        } },
        SlugRule { slug: "IF", rule: Rule::ReplaceCondition {
            kind: IF_STATEMENT,
            field: CONDITION,
            keywords: &["if"],
            replacement: "false",
        } },
        SlugRule { slug: "IT", rule: Rule::ReplaceCondition {
            kind: IF_STATEMENT,
            field: CONDITION,
            keywords: &["if"],
            replacement: "true",
        } },
        SlugRule { slug: "WF", rule: Rule::ReplaceCondition {
            kind: WHILE_STATEMENT,
            field: CONDITION,
            keywords: &["while"],
            replacement: "false",
        } },
        SlugRule {
            slug: "AS",
            rule: Rule::SwapArgs {
                kinds: &[CALL_EXPRESSION],
                field: ARGUMENTS,
            },
        },
        SlugRule { slug: "AOS", rule: Rule::ShuffleOperators {
            kinds: &[BINARY_EXPRESSION],
            operators: &["+", "-", "*", "/", "%", "**"],
        } },
        SlugRule { slug: "AAOS", rule: Rule::ShuffleOperators {
            kinds: &[BINARY_EXPRESSION],
            operators: &["+=", "-=", "*=", "/=", "%=", "**="],
        } },
        SlugRule { slug: "BOS", rule: Rule::ShuffleOperators {
            kinds: &[BINARY_EXPRESSION],
            operators: &["&", "|", "^"],
        } },
        SlugRule { slug: "BAOS", rule: Rule::ShuffleOperators {
            kinds: &[BINARY_EXPRESSION],
            operators: &["&=", "|=", "^="],
        } },
        SlugRule { slug: "BL", rule: Rule::ShuffleNodes {
            kinds: &["true", "false"],
            alternatives: &["true", "false"],
        } },
        SlugRule { slug: "COS", rule: Rule::ShuffleOperators {
            kinds: &[BINARY_EXPRESSION],
            operators: &["==", "!=", "===", "!==", "<", "<=", ">", ">="],
        } },
        SlugRule { slug: "LOS", rule: Rule::ShuffleOperators {
            kinds: &[BINARY_EXPRESSION],
            operators: &["&&", "||"],
        } },
        SlugRule { slug: "SOS", rule: Rule::ShuffleOperators {
            kinds: &[BINARY_EXPRESSION],
            operators: &["<<", ">>", ">>>"],
        } },
        SlugRule { slug: "SAOS", rule: Rule::ShuffleOperators {
            kinds: &[BINARY_EXPRESSION],
            operators: &["<<=", ">>=", ">>>="],
        } },
        SlugRule { slug: "LC", rule: Rule::ShuffleNodes {
            kinds: &[BREAK_STATEMENT, CONTINUE_STATEMENT],
            alternatives: &["break", "continue"],
        } },
    ];
    assert(r@ =~= javascript_rule_table());
    r
}

/// Every mutation of JavaScript has a rule: no slug of the rulebook is
/// unknown to it.
pub proof fn lemma_javascript_dispatch_total()
    ensures
        dispatches_all(javascript_table(), javascript_rule_table()),
{
    lemma_aligned_dispatch(javascript_table(), javascript_rule_table());
}

/// The rulebook of JavaScript.
pub struct JavaScriptLanguageEngine {
    mutations: Vec<Mutation>,
}

impl JavaScriptLanguageEngine {
    #[verifier::type_invariant]
    spec fn holds_table(&self) -> bool {
        self.mutations@ == javascript_table()
    }

    /// The rulebook of JavaScript: it holds the mutations of JavaScript, in the
    /// order of their table.
    pub fn new() -> (r: Self)
        ensures
            r@ == javascript_table(),
    {
        Self { mutations: javascript_mutations() }
    }

    fn javascript_language(&self) -> tree_sitter::Language {
        javascript_grammar()
    }

    /// The TypeScript grammar.
    pub fn typescript_language(&self) -> tree_sitter::Language {
        typescript_grammar()
    }

    /// The TSX grammar.
    pub fn tsx_language(&self) -> tree_sitter::Language {
        tsx_grammar()
    }

    /// The extension of the path of a target.
    pub fn get_extension(target: &Target) -> (r: Option<String>)
        ensures
            said(r) == path_extension(target.path@),
    {
        extension_of(target.path.as_str())
    }

    /// The grammar for a target, by the extension of its path.
    pub fn dialect(target: &Target) -> (r: Dialect)
        ensures
            r == dialect_of(path_extension(target.path@)),
    {
        match Self::get_extension(target) {
            Some(extension) => {
                if str_eq(extension.as_str(), "ts") {
                    Dialect::TypeScript
                } else if str_eq(extension.as_str(), "tsx") {
                    Dialect::Tsx
                } else {
                    Dialect::JavaScript
                }
            },
            None => Dialect::JavaScript,
        }
    }

    /// The mutants of a target, given the tree of its text: for each
    /// mutation of JavaScript in turn, what its rule proposes.
    pub fn mutants_for_tree(&self, tree: &SyntaxTree, target: &Target) -> (r: Vec<Mutant>)
        requires
            tree.wf(),
            tree.fits(target.bytes()),
        ensures
            mutant_views(r@) == rulebook_mutants(
                tree@,
                target.bytes(),
                target.id,
                javascript_table(),
                javascript_rule_table(),
                javascript_table().len() as int,
            ),
            sound_mutants(tree@, target.bytes(), target.id, javascript_table(), mutant_views(r@)),
    {
        proof {
            use_type_invariant(self);
        }
        let rules = javascript_rules();
        apply_rules(tree, target.text.as_str(), target.id, &self.mutations, &rules)
    }
}

impl JavaScriptLanguageEngine {
    /// The syntax tree of `source` in the grammar of JavaScript: what the
    /// parser makes of it, where that is a tree whose nodes span whole
    /// characters of `source`. Files of TypeScript are parsed by grammars
    /// of their own, which `apply_all_mutations` picks by the path of the
    /// target.
    pub fn parse(&self, source: &str) -> (r: Option<SyntaxTree>)
        ensures
            tree_for(syntax_of("javascript"@, source@), bytes_of(source@), r),
    {
        tree_of(parse_javascript(source), source)
    }
}

impl LanguageEngine for JavaScriptLanguageEngine {
    open spec fn table(&self) -> Seq<Mutation> {
        javascript_table()
    }

    open spec fn title(&self) -> Seq<char> {
        "JavaScript"@
    }

    open spec fn suffixes(&self) -> Seq<&'static str> {
        seq!["js", "ts", "jsx", "tsx"]
    }

    open spec fn rulebook(&self) -> Seq<SlugRule> {
        javascript_rule_table()
    }

    open spec fn grammar_for(&self, target: Target) -> Seq<char> {
        match dialect_of(path_extension(target.path@)) {
            Dialect::TypeScript => "typescript"@,
            Dialect::Tsx => "tsx"@,
            Dialect::JavaScript => "javascript"@,
        }
    }

    fn name(&self) -> (r: &'static str) {
        "JavaScript"
    }

    fn extensions(&self) -> (r: Vec<&'static str>) {
        vec!["js", "ts", "jsx", "tsx"]
    }

    fn tree_sitter_language(&self) -> (r: tree_sitter::Language) {
        self.javascript_language()
    }

    fn get_mutations(&self) -> (r: &Vec<Mutation>) {
        proof {
            use_type_invariant(self);
        }
        &self.mutations
    }

    fn apply_all_mutations(&self, target: &Target) -> (r: Vec<Mutant>) {
        let parsed = match Self::dialect(target) {
            Dialect::TypeScript => parse_typescript(target.text.as_str()),
            Dialect::Tsx => parse_tsx(target.text.as_str()),
            Dialect::JavaScript => parse_javascript(target.text.as_str()),
        };
        let tree = tree_of(parsed, target.text.as_str());
        match tree {
            None => {
                let none: Vec<Mutant> = Vec::new();
                assert(mutant_views(none@).len() == 0);
                none
            },
            Some(tree) => {
                let mutants = self.mutants_for_tree(&tree, target);
                proof {
                    lemma_sound_mutants_fit(tree@, *target, javascript_table(), mutants@);
                    assert(reads(tree, *target));
                }
                mutants
            },
        }
    }
}

/// What a rulebook of JavaScript holds: its mutations.
impl View for JavaScriptLanguageEngine {
    type V = Seq<Mutation>;

    closed spec fn view(&self) -> Seq<Mutation> {
        self.mutations@
    }
}

} // verus!
