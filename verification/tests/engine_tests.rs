use mewt::engine::traits::LanguageEngine;
use mewt::languages::javascript::engine::JavaScriptLanguageEngine;
use mewt::languages::rust::engine::RustLanguageEngine;
use mewt::languages::solidity::engine::SolidityLanguageEngine;
use mewt::languages::tolk::engine::TolkLanguageEngine;
use mewt::types::mutation::Mutation;
use std::collections::{BTreeSet, HashSet};

fn duplicate_slugs(mutations: &[Mutation]) -> BTreeSet<String> {
    let mut seen: HashSet<&str> = HashSet::new();
    let mut dups: BTreeSet<String> = BTreeSet::new();
    for m in mutations {
        if !seen.insert(m.slug) {
            dups.insert(m.slug.to_string());
        }
    }
    dups
}

#[test]
fn no_duplicate_slugs_in_combined_mutations() {
    let engine = JavaScriptLanguageEngine::new();
    let dups = duplicate_slugs(engine.get_mutations());
    assert!(dups.is_empty(), "Duplicate mutation slugs found: {dups:?}",);
}

#[test]
fn engine_no_duplicate_slugs_in_combined_mutations() {
    let engine = RustLanguageEngine::new();
    let dups = duplicate_slugs(engine.get_mutations());
    assert!(
        dups.is_empty(),
        "Duplicate mutation slugs found in Rust engine: {dups:?}",
    );

    let engine = SolidityLanguageEngine::new();
    let dups = duplicate_slugs(engine.get_mutations());
    assert!(
        dups.is_empty(),
        "Duplicate mutation slugs found in Solidity engine: {dups:?}",
    );

    let engine = TolkLanguageEngine::new();
    let dups = duplicate_slugs(engine.get_mutations());
    assert!(
        dups.is_empty(),
        "Duplicate mutation slugs found in Tolk engine: {dups:?}",
    );
}

fn target(path: &str, text: &str, language: &str) -> mewt::types::target::Target {
    mewt::types::target::Target {
        id: 0,
        path: path.to_string(),
        file_hash: mewt::types::hash::Hash::digest(text.to_string()),
        text: text.to_string(),
        language: language.to_string(),
    }
}

#[test]
fn all_defined_slugs_have_match_arms() {
    let text = "function test() { if (true) return 42; }";
    let engine = JavaScriptLanguageEngine::new();
    let _ = engine.apply_all_mutations(&target("test.js", text, "JavaScript"));

    // Use a simple Rust program for smoke testing
    let text: &str = "fn main() { println!(\"Hello\"); }";
    let engine = RustLanguageEngine::new();
    let _ = engine.apply_all_mutations(&target("test.rs", text, "Rust"));
}

#[test]
fn engine_all_defined_slugs_have_match_arms() {
    let text: &str = "contract C { function f(uint a, uint b) public { if (a > b) { return; } foo(1, 2); } }";
    let engine = SolidityLanguageEngine::new();
    let _ = engine.apply_all_mutations(&target(
        "tests/examples/solidity/hello-world.sol",
        text,
        "Solidity",
    ));

    let text: &str = r#"fun test(a: int, b: int): int {
    if (a > b) {
        return a - b;
    }
    return a + b;
}
"#;
    let engine = TolkLanguageEngine::new();
    let _ = engine.apply_all_mutations(&target("test.tolk", text, "Tolk"));
}

#[test]
fn a_grammar_handed_in_parses_as_the_rulebook_does() {
    let engine = RustLanguageEngine::new();
    let source = "fn f() { g(1, 2); }";
    let by_grammar =
        mewt::engine::parser::parse_source(source, &engine.tree_sitter_language()).unwrap();
    let by_engine = engine.parse(source).unwrap();
    assert_eq!(by_grammar.len(), by_engine.len());
    assert!(by_engine.len() > 5);
    for at in 0..by_engine.len() {
        let (a, b) = (by_grammar.node(at), by_engine.node(at));
        assert_eq!(
            (&a.kind, a.start_byte, a.end_byte, a.depth, &a.field),
            (&b.kind, b.start_byte, b.end_byte, b.depth, &b.field)
        );
    }
    let root = by_engine.node(0);
    assert_eq!((root.kind.as_str(), root.start_byte, root.end_byte, root.depth), ("source_file", 0, 19, 0));
    assert!(!by_engine.has_error());
}

#[test]
fn typescript_is_parsed_by_grammars_of_its_own() {
    let engine = JavaScriptLanguageEngine::new();
    let source = "function f(a: number): number { return a; }";
    let typed =
        mewt::engine::parser::parse_source(source, &engine.typescript_language()).unwrap();
    assert!(!typed.has_error());
    let tsx = mewt::engine::parser::parse_source(source, &engine.tsx_language()).unwrap();
    assert!(!tsx.has_error());
    let plain = engine.parse(source).unwrap();
    assert!(plain.has_error());
    assert_eq!(plain.node(0).kind, "program");
}
