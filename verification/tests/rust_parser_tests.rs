use mewt::languages::rust::engine::RustLanguageEngine;
use mewt::registry::{Engine, LanguageRegistry};

#[test]
fn test_parse_simple_function() {
    let source = r#"
fn main() {
    println!("Hello, world!");
}
"#;

    let mut registry = LanguageRegistry::new();
    registry.register(Engine::Rust(RustLanguageEngine::new()));
    let source_content = source.to_string();
    let tree = registry
        .parse("Rust", &source_content)
        .expect("Failed to parse");
    let root = &tree;

    assert!(!root.has_error(), "Parse tree should not have errors");
    assert!(root.child_count() > 0, "Root should have children");
}

#[test]
fn test_parse_complex_rust_code() {
    let source = r#"

struct Counter {
    value: i32,
}

impl Counter {
    fn new() -> Self {
        Counter { value: 0 }
    }
    
    fn increment(&mut self) -> i32 {
        self.value += 1;
        self.value
    }
}

fn main() -> Result<(), Box<dyn std::error::Error>> {
    let mut counter = Counter::new();
    let result = counter.increment();
    println!("Result: {}", result);
    Ok(())
}
"#;

    let mut registry = LanguageRegistry::new();
    registry.register(Engine::Rust(RustLanguageEngine::new()));
    let source_content = source.to_string();
    let tree = registry
        .parse("Rust", &source_content)
        .expect("Failed to parse");
    let root = &tree;

    assert!(
        !root.has_error(),
        "Parse tree should not have errors for complex code"
    );
    assert!(root.child_count() > 0, "Root should have children");
}

#[test]
fn test_parse_with_comments() {
    let source = r#"
// This is a line comment
fn main() {
    /* This is a block comment */
    let x = 1;
    // Another comment
    println!("{}", x);
}
"#;

    let mut registry = LanguageRegistry::new();
    registry.register(Engine::Rust(RustLanguageEngine::new()));
    let source_content = source.to_string();
    let tree = registry
        .parse("Rust", &source_content)
        .expect("Failed to parse");
    let root = &tree;

    assert!(
        !root.has_error(),
        "Parse tree should not have errors with comments"
    );
}

#[test]
fn test_parse_hello_world_example() {
    let source_content = "fn main() {\n    println!(\"Hello, world!\");\n}\n".to_string();
    let mut registry = LanguageRegistry::new();
    registry.register(Engine::Rust(RustLanguageEngine::new()));
    let tree = registry
        .parse("Rust", &source_content)
        .expect("Failed to parse example");
    let root = &tree;

    assert!(
        !root.has_error(),
        "Parse tree should not have errors for example"
    );
    assert!(root.child_count() > 0, "Root should have children");
}

#[test]
fn test_parse_with_syntax_error() {
    let source = r#"
fn main( {
    println!("Hello");
}
"#;

    let mut registry = LanguageRegistry::new();
    registry.register(Engine::Rust(RustLanguageEngine::new()));
    let source_content = source.to_string();
    let tree = registry
        .parse("Rust", &source_content)
        .expect("Failed to parse");
    let root = &tree;

    // Even with syntax errors, tree-sitter should still produce a tree
    assert!(
        root.child_count() > 0,
        "Root should still have children even with errors"
    );
}
