use mewt::engine::parser::tree_from_records;
use mewt::engine::patterns::{
    first_named_child_after_keyword, has_ancestor_with_kind, is_keyword_kind, is_punctuation_kind,
    replace, replace_condition, replace_first_arg, shuffle_nodes, shuffle_operators, swap_args,
    wrap, Always, LacksText, NamedOneOf,
};
use mewt::engine::tree::{NodeRecord, SyntaxTree};
use mewt::engine::utils::{is_in_comment, node_text};
use mewt::types::mutant::PartialMutant;

fn node(kind: &str, start: usize, end: usize, depth: usize) -> NodeRecord {
    NodeRecord {
        kind: kind.to_string(),
        start_byte: start,
        end_byte: end,
        depth,
        field: None,
        named: true,
        missing: false,
        error: false,
    }
}

fn field(mut record: NodeRecord, name: &str) -> NodeRecord {
    record.field = Some(name.to_string());
    record
}

fn token(kind: &str, start: usize, end: usize, depth: usize) -> NodeRecord {
    let mut record = node(kind, start, end, depth);
    record.named = false;
    record
}

fn edits(found: &[PartialMutant]) -> Vec<(u32, u32, &str, &str)> {
    found
        .iter()
        .map(|m| (m.byte_offset, m.line_offset, m.old_text.as_str(), m.new_text.as_str()))
        .collect()
}

// "if (a) {\n  f(x, y);\n}\n// c();\n"
//  0         1         2         3
//  0123456789012345678901234567890
const SOURCE: &str = "if (a) {\n  f(x, y);\n}\n// c();\n";

fn tree() -> SyntaxTree {
    let records = vec![
        node("program", 0, 30, 0),
        node("if_statement", 0, 21, 1),
        token("if", 0, 2, 2),
        field(node("parenthesized_expression", 3, 6, 2), "condition"),
        node("block", 7, 21, 2),
        node("expression_statement", 11, 19, 3),
        node("call", 11, 18, 4),
        node("identifier", 11, 12, 5),
        field(node("arguments", 12, 18, 5), "arguments"),
        token("(", 12, 13, 6),
        node("identifier", 13, 14, 6),
        token(",", 14, 15, 6),
        node("identifier", 16, 17, 6),
        token(")", 17, 18, 6),
        node("comment", 22, 29, 1),
        node("call", 25, 28, 2),
    ];
    tree_from_records(&records, SOURCE).expect("the records form a tree")
}

#[test]
fn a_tree_knows_parents_children_and_texts() {
    let tree = tree();
    assert_eq!(tree.len(), 16);
    assert_eq!(tree.node(0).parent, 0);
    assert_eq!(tree.node(5).parent, 4);
    assert_eq!(tree.node(14).parent, 0);
    assert_eq!(tree.children(0), vec![1, 14]);
    assert_eq!(tree.children(8), vec![9, 10, 11, 12, 13]);
    assert_eq!(tree.children(7), Vec::<usize>::new());
    assert_eq!(tree.child_count(), 2);
    assert_eq!(tree.child_by_field_name(1, "condition"), Some(3));
    assert_eq!(tree.child_by_field_name(1, "body"), None);
    assert_eq!(node_text(&tree, 6, SOURCE), "f(x, y)");
    assert!(!tree.has_error());
    assert!(is_in_comment(&tree, 14));
    assert!(is_in_comment(&tree, 15));
    assert!(!is_in_comment(&tree, 6));
    assert!(has_ancestor_with_kind(&tree, 6, &["if_statement"]));
    assert!(!has_ancestor_with_kind(&tree, 1, &["if_statement"]));
    assert_eq!(first_named_child_after_keyword(&tree, 1, &["if"]), Some(3));
    assert_eq!(first_named_child_after_keyword(&tree, 8, &[]), Some(10));
    assert!(is_punctuation_kind("(") && is_punctuation_kind(",") && !is_punctuation_kind(";"));
    assert!(is_keyword_kind("if", &["while", "if"]) && !is_keyword_kind("if", &[]));
}

#[test]
fn records_that_are_no_tree_are_refused() {
    let none: Vec<NodeRecord> = vec![];
    assert!(SyntaxTree::from_preorder(&none).is_none());
    assert!(SyntaxTree::from_preorder(&vec![node("a", 0, 1, 1)]).is_none());
    assert!(SyntaxTree::from_preorder(&vec![node("a", 2, 1, 0)]).is_none());
    // a second root
    assert!(SyntaxTree::from_preorder(&vec![node("a", 0, 4, 0), node("b", 0, 1, 0)]).is_none());
    // a level is left out
    assert!(SyntaxTree::from_preorder(&vec![node("a", 0, 4, 0), node("b", 0, 1, 2)]).is_none());
    // a child reaches out of its parent
    assert!(SyntaxTree::from_preorder(&vec![node("a", 0, 4, 0), node("b", 3, 5, 1)]).is_none());
    // a node starts before the one before it has ended
    let overlap = vec![node("a", 0, 4, 0), node("b", 0, 3, 1), node("c", 2, 4, 1)];
    assert!(SyntaxTree::from_preorder(&overlap).is_none());
    let fine = vec![node("a", 0, 4, 0), node("b", 0, 2, 1), node("c", 2, 4, 1)];
    assert!(SyntaxTree::from_preorder(&fine).is_some());
    // a node ends past the text, or inside a character
    assert!(tree_from_records(&fine, "abc").is_none());
    assert!(tree_from_records(&fine, "abcd").is_some());
    assert!(tree_from_records(&fine, "aébc").is_none());
    assert!(tree_from_records(&vec![node("a", 0, 3, 0)], "aé").is_some());
}

#[test]
fn wrap_takes_outermost_nodes_outside_of_comments() {
    let tree = tree();
    let found = wrap(&tree, SOURCE, &["if_statement", "expression_statement", "call"], "/* ", " */");
    assert_eq!(
        edits(&found),
        vec![(0, 0, "if (a) {\n  f(x, y);\n}", "/* if (a) {\n  f(x, y);\n} */")]
    );
    let found = wrap(&tree, SOURCE, &["call"], "<", ">");
    assert_eq!(edits(&found), vec![(11, 1, "f(x, y)", "<f(x, y)>")]);
    // What changes nothing is no mutant.
    assert!(wrap(&tree, SOURCE, &["call"], "", "").is_empty());
    assert!(wrap(&tree, SOURCE, &[], "a", "b").is_empty());
}

#[test]
fn replace_asks_its_filter() {
    let tree = tree();
    let kinds = ["expression_statement", "call"];
    let found = replace(&tree, SOURCE, &kinds, "throw 0;", &Always);
    assert_eq!(edits(&found), vec![(11, 1, "f(x, y);", "throw 0;")]);
    let found = replace(&tree, SOURCE, &kinds, "throw 0;", &LacksText { needle: "f(" });
    assert!(found.is_empty());
    let found = replace(&tree, SOURCE, &kinds, "throw 0;", &LacksText { needle: "g(" });
    assert_eq!(found.len(), 1);
    let found = replace(&tree, SOURCE, &kinds, "f(x, y);", &Always);
    assert!(found.is_empty());
}

#[test]
fn replace_condition_finds_the_condition_by_field_or_by_place() {
    let tree = tree();
    let found = replace_condition(&tree, SOURCE, "if_statement", "condition", &["if"], "false");
    assert_eq!(edits(&found), vec![(3, 0, "(a)", "(false)")]);
    // Without the field, the first named child that is no keyword is taken.
    let found = replace_condition(&tree, SOURCE, "if_statement", "test", &["if"], "true");
    assert_eq!(edits(&found), vec![(3, 0, "(a)", "(true)")]);
    let found = replace_condition(&tree, SOURCE, "call", "callee", &[], "g");
    assert_eq!(edits(&found), vec![(11, 1, "f", "g")]);
    let found = replace_condition(&tree, SOURCE, "identifier", "condition", &[], "g");
    assert!(found.is_empty());
}

#[test]
fn swap_args_swaps_neighbours() {
    let tree = tree();
    let found = swap_args(&tree, SOURCE, &["call"], "arguments");
    assert_eq!(edits(&found), vec![(13, 1, "x, y", "y, x")]);
    assert!(swap_args(&tree, SOURCE, &["call"], "args").is_empty());
    assert!(swap_args(&tree, SOURCE, &["block"], "arguments").is_empty());
}

#[test]
fn replace_first_arg_takes_the_first_argument() {
    let tree = tree();
    let found = replace_first_arg(&tree, SOURCE, &["call"], "arguments", &[], &Always, "0");
    assert_eq!(edits(&found), vec![(13, 1, "x", "0")]);
    let named = ["g", "f"];
    let found = replace_first_arg(&tree, SOURCE, &["call"], "args", &["arguments"], &NamedOneOf { names: &named }, "0");
    assert_eq!(edits(&found), vec![(13, 1, "x", "0")]);
    let others = ["g"];
    let found = replace_first_arg(&tree, SOURCE, &["call"], "arguments", &[], &NamedOneOf { names: &others }, "0");
    assert!(found.is_empty());
    let found = replace_first_arg(&tree, SOURCE, &["call"], "args", &[], &Always, "0");
    assert!(found.is_empty());
}

// "a + b; // x - y"
const SUM: &str = "a + b; // x - y";

fn sum() -> SyntaxTree {
    let records = vec![
        node("program", 0, 15, 0),
        node("binary", 0, 5, 1),
        node("identifier", 0, 1, 2),
        token("+", 2, 3, 2),
        node("identifier", 4, 5, 2),
        node("comment", 7, 15, 1),
        node("binary", 10, 15, 2),
        token("-", 12, 13, 3),
    ];
    tree_from_records(&records, SUM).expect("the records form a tree")
}

#[test]
fn shuffle_operators_puts_each_other_operator_in_order() {
    let tree = sum();
    let found = shuffle_operators(&tree, SUM, &["binary"], &["-", "+", "*", "+"]);
    assert_eq!(edits(&found), vec![(2, 0, "+", "-"), (2, 0, "+", "*")]);
    assert!(shuffle_operators(&tree, SUM, &["binary"], &["-", "*"]).is_empty());
    assert!(shuffle_operators(&tree, SUM, &["unary"], &["-", "+"]).is_empty());
}

#[test]
fn shuffle_nodes_replaces_whole_texts_or_parts() {
    let tree = sum();
    // Another number than two: the text has to be one of the alternatives.
    let found = shuffle_nodes(&tree, SUM, &["identifier"], &["a", "b", "c"]);
    assert_eq!(
        edits(&found),
        vec![(0, 0, "a", "b"), (0, 0, "a", "c"), (4, 0, "b", "a"), (4, 0, "b", "c")]
    );
    assert!(shuffle_nodes(&tree, SUM, &["identifier"], &["c"]).is_empty());
    // Two: the alternative that the text holds is replaced in it.
    let found = shuffle_nodes(&tree, SUM, &["binary"], &["+", "-"]);
    assert_eq!(edits(&found), vec![(0, 0, "a + b", "a - b")]);
    let found = shuffle_nodes(&tree, SUM, &["binary"], &["*", "+"]);
    assert_eq!(edits(&found), vec![(0, 0, "a + b", "a * b")]);
    let found = shuffle_nodes(&tree, SUM, &["binary"], &["a", "b"]);
    assert_eq!(edits(&found), vec![(0, 0, "a + b", "b + b")]);
    assert!(shuffle_nodes(&tree, SUM, &["binary"], &["*", "/"]).is_empty());
    // An empty alternative stands before every character and at the end.
    let found = shuffle_nodes(&tree, SUM, &["identifier"], &["", "é"]);
    assert_eq!(edits(&found), vec![(0, 0, "a", "éaé"), (4, 0, "b", "ébé")]);
}
