//! Node kinds and field names of the Rust grammar.

use vstd::prelude::*;

verus! {

pub const BINARY_EXPRESSION: &'static str = "binary_expression";

pub const BOOLEAN: &'static str = "boolean_literal";

pub const EXPRESSION_STATEMENT: &'static str = "expression_statement";

pub const IF_STATEMENT: &'static str = "if_expression";

pub const LET_STATEMENT: &'static str = "let_declaration";

pub const METHOD_CALL_EXPRESSION: &'static str = "call_expression";

pub const RETURN_STATEMENT: &'static str = "return_expression";

pub const STATIC_CALL_EXPRESSION: &'static str = "call_expression";

pub const WHILE_STATEMENT: &'static str = "while_expression";

pub const BREAK_STATEMENT: &'static str = "break_expression";

pub const CONTINUE_STATEMENT: &'static str = "continue_expression";

pub const FOREACH_STATEMENT: &'static str = "for_expression";

pub const CONDITION: &'static str = "condition";

pub const ARGUMENTS: &'static str = "arguments";

} // verus!
