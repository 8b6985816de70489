//! Node kinds and field names of the Solidity grammar.

use vstd::prelude::*;

verus! {

pub const BINARY_EXPRESSION: &'static str = "binary_expression";

pub const BOOLEAN: &'static str = "boolean_literal";

pub const EXPRESSION_STATEMENT: &'static str = "expression_statement";

pub const IF_STATEMENT: &'static str = "if_statement";

pub const LET_STATEMENT: &'static str = "variable_declaration_statement";

pub const METHOD_CALL_EXPRESSION: &'static str = "function_call";

pub const STATIC_CALL_EXPRESSION: &'static str = "function_call";

pub const RETURN_STATEMENT: &'static str = "return_statement";

pub const WHILE_STATEMENT: &'static str = "while_statement";

pub const FOR_STATEMENT: &'static str = "for_statement";

pub const BREAK_STATEMENT: &'static str = "break_statement";

pub const CONTINUE_STATEMENT: &'static str = "continue_statement";

pub const CONDITION: &'static str = "condition";

pub const ARGUMENTS: &'static str = "arguments";

} // verus!
