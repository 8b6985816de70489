//! Node kinds and field names of the JavaScript grammar.

use vstd::prelude::*;

verus! {

pub const BINARY_EXPRESSION: &'static str = "binary_expression";

pub const CALL_EXPRESSION: &'static str = "call_expression";

pub const EXPRESSION_STATEMENT: &'static str = "expression_statement";

pub const IF_STATEMENT: &'static str = "if_statement";

pub const WHILE_STATEMENT: &'static str = "while_statement";

pub const FOR_STATEMENT: &'static str = "for_statement";

pub const FOR_IN_STATEMENT: &'static str = "for_in_statement";

pub const DO_STATEMENT: &'static str = "do_statement";

pub const RETURN_STATEMENT: &'static str = "return_statement";

pub const VARIABLE_DECLARATION: &'static str = "variable_declaration";

pub const BREAK_STATEMENT: &'static str = "break_statement";

pub const CONTINUE_STATEMENT: &'static str = "continue_statement";

pub const CONDITION: &'static str = "condition";

pub const ARGUMENTS: &'static str = "arguments";

} // verus!
