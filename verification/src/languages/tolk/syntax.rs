//! Node kinds and field names of the Tolk grammar.

use vstd::prelude::*;

verus! {

pub const BINARY_OPERATOR: &'static str = "binary_operator";

pub const SET_ASSIGNMENT: &'static str = "set_assignment";

pub const BOOLEAN: &'static str = "boolean_literal";

pub const EXPRESSION_STATEMENT: &'static str = "expression_statement";

pub const IF_STATEMENT: &'static str = "if_statement";

pub const RETURN_STATEMENT: &'static str = "return_statement";

pub const THROW_STATEMENT: &'static str = "throw_statement";

pub const LOCAL_VARS_DECLARATION: &'static str = "local_vars_declaration";

pub const WHILE_STATEMENT: &'static str = "while_statement";

pub const DO_WHILE_STATEMENT: &'static str = "do_while_statement";

pub const REPEAT_STATEMENT: &'static str = "repeat_statement";

pub const FUNCTION_CALL: &'static str = "function_call";

pub const BREAK_STATEMENT: &'static str = "break_statement";

pub const CONTINUE_STATEMENT: &'static str = "continue_statement";

pub const CONDITION: &'static str = "condition";

pub const ARGUMENTS: &'static str = "arguments";

} // verus!
