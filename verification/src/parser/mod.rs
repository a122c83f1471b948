//! Parser for MiniC: turns source text into an unchecked program.
pub mod entry;
pub mod expressions;
pub mod grammar;
pub mod item_grammar;
pub mod lexer;
pub mod program;
pub mod statements;
pub mod types;

pub use entry::{
    aggregate_type_decl, assignment, boolean_literal, expression, float_literal, fun_decl, identifier, integer_literal,
    literal, program, statement, string_literal, type_definition,
};
pub use lexer::ParseError;
