//! Type checking: turns an unchecked program into a checked one, in which
//! every node carries its type, or reports the first type error.
pub mod program;
pub mod rules;
pub mod scope;
pub mod type_checker;
pub mod uniqueness;

pub use program::type_check;
pub use type_checker::TypeError;
