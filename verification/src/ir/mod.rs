//! The data that travels between the pipeline stages: the abstract syntax
//! tree produced by the parser and decorated by the type checker, and the
//! three-address code produced by the code generator.
pub mod ast;
pub mod tac;
