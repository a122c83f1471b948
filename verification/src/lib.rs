//! MiniC: a small C-like language with a parser, a type checker, a
//! tree-walking interpreter and a three-address-code generator.
pub mod codegen;
pub mod environment;
pub mod interpreter;
pub mod ir;
pub mod text;
pub mod parser;
pub mod semantic;
pub mod stdlib;
