//! Three-address code: a flat list of instructions, each of which names at
//! most three addresses.
use vstd::prelude::*;
use crate::ir::ast::{Literal, Type};

verus! {

/// Where a value lives.
#[derive(Debug)]
pub enum Address {
    /// A variable of the program.
    Variable(String, Type),
    /// An immediate literal.
    Constant(Literal, Type),
    /// A temporary introduced by the code generator.
    Temporary(String, Type),
}

/// A three-address instruction.
#[derive(Debug)]
pub enum Instruction {
    Label(String),
    CopyAssignment(Address, Address),
    UnaryAssignment(Operator, Address, Address),
    BinaryAssignment(Operator, Address, Address, Address),
    JMP(String),
    ConditionalJMP(Address, String),
    ConditionalJMPFalse(Address, String),
    ConditionalJMPRelational(Operator, Address, Address, String),
    Param(Address),
    Call(Option<Address>, String, usize),
    Store(Address, Address, Address),
    Load(Address, Address, Address),
    Return(Option<Address>),
}

/// Operators of arithmetic, unary and relational instructions.
#[derive(Debug, PartialEq, Eq, Structural, Clone, Copy)]
pub enum Operator {
    Add,
    Sub,
    Mul,
    Div,
    Neg,
    LT,
    LTE,
    GT,
    GTE,
    EQ,
    NE,
    SL,
    SR,
}

/// A TAC program.
pub type TACProgram = Vec<Instruction>;

} // verus!
