//! Abstract syntax tree of MiniC programs.
//!
//! Every expression and statement node carries a decoration `ty` of type
//! `Ty`: the parser fills it with `()`, the type checker with the [`Type`]
//! it inferred for the node.
//!
//! Floating-point literals are kept as the decimal text that was written in
//! the source (for example `"3.14"`); the library never computes with them.
use vstd::prelude::*;

verus! {

/// Kind of a tagged type: `struct`, `union` or `enum`.
#[derive(Debug, PartialEq, Eq, Structural, Clone, Copy)]
pub enum TagType {
    Struct,
    Union,
    Enum,
}

/// MiniC types.
#[derive(Debug, PartialEq)]
pub enum Type {
    Unit,
    Int,
    Float,
    Bool,
    Str,
    Array(Box<Type>),
    Tagged { tag_type: TagType, tag_name: String },
    Function { params: Vec<Type>, return_type: Box<Type> },
    /// Matches every type; only used for parameters of native functions.
    Any,
}

/// A literal value written in the source.
#[derive(Debug, PartialEq)]
pub enum Literal {
    Int(i64),
    /// The decimal text of a floating-point literal, as written.
    Float(String),
    Str(String),
    Bool(bool),
}

/// Expression with its decoration.
#[derive(Debug, PartialEq)]
pub struct ExprD<Ty> {
    pub exp: Expr<Ty>,
    pub ty: Ty,
}

/// Expressions.
#[derive(Debug, PartialEq)]
pub enum Expr<Ty> {
    Literal(Literal),
    Ident(String),
    Neg(Box<ExprD<Ty>>),
    Add(Box<ExprD<Ty>>, Box<ExprD<Ty>>),
    Sub(Box<ExprD<Ty>>, Box<ExprD<Ty>>),
    Mul(Box<ExprD<Ty>>, Box<ExprD<Ty>>),
    Div(Box<ExprD<Ty>>, Box<ExprD<Ty>>),
    Eq(Box<ExprD<Ty>>, Box<ExprD<Ty>>),
    Ne(Box<ExprD<Ty>>, Box<ExprD<Ty>>),
    Lt(Box<ExprD<Ty>>, Box<ExprD<Ty>>),
    Le(Box<ExprD<Ty>>, Box<ExprD<Ty>>),
    Gt(Box<ExprD<Ty>>, Box<ExprD<Ty>>),
    Ge(Box<ExprD<Ty>>, Box<ExprD<Ty>>),
    Not(Box<ExprD<Ty>>),
    And(Box<ExprD<Ty>>, Box<ExprD<Ty>>),
    Or(Box<ExprD<Ty>>, Box<ExprD<Ty>>),
    Call { name: String, args: Vec<ExprD<Ty>> },
    ArrayLit(Vec<ExprD<Ty>>),
    Index { base: Box<ExprD<Ty>>, index: Box<ExprD<Ty>> },
    Member { base: Box<ExprD<Ty>>, member: String },
}

/// Statement with its decoration.
#[derive(Debug, PartialEq)]
pub struct StatementD<Ty> {
    pub stmt: Statement<Ty>,
    pub ty: Ty,
}

/// Statements.
#[derive(Debug, PartialEq)]
pub enum Statement<Ty> {
    /// `T x = e`
    Decl { name: String, ty: Type, init: Box<ExprD<Ty>> },
    /// `const T x = e`
    ConstDecl { name: String, ty: Type, init: Box<ExprD<Ty>> },
    /// `target = e`
    Assign { target: Box<ExprD<Ty>>, value: Box<ExprD<Ty>> },
    /// `{ s1; s2; ... }`
    Block { seq: Vec<StatementD<Ty>> },
    /// `f(e1, ..., en)` used as a statement
    Call { name: String, args: Vec<ExprD<Ty>> },
    If {
        cond: Box<ExprD<Ty>>,
        then_branch: Box<StatementD<Ty>>,
        else_branch: Option<Box<StatementD<Ty>>>,
    },
    While { cond: Box<ExprD<Ty>>, body: Box<StatementD<Ty>> },
    Return(Option<Box<ExprD<Ty>>>),
    /// `assert e`
    Assert(Box<ExprD<Ty>>),
}

/// A name with its declared type (parameter or field).
#[derive(Debug, PartialEq)]
pub struct IdentifierDecl {
    pub name: String,
    pub ty: Type,
}

/// A field or enumerator of a tagged type declaration.
#[derive(Debug, PartialEq)]
pub enum Member {
    Field(IdentifierDecl),
    Enumerator { name: String, value: Option<i64> },
}

/// `struct N { ... }`, `union N { ... }` or `enum N { ... }`.
#[derive(Debug, PartialEq)]
pub struct TaggedTypeDecl {
    pub tag_type: TagType,
    pub tag_name: String,
    pub members: Vec<Member>,
}

/// A function declaration.
#[derive(Debug, PartialEq)]
pub struct FunDecl<Ty> {
    pub name: String,
    pub params: Vec<IdentifierDecl>,
    pub return_type: Type,
    pub body: Box<StatementD<Ty>>,
}

/// A `test "name" { ... }` block.
#[derive(Debug, PartialEq)]
pub struct TestDecl<Ty> {
    pub name: String,
    pub body: Box<StatementD<Ty>>,
}

/// A complete program.
#[derive(Debug, PartialEq)]
pub struct Program<Ty> {
    pub tagged_types: Vec<TaggedTypeDecl>,
    /// Global `const` declarations, in source order.
    pub constants: Vec<StatementD<Ty>>,
    pub functions: Vec<FunDecl<Ty>>,
    pub tests: Vec<TestDecl<Ty>>,
}

/// Structural equality of types, with names compared by their characters.
pub open spec fn ty_eq(a: Type, b: Type) -> bool
    decreases a,
{
    match (a, b) {
        (Type::Unit, Type::Unit) => true,
        (Type::Int, Type::Int) => true,
        (Type::Float, Type::Float) => true,
        (Type::Bool, Type::Bool) => true,
        (Type::Str, Type::Str) => true,
        (Type::Any, Type::Any) => true,
        (Type::Array(x), Type::Array(y)) => ty_eq(*x, *y),
        (Type::Tagged { tag_type: t1, tag_name: n1 }, Type::Tagged { tag_type: t2, tag_name: n2 }) =>
            t1 == t2 && n1@ == n2@,
        (Type::Function { params: p1, return_type: r1 }, Type::Function { params: p2, return_type: r2 }) =>
            p1.len() == p2.len() && (forall|i: int| 0 <= i < p1.len() ==> ty_eq(#[trigger] p1@[i], p2@[i]))
                && ty_eq(*r1, *r2),
        _ => false,
    }
}

/// `ty_eq` is reflexive.
pub proof fn lemma_ty_eq_refl(a: Type)
    ensures
        ty_eq(a, a),
    decreases a,
{
    match a {
        Type::Array(x) => lemma_ty_eq_refl(*x),
        Type::Function { params, return_type } => {
            assert forall|i: int| 0 <= i < params.len() implies ty_eq(#[trigger] params@[i], params@[i]) by {
                lemma_ty_eq_refl(params@[i]);
            }
            lemma_ty_eq_refl(*return_type);
        },
        _ => {},
    }
}

/// `ty_eq` is symmetric.
pub proof fn lemma_ty_eq_symm(a: Type, b: Type)
    requires
        ty_eq(a, b),
    ensures
        ty_eq(b, a),
    decreases a,
{
    match (a, b) {
        (Type::Array(x), Type::Array(y)) => lemma_ty_eq_symm(*x, *y),
        (Type::Function { params: p1, return_type: r1 }, Type::Function { params: p2, return_type: r2 }) => {
            assert forall|i: int| 0 <= i < p2.len() implies ty_eq(#[trigger] p2@[i], p1@[i]) by {
                lemma_ty_eq_symm(p1@[i], p2@[i]);
            }
            lemma_ty_eq_symm(*r1, *r2);
        },
        _ => {},
    }
}

/// `ty_eq` is transitive.
pub proof fn lemma_ty_eq_trans(a: Type, b: Type, c: Type)
    requires
        ty_eq(a, b),
        ty_eq(b, c),
    ensures
        ty_eq(a, c),
    decreases a,
{
    match (a, b, c) {
        (Type::Array(x), Type::Array(y), Type::Array(z)) => lemma_ty_eq_trans(*x, *y, *z),
        (
            Type::Function { params: p1, return_type: r1 },
            Type::Function { params: p2, return_type: r2 },
            Type::Function { params: p3, return_type: r3 },
        ) => {
            assert forall|i: int| 0 <= i < p1.len() implies ty_eq(#[trigger] p1@[i], p3@[i]) by {
                lemma_ty_eq_trans(p1@[i], p2@[i], p3@[i]);
            }
            lemma_ty_eq_trans(*r1, *r2, *r3);
        },
        _ => {},
    }
}

impl Type {
    /// Decides whether two types are the same.
    #[verifier::loop_isolation(false)]
    pub fn equals(&self, other: &Type) -> (r: bool)
        ensures
            r == ty_eq(*self, *other),
        decreases *self,
    {
        match (self, other) {
            (Type::Unit, Type::Unit) => true,
            (Type::Int, Type::Int) => true,
            (Type::Float, Type::Float) => true,
            (Type::Bool, Type::Bool) => true,
            (Type::Str, Type::Str) => true,
            (Type::Any, Type::Any) => true,
            (Type::Array(x), Type::Array(y)) => x.equals(y),
            (Type::Tagged { tag_type: t1, tag_name: n1 }, Type::Tagged { tag_type: t2, tag_name: n2 }) => {
                *t1 == *t2 && n1.eq(n2)
            },
            (Type::Function { params: p1, return_type: r1 }, Type::Function { params: p2, return_type: r2 }) => {
                if p1.len() != p2.len() {
                    return false;
                }
                let mut i: usize = 0;
                while i < p1.len()
                    invariant
                        p1.len() == p2.len(),
                        i <= p1.len(),
                        forall|k: int| 0 <= k < i ==> ty_eq(#[trigger] p1@[k], p2@[k]),
                    decreases p1.len() - i,
                {
                    proof {
                        assert(decreases_to!(*self => *p1));
                        assert(decreases_to!(*p1 => p1@));
                        assert(decreases_to!(p1@ => p1@[i as int]));
                    }
                    if !p1[i].equals(&p2[i]) {
                        return false;
                    }
                    i = i + 1;
                }
                r1.equals(r2)
            },
            _ => false,
        }
    }

    /// A copy of the type.
    #[verifier::loop_isolation(false)]
    pub fn duplicate(&self) -> (r: Type)
        ensures
            ty_eq(r, *self),
        decreases *self,
    {
        match self {
            Type::Unit => Type::Unit,
            Type::Int => Type::Int,
            Type::Float => Type::Float,
            Type::Bool => Type::Bool,
            Type::Str => Type::Str,
            Type::Any => Type::Any,
            Type::Array(x) => Type::Array(Box::new(x.duplicate())),
            Type::Tagged { tag_type, tag_name } => Type::Tagged { tag_type: *tag_type, tag_name: tag_name.clone() },
            Type::Function { params, return_type } => {
                let mut ps: Vec<Type> = Vec::new();
                let mut i: usize = 0;
                while i < params.len()
                    invariant
                        i <= params.len(),
                        ps.len() == i,
                        forall|k: int| 0 <= k < i ==> ty_eq(#[trigger] ps@[k], params@[k]),
                    decreases params.len() - i,
                {
                    proof {
                        assert(decreases_to!(*self => *params));
                        assert(decreases_to!(*params => params@));
                        assert(decreases_to!(params@ => params@[i as int]));
                    }
                    ps.push(params[i].duplicate());
                    i = i + 1;
                }
                Type::Function { params: ps, return_type: Box::new(return_type.duplicate()) }
            },
        }
    }
}

pub type UncheckedExpr = ExprD<()>;
pub type CheckedExpr = ExprD<Type>;
pub type UncheckedStmt = StatementD<()>;
pub type CheckedStmt = StatementD<Type>;
pub type UncheckedFunDecl = FunDecl<()>;
pub type CheckedFunDecl = FunDecl<Type>;
pub type UncheckedProgram = Program<()>;
pub type CheckedProgram = Program<Type>;

} // verus!
