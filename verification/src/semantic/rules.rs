//! The typing rules of MiniC, as predicates over decorated trees.
//!
//! A checked tree is well typed when every node carries the type the rules
//! give it from the types of its children and from the context: the
//! variables in scope, the signatures of the functions, and the tagged type
//! declarations.
use vstd::prelude::*;
use crate::ir::ast::{
    ty_eq, CheckedExpr, CheckedFunDecl, CheckedProgram, CheckedStmt, Expr, Literal, Member, Statement, TagType,
    TaggedTypeDecl, Type, UncheckedExpr, UncheckedFunDecl, UncheckedProgram, UncheckedStmt,
};

use crate::stdlib::registry::{native_params, native_return, standard_names};

verus! {

/// A variable in scope.
#[derive(Debug)]
pub struct Binding {
    pub name: String,
    pub ty: Type,
    pub constant: bool,
}

/// The signature of a callable function.
#[derive(Debug)]
pub struct FunSig {
    pub name: String,
    pub params: Vec<Type>,
    pub return_type: Type,
}

/// `Int` or `Float`.
pub open spec fn is_numeric(t: Type) -> bool {
    t is Int || t is Float
}

/// Result type of an arithmetic operation: `Float` when either side is.
pub open spec fn arith_result(a: Type, b: Type) -> Type {
    if a is Float || b is Float {
        Type::Float
    } else {
        Type::Int
    }
}

/// Arithmetic on numbers is `Float` exactly when an operand is: the result
/// does not depend on which side a float stands, a `Float` operand makes it
/// `Float`, and two `Int` operands give `Int`.
pub proof fn law_arith_result(a: Type, b: Type)
    ensures
        arith_result(a, b) == arith_result(b, a),
        a is Float ==> arith_result(a, b) is Float,
        b is Float ==> arith_result(a, b) is Float,
        a is Int && b is Int ==> arith_result(a, b) is Int,
{
}

/// A value of type `actual` may stand where `expected` is required:
/// equal types, `Any` on either side, `Int` where `Float` is expected, and
/// arrays whose element types are compatible.
pub open spec fn compatible(expected: Type, actual: Type) -> bool
    decreases expected,
{
    ||| expected is Any
    ||| actual is Any
    ||| ty_eq(expected, actual)
    ||| (expected is Float && actual is Int)
    ||| match (expected, actual) {
        (Type::Array(x), Type::Array(y)) => compatible(*x, *y),
        _ => false,
    }
}

/// Index of the innermost (last) binding of `name`.
pub open spec fn var_index(vars: Seq<Binding>, name: Seq<char>) -> Option<int>
    decreases vars.len(),
{
    if vars.len() == 0 {
        None
    } else if vars.last().name@ == name {
        Some(vars.len() - 1)
    } else {
        var_index(vars.drop_last(), name)
    }
}

/// Index of the first signature named `name`.
pub open spec fn fun_index(funs: Seq<FunSig>, name: Seq<char>) -> Option<int>
    decreases funs.len(),
{
    if funs.len() == 0 {
        None
    } else if funs[0].name@ == name {
        Some(0)
    } else {
        match fun_index(funs.drop_first(), name) {
            Some(i) => Some(i + 1),
            None => None,
        }
    }
}

/// Index of the first tagged type declaration of kind `tag` named `name`.
pub open spec fn decl_index(tagged: Seq<TaggedTypeDecl>, tag: TagType, name: Seq<char>) -> Option<int>
    decreases tagged.len(),
{
    if tagged.len() == 0 {
        None
    } else if tagged[0].tag_type == tag && tagged[0].tag_name@ == name {
        Some(0)
    } else {
        match decl_index(tagged.drop_first(), tag, name) {
            Some(i) => Some(i + 1),
            None => None,
        }
    }
}

/// Index of the first field named `member`.
pub open spec fn member_index(members: Seq<Member>, member: Seq<char>) -> Option<int>
    decreases members.len(),
{
    if members.len() == 0 {
        None
    } else if members[0] matches Member::Field(d) && d.name@ == member {
        Some(0)
    } else {
        match member_index(members.drop_first(), member) {
            Some(i) => Some(i + 1),
            None => None,
        }
    }
}

/// The type of field `member` in the (first) struct or union named `name`.
pub open spec fn field_type(tagged: Seq<TaggedTypeDecl>, tag: TagType, name: Seq<char>, member: Seq<char>) -> Option<Type> {
    match decl_index(tagged, tag, name) {
        Some(i) => match member_index(tagged[i].members@, member) {
            Some(j) => match tagged[i].members@[j] {
                Member::Field(d) => Some(d.ty),
                _ => None,
            },
            None => None,
        },
        None => None,
    }
}

/// The type of a literal.
pub open spec fn literal_type(l: Literal) -> Type {
    match l {
        Literal::Int(_) => Type::Int,
        Literal::Float(_) => Type::Float,
        Literal::Str(_) => Type::Str,
        Literal::Bool(_) => Type::Bool,
    }
}

/// The typing rules of expressions: every node of `e` carries the type the
/// rules give it.
pub open spec fn expr_typed(vars: Seq<Binding>, funs: Seq<FunSig>, tagged: Seq<TaggedTypeDecl>, e: CheckedExpr) -> bool
    decreases e,
{
    match e.exp {
        Expr::Literal(l) => ty_eq(e.ty, literal_type(l)),
        Expr::Ident(n) => match var_index(vars, n@) {
            Some(i) => ty_eq(e.ty, vars[i].ty),
            None => match fun_index(funs, n@) {
                Some(f) => match e.ty {
                    Type::Function { params, return_type } => params.len() == funs[f].params.len()
                        && (forall|k: int| 0 <= k < params.len() ==> ty_eq(#[trigger] params@[k], funs[f].params@[k]))
                        && ty_eq(*return_type, funs[f].return_type),
                    _ => false,
                },
                None => false,
            },
        },
        Expr::Neg(x) => expr_typed(vars, funs, tagged, *x) && is_numeric(x.ty) && ty_eq(e.ty, x.ty),
        Expr::Add(l, r) | Expr::Sub(l, r) | Expr::Mul(l, r) | Expr::Div(l, r) =>
            expr_typed(vars, funs, tagged, *l) && expr_typed(vars, funs, tagged, *r) && is_numeric(l.ty)
                && is_numeric(r.ty) && ty_eq(e.ty, arith_result(l.ty, r.ty)),
        Expr::Eq(l, r) | Expr::Ne(l, r) =>
            expr_typed(vars, funs, tagged, *l) && expr_typed(vars, funs, tagged, *r)
                && (compatible(l.ty, r.ty) || compatible(r.ty, l.ty)) && e.ty is Bool,
        Expr::Lt(l, r) | Expr::Le(l, r) | Expr::Gt(l, r) | Expr::Ge(l, r) =>
            expr_typed(vars, funs, tagged, *l) && expr_typed(vars, funs, tagged, *r) && is_numeric(l.ty)
                && is_numeric(r.ty) && e.ty is Bool,
        Expr::Not(x) => expr_typed(vars, funs, tagged, *x) && x.ty is Bool && e.ty is Bool,
        Expr::And(l, r) | Expr::Or(l, r) =>
            expr_typed(vars, funs, tagged, *l) && expr_typed(vars, funs, tagged, *r) && l.ty is Bool
                && r.ty is Bool && e.ty is Bool,
        Expr::Call { name, args } => match fun_index(funs, name@) {
            Some(f) => args.len() == funs[f].params.len()
                && (forall|k: int| 0 <= k < args.len() ==> expr_typed(vars, funs, tagged, #[trigger] args@[k]))
                && (forall|k: int| 0 <= k < args.len() ==> compatible(funs[f].params@[k], #[trigger] args@[k].ty))
                && ty_eq(e.ty, funs[f].return_type),
            None => false,
        },
        Expr::ArrayLit(items) =>
            (forall|k: int| 0 <= k < items.len() ==> expr_typed(vars, funs, tagged, #[trigger] items@[k]))
                && match e.ty {
                    Type::Array(t) => if items.len() == 0 {
                        *t is Any
                    } else {
                        ty_eq(*t, items@[0].ty) && forall|k: int| 0 <= k < items.len() ==> compatible(*t, #[trigger] items@[k].ty)
                    },
                    _ => false,
                },
        Expr::Index { base, index } =>
            expr_typed(vars, funs, tagged, *base) && expr_typed(vars, funs, tagged, *index) && index.ty is Int
                && match base.ty {
                    Type::Array(t) => ty_eq(e.ty, *t),
                    _ => false,
                },
        Expr::Member { base, member } =>
            expr_typed(vars, funs, tagged, *base) && match base.ty {
                Type::Tagged { tag_type, tag_name } => (tag_type == TagType::Struct || tag_type == TagType::Union)
                    && match field_type(tagged, tag_type, tag_name@, member@) {
                        Some(ft) => ty_eq(e.ty, ft),
                        None => false,
                    },
                _ => false,
            },
    }
}

/// Some decoration of `e` is well typed.
pub open spec fn typable(vars: Seq<Binding>, funs: Seq<FunSig>, tagged: Seq<TaggedTypeDecl>, e: UncheckedExpr) -> bool {
    exists|c: CheckedExpr| #[trigger] expr_typed(vars, funs, tagged, c) && #[trigger] expr_erases(c, e)
}

/// Some decoration of `a` is well typed with a type that may stand where
/// `param` is required.
pub open spec fn arg_typable(vars: Seq<Binding>, funs: Seq<FunSig>, tagged: Seq<TaggedTypeDecl>, param: Type, a: UncheckedExpr) -> bool {
    exists|c: CheckedExpr| #[trigger] expr_typed(vars, funs, tagged, c) && #[trigger] expr_erases(c, a) && compatible(param, c.ty)
}

/// `c` is `u` with decorations added: the same tree, node for node.
pub open spec fn expr_erases(c: CheckedExpr, u: UncheckedExpr) -> bool
    decreases c,
{
    match (c.exp, u.exp) {
        (Expr::Literal(a), Expr::Literal(b)) => a == b,
        (Expr::Ident(a), Expr::Ident(b)) => a@ == b@,
        (Expr::Neg(a), Expr::Neg(b)) => expr_erases(*a, *b),
        (Expr::Not(a), Expr::Not(b)) => expr_erases(*a, *b),
        (Expr::Add(a1, b1), Expr::Add(a2, b2)) => expr_erases(*a1, *a2) && expr_erases(*b1, *b2),
        (Expr::Sub(a1, b1), Expr::Sub(a2, b2)) => expr_erases(*a1, *a2) && expr_erases(*b1, *b2),
        (Expr::Mul(a1, b1), Expr::Mul(a2, b2)) => expr_erases(*a1, *a2) && expr_erases(*b1, *b2),
        (Expr::Div(a1, b1), Expr::Div(a2, b2)) => expr_erases(*a1, *a2) && expr_erases(*b1, *b2),
        (Expr::Eq(a1, b1), Expr::Eq(a2, b2)) => expr_erases(*a1, *a2) && expr_erases(*b1, *b2),
        (Expr::Ne(a1, b1), Expr::Ne(a2, b2)) => expr_erases(*a1, *a2) && expr_erases(*b1, *b2),
        (Expr::Lt(a1, b1), Expr::Lt(a2, b2)) => expr_erases(*a1, *a2) && expr_erases(*b1, *b2),
        (Expr::Le(a1, b1), Expr::Le(a2, b2)) => expr_erases(*a1, *a2) && expr_erases(*b1, *b2),
        (Expr::Gt(a1, b1), Expr::Gt(a2, b2)) => expr_erases(*a1, *a2) && expr_erases(*b1, *b2),
        (Expr::Ge(a1, b1), Expr::Ge(a2, b2)) => expr_erases(*a1, *a2) && expr_erases(*b1, *b2),
        (Expr::And(a1, b1), Expr::And(a2, b2)) => expr_erases(*a1, *a2) && expr_erases(*b1, *b2),
        (Expr::Or(a1, b1), Expr::Or(a2, b2)) => expr_erases(*a1, *a2) && expr_erases(*b1, *b2),
        (Expr::Call { name: n1, args: a1 }, Expr::Call { name: n2, args: a2 }) =>
            n1@ == n2@ && a1.len() == a2.len() && forall|k: int| 0 <= k < a1.len() ==> expr_erases(#[trigger] a1@[k], a2@[k]),
        (Expr::ArrayLit(a1), Expr::ArrayLit(a2)) =>
            a1.len() == a2.len() && forall|k: int| 0 <= k < a1.len() ==> expr_erases(#[trigger] a1@[k], a2@[k]),
        (Expr::Index { base: b1, index: i1 }, Expr::Index { base: b2, index: i2 }) =>
            expr_erases(*b1, *b2) && expr_erases(*i1, *i2),
        (Expr::Member { base: b1, member: m1 }, Expr::Member { base: b2, member: m2 }) =>
            expr_erases(*b1, *b2) && m1@ == m2@,
        _ => false,
    }
}

/// The variable that an assignment target writes into: `x`, `x[i]...`, `x.m...`.
pub open spec fn root_var(target: CheckedExpr) -> Option<Seq<char>>
    decreases target,
{
    match target.exp {
        Expr::Ident(n) => Some(n@),
        Expr::Index { base, .. } => root_var(*base),
        Expr::Member { base, .. } => root_var(*base),
        _ => None,
    }
}

/// A target may be assigned: it writes into a declared variable that is not a constant.
pub open spec fn assignable(vars: Seq<Binding>, target: CheckedExpr) -> bool {
    match root_var(target) {
        Some(n) => match var_index(vars, n) {
            Some(i) => !vars[i].constant,
            None => false,
        },
        None => false,
    }
}

/// A call of `name` with the checked arguments `args` is well typed.
pub open spec fn call_typed(vars: Seq<Binding>, funs: Seq<FunSig>, tagged: Seq<TaggedTypeDecl>, name: Seq<char>, args: Seq<CheckedExpr>) -> bool {
    match fun_index(funs, name) {
        Some(f) => args.len() == funs[f].params.len()
            && (forall|k: int| 0 <= k < args.len() ==> expr_typed(vars, funs, tagged, #[trigger] args[k]))
            && (forall|k: int| 0 <= k < args.len() ==> compatible(funs[f].params@[k], #[trigger] args[k].ty)),
        None => false,
    }
}

/// `after` is `before` with one more binding of `name` at the end.
pub open spec fn extends(before: Seq<Binding>, after: Seq<Binding>, name: Seq<char>, ty: Type, constant: bool) -> bool {
    &&& after.len() == before.len() + 1
    &&& after.subrange(0, before.len() as int) == before
    &&& after.last().name@ == name
    &&& ty_eq(after.last().ty, ty)
    &&& after.last().constant == constant
}

/// The typing rules of statements. A variable of a tagged type may also be
/// declared with an int (an enum's value, a union's first field, ignored
/// for a struct). `before` and `after` are the variables
/// in scope before and after the statement; `ret` is the return type of the
/// enclosing function. Declarations add a binding; blocks and the branches
/// of `if` and `while` keep what they declare to themselves.
pub open spec fn stmt_typed(
    before: Seq<Binding>,
    after: Seq<Binding>,
    funs: Seq<FunSig>,
    tagged: Seq<TaggedTypeDecl>,
    ret: Type,
    s: CheckedStmt,
) -> bool
    decreases s,
{
    &&& s.ty is Unit
    &&& match s.stmt {
        Statement::Decl { name, ty, init } | Statement::ConstDecl { name, ty, init } =>
            !(ty is Unit) && var_index(before, name@) is None && expr_typed(before, funs, tagged, *init)
                && (compatible(ty, init.ty) || (ty is Tagged && init.ty is Int))
                && extends(before, after, name@, ty, s.stmt is ConstDecl),
        Statement::Assign { target, value } =>
            expr_typed(before, funs, tagged, *target) && expr_typed(before, funs, tagged, *value)
                && assignable(before, *target) && compatible(target.ty, value.ty) && after == before,
        Statement::Block { seq } =>
            after == before && exists|envs: Seq<Seq<Binding>>| #![trigger envs.len()]
                envs.len() == seq.len() + 1 && envs[0] == before
                    && forall|k: int| 0 <= k < seq.len() ==> stmt_typed(envs[k], envs[k + 1], funs, tagged, ret, #[trigger] seq@[k]),
        Statement::Call { name, args } => call_typed(before, funs, tagged, name@, args@) && after == before,
        Statement::If { cond, then_branch, else_branch } =>
            expr_typed(before, funs, tagged, *cond) && cond.ty is Bool && after == before
                && (exists|m: Seq<Binding>| #![trigger m.len()] stmt_typed(before, m, funs, tagged, ret, *then_branch))
                && match else_branch {
                    Some(eb) => exists|m: Seq<Binding>| #![trigger m.len()] stmt_typed(before, m, funs, tagged, ret, *eb),
                    None => true,
                },
        Statement::While { cond, body } =>
            expr_typed(before, funs, tagged, *cond) && cond.ty is Bool && after == before
                && exists|m: Seq<Binding>| #![trigger m.len()] stmt_typed(before, m, funs, tagged, ret, *body),
        Statement::Return(None) => ret is Unit && after == before,
        Statement::Return(Some(e)) =>
            !(ret is Unit) && expr_typed(before, funs, tagged, *e) && compatible(ret, e.ty) && after == before,
        Statement::Assert(e) => expr_typed(before, funs, tagged, *e) && e.ty is Bool && after == before,
    }
}

/// Some decoration of `s` is well typed, from the variables `vars`.
pub open spec fn stmt_typable(vars: Seq<Binding>, funs: Seq<FunSig>, tagged: Seq<TaggedTypeDecl>, ret: Type, s: UncheckedStmt) -> bool {
    exists|c: CheckedStmt, after: Seq<Binding>| #[trigger] stmt_typed(vars, after, funs, tagged, ret, c) && #[trigger] stmt_erases(c, s)
}

/// `c` is `u` with decorations added.
pub open spec fn stmt_erases(c: CheckedStmt, u: UncheckedStmt) -> bool
    decreases c,
{
    match (c.stmt, u.stmt) {
        (Statement::Decl { name: n1, ty: t1, init: i1 }, Statement::Decl { name: n2, ty: t2, init: i2 }) =>
            n1@ == n2@ && ty_eq(t1, t2) && expr_erases(*i1, *i2),
        (Statement::ConstDecl { name: n1, ty: t1, init: i1 }, Statement::ConstDecl { name: n2, ty: t2, init: i2 }) =>
            n1@ == n2@ && ty_eq(t1, t2) && expr_erases(*i1, *i2),
        (Statement::Assign { target: t1, value: v1 }, Statement::Assign { target: t2, value: v2 }) =>
            expr_erases(*t1, *t2) && expr_erases(*v1, *v2),
        (Statement::Block { seq: s1 }, Statement::Block { seq: s2 }) =>
            s1.len() == s2.len() && forall|k: int| 0 <= k < s1.len() ==> stmt_erases(#[trigger] s1@[k], s2@[k]),
        (Statement::Call { name: n1, args: a1 }, Statement::Call { name: n2, args: a2 }) =>
            n1@ == n2@ && a1.len() == a2.len() && forall|k: int| 0 <= k < a1.len() ==> expr_erases(#[trigger] a1@[k], a2@[k]),
        (Statement::If { cond: c1, then_branch: t1, else_branch: e1 }, Statement::If { cond: c2, then_branch: t2, else_branch: e2 }) =>
            expr_erases(*c1, *c2) && stmt_erases(*t1, *t2) && match (e1, e2) {
                (Some(x), Some(y)) => stmt_erases(*x, *y),
                (None, None) => true,
                _ => false,
            },
        (Statement::While { cond: c1, body: b1 }, Statement::While { cond: c2, body: b2 }) =>
            expr_erases(*c1, *c2) && stmt_erases(*b1, *b2),
        (Statement::Return(None), Statement::Return(None)) => true,
        (Statement::Return(Some(x)), Statement::Return(Some(y))) => expr_erases(*x, *y),
        (Statement::Assert(x), Statement::Assert(y)) => expr_erases(*x, *y),
        _ => false,
    }
}

/// `sig` is the signature of the function `f`.
pub open spec fn signature_of(f: CheckedFunDecl, sig: FunSig) -> bool {
    &&& sig.name@ == f.name@
    &&& sig.params.len() == f.params.len()
    &&& forall|k: int| 0 <= k < f.params.len() ==> ty_eq(#[trigger] sig.params@[k], f.params@[k].ty)
    &&& ty_eq(sig.return_type, f.return_type)
}

/// `sig` is the signature of the `k`-th native function of the standard library.
pub open spec fn native_sig(k: int, sig: FunSig) -> bool {
    &&& sig.name@ == standard_names()[k]
    &&& sig.params@.len() == native_params(k).len()
    &&& forall|i: int| 0 <= i < native_params(k).len() ==> ty_eq(#[trigger] sig.params@[i], native_params(k)[i])
    &&& ty_eq(sig.return_type, native_return(k))
}

/// `env` is `globals` followed by one (non-constant) binding per parameter of `f`.
pub open spec fn params_bound(globals: Seq<Binding>, f: CheckedFunDecl, env: Seq<Binding>) -> bool {
    &&& env.len() == globals.len() + f.params.len()
    &&& env.subrange(0, globals.len() as int) == globals
    &&& forall|k: int| 0 <= k < f.params.len() ==> {
        let b = #[trigger] env[globals.len() + k];
        b.name@ == f.params@[k].name@ && ty_eq(b.ty, f.params@[k].ty) && !b.constant
    }
}

/// The typing rules of programs. `funs` holds the signatures of the
/// program's functions, in order, then those of the native functions;
/// `globals` holds the global constants. Constants are checked in order,
/// each seeing those before it; every function body is checked with the
/// globals and its parameters in scope; every test body with the globals.
/// There is a function `main` without parameters that returns `void`, or
/// there is no function `main` and there are tests.
pub open spec fn program_typed(c: CheckedProgram, tagged: Seq<TaggedTypeDecl>, funs: Seq<FunSig>, globals: Seq<Binding>) -> bool {
    &&& funs.len() == c.functions.len() + 11
    &&& forall|i: int| 0 <= i < c.functions.len() ==> signature_of(#[trigger] c.functions@[i], funs[i])
    &&& forall|k: int| 0 <= k < 11 ==> native_sig(k, #[trigger] funs[c.functions.len() + k])
    &&& exists|envs: Seq<Seq<Binding>>| #![trigger envs.len()]
        envs.len() == c.constants.len() + 1 && envs[0] == Seq::<Binding>::empty() && envs.last() == globals
            && forall|k: int| 0 <= k < c.constants.len() ==> stmt_typed(envs[k], envs[k + 1], funs, tagged, Type::Unit, #[trigger] c.constants@[k])
    &&& forall|i: int| 0 <= i < c.functions.len() ==> exists|env: Seq<Binding>, after: Seq<Binding>| #![trigger env.len(), after.len()]
        params_bound(globals, #[trigger] c.functions@[i], env)
            && stmt_typed(env, after, funs, tagged, c.functions@[i].return_type, *c.functions@[i].body)
    &&& forall|i: int| 0 <= i < c.tests.len() ==> exists|after: Seq<Binding>| #![trigger after.len()]
        stmt_typed(globals, after, funs, tagged, Type::Unit, *(#[trigger] c.tests@[i]).body)
    &&& (exists|i: int| 0 <= i < c.functions.len() && (#[trigger] c.functions@[i]).name@ == "main"@
        && c.functions@[i].params.len() == 0 && c.functions@[i].return_type is Unit)
        || (c.tests.len() > 0 && forall|i: int| 0 <= i < c.functions.len() ==> (#[trigger] c.functions@[i]).name@ != "main"@)
}

/// The checked function `c` is the function `u` with decorations added.
pub open spec fn fun_erases(c: CheckedFunDecl, u: UncheckedFunDecl) -> bool {
    &&& c.name@ == u.name@
    &&& c.params.len() == u.params.len()
    &&& forall|k: int| 0 <= k < c.params.len() ==> (#[trigger] c.params@[k]).name@ == u.params@[k].name@
        && ty_eq(c.params@[k].ty, u.params@[k].ty)
    &&& ty_eq(c.return_type, u.return_type)
    &&& stmt_erases(*c.body, *u.body)
}

/// The checked program `c` is the program `u` with decorations added.
pub open spec fn program_erases(c: CheckedProgram, u: UncheckedProgram) -> bool {
    &&& c.tagged_types.len() == u.tagged_types.len()
    &&& forall|k: int| 0 <= k < c.tagged_types.len() ==> tagged_eq(#[trigger] c.tagged_types@[k], u.tagged_types@[k])
    &&& c.constants.len() == u.constants.len()
    &&& forall|k: int| 0 <= k < c.constants.len() ==> stmt_erases(#[trigger] c.constants@[k], u.constants@[k])
    &&& c.functions.len() == u.functions.len()
    &&& forall|k: int| 0 <= k < c.functions.len() ==> fun_erases(#[trigger] c.functions@[k], u.functions@[k])
    &&& c.tests.len() == u.tests.len()
    &&& forall|k: int| 0 <= k < c.tests.len() ==> (#[trigger] c.tests@[k]).name@ == u.tests@[k].name@
        && stmt_erases(*c.tests@[k].body, *u.tests@[k].body)
}

/// A well-typed `+`, `-`, `*` or `/` node has type `Float` when either of
/// its operands has, whichever side it stands on, and `Int` when both are
/// `Int`.
pub proof fn law_arith_node_type(vars: Seq<Binding>, funs: Seq<FunSig>, tagged: Seq<TaggedTypeDecl>, e: CheckedExpr)
    requires
        expr_typed(vars, funs, tagged, e),
        e.exp is Add || e.exp is Sub || e.exp is Mul || e.exp is Div,
    ensures
        match e.exp {
            Expr::Add(l, r) | Expr::Sub(l, r) | Expr::Mul(l, r) | Expr::Div(l, r) =>
                ((l.ty is Float || r.ty is Float) ==> e.ty is Float) && (l.ty is Int && r.ty is Int ==> e.ty is Int),
            _ => true,
        },
{
    match e.exp {
        Expr::Add(l, r) | Expr::Sub(l, r) | Expr::Mul(l, r) | Expr::Div(l, r) => {
            law_arith_result(l.ty, r.ty);
        },
        _ => {},
    }
}

/// Two tagged type declarations are the same, member for member.
pub open spec fn tagged_eq(a: TaggedTypeDecl, b: TaggedTypeDecl) -> bool {
    &&& a.tag_type == b.tag_type
    &&& a.tag_name@ == b.tag_name@
    &&& a.members.len() == b.members.len()
    &&& forall|k: int| 0 <= k < a.members.len() ==> match (#[trigger] a.members@[k], b.members@[k]) {
        (Member::Field(x), Member::Field(y)) => x.name@ == y.name@ && ty_eq(x.ty, y.ty),
        (Member::Enumerator { name: n1, value: v1 }, Member::Enumerator { name: n2, value: v2 }) => n1@ == n2@ && v1 == v2,
        _ => false,
    }
}

} // verus!
