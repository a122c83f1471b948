//! The type checker: decorates every node of a program with its type, or
//! stops at the first type error.
use vstd::prelude::*;
use crate::ir::ast::{
    ty_eq, CheckedExpr, CheckedStmt, Expr, ExprD, Literal, Statement, StatementD, TagType, TaggedTypeDecl, Type,
    UncheckedExpr, UncheckedStmt,
};
use crate::semantic::rules::{
    arith_result, assignable, call_typed, compatible, expr_erases, expr_typed, extends, fun_index, is_numeric,
    arg_typable, literal_type, root_var, stmt_erases, stmt_typable, stmt_typed, typable, var_index, Binding, FunSig,
};
use crate::semantic::uniqueness::{
    env_eq, lemma_compatible_congr, lemma_env_eq_refl, lemma_env_eq_symm_trans, lemma_root_var_erases,
    lemma_stmt_after_unique, lemma_stmt_typed_env, lemma_typed_unique, transport,
};
use crate::semantic::scope::{is_compatible, lookup_field, lookup_fun, lookup_var};
use crate::text::{append_chars, append_str, string_of};

verus! {

/// A type error, with a message for the programmer.
#[derive(Debug)]
pub struct TypeError {
    pub message: String,
}

/// The name of a type as messages show it.
pub open spec fn type_display(t: Type) -> Seq<char>
    decreases t,
{
    match t {
        Type::Unit => "Unit"@,
        Type::Int => "Int"@,
        Type::Float => "Float"@,
        Type::Bool => "Bool"@,
        Type::Str => "Str"@,
        Type::Any => "Any"@,
        Type::Array(x) => "Array("@ + type_display(*x) + ")"@,
        Type::Tagged { tag_type, tag_name } => match tag_type {
            TagType::Struct => "struct "@ + tag_name@,
            TagType::Union => "union "@ + tag_name@,
            TagType::Enum => "enum "@ + tag_name@,
        },
        Type::Function { .. } => "Function"@,
    }
}

/// The name of a type as messages show it (`Int`, `Array(Str)`, ...).
pub fn display_type(t: &Type) -> (r: Vec<char>)
    ensures
        r@ == type_display(*t),
    decreases *t,
{
    let mut out: Vec<char> = Vec::new();
    match t {
        Type::Unit => append_str(&mut out, "Unit"),
        Type::Int => append_str(&mut out, "Int"),
        Type::Float => append_str(&mut out, "Float"),
        Type::Bool => append_str(&mut out, "Bool"),
        Type::Str => append_str(&mut out, "Str"),
        Type::Any => append_str(&mut out, "Any"),
        Type::Array(x) => {
            append_str(&mut out, "Array(");
            let inner = display_type(x);
            append_chars(&mut out, &inner);
            append_str(&mut out, ")");
            assert(out@ =~= "Array("@ + type_display(**x) + ")"@);
        },
        Type::Tagged { tag_type, tag_name } => {
            match tag_type {
                TagType::Struct => append_str(&mut out, "struct "),
                TagType::Union => append_str(&mut out, "union "),
                TagType::Enum => append_str(&mut out, "enum "),
            }
            append_str(&mut out, tag_name.as_str());
        },
        Type::Function { .. } => append_str(&mut out, "Function"),
    }
    out
}

/// An error whose message is `text`.
pub fn error(text: &str) -> (r: TypeError)
    ensures
        r.message@ == text@,
{
    let mut m: Vec<char> = Vec::new();
    append_str(&mut m, text);
    TypeError { message: string_of(&m) }
}

/// An error whose message is `before`, then `name`, then `after`.
pub fn error_named(before: &str, name: &String, after: &str) -> (r: TypeError)
    ensures
        r.message@ == before@ + name@ + after@,
{
    let mut m: Vec<char> = Vec::new();
    append_str(&mut m, before);
    append_str(&mut m, name.as_str());
    append_str(&mut m, after);
    TypeError { message: string_of(&m) }
}

/// An error `<what>: expected <expected>, got <actual>`.
pub fn error_mismatch(what: &Vec<char>, expected: &Type, actual: &Type) -> (r: TypeError)
    ensures
        r.message@ == what@ + ": expected "@ + type_display(*expected) + ", got "@ + type_display(*actual),
{
    let mut m: Vec<char> = Vec::new();
    append_chars(&mut m, what);
    append_str(&mut m, ": expected ");
    let e = display_type(expected);
    append_chars(&mut m, &e);
    append_str(&mut m, ", got ");
    let a = display_type(actual);
    append_chars(&mut m, &a);
    TypeError { message: string_of(&m) }
}

/// A copy of a literal.
pub fn copy_literal(l: &Literal) -> (r: Literal)
    ensures
        r == *l,
{
    match l {
        Literal::Int(n) => Literal::Int(*n),
        Literal::Float(t) => Literal::Float(t.clone()),
        Literal::Str(t) => Literal::Str(t.clone()),
        Literal::Bool(b) => Literal::Bool(*b),
    }
}

fn numeric(t: &Type) -> (r: bool)
    ensures
        r == is_numeric(*t),
{
    matches!(t, Type::Int) || matches!(t, Type::Float)
}

fn arith(a: &Type, b: &Type) -> (r: Type)
    ensures
        r == arith_result(*a, *b),
{
    if matches!(a, Type::Float) || matches!(b, Type::Float) {
        Type::Float
    } else {
        Type::Int
    }
}

/// Checks both operands of a binary node `parent`.
fn check_pair(
    vars: &Vec<Binding>,
    funs: &Vec<FunSig>,
    tagged: &Vec<TaggedTypeDecl>,
    parent: &UncheckedExpr,
    l: &UncheckedExpr,
    r: &UncheckedExpr,
) -> (res: Result<(CheckedExpr, CheckedExpr), TypeError>)
    requires
        decreases_to!(*parent => *l),
        decreases_to!(*parent => *r),
    ensures
        res matches Ok((cl, cr)) ==> expr_typed(vars@, funs@, tagged@, cl) && expr_erases(cl, *l)
            && expr_typed(vars@, funs@, tagged@, cr) && expr_erases(cr, *r),
        typable(vars@, funs@, tagged@, *l) && typable(vars@, funs@, tagged@, *r) ==> res is Ok,
    decreases *parent, 0int,
{
    let cl = match check_expr(vars, funs, tagged, l) {
        Ok(c) => c,
        Err(err) => { return Err(err); },
    };
    let cr = match check_expr(vars, funs, tagged, r) {
        Ok(c) => c,
        Err(err) => { return Err(err); },
    };
    Ok((cl, cr))
}

fn mk(exp: Expr<Type>, ty: Type) -> (r: CheckedExpr)
    ensures
        r.exp == exp,
        r.ty == ty,
{
    ExprD { exp, ty }
}

/// Checks the arguments of a call to `f` against its parameter types.
#[verifier::loop_isolation(false)]
fn check_args(
    vars: &Vec<Binding>,
    funs: &Vec<FunSig>,
    tagged: &Vec<TaggedTypeDecl>,
    parent: &UncheckedExpr,
    args: &Vec<UncheckedExpr>,
    f: usize,
) -> (res: Result<Vec<CheckedExpr>, TypeError>)
    requires
        f < funs.len(),
        args.len() == funs@[f as int].params.len(),
        forall|k: int| 0 <= k < args.len() ==> decreases_to!(*parent => #[trigger] args@[k]),
    ensures
        res matches Ok(cargs) ==> cargs.len() == args.len()
            && (forall|k: int| 0 <= k < args.len() ==> expr_typed(vars@, funs@, tagged@, #[trigger] cargs@[k]))
            && (forall|k: int| 0 <= k < args.len() ==> expr_erases(#[trigger] cargs@[k], args@[k]))
            && (forall|k: int| 0 <= k < args.len() ==> compatible(funs@[f as int].params@[k], #[trigger] cargs@[k].ty)),
        (forall|k: int| 0 <= k < args.len() ==> #[trigger] arg_typable(vars@, funs@, tagged@, funs@[f as int].params@[k], args@[k]))
            ==> res is Ok,
    decreases *parent, 0int,
{
    let mut out: Vec<CheckedExpr> = Vec::new();
    let mut i: usize = 0;
    while i < args.len()
        invariant
            i <= args.len(),
            out.len() == i,
            forall|k: int| 0 <= k < i ==> expr_typed(vars@, funs@, tagged@, #[trigger] out@[k]),
            forall|k: int| 0 <= k < i ==> expr_erases(#[trigger] out@[k], args@[k]),
            forall|k: int| 0 <= k < i ==> compatible(funs@[f as int].params@[k], #[trigger] out@[k].ty),
        decreases args.len() - i,
    {
        assert(decreases_to!(*parent => args@[i as int]));
        let c = match check_expr(vars, funs, tagged, &args[i]) {
            Ok(c) => c,
            Err(err) => {
                proof {
                    let pk = funs@[f as int].params@[i as int];
                    if forall|k: int| 0 <= k < args.len() ==> #[trigger] arg_typable(vars@, funs@, tagged@, funs@[f as int].params@[k], args@[k]) {
                        assert(arg_typable(vars@, funs@, tagged@, pk, args@[i as int]));
                        let c2 = choose|c2: CheckedExpr| expr_typed(vars@, funs@, tagged@, c2)
                            && expr_erases(c2, args@[i as int]) && compatible(pk, c2.ty);
                        assert(typable(vars@, funs@, tagged@, args@[i as int]));
                    }
                }
                return Err(err);
            },
        };
        if !is_compatible(&funs[f].params[i], &c.ty) {
            proof {
                let pk = funs@[f as int].params@[i as int];
                if forall|k: int| 0 <= k < args.len() ==> #[trigger] arg_typable(vars@, funs@, tagged@, funs@[f as int].params@[k], args@[k]) {
                    assert(arg_typable(vars@, funs@, tagged@, pk, args@[i as int]));
                    let c2 = choose|c2: CheckedExpr| expr_typed(vars@, funs@, tagged@, c2)
                        && expr_erases(c2, args@[i as int]) && compatible(pk, c2.ty);
                    lemma_typed_unique(vars@, funs@, tagged@, c2, c, args@[i as int]);
                    crate::ir::ast::lemma_ty_eq_refl(pk);
                    lemma_compatible_congr(pk, c2.ty, pk, c.ty);
                }
            }
            let mut what: Vec<char> = Vec::new();
            append_str(&mut what, "argument ");
            let num = crate::text::decimal_chars((i + 1) as u64);
            append_chars(&mut what, &num);
            append_str(&mut what, " to ");
            append_str(&mut what, funs[f].name.as_str());
            return Err(error_mismatch(&what, &funs[f].params[i], &c.ty));
        }
        out.push(c);
        i = i + 1;
    }
    Ok(out)
}

/// Checks the items of an array literal.
#[verifier::loop_isolation(false)]
fn check_items(
    vars: &Vec<Binding>,
    funs: &Vec<FunSig>,
    tagged: &Vec<TaggedTypeDecl>,
    parent: &UncheckedExpr,
    items: &Vec<UncheckedExpr>,
) -> (res: Result<CheckedExpr, TypeError>)
    requires
        parent.exp == Expr::<()>::ArrayLit(*items),
        forall|k: int| 0 <= k < items.len() ==> decreases_to!(*parent => #[trigger] items@[k]),
    ensures
        res matches Ok(c) ==> expr_typed(vars@, funs@, tagged@, c) && expr_erases(c, *parent),
        typable(vars@, funs@, tagged@, *parent) ==> res is Ok,
    decreases *parent, 0int,
{
    let mut out: Vec<CheckedExpr> = Vec::new();
    let mut elem: Type = Type::Any;
    let mut i: usize = 0;
    while i < items.len()
        invariant
            i <= items.len(),
            out.len() == i,
            forall|k: int| 0 <= k < i ==> expr_typed(vars@, funs@, tagged@, #[trigger] out@[k]),
            forall|k: int| 0 <= k < i ==> expr_erases(#[trigger] out@[k], items@[k]),
            i > 0 ==> ty_eq(elem, out@[0].ty),
            i == 0 ==> elem is Any,
            forall|k: int| 0 <= k < i ==> compatible(elem, #[trigger] out@[k].ty),
        decreases items.len() - i,
    {
        assert(decreases_to!(*parent => items@[i as int]));
        let c = match check_expr(vars, funs, tagged, &items[i]) {
            Ok(c) => c,
            Err(err) => {
                proof {
                    if typable(vars@, funs@, tagged@, *parent) {
                        let w = choose|w: CheckedExpr| expr_typed(vars@, funs@, tagged@, w) && expr_erases(w, *parent);
                        let i2 = w.exp->ArrayLit_0;
                        assert(expr_typed(vars@, funs@, tagged@, i2@[i as int]) && expr_erases(i2@[i as int], items@[i as int]));
                    }
                }
                return Err(err);
            },
        };
        if i == 0 {
            elem = c.ty.duplicate();
            proof {
                crate::ir::ast::lemma_ty_eq_symm(elem, c.ty);
                assert(compatible(elem, c.ty));
            }
        } else if !is_compatible(&elem, &c.ty) {
            proof {
                if typable(vars@, funs@, tagged@, *parent) {
                    let w = choose|w: CheckedExpr| expr_typed(vars@, funs@, tagged@, w) && expr_erases(w, *parent);
                    let i2 = w.exp->ArrayLit_0;
                    let t = w.ty->Array_0;
                    assert(expr_typed(vars@, funs@, tagged@, i2@[0]) && expr_erases(i2@[0], items@[0]));
                    assert(expr_typed(vars@, funs@, tagged@, i2@[i as int]) && expr_erases(i2@[i as int], items@[i as int]));
                    assert(compatible(*t, i2@[i as int].ty));
                    lemma_typed_unique(vars@, funs@, tagged@, out@[0], i2@[0], items@[0]);
                    lemma_typed_unique(vars@, funs@, tagged@, i2@[i as int], c, items@[i as int]);
                    crate::ir::ast::lemma_ty_eq_trans(elem, out@[0].ty, i2@[0].ty);
                    crate::ir::ast::lemma_ty_eq_symm(*t, i2@[0].ty);
                    crate::ir::ast::lemma_ty_eq_trans(elem, i2@[0].ty, *t);
                    crate::ir::ast::lemma_ty_eq_symm(elem, *t);
                    lemma_compatible_congr(*t, i2@[i as int].ty, elem, c.ty);
                }
            }
            let mut what: Vec<char> = Vec::new();
            append_str(&mut what, "array elements must have the same type");
            return Err(error_mismatch(&what, &elem, &c.ty));
        }
        out.push(c);
        i = i + 1;
    }
    let res = mk(Expr::ArrayLit(out), Type::Array(Box::new(elem)));
    Ok(res)
}

/// Checks an expression: on success, the result is `e` with every node
/// decorated by the type the rules give it. It succeeds on every expression
/// that has a well-typed decoration.
pub fn check_expr(vars: &Vec<Binding>, funs: &Vec<FunSig>, tagged: &Vec<TaggedTypeDecl>, e: &UncheckedExpr) -> (r: Result<
    CheckedExpr,
    TypeError,
>)
    ensures
        r matches Ok(c) ==> expr_typed(vars@, funs@, tagged@, c) && expr_erases(c, *e),
        typable(vars@, funs@, tagged@, *e) ==> r is Ok,
    decreases *e, 1int,
{
    match &e.exp {
        Expr::Literal(l) => {
            let t = match l {
                Literal::Int(_) => Type::Int,
                Literal::Float(_) => Type::Float,
                Literal::Str(_) => Type::Str,
                Literal::Bool(_) => Type::Bool,
            };
            proof { crate::ir::ast::lemma_ty_eq_refl(t); }
            Ok(mk(Expr::Literal(copy_literal(l)), t))
        },
        Expr::Ident(n) => {
            match lookup_var(vars, n) {
                Some(i) => Ok(mk(Expr::Ident(n.clone()), vars[i].ty.duplicate())),
                None => match lookup_fun(funs, n) {
                    Some(f) => {
                        let sig = &funs[f];
                        let mut ps: Vec<Type> = Vec::new();
                        let mut k: usize = 0;
                        while k < sig.params.len()
                            invariant
                                k <= sig.params.len(),
                                ps.len() == k,
                                forall|j: int| 0 <= j < k ==> ty_eq(#[trigger] ps@[j], sig.params@[j]),
                            decreases sig.params.len() - k,
                        {
                            ps.push(sig.params[k].duplicate());
                            k = k + 1;
                        }
                        let t = Type::Function { params: ps, return_type: Box::new(sig.return_type.duplicate()) };
                        Ok(mk(Expr::Ident(n.clone()), t))
                    },
                    None => Err(error_named("undeclared variable '", n, "'")),
                },
            }
        },
        Expr::Neg(x) => {
            let cx = match check_expr(vars, funs, tagged, x) {
                Ok(c) => c,
                Err(err) => {
                    proof {
                        if typable(vars@, funs@, tagged@, *e) {
                            let c = choose|c: CheckedExpr| expr_typed(vars@, funs@, tagged@, c) && expr_erases(c, *e);
                            assert(typable(vars@, funs@, tagged@, **x) ) by {
                                let x2 = c.exp->Neg_0;
                                assert(expr_typed(vars@, funs@, tagged@, *x2) && expr_erases(*x2, **x));
                            }
                        }
                    }
                    return Err(err);
                },
            };
            if !numeric(&cx.ty) {
                proof {
                    if typable(vars@, funs@, tagged@, *e) {
                        let c = choose|c: CheckedExpr| expr_typed(vars@, funs@, tagged@, c) && expr_erases(c, *e);
                        let x2 = c.exp->Neg_0;
                        lemma_typed_unique(vars@, funs@, tagged@, cx, *x2, **x);
                    }
                }
                return Err(error("arithmetic operand must be Int or Float"));
            }
            let t = cx.ty.duplicate();
            proof { crate::ir::ast::lemma_ty_eq_symm(t, cx.ty); }
            Ok(mk(Expr::Neg(Box::new(cx)), t))
        },
        Expr::Not(x) => {
            let cx = match check_expr(vars, funs, tagged, x) {
                Ok(c) => c,
                Err(err) => {
                    proof {
                        if typable(vars@, funs@, tagged@, *e) {
                            let c = choose|c: CheckedExpr| expr_typed(vars@, funs@, tagged@, c) && expr_erases(c, *e);
                            assert(typable(vars@, funs@, tagged@, **x) ) by {
                                let x2 = c.exp->Not_0;
                                assert(expr_typed(vars@, funs@, tagged@, *x2) && expr_erases(*x2, **x));
                            }
                        }
                    }
                    return Err(err);
                },
            };
            if !matches!(cx.ty, Type::Bool) {
                proof {
                    if typable(vars@, funs@, tagged@, *e) {
                        let c = choose|c: CheckedExpr| expr_typed(vars@, funs@, tagged@, c) && expr_erases(c, *e);
                        let x2 = c.exp->Not_0;
                        lemma_typed_unique(vars@, funs@, tagged@, cx, *x2, **x);
                    }
                }
                return Err(error("logical operand must be Bool"));
            }
            Ok(mk(Expr::Not(Box::new(cx)), Type::Bool))
        },
        Expr::Add(l, r) | Expr::Sub(l, r) | Expr::Mul(l, r) | Expr::Div(l, r) => {
            let (cl, cr) = match check_pair(vars, funs, tagged, e, l, r) {
                Ok(x) => x,
                Err(err) => {
                    proof {
                        if typable(vars@, funs@, tagged@, *e) {
                            let c = choose|c: CheckedExpr| expr_typed(vars@, funs@, tagged@, c) && expr_erases(c, *e);
                            match c.exp {
                                Expr::Add(l2, r2) | Expr::Sub(l2, r2) | Expr::Mul(l2, r2) | Expr::Div(l2, r2) => {
                                    assert(expr_typed(vars@, funs@, tagged@, *l2) && expr_erases(*l2, **l));
                                    assert(expr_typed(vars@, funs@, tagged@, *r2) && expr_erases(*r2, **r));
                                },
                                _ => {},
                            }
                        }
                    }
                    return Err(err);
                },
            };
            if !numeric(&cl.ty) || !numeric(&cr.ty) {
                proof {
                    if typable(vars@, funs@, tagged@, *e) {
                        let c = choose|c: CheckedExpr| expr_typed(vars@, funs@, tagged@, c) && expr_erases(c, *e);
                        match c.exp {
                            Expr::Add(l2, r2) | Expr::Sub(l2, r2) | Expr::Mul(l2, r2) | Expr::Div(l2, r2) => {
                                lemma_typed_unique(vars@, funs@, tagged@, cl, *l2, **l);
                                lemma_typed_unique(vars@, funs@, tagged@, cr, *r2, **r);
                            },
                            _ => {},
                        }
                    }
                }
                return Err(error("arithmetic operands must be Int or Float"));
            }
            let t = arith(&cl.ty, &cr.ty);
            proof { crate::ir::ast::lemma_ty_eq_refl(t); }
            let exp = match &e.exp {
                Expr::Add(_, _) => Expr::Add(Box::new(cl), Box::new(cr)),
                Expr::Sub(_, _) => Expr::Sub(Box::new(cl), Box::new(cr)),
                Expr::Mul(_, _) => Expr::Mul(Box::new(cl), Box::new(cr)),
                _ => Expr::Div(Box::new(cl), Box::new(cr)),
            };
            Ok(mk(exp, t))
        },
        Expr::Eq(l, r) | Expr::Ne(l, r) => {
            let (cl, cr) = match check_pair(vars, funs, tagged, e, l, r) {
                Ok(x) => x,
                Err(err) => {
                    proof {
                        if typable(vars@, funs@, tagged@, *e) {
                            let c = choose|c: CheckedExpr| expr_typed(vars@, funs@, tagged@, c) && expr_erases(c, *e);
                            match c.exp {
                                Expr::Eq(l2, r2) | Expr::Ne(l2, r2) => {
                                    assert(expr_typed(vars@, funs@, tagged@, *l2) && expr_erases(*l2, **l));
                                    assert(expr_typed(vars@, funs@, tagged@, *r2) && expr_erases(*r2, **r));
                                },
                                _ => {},
                            }
                        }
                    }
                    return Err(err);
                },
            };
            if !is_compatible(&cl.ty, &cr.ty) && !is_compatible(&cr.ty, &cl.ty) {
                proof {
                    if typable(vars@, funs@, tagged@, *e) {
                        let c = choose|c: CheckedExpr| expr_typed(vars@, funs@, tagged@, c) && expr_erases(c, *e);
                        match c.exp {
                            Expr::Eq(l2, r2) | Expr::Ne(l2, r2) => {
                                lemma_typed_unique(vars@, funs@, tagged@, cl, *l2, **l);
                                lemma_typed_unique(vars@, funs@, tagged@, cr, *r2, **r);
                                crate::ir::ast::lemma_ty_eq_symm(cl.ty, l2.ty);
                                crate::ir::ast::lemma_ty_eq_symm(cr.ty, r2.ty);
                                if compatible(l2.ty, r2.ty) {
                                    lemma_compatible_congr(l2.ty, r2.ty, cl.ty, cr.ty);
                                } else {
                                    lemma_compatible_congr(r2.ty, l2.ty, cr.ty, cl.ty);
                                }
                            },
                            _ => {},
                        }
                    }
                }
                return Err(error("operands of an equality must have compatible types"));
            }
            let exp = match &e.exp {
                Expr::Eq(_, _) => Expr::Eq(Box::new(cl), Box::new(cr)),
                _ => Expr::Ne(Box::new(cl), Box::new(cr)),
            };
            Ok(mk(exp, Type::Bool))
        },
        Expr::Lt(l, r) | Expr::Le(l, r) | Expr::Gt(l, r) | Expr::Ge(l, r) => {
            let (cl, cr) = match check_pair(vars, funs, tagged, e, l, r) {
                Ok(x) => x,
                Err(err) => {
                    proof {
                        if typable(vars@, funs@, tagged@, *e) {
                            let c = choose|c: CheckedExpr| expr_typed(vars@, funs@, tagged@, c) && expr_erases(c, *e);
                            match c.exp {
                                Expr::Lt(l2, r2) | Expr::Le(l2, r2) | Expr::Gt(l2, r2) | Expr::Ge(l2, r2) => {
                                    assert(expr_typed(vars@, funs@, tagged@, *l2) && expr_erases(*l2, **l));
                                    assert(expr_typed(vars@, funs@, tagged@, *r2) && expr_erases(*r2, **r));
                                },
                                _ => {},
                            }
                        }
                    }
                    return Err(err);
                },
            };
            if !numeric(&cl.ty) || !numeric(&cr.ty) {
                proof {
                    if typable(vars@, funs@, tagged@, *e) {
                        let c = choose|c: CheckedExpr| expr_typed(vars@, funs@, tagged@, c) && expr_erases(c, *e);
                        match c.exp {
                            Expr::Lt(l2, r2) | Expr::Le(l2, r2) | Expr::Gt(l2, r2) | Expr::Ge(l2, r2) => {
                                lemma_typed_unique(vars@, funs@, tagged@, cl, *l2, **l);
                                lemma_typed_unique(vars@, funs@, tagged@, cr, *r2, **r);
                            },
                            _ => {},
                        }
                    }
                }
                return Err(error("ordering comparison requires numeric operands"));
            }
            let exp = match &e.exp {
                Expr::Lt(_, _) => Expr::Lt(Box::new(cl), Box::new(cr)),
                Expr::Le(_, _) => Expr::Le(Box::new(cl), Box::new(cr)),
                Expr::Gt(_, _) => Expr::Gt(Box::new(cl), Box::new(cr)),
                _ => Expr::Ge(Box::new(cl), Box::new(cr)),
            };
            Ok(mk(exp, Type::Bool))
        },
        Expr::And(l, r) | Expr::Or(l, r) => {
            let (cl, cr) = match check_pair(vars, funs, tagged, e, l, r) {
                Ok(x) => x,
                Err(err) => {
                    proof {
                        if typable(vars@, funs@, tagged@, *e) {
                            let c = choose|c: CheckedExpr| expr_typed(vars@, funs@, tagged@, c) && expr_erases(c, *e);
                            match c.exp {
                                Expr::And(l2, r2) | Expr::Or(l2, r2) => {
                                    assert(expr_typed(vars@, funs@, tagged@, *l2) && expr_erases(*l2, **l));
                                    assert(expr_typed(vars@, funs@, tagged@, *r2) && expr_erases(*r2, **r));
                                },
                                _ => {},
                            }
                        }
                    }
                    return Err(err);
                },
            };
            if !matches!(cl.ty, Type::Bool) || !matches!(cr.ty, Type::Bool) {
                proof {
                    if typable(vars@, funs@, tagged@, *e) {
                        let c = choose|c: CheckedExpr| expr_typed(vars@, funs@, tagged@, c) && expr_erases(c, *e);
                        match c.exp {
                            Expr::And(l2, r2) | Expr::Or(l2, r2) => {
                                lemma_typed_unique(vars@, funs@, tagged@, cl, *l2, **l);
                                lemma_typed_unique(vars@, funs@, tagged@, cr, *r2, **r);
                            },
                            _ => {},
                        }
                    }
                }
                return Err(error("logical operands must be Bool"));
            }
            let exp = match &e.exp {
                Expr::And(_, _) => Expr::And(Box::new(cl), Box::new(cr)),
                _ => Expr::Or(Box::new(cl), Box::new(cr)),
            };
            Ok(mk(exp, Type::Bool))
        },
        Expr::Call { name, args } => {
            let f = match lookup_fun(funs, name) {
                Some(f) => f,
                None => { return Err(error_named("call to undeclared function '", name, "'")); },
            };
            if args.len() != funs[f].params.len() {
                return Err(error_named("wrong number of arguments (arity) in call to '", name, "'"));
            }
            proof {
                assert forall|k: int| 0 <= k < args.len() implies decreases_to!(*e => #[trigger] args@[k]) by {
                    assert(decreases_to!(*e => *args));
                    assert(decreases_to!(*args => args@));
                    assert(decreases_to!(args@ => args@[k]));
                }
            }
            let cargs = match check_args(vars, funs, tagged, e, args, f) {
                Ok(c) => c,
                Err(err) => {
                    proof {
                        if typable(vars@, funs@, tagged@, *e) {
                            let c = choose|c: CheckedExpr| expr_typed(vars@, funs@, tagged@, c) && expr_erases(c, *e);
                            let a2 = c.exp->Call_args;
                            assert forall|k: int| 0 <= k < args.len() implies #[trigger] arg_typable(vars@, funs@,
                                tagged@, funs@[f as int].params@[k], args@[k]) by {
                                assert(expr_typed(vars@, funs@, tagged@, a2@[k]) && expr_erases(a2@[k], args@[k]));
                            }
                        }
                    }
                    return Err(err);
                },
            };
            let t = funs[f].return_type.duplicate();
            Ok(mk(Expr::Call { name: name.clone(), args: cargs }, t))
        },
        Expr::ArrayLit(items) => {
            proof {
                assert forall|k: int| 0 <= k < items.len() implies decreases_to!(*e => #[trigger] items@[k]) by {
                    assert(decreases_to!(*e => *items));
                    assert(decreases_to!(*items => items@));
                    assert(decreases_to!(items@ => items@[k]));
                }
            }
            check_items(vars, funs, tagged, e, items)
        },
        Expr::Index { base, index } => {
            let (cb, ci) = match check_pair(vars, funs, tagged, e, base, index) {
                Ok(x) => x,
                Err(err) => {
                    proof {
                        if typable(vars@, funs@, tagged@, *e) {
                            let c = choose|c: CheckedExpr| expr_typed(vars@, funs@, tagged@, c) && expr_erases(c, *e);
                            let (b2, i2) = (c.exp->Index_base, c.exp->Index_index);
                            assert(expr_typed(vars@, funs@, tagged@, *b2) && expr_erases(*b2, **base));
                            assert(expr_typed(vars@, funs@, tagged@, *i2) && expr_erases(*i2, **index));
                        }
                    }
                    return Err(err);
                },
            };
            proof {
                if typable(vars@, funs@, tagged@, *e) {
                    let c = choose|c: CheckedExpr| expr_typed(vars@, funs@, tagged@, c) && expr_erases(c, *e);
                    let (b2, i2) = (c.exp->Index_base, c.exp->Index_index);
                    lemma_typed_unique(vars@, funs@, tagged@, cb, *b2, **base);
                    lemma_typed_unique(vars@, funs@, tagged@, ci, *i2, **index);
                }
            }
            if !matches!(ci.ty, Type::Int) {
                return Err(error("array index must be Int"));
            }
            let t = match &cb.ty {
                Type::Array(inner) => inner.duplicate(),
                _ => { return Err(error("cannot index a value that is not an array")); },
            };
            Ok(mk(Expr::Index { base: Box::new(cb), index: Box::new(ci) }, t))
        },
        Expr::Member { base, member } => {
            let cb = match check_expr(vars, funs, tagged, base) {
                Ok(c) => c,
                Err(err) => {
                    proof {
                        if typable(vars@, funs@, tagged@, *e) {
                            let c = choose|c: CheckedExpr| expr_typed(vars@, funs@, tagged@, c) && expr_erases(c, *e);
                            let b2 = c.exp->Member_base;
                            assert(expr_typed(vars@, funs@, tagged@, *b2) && expr_erases(*b2, **base));
                        }
                    }
                    return Err(err);
                },
            };
            proof {
                if typable(vars@, funs@, tagged@, *e) {
                    let c = choose|c: CheckedExpr| expr_typed(vars@, funs@, tagged@, c) && expr_erases(c, *e);
                    let b2 = c.exp->Member_base;
                    lemma_typed_unique(vars@, funs@, tagged@, cb, *b2, **base);
                }
            }
            let t = match &cb.ty {
                Type::Tagged { tag_type, tag_name } => {
                    if *tag_type == TagType::Enum {
                        return Err(error("member access on an enum value"));
                    }
                    match lookup_field(tagged, *tag_type, tag_name, member) {
                        Some(ft) => ft.duplicate(),
                        None => { return Err(error_named("no such member '", member, "'")); },
                    }
                },
                _ => { return Err(error("member access on a value that is not a struct or union")); },
            };
            Ok(mk(Expr::Member { base: Box::new(cb), member: member.clone() }, t))
        },
    }
}

/// The variable an assignment target writes into, as `root_var` states.
fn target_root(t: &CheckedExpr) -> (r: Option<&String>)
    ensures
        r matches Some(n) ==> root_var(*t) == Some(n@),
        r is None ==> root_var(*t) is None,
    decreases *t,
{
    match &t.exp {
        Expr::Ident(n) => Some(n),
        Expr::Index { base, .. } => target_root(base),
        Expr::Member { base, .. } => target_root(base),
        _ => None,
    }
}

fn mk_stmt(stmt: Statement<Type>) -> (r: CheckedStmt)
    ensures
        r.stmt == stmt,
        r.ty == Type::Unit,
{
    StatementD { stmt, ty: Type::Unit }
}

/// Checks a statement. On success the result is `s` with every node
/// decorated, and `vars` holds the variables in scope after it. It succeeds
/// on every statement that has a well-typed decoration in the scope `vars`.
#[verifier::loop_isolation(false)]
pub fn check_stmt(
    vars: &mut Vec<Binding>,
    funs: &Vec<FunSig>,
    tagged: &Vec<TaggedTypeDecl>,
    ret: &Type,
    s: &UncheckedStmt,
) -> (r: Result<CheckedStmt, TypeError>)
    ensures
        r matches Ok(c) ==> stmt_typed(old(vars)@, final(vars)@, funs@, tagged@, *ret, c) && stmt_erases(c, *s),
        stmt_typable(old(vars)@, funs@, tagged@, *ret, *s) ==> r is Ok,
    decreases *s,
{
    let ghost before = vars@;
    match &s.stmt {
        Statement::Decl { name, ty, init } | Statement::ConstDecl { name, ty, init } => {
            let constant = matches!(s.stmt, Statement::ConstDecl { .. });
            if matches!(ty, Type::Unit) {
                return Err(error_named("cannot declare '", name, "' of type void"));
            }
            if lookup_var(vars, name).is_some() {
                return Err(error_named("redeclaration of '", name, "'"));
            }
            let ci = match check_expr(vars, funs, tagged, init) {
                Ok(c) => c,
                Err(err) => {
                    proof {
                        if stmt_typable(before, funs@, tagged@, *ret, *s) {
                            let (c0, a0) = choose|c0: CheckedStmt, a0: Seq<Binding>| stmt_typed(before, a0, funs@, tagged@, *ret, c0)
                                && stmt_erases(c0, *s);
                            let i0 = match c0.stmt {
                                Statement::Decl { init, .. } | Statement::ConstDecl { init, .. } => *init,
                                _ => *c0.stmt->Decl_init,
                            };
                            assert(expr_typed(vars@, funs@, tagged@, i0) && expr_erases(i0, **init));
                        }
                    }
                    return Err(err);
                },
            };
            let tagged_from_int = matches!(ty, Type::Tagged { .. }) && matches!(ci.ty, Type::Int);
            if !is_compatible(ty, &ci.ty) && !tagged_from_int {
                proof {
                    if stmt_typable(before, funs@, tagged@, *ret, *s) {
                        let (c0, a0) = choose|c0: CheckedStmt, a0: Seq<Binding>| stmt_typed(before, a0, funs@, tagged@, *ret, c0)
                            && stmt_erases(c0, *s);
                        match c0.stmt {
                            Statement::Decl { ty: t0, init: i0, .. } | Statement::ConstDecl { ty: t0, init: i0, .. } => {
                                lemma_typed_unique(vars@, funs@, tagged@, *i0, ci, **init);
                                if compatible(t0, i0.ty) {
                                    lemma_compatible_congr(t0, i0.ty, *ty, ci.ty);
                                }
                            },
                            _ => {},
                        }
                    }
                }
                let mut what: Vec<char> = Vec::new();
                append_str(&mut what, "declaration of ");
                append_str(&mut what, name.as_str());
                return Err(error_mismatch(&what, ty, &ci.ty));
            }
            let t1 = ty.duplicate();
            let t2 = ty.duplicate();
            vars.push(Binding { name: name.clone(), ty: t1, constant });
            proof {
                assert(vars@.subrange(0, before.len() as int) =~= before);
                crate::ir::ast::lemma_ty_eq_symm(t2, *ty);
                crate::ir::ast::lemma_ty_eq_trans(t1, *ty, t2);
                if compatible(*ty, ci.ty) {
                    lemma_compatible_ty_eq(*ty, t2, ci.ty);
                }
            }
            let stmt = if constant {
                Statement::ConstDecl { name: name.clone(), ty: t2, init: Box::new(ci) }
            } else {
                Statement::Decl { name: name.clone(), ty: t2, init: Box::new(ci) }
            };
            Ok(mk_stmt(stmt))
        },
        Statement::Assign { target, value } => {
            let ghost typable_parts = stmt_typable(before, funs@, tagged@, *ret, *s);
            let ghost (c0, a0) = choose|c0: CheckedStmt, a0: Seq<Binding>| stmt_typed(before, a0, funs@, tagged@, *ret, c0)
                && stmt_erases(c0, *s);
            let ghost (t0, v0) = (*c0.stmt->Assign_target, *c0.stmt->Assign_value);
            proof {
                if typable_parts {
                    assert(expr_typed(before, funs@, tagged@, t0) && expr_erases(t0, **target));
                    assert(expr_typed(before, funs@, tagged@, v0) && expr_erases(v0, **value));
                    assert(assignable(before, t0) && compatible(t0.ty, v0.ty));
                }
            }
            let ct = match check_expr(vars, funs, tagged, target) {
                Ok(c) => c,
                Err(err) => { return Err(err); },
            };
            let cv = match check_expr(vars, funs, tagged, value) {
                Ok(c) => c,
                Err(err) => { return Err(err); },
            };
            proof {
                if typable_parts {
                    lemma_root_var_erases(ct, t0, **target);
                    lemma_typed_unique(vars@, funs@, tagged@, t0, ct, **target);
                    lemma_typed_unique(vars@, funs@, tagged@, v0, cv, **value);
                    lemma_compatible_congr(t0.ty, v0.ty, ct.ty, cv.ty);
                }
            }
            match target_root(&ct) {
                Some(n) => match lookup_var(vars, n) {
                    Some(i) => {
                        if vars[i].constant {
                            return Err(error_named("cannot assign to constant '", n, "'"));
                        }
                    },
                    None => { return Err(error_named("assignment to undeclared variable '", n, "'")); },
                },
                None => { return Err(error("invalid assignment target")); },
            }
            if !is_compatible(&ct.ty, &cv.ty) {
                let mut what: Vec<char> = Vec::new();
                append_str(&mut what, "assignment");
                return Err(error_mismatch(&what, &ct.ty, &cv.ty));
            }
            Ok(mk_stmt(Statement::Assign { target: Box::new(ct), value: Box::new(cv) }))
        },
        Statement::Block { seq } => {
            let mark = vars.len();
            let mut out: Vec<CheckedStmt> = Vec::new();
            let ghost mut envs: Seq<Seq<Binding>> = seq![before];
            let ghost typ = stmt_typable(before, funs@, tagged@, *ret, *s);
            let ghost (c0, a0) = choose|c0: CheckedStmt, a0: Seq<Binding>| stmt_typed(before, a0, funs@, tagged@, *ret, c0)
                && stmt_erases(c0, *s);
            let ghost seq0 = c0.stmt->Block_seq@;
            let ghost envs0 = choose|e0: Seq<Seq<Binding>>| #![trigger e0.len()] e0.len() == seq0.len() + 1 && e0[0] == before
                && forall|k: int| 0 <= k < seq0.len() ==> stmt_typed(e0[k], e0[k + 1], funs@, tagged@, *ret, #[trigger] seq0[k]);
            proof {
                if typ {
                    assert(exists|e0: Seq<Seq<Binding>>| #![trigger e0.len()] e0.len() == seq0.len() + 1 && e0[0] == before
                        && forall|k: int| 0 <= k < seq0.len() ==> stmt_typed(e0[k], e0[k + 1], funs@, tagged@, *ret, #[trigger] seq0[k]))
                        by { reveal_with_fuel(stmt_typed, 2); }
                    assert(seq0.len() == seq.len());
                }
                lemma_env_eq_refl(before);
            }
            let mut i: usize = 0;
            while i < seq.len()
                invariant
                    typ ==> envs0.len() == seq0.len() + 1 && seq0.len() == seq.len()
                        && (forall|k: int| 0 <= k < seq0.len() ==> stmt_typed(envs0[k], envs0[k + 1], funs@, tagged@, *ret, #[trigger] seq0[k]))
                        && (forall|k: int| 0 <= k < seq0.len() ==> stmt_erases(#[trigger] seq0[k], seq@[k]))
                        && env_eq(envs0[i as int], vars@),
                    i <= seq.len(),
                    out.len() == i,
                    envs.len() == i + 1,
                    envs[0] == before,
                    envs.last() == vars@,
                    mark == before.len(),
                    vars@.len() >= mark,
                    vars@.subrange(0, mark as int) == before,
                    forall|k: int| 0 <= k < i ==> stmt_typed(envs[k], envs[k + 1], funs@, tagged@, *ret, #[trigger] out@[k]),
                    forall|k: int| 0 <= k < i ==> stmt_erases(#[trigger] out@[k], seq@[k]),
                decreases seq.len() - i,
            {
                proof {
                    assert(decreases_to!(*s => *seq));
                    assert(decreases_to!(*seq => seq@));
                    assert(decreases_to!(seq@ => seq@[i as int]));
                }
                let ghost pre = vars@;
                proof {
                    if typ {
                        let k = i as int;
                        lemma_stmt_typed_env(envs0[k], pre, envs0[k + 1], funs@, tagged@, *ret, seq0[k]);
                        assert(stmt_typed(pre, transport(envs0[k], pre, envs0[k + 1]), funs@, tagged@, *ret, seq0[k]));
                        assert(stmt_erases(seq0[k], seq@[k]));
                        assert(stmt_typable(pre, funs@, tagged@, *ret, seq@[k]));
                    }
                }
                let c = match check_stmt(vars, funs, tagged, ret, &seq[i]) {
                    Ok(c) => c,
                    Err(err) => { return Err(err); },
                };
                proof {
                    if typ {
                        let k = i as int;
                        let t = transport(envs0[k], pre, envs0[k + 1]);
                        lemma_stmt_after_unique(pre, t, vars@, funs@, tagged@, *ret, seq0[k], c, seq@[k]);
                        lemma_env_eq_refl(envs0[k + 1]);
                        lemma_env_eq_symm_trans(envs0[k + 1], t, envs0[k + 1]);
                        lemma_env_eq_symm_trans(t, envs0[k + 1], vars@);
                    }
                    lemma_stmt_prefix(pre, vars@, funs@, tagged@, *ret, c);
                    assert(vars@.subrange(0, mark as int) =~= pre.subrange(0, mark as int));
                    envs = envs.push(vars@);
                }
                out.push(c);
                i = i + 1;
            }
            vars.truncate(mark);
            proof {
                assert(vars@ =~= before);
                assert(envs.len() == out.len() + 1);
            }
            Ok(mk_stmt(Statement::Block { seq: out }))
        },
        Statement::Call { name, args } => {
            let f = match lookup_fun(funs, name) {
                Some(f) => f,
                None => { return Err(error_named("call to undeclared function '", name, "'")); },
            };
            if args.len() != funs[f].params.len() {
                return Err(error_named("wrong number of arguments (arity) in call to '", name, "'"));
            }
            let cargs = match check_call_args(vars, funs, tagged, s, args, f) {
                Ok(c) => c,
                Err(err) => {
                    proof {
                        if stmt_typable(before, funs@, tagged@, *ret, *s) {
                            let (c0, a0) = choose|c0: CheckedStmt, a0: Seq<Binding>| stmt_typed(before, a0, funs@, tagged@, *ret, c0)
                                && stmt_erases(c0, *s);
                            let a2 = c0.stmt->Call_args;
                            assert forall|k: int| 0 <= k < args.len() implies #[trigger] arg_typable(vars@, funs@,
                                tagged@, funs@[f as int].params@[k], args@[k]) by {
                                assert(expr_typed(vars@, funs@, tagged@, a2@[k]) && expr_erases(a2@[k], args@[k]));
                            }
                        }
                    }
                    return Err(err);
                },
            };
            Ok(mk_stmt(Statement::Call { name: name.clone(), args: cargs }))
        },
        Statement::If { cond, then_branch, else_branch } => {
            let ghost typ = stmt_typable(before, funs@, tagged@, *ret, *s);
            let ghost (c0, a0) = choose|c0: CheckedStmt, a0: Seq<Binding>| stmt_typed(before, a0, funs@, tagged@, *ret, c0)
                && stmt_erases(c0, *s);
            let ghost cond0 = *c0.stmt->If_cond;
            let ghost then0 = *c0.stmt->If_then_branch;
            proof {
                if typ {
                    assert(expr_typed(before, funs@, tagged@, cond0) && expr_erases(cond0, **cond));
                    assert(exists|m: Seq<Binding>| #![trigger m.len()] stmt_typed(before, m, funs@, tagged@, *ret, then0)) by {
                        reveal_with_fuel(stmt_typed, 2);
                    }
                    let m = choose|m: Seq<Binding>| #![trigger m.len()] stmt_typed(before, m, funs@, tagged@, *ret, then0);
                    assert(stmt_erases(then0, **then_branch));
                    assert(stmt_typable(before, funs@, tagged@, *ret, **then_branch));
                }
            }
            let cc = match check_expr(vars, funs, tagged, cond) {
                Ok(c) => c,
                Err(err) => { return Err(err); },
            };
            if !matches!(cc.ty, Type::Bool) {
                proof {
                    if typ {
                        lemma_typed_unique(vars@, funs@, tagged@, cond0, cc, **cond);
                    }
                }
                return Err(error("if condition must be Bool"));
            }
            let mark = vars.len();
            let ct = match check_stmt(vars, funs, tagged, ret, then_branch) {
                Ok(c) => c,
                Err(err) => { return Err(err); },
            };
            let ghost m1 = vars@;
            proof { lemma_stmt_prefix(before, m1, funs@, tagged@, *ret, ct); }
            vars.truncate(mark);
            assert(vars@ =~= before);
            let ce = match else_branch {
                Some(eb) => {
                    proof {
                        if typ {
                            let eb0 = *c0.stmt->If_else_branch->Some_0;
                            assert(exists|m: Seq<Binding>| #![trigger m.len()] stmt_typed(before, m, funs@, tagged@, *ret, eb0)) by {
                                reveal_with_fuel(stmt_typed, 2);
                            }
                            let m = choose|m: Seq<Binding>| #![trigger m.len()] stmt_typed(before, m, funs@, tagged@, *ret, eb0);
                            assert(stmt_erases(eb0, **eb));
                            assert(stmt_typable(before, funs@, tagged@, *ret, **eb));
                        }
                    }
                    let c2 = match check_stmt(vars, funs, tagged, ret, eb) {
                        Ok(c) => c,
                        Err(err) => { return Err(err); },
                    };
                    let ghost m2 = vars@;
                    proof { lemma_stmt_prefix(before, m2, funs@, tagged@, *ret, c2); }
                    vars.truncate(mark);
                    assert(vars@ =~= before);
                    assert(stmt_typed(before, m2, funs@, tagged@, *ret, c2));
                    Some(Box::new(c2))
                },
                None => None,
            };
            assert(stmt_typed(before, m1, funs@, tagged@, *ret, ct));
            Ok(mk_stmt(Statement::If { cond: Box::new(cc), then_branch: Box::new(ct), else_branch: ce }))
        },
        Statement::While { cond, body } => {
            let ghost typ = stmt_typable(before, funs@, tagged@, *ret, *s);
            let ghost (c0, a0) = choose|c0: CheckedStmt, a0: Seq<Binding>| stmt_typed(before, a0, funs@, tagged@, *ret, c0)
                && stmt_erases(c0, *s);
            let ghost cond0 = *c0.stmt->While_cond;
            let ghost body0 = *c0.stmt->While_body;
            proof {
                if typ {
                    assert(expr_typed(before, funs@, tagged@, cond0) && expr_erases(cond0, **cond));
                    assert(exists|m: Seq<Binding>| #![trigger m.len()] stmt_typed(before, m, funs@, tagged@, *ret, body0)) by {
                        reveal_with_fuel(stmt_typed, 2);
                    }
                    let m = choose|m: Seq<Binding>| #![trigger m.len()] stmt_typed(before, m, funs@, tagged@, *ret, body0);
                    assert(stmt_erases(body0, **body));
                    assert(stmt_typable(before, funs@, tagged@, *ret, **body));
                }
            }
            let cc = match check_expr(vars, funs, tagged, cond) {
                Ok(c) => c,
                Err(err) => { return Err(err); },
            };
            if !matches!(cc.ty, Type::Bool) {
                proof {
                    if typ {
                        lemma_typed_unique(vars@, funs@, tagged@, cond0, cc, **cond);
                    }
                }
                return Err(error("while condition must be Bool"));
            }
            let mark = vars.len();
            let cb = match check_stmt(vars, funs, tagged, ret, body) {
                Ok(c) => c,
                Err(err) => { return Err(err); },
            };
            let ghost m1 = vars@;
            proof { lemma_stmt_prefix(before, m1, funs@, tagged@, *ret, cb); }
            vars.truncate(mark);
            assert(vars@ =~= before);
            assert(stmt_typed(before, m1, funs@, tagged@, *ret, cb));
            Ok(mk_stmt(Statement::While { cond: Box::new(cc), body: Box::new(cb) }))
        },
        Statement::Return(None) => {
            if !matches!(ret, Type::Unit) {
                return Err(error("non-void function must return a value"));
            }
            Ok(mk_stmt(Statement::Return(None)))
        },
        Statement::Return(Some(x)) => {
            if matches!(ret, Type::Unit) {
                return Err(error("void function must not return a value"));
            }
            let cx = match check_expr(vars, funs, tagged, x) {
                Ok(c) => c,
                Err(err) => {
                    proof {
                        if stmt_typable(before, funs@, tagged@, *ret, *s) {
                            let (c0, a0) = choose|c0: CheckedStmt, a0: Seq<Binding>| stmt_typed(before, a0, funs@, tagged@, *ret, c0)
                                && stmt_erases(c0, *s);
                            let x0 = c0.stmt->Return_0->Some_0;
                            assert(expr_typed(vars@, funs@, tagged@, *x0) && expr_erases(*x0, **x));
                        }
                    }
                    return Err(err);
                },
            };
            if !is_compatible(ret, &cx.ty) {
                proof {
                    if stmt_typable(before, funs@, tagged@, *ret, *s) {
                        let (c0, a0) = choose|c0: CheckedStmt, a0: Seq<Binding>| stmt_typed(before, a0, funs@, tagged@, *ret, c0)
                            && stmt_erases(c0, *s);
                        let x0 = c0.stmt->Return_0->Some_0;
                        lemma_typed_unique(vars@, funs@, tagged@, *x0, cx, **x);
                        crate::ir::ast::lemma_ty_eq_refl(*ret);
                        lemma_compatible_congr(*ret, x0.ty, *ret, cx.ty);
                    }
                }
                let mut what: Vec<char> = Vec::new();
                append_str(&mut what, "return type mismatch");
                return Err(error_mismatch(&what, ret, &cx.ty));
            }
            Ok(mk_stmt(Statement::Return(Some(Box::new(cx)))))
        },
        Statement::Assert(x) => {
            let cx = match check_expr(vars, funs, tagged, x) {
                Ok(c) => c,
                Err(err) => {
                    proof {
                        if stmt_typable(before, funs@, tagged@, *ret, *s) {
                            let (c0, a0) = choose|c0: CheckedStmt, a0: Seq<Binding>| stmt_typed(before, a0, funs@, tagged@, *ret, c0)
                                && stmt_erases(c0, *s);
                            let x0 = c0.stmt->Assert_0;
                            assert(expr_typed(vars@, funs@, tagged@, *x0) && expr_erases(*x0, **x));
                        }
                    }
                    return Err(err);
                },
            };
            if !matches!(cx.ty, Type::Bool) {
                proof {
                    if stmt_typable(before, funs@, tagged@, *ret, *s) {
                        let (c0, a0) = choose|c0: CheckedStmt, a0: Seq<Binding>| stmt_typed(before, a0, funs@, tagged@, *ret, c0)
                            && stmt_erases(c0, *s);
                        let x0 = c0.stmt->Assert_0;
                        lemma_typed_unique(vars@, funs@, tagged@, *x0, cx, **x);
                    }
                }
                return Err(error("assert condition must be Bool"));
            }
            Ok(mk_stmt(Statement::Assert(Box::new(cx))))
        },
    }
}

/// Checks the arguments of a call statement.
#[verifier::loop_isolation(false)]
fn check_call_args(
    vars: &Vec<Binding>,
    funs: &Vec<FunSig>,
    tagged: &Vec<TaggedTypeDecl>,
    parent: &UncheckedStmt,
    args: &Vec<UncheckedExpr>,
    f: usize,
) -> (res: Result<Vec<CheckedExpr>, TypeError>)
    requires
        f < funs.len(),
        args.len() == funs@[f as int].params.len(),
    ensures
        res matches Ok(cargs) ==> cargs.len() == args.len()
            && (forall|k: int| 0 <= k < args.len() ==> expr_typed(vars@, funs@, tagged@, #[trigger] cargs@[k]))
            && (forall|k: int| 0 <= k < args.len() ==> expr_erases(#[trigger] cargs@[k], args@[k]))
            && (forall|k: int| 0 <= k < args.len() ==> compatible(funs@[f as int].params@[k], #[trigger] cargs@[k].ty)),
        (forall|k: int| 0 <= k < args.len() ==> #[trigger] arg_typable(vars@, funs@, tagged@, funs@[f as int].params@[k], args@[k]))
            ==> res is Ok,
{
    let mut out: Vec<CheckedExpr> = Vec::new();
    let mut i: usize = 0;
    while i < args.len()
        invariant
            i <= args.len(),
            out.len() == i,
            forall|k: int| 0 <= k < i ==> expr_typed(vars@, funs@, tagged@, #[trigger] out@[k]),
            forall|k: int| 0 <= k < i ==> expr_erases(#[trigger] out@[k], args@[k]),
            forall|k: int| 0 <= k < i ==> compatible(funs@[f as int].params@[k], #[trigger] out@[k].ty),
        decreases args.len() - i,
    {
        let c = match check_expr(vars, funs, tagged, &args[i]) {
            Ok(c) => c,
            Err(err) => {
                proof {
                    let pk = funs@[f as int].params@[i as int];
                    if forall|k: int| 0 <= k < args.len() ==> #[trigger] arg_typable(vars@, funs@, tagged@, funs@[f as int].params@[k], args@[k]) {
                        assert(arg_typable(vars@, funs@, tagged@, pk, args@[i as int]));
                        let c2 = choose|c2: CheckedExpr| expr_typed(vars@, funs@, tagged@, c2)
                            && expr_erases(c2, args@[i as int]) && compatible(pk, c2.ty);
                        assert(typable(vars@, funs@, tagged@, args@[i as int]));
                    }
                }
                return Err(err);
            },
        };
        if !is_compatible(&funs[f].params[i], &c.ty) {
            proof {
                let pk = funs@[f as int].params@[i as int];
                if forall|k: int| 0 <= k < args.len() ==> #[trigger] arg_typable(vars@, funs@, tagged@, funs@[f as int].params@[k], args@[k]) {
                    assert(arg_typable(vars@, funs@, tagged@, pk, args@[i as int]));
                    let c2 = choose|c2: CheckedExpr| expr_typed(vars@, funs@, tagged@, c2)
                        && expr_erases(c2, args@[i as int]) && compatible(pk, c2.ty);
                    lemma_typed_unique(vars@, funs@, tagged@, c2, c, args@[i as int]);
                    crate::ir::ast::lemma_ty_eq_refl(pk);
                    lemma_compatible_congr(pk, c2.ty, pk, c.ty);
                }
            }
            let mut what: Vec<char> = Vec::new();
            append_str(&mut what, "argument ");
            let num = crate::text::decimal_chars((i + 1) as u64);
            append_chars(&mut what, &num);
            append_str(&mut what, " to ");
            append_str(&mut what, funs[f].name.as_str());
            return Err(error_mismatch(&what, &funs[f].params[i], &c.ty));
        }
        out.push(c);
        i = i + 1;
    }
    Ok(out)
}

/// A well-typed statement only adds bindings: `before` is a prefix of `after`.
pub proof fn lemma_stmt_prefix(
    before: Seq<Binding>,
    after: Seq<Binding>,
    funs: Seq<FunSig>,
    tagged: Seq<TaggedTypeDecl>,
    ret: Type,
    s: CheckedStmt,
)
    requires
        stmt_typed(before, after, funs, tagged, ret, s),
    ensures
        after.len() >= before.len(),
        after.subrange(0, before.len() as int) == before,
{
    if after == before {
        assert(after.subrange(0, before.len() as int) =~= before);
    }
}

/// Compatibility only depends on the expected type up to `ty_eq`.
pub proof fn lemma_compatible_ty_eq(a: Type, b: Type, x: Type)
    requires
        ty_eq(a, b),
        compatible(a, x),
    ensures
        compatible(b, x),
    decreases a,
{
    crate::ir::ast::lemma_ty_eq_symm(a, b);
    if ty_eq(a, x) {
        crate::ir::ast::lemma_ty_eq_trans(b, a, x);
    }
    match (a, b, x) {
        (Type::Array(p), Type::Array(q), Type::Array(y)) => {
            if compatible(*p, *y) {
                lemma_compatible_ty_eq(*p, *q, *y);
            }
        },
        _ => {},
    }
}

} // verus!
