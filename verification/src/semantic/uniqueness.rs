//! The typing rules give each expression at most one type (up to `ty_eq`),
//! and the predicates the rules apply to types respect `ty_eq`.
use vstd::prelude::*;
use crate::ir::ast::{lemma_ty_eq_refl, lemma_ty_eq_symm, lemma_ty_eq_trans, ty_eq, CheckedExpr, Expr, Type, UncheckedExpr};
use crate::semantic::rules::{
    compatible, expr_erases, expr_typed, literal_type, root_var, stmt_erases, stmt_typed, var_index, fun_index, Binding,
    FunSig,
};
use crate::ir::ast::{CheckedStmt, Statement, UncheckedStmt};
use crate::ir::ast::TaggedTypeDecl;

verus! {

/// `ty_eq` through a third type: `a ~ b` and `c ~ b` give `a ~ c`.
pub proof fn lemma_ty_eq_via(a: Type, b: Type, c: Type)
    requires
        ty_eq(a, b),
        ty_eq(c, b),
    ensures
        ty_eq(a, c),
{
    lemma_ty_eq_symm(c, b);
    lemma_ty_eq_trans(a, b, c);
}

/// Compatibility does not depend on the representative of a type.
pub proof fn lemma_compatible_congr(a: Type, b: Type, a2: Type, b2: Type)
    requires
        compatible(a, b),
        ty_eq(a, a2),
        ty_eq(b, b2),
    ensures
        compatible(a2, b2),
    decreases a,
{
    if a is Any || b is Any {
    } else if ty_eq(a, b) {
        lemma_ty_eq_symm(a, a2);
        lemma_ty_eq_trans(a2, a, b);
        lemma_ty_eq_trans(a2, b, b2);
    } else if a is Float && b is Int {
    } else {
        match (a, b, a2, b2) {
            (Type::Array(x), Type::Array(y), Type::Array(x2), Type::Array(y2)) => {
                lemma_compatible_congr(*x, *y, *x2, *y2);
            },
            _ => {},
        }
    }
}

/// Two typings of one expression give it the same type.
pub proof fn lemma_typed_unique(
    vars: Seq<Binding>, funs: Seq<FunSig>, tagged: Seq<TaggedTypeDecl>,
    c1: CheckedExpr, c2: CheckedExpr, u: UncheckedExpr,
)
    requires
        expr_typed(vars, funs, tagged, c1),
        expr_typed(vars, funs, tagged, c2),
        expr_erases(c1, u),
        expr_erases(c2, u),
    ensures
        ty_eq(c1.ty, c2.ty),
    decreases u,
{
    match (c1.exp, c2.exp, u.exp) {
        (Expr::Literal(a), Expr::Literal(b), Expr::Literal(_)) => {
            lemma_ty_eq_via(c1.ty, literal_type(a), c2.ty);
        },
        (Expr::Ident(a), Expr::Ident(b), Expr::Ident(_)) => {
            match var_index(vars, a@) {
                Some(i) => {
                    lemma_ty_eq_via(c1.ty, vars[i].ty, c2.ty);
                },
                None => {
                    let f = fun_index(funs, a@)->Some_0;
                    match (c1.ty, c2.ty) {
                        (Type::Function { params: p1, return_type: r1 }, Type::Function { params: p2, return_type: r2 }) => {
                            assert forall|k: int| 0 <= k < p1.len() implies ty_eq(#[trigger] p1@[k], p2@[k]) by {
                                lemma_ty_eq_via(p1@[k], funs[f].params@[k], p2@[k]);
                            }
                            lemma_ty_eq_via(*r1, funs[f].return_type, *r2);
                        },
                        _ => {},
                    }
                },
            }
        },
        (Expr::Neg(x1), Expr::Neg(x2), Expr::Neg(xu)) => {
            lemma_typed_unique(vars, funs, tagged, *x1, *x2, *xu);
            lemma_ty_eq_trans(c1.ty, x1.ty, x2.ty);
            lemma_ty_eq_via(c1.ty, x2.ty, c2.ty);
        },
        (Expr::Add(l1, r1), Expr::Add(l2, r2), Expr::Add(lu, ru))
        | (Expr::Sub(l1, r1), Expr::Sub(l2, r2), Expr::Sub(lu, ru))
        | (Expr::Mul(l1, r1), Expr::Mul(l2, r2), Expr::Mul(lu, ru))
        | (Expr::Div(l1, r1), Expr::Div(l2, r2), Expr::Div(lu, ru)) => {
            lemma_typed_unique(vars, funs, tagged, *l1, *l2, *lu);
            lemma_typed_unique(vars, funs, tagged, *r1, *r2, *ru);
            let t = crate::semantic::rules::arith_result(l1.ty, r1.ty);
            assert(t == crate::semantic::rules::arith_result(l2.ty, r2.ty));
            lemma_ty_eq_via(c1.ty, t, c2.ty);
        },
        (Expr::Call { name: n1, .. }, Expr::Call { .. }, Expr::Call { .. }) => {
            let f = fun_index(funs, n1@)->Some_0;
            lemma_ty_eq_via(c1.ty, funs[f].return_type, c2.ty);
        },
        (Expr::ArrayLit(i1), Expr::ArrayLit(i2), Expr::ArrayLit(iu)) => {
            match (c1.ty, c2.ty) {
                (Type::Array(t1), Type::Array(t2)) => {
                    if i1.len() == 0 {
                        lemma_ty_eq_refl(*t1);
                    } else {
                        assert(decreases_to!(u => iu@[0])) by {
                            assert(decreases_to!(u => u.exp));
                            assert(decreases_to!(u.exp => iu));
                            assert(decreases_to!(iu => iu@));
                        }
                        lemma_typed_unique(vars, funs, tagged, i1@[0], i2@[0], iu@[0]);
                        lemma_ty_eq_trans(*t1, i1@[0].ty, i2@[0].ty);
                        lemma_ty_eq_via(*t1, i2@[0].ty, *t2);
                    }
                },
                _ => {},
            }
        },
        (Expr::Index { base: b1, .. }, Expr::Index { base: b2, .. }, Expr::Index { base: bu, .. }) => {
            lemma_typed_unique(vars, funs, tagged, *b1, *b2, *bu);
            match (b1.ty, b2.ty) {
                (Type::Array(t1), Type::Array(t2)) => {
                    lemma_ty_eq_trans(c1.ty, *t1, *t2);
                    lemma_ty_eq_via(c1.ty, *t2, c2.ty);
                },
                _ => {},
            }
        },
        (Expr::Member { base: b1, member: m1 }, Expr::Member { base: b2, .. }, Expr::Member { base: bu, .. }) => {
            lemma_typed_unique(vars, funs, tagged, *b1, *b2, *bu);
            match (b1.ty, b2.ty) {
                (Type::Tagged { tag_type, tag_name }, Type::Tagged { .. }) => {
                    let ft = crate::semantic::rules::field_type(tagged, tag_type, tag_name@, m1@)->Some_0;
                    lemma_ty_eq_via(c1.ty, ft, c2.ty);
                },
                _ => {},
            }
        },
        _ => {},
    }
}

/// Two decorations of one assignment target write into the same variable.
pub proof fn lemma_root_var_erases(c1: CheckedExpr, c2: CheckedExpr, u: UncheckedExpr)
    requires
        expr_erases(c1, u),
        expr_erases(c2, u),
    ensures
        root_var(c1) == root_var(c2),
    decreases u,
{
    match (c1.exp, c2.exp, u.exp) {
        (Expr::Index { base: b1, .. }, Expr::Index { base: b2, .. }, Expr::Index { base: bu, .. }) => {
            lemma_root_var_erases(*b1, *b2, *bu);
        },
        (Expr::Member { base: b1, .. }, Expr::Member { base: b2, .. }, Expr::Member { base: bu, .. }) => {
            lemma_root_var_erases(*b1, *b2, *bu);
        },
        _ => {},
    }
}

/// Two scopes bind the same names, in the same order, to equal types and
/// with the same constness.
pub open spec fn env_eq(a: Seq<Binding>, b: Seq<Binding>) -> bool {
    &&& a.len() == b.len()
    &&& forall|i: int| 0 <= i < a.len() ==> (#[trigger] a[i]).name@ == b[i].name@ && ty_eq(a[i].ty, b[i].ty)
        && a[i].constant == b[i].constant
}

pub proof fn lemma_env_eq_refl(a: Seq<Binding>)
    ensures
        env_eq(a, a),
{
    assert forall|i: int| 0 <= i < a.len() implies ty_eq((#[trigger] a[i]).ty, a[i].ty) by {
        lemma_ty_eq_refl(a[i].ty);
    }
}

pub proof fn lemma_env_eq_symm_trans(a: Seq<Binding>, b: Seq<Binding>, c: Seq<Binding>)
    requires
        env_eq(a, b),
        env_eq(a, c),
    ensures
        env_eq(b, c),
{
    assert forall|i: int| 0 <= i < b.len() implies (#[trigger] b[i]).name@ == c[i].name@ && ty_eq(b[i].ty, c[i].ty)
        && b[i].constant == c[i].constant by {
        assert(a[i].name@ == b[i].name@ && a[i].name@ == c[i].name@);
        lemma_ty_eq_symm(a[i].ty, b[i].ty);
        lemma_ty_eq_trans(b[i].ty, a[i].ty, c[i].ty);
    }
}

/// A name is found inside the scope.
pub proof fn lemma_var_index_range(a: Seq<Binding>, n: Seq<char>)
    ensures
        var_index(a, n) matches Some(i) ==> 0 <= i < a.len(),
    decreases a.len(),
{
    if a.len() > 0 {
        lemma_var_index_range(a.drop_last(), n);
    }
}

/// Equal scopes find a name at the same place.
pub proof fn lemma_var_index_env_eq(a: Seq<Binding>, b: Seq<Binding>, n: Seq<char>)
    requires
        env_eq(a, b),
    ensures
        var_index(a, n) == var_index(b, n),
    decreases a.len(),
{
    if a.len() > 0 {
        assert(a.last() == a[a.len() - 1]);
        lemma_var_index_env_eq(a.drop_last(), b.drop_last(), n);
    }
}

/// Typing of expressions only depends on the scope up to `env_eq`.
pub proof fn lemma_expr_typed_env(a: Seq<Binding>, b: Seq<Binding>, funs: Seq<FunSig>, tagged: Seq<TaggedTypeDecl>, c: CheckedExpr)
    requires
        env_eq(a, b),
        expr_typed(a, funs, tagged, c),
    ensures
        expr_typed(b, funs, tagged, c),
    decreases c,
{
    match c.exp {
        Expr::Ident(n) => {
            lemma_var_index_env_eq(a, b, n@);
            lemma_var_index_range(a, n@);
            if let Some(i) = var_index(a, n@) {
                assert(a[i].name@ == b[i].name@);
                lemma_ty_eq_trans(c.ty, a[i].ty, b[i].ty);
            }
        },
        Expr::Neg(x) | Expr::Not(x) => lemma_expr_typed_env(a, b, funs, tagged, *x),
        Expr::Add(l, r) | Expr::Sub(l, r) | Expr::Mul(l, r) | Expr::Div(l, r) | Expr::Eq(l, r) | Expr::Ne(l, r)
        | Expr::Lt(l, r) | Expr::Le(l, r) | Expr::Gt(l, r) | Expr::Ge(l, r) | Expr::And(l, r) | Expr::Or(l, r) => {
            lemma_expr_typed_env(a, b, funs, tagged, *l);
            lemma_expr_typed_env(a, b, funs, tagged, *r);
        },
        Expr::Call { args, .. } | Expr::ArrayLit(args) => {
            assert forall|k: int| 0 <= k < args.len() implies expr_typed(b, funs, tagged, #[trigger] args@[k]) by {
                assert(decreases_to!(c => args@[k])) by {
                    assert(decreases_to!(c => c.exp));
                    assert(decreases_to!(c.exp => args));
                    assert(decreases_to!(args => args@));
                }
                lemma_expr_typed_env(a, b, funs, tagged, args@[k]);
            }
        },
        Expr::Index { base, index } => {
            lemma_expr_typed_env(a, b, funs, tagged, *base);
            lemma_expr_typed_env(a, b, funs, tagged, *index);
        },
        Expr::Member { base, .. } => lemma_expr_typed_env(a, b, funs, tagged, *base),
        _ => {},
    }
}

/// The scope after a statement, carried over to an equal scope before it.
pub open spec fn transport(v1: Seq<Binding>, v2: Seq<Binding>, a1: Seq<Binding>) -> Seq<Binding> {
    v2 + a1.subrange(v1.len() as int, a1.len() as int)
}

/// Carrying over keeps equality of scopes.
pub proof fn lemma_transport_env_eq(v1: Seq<Binding>, v2: Seq<Binding>, a1: Seq<Binding>)
    requires
        env_eq(v1, v2),
        a1.len() >= v1.len(),
        a1.subrange(0, v1.len() as int) == v1,
    ensures
        env_eq(a1, transport(v1, v2, a1)),
{
    let t = transport(v1, v2, a1);
    assert forall|i: int| 0 <= i < a1.len() implies (#[trigger] a1[i]).name@ == t[i].name@ && ty_eq(a1[i].ty, t[i].ty)
        && a1[i].constant == t[i].constant by {
        if i < v1.len() {
            assert(a1[i] == a1.subrange(0, v1.len() as int)[i]);
        } else {
            lemma_ty_eq_refl(a1[i].ty);
        }
    }
}

/// Each scope of a chain of typed statements starts with the first one.
pub proof fn lemma_envs_prefix(
    envs: Seq<Seq<Binding>>, seq: Seq<CheckedStmt>, funs: Seq<FunSig>, tagged: Seq<TaggedTypeDecl>, ret: Type, k: int,
)
    requires
        envs.len() == seq.len() + 1,
        forall|j: int| 0 <= j < seq.len() ==> stmt_typed(envs[j], envs[j + 1], funs, tagged, ret, #[trigger] seq[j]),
        0 <= k < envs.len(),
    ensures
        envs[k].len() >= envs[0].len(),
        envs[k].subrange(0, envs[0].len() as int) == envs[0],
    decreases k,
{
    if k == 0 {
        assert(envs[0].subrange(0, envs[0].len() as int) =~= envs[0]);
    } else {
        lemma_envs_prefix(envs, seq, funs, tagged, ret, k - 1);
        assert(stmt_typed(envs[k - 1], envs[k], funs, tagged, ret, seq[k - 1]));
        crate::semantic::type_checker::lemma_stmt_prefix(envs[k - 1], envs[k], funs, tagged, ret, seq[k - 1]);
        assert(envs[k].subrange(0, envs[0].len() as int) =~= envs[k - 1].subrange(0, envs[0].len() as int));
    }
}

/// Typing of statements only depends on the scope up to `env_eq`: the
/// scope after carries over too.
pub proof fn lemma_stmt_typed_env(
    v1: Seq<Binding>, v2: Seq<Binding>, a1: Seq<Binding>, funs: Seq<FunSig>, tagged: Seq<TaggedTypeDecl>, ret: Type,
    c: CheckedStmt,
)
    requires
        env_eq(v1, v2),
        stmt_typed(v1, a1, funs, tagged, ret, c),
    ensures
        stmt_typed(v2, transport(v1, v2, a1), funs, tagged, ret, c),
        env_eq(a1, transport(v1, v2, a1)),
    decreases c,
{
    crate::semantic::type_checker::lemma_stmt_prefix(v1, a1, funs, tagged, ret, c);
    lemma_transport_env_eq(v1, v2, a1);
    let t = transport(v1, v2, a1);
    if a1 == v1 {
        assert(t =~= v2);
    }
    match c.stmt {
        Statement::Decl { name, ty, init } | Statement::ConstDecl { name, ty, init } => {
            lemma_var_index_env_eq(v1, v2, name@);
            lemma_expr_typed_env(v1, v2, funs, tagged, *init);
            assert(t.subrange(0, v2.len() as int) =~= v2);
            assert(t.last() == a1.last());
        },
        Statement::Assign { target, value } => {
            lemma_expr_typed_env(v1, v2, funs, tagged, *target);
            lemma_expr_typed_env(v1, v2, funs, tagged, *value);
            if let Some(n) = root_var(*target) {
                lemma_var_index_env_eq(v1, v2, n);
                lemma_var_index_range(v1, n);
                if let Some(i) = var_index(v1, n) {
                    assert(v1[i].constant == v2[i].constant);
                }
            }
        },
        Statement::Block { seq } => {
            let envs = choose|envs: Seq<Seq<Binding>>| #![trigger envs.len()]
                envs.len() == seq.len() + 1 && envs[0] == v1
                    && forall|k: int| 0 <= k < seq.len() ==> stmt_typed(envs[k], envs[k + 1], funs, tagged, ret, #[trigger] seq@[k]);
            let envs2 = Seq::new(envs.len(), |k: int| transport(v1, v2, envs[k]));
            assert(envs2[0] =~= v2);
            assert forall|k: int| 0 <= k < seq.len() implies stmt_typed(envs2[k], envs2[k + 1], funs, tagged, ret, #[trigger] seq@[k]) by {
                lemma_envs_prefix(envs, seq@, funs, tagged, ret, k);
                lemma_envs_prefix(envs, seq@, funs, tagged, ret, k + 1);
                lemma_transport_env_eq(v1, v2, envs[k]);
                assert(stmt_typed(envs[k], envs[k + 1], funs, tagged, ret, seq@[k]));
                assert(decreases_to!(c => seq@[k])) by {
                    assert(decreases_to!(c => c.stmt));
                    assert(decreases_to!(c.stmt => seq));
                    assert(decreases_to!(seq => seq@));
                }
                lemma_stmt_typed_env(envs[k], envs2[k], envs[k + 1], funs, tagged, ret, seq@[k]);
                crate::semantic::type_checker::lemma_stmt_prefix(envs[k], envs[k + 1], funs, tagged, ret, seq@[k]);
                assert(transport(envs[k], envs2[k], envs[k + 1]) =~= envs2[k + 1]);
            }
            assert(envs2.len() == seq.len() + 1);
            assert(envs2[0] == v2);
            assert(forall|k: int| 0 <= k < seq.len() ==> stmt_typed(envs2[k], envs2[k + 1], funs, tagged, ret, #[trigger] seq@[k]));
            assert(t == v2);
        },
        Statement::Call { args, .. } => {
            assert forall|k: int| 0 <= k < args.len() implies expr_typed(v2, funs, tagged, #[trigger] args@[k]) by {
                lemma_expr_typed_env(v1, v2, funs, tagged, args@[k]);
            }
        },
        Statement::If { cond, then_branch, else_branch } => {
            lemma_expr_typed_env(v1, v2, funs, tagged, *cond);
            assert(exists|m: Seq<Binding>| #![trigger m.len()] stmt_typed(v1, m, funs, tagged, ret, *then_branch)) by {
                reveal_with_fuel(stmt_typed, 2);
            }
            let m = choose|m: Seq<Binding>| #![trigger m.len()] stmt_typed(v1, m, funs, tagged, ret, *then_branch);
            lemma_stmt_typed_env(v1, v2, m, funs, tagged, ret, *then_branch);
            let m2 = transport(v1, v2, m);
            // names the scope's length, which the rule's existential is triggered by
            assert(m2.len() == m2.len());
            if let Some(eb) = else_branch {
                assert(exists|n: Seq<Binding>| #![trigger n.len()] stmt_typed(v1, n, funs, tagged, ret, *eb)) by {
                    reveal_with_fuel(stmt_typed, 2);
                }
                let n = choose|n: Seq<Binding>| #![trigger n.len()] stmt_typed(v1, n, funs, tagged, ret, *eb);
                lemma_stmt_typed_env(v1, v2, n, funs, tagged, ret, *eb);
                let n2 = transport(v1, v2, n);
                // names the scope's length, which the rule's existential is triggered by
                assert(n2.len() == n2.len());
            }
        },
        Statement::While { cond, body } => {
            lemma_expr_typed_env(v1, v2, funs, tagged, *cond);
            assert(exists|m: Seq<Binding>| #![trigger m.len()] stmt_typed(v1, m, funs, tagged, ret, *body)) by {
                reveal_with_fuel(stmt_typed, 2);
            }
            let m = choose|m: Seq<Binding>| #![trigger m.len()] stmt_typed(v1, m, funs, tagged, ret, *body);
            lemma_stmt_typed_env(v1, v2, m, funs, tagged, ret, *body);
            let m2 = transport(v1, v2, m);
            // names the scope's length, which the rule's existential is triggered by
            assert(m2.len() == m2.len());
        },
        Statement::Return(Some(x)) | Statement::Assert(x) => {
            lemma_expr_typed_env(v1, v2, funs, tagged, *x);
        },
        _ => {},
    }
}

/// Two typings of one statement from one scope leave equal scopes.
pub proof fn lemma_stmt_after_unique(
    v: Seq<Binding>, a1: Seq<Binding>, a2: Seq<Binding>, funs: Seq<FunSig>, tagged: Seq<TaggedTypeDecl>, ret: Type,
    c1: CheckedStmt, c2: CheckedStmt, u: UncheckedStmt,
)
    requires
        stmt_typed(v, a1, funs, tagged, ret, c1),
        stmt_typed(v, a2, funs, tagged, ret, c2),
        stmt_erases(c1, u),
        stmt_erases(c2, u),
    ensures
        env_eq(a1, a2),
{
    lemma_env_eq_refl(v);
    match (c1.stmt, c2.stmt, u.stmt) {
        (Statement::Decl { ty: t1, .. }, Statement::Decl { ty: t2, .. }, Statement::Decl { ty: tu, .. })
        | (Statement::ConstDecl { ty: t1, .. }, Statement::ConstDecl { ty: t2, .. }, Statement::ConstDecl { ty: tu, .. }) => {
            lemma_ty_eq_trans(a1.last().ty, t1, tu);
            lemma_ty_eq_via(a1.last().ty, tu, t2);
            lemma_ty_eq_symm(a2.last().ty, t2);
            lemma_ty_eq_trans(a1.last().ty, t2, a2.last().ty);
            assert forall|i: int| 0 <= i < a1.len() implies (#[trigger] a1[i]).name@ == a2[i].name@ && ty_eq(a1[i].ty, a2[i].ty)
                && a1[i].constant == a2[i].constant by {
                if i < v.len() {
                    assert(a1[i] == a1.subrange(0, v.len() as int)[i]);
                    assert(a2[i] == a2.subrange(0, v.len() as int)[i]);
                    lemma_ty_eq_refl(v[i].ty);
                } else {
                    assert(a1[i] == a1.last());
                    assert(a2[i] == a2.last());
                }
            }
        },
        _ => {},
    }
}

} // verus!
