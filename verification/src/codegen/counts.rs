//! Sizes of checked trees, and the code generator's supported subset.
//! The code generator introduces at most three labels and one temporary per
//! node, so a tree of `n` nodes needs counters with room for `3 * n` labels.
use vstd::prelude::*;
use crate::ir::ast::{CheckedExpr, CheckedStmt, Expr, Statement};

verus! {

/// Number of nodes of an expression.
pub open spec fn expr_nodes(e: CheckedExpr) -> nat
    decreases e,
{
    match e.exp {
        Expr::Literal(_) | Expr::Ident(_) => 1,
        Expr::Neg(x) | Expr::Not(x) => 1 + expr_nodes(*x),
        Expr::Add(l, r) | Expr::Sub(l, r) | Expr::Mul(l, r) | Expr::Div(l, r) | Expr::Eq(l, r) | Expr::Ne(l, r)
        | Expr::Lt(l, r) | Expr::Le(l, r) | Expr::Gt(l, r) | Expr::Ge(l, r) | Expr::And(l, r) | Expr::Or(l, r) =>
            1 + expr_nodes(*l) + expr_nodes(*r),
        Expr::Call { args, .. } => 1 + exprs_nodes(args@),
        Expr::ArrayLit(items) => 1 + exprs_nodes(items@),
        Expr::Index { base, index } => 1 + expr_nodes(*base) + expr_nodes(*index),
        Expr::Member { base, .. } => 1 + expr_nodes(*base),
    }
}

/// Number of nodes of a sequence of expressions.
pub open spec fn exprs_nodes(es: Seq<CheckedExpr>) -> nat
    decreases es,
{
    if es.len() == 0 {
        0
    } else {
        expr_nodes(es[0]) + exprs_nodes(es.drop_first())
    }
}

/// Number of nodes of a statement.
pub open spec fn stmt_nodes(s: CheckedStmt) -> nat
    decreases s,
{
    match s.stmt {
        Statement::Decl { init, .. } | Statement::ConstDecl { init, .. } => 1 + expr_nodes(*init),
        Statement::Assign { target, value } => 1 + expr_nodes(*target) + expr_nodes(*value),
        Statement::Block { seq } => 1 + stmts_nodes(seq@),
        Statement::Call { args, .. } => 1 + exprs_nodes(args@),
        Statement::If { cond, then_branch, else_branch } => 1 + expr_nodes(*cond) + stmt_nodes(*then_branch)
            + match else_branch {
                Some(e) => stmt_nodes(*e),
                None => 0,
            },
        Statement::While { cond, body } => 1 + expr_nodes(*cond) + stmt_nodes(*body),
        Statement::Return(Some(e)) => 1 + expr_nodes(*e),
        Statement::Return(None) => 1,
        Statement::Assert(e) => 1 + expr_nodes(*e),
    }
}

/// Number of nodes of a sequence of statements.
pub open spec fn stmts_nodes(ss: Seq<CheckedStmt>) -> nat
    decreases ss,
{
    if ss.len() == 0 {
        0
    } else {
        stmt_nodes(ss[0]) + stmts_nodes(ss.drop_first())
    }
}

/// The expressions the code generator lowers: all but array literals,
/// indexing and member access.
pub open spec fn expr_lowerable(e: CheckedExpr) -> bool
    decreases e,
{
    match e.exp {
        Expr::Literal(_) | Expr::Ident(_) => true,
        Expr::Neg(x) | Expr::Not(x) => expr_lowerable(*x),
        Expr::Add(l, r) | Expr::Sub(l, r) | Expr::Mul(l, r) | Expr::Div(l, r) | Expr::Eq(l, r) | Expr::Ne(l, r)
        | Expr::Lt(l, r) | Expr::Le(l, r) | Expr::Gt(l, r) | Expr::Ge(l, r) | Expr::And(l, r) | Expr::Or(l, r) =>
            expr_lowerable(*l) && expr_lowerable(*r),
        Expr::Call { args, .. } => forall|k: int| 0 <= k < args.len() ==> expr_lowerable(#[trigger] args@[k]),
        _ => false,
    }
}

/// The statements the code generator lowers: assignments only to plain
/// variables, and lowerable expressions throughout.
pub open spec fn stmt_lowerable(s: CheckedStmt) -> bool
    decreases s,
{
    match s.stmt {
        Statement::Decl { init, .. } | Statement::ConstDecl { init, .. } => expr_lowerable(*init),
        Statement::Assign { target, value } => target.exp is Ident && expr_lowerable(*value),
        Statement::Block { seq } => forall|k: int| 0 <= k < seq.len() ==> stmt_lowerable(#[trigger] seq@[k]),
        Statement::Call { args, .. } => forall|k: int| 0 <= k < args.len() ==> expr_lowerable(#[trigger] args@[k]),
        Statement::If { cond, then_branch, else_branch } => expr_lowerable(*cond) && stmt_lowerable(*then_branch)
            && match else_branch {
                Some(e) => stmt_lowerable(*e),
                None => true,
            },
        Statement::While { cond, body } => expr_lowerable(*cond) && stmt_lowerable(*body),
        Statement::Return(Some(e)) => expr_lowerable(*e),
        Statement::Return(None) => true,
        Statement::Assert(e) => expr_lowerable(*e),
    }
}

/// The nodes of a prefix of a sequence plus those of the rest.
pub proof fn lemma_exprs_nodes_split(es: Seq<CheckedExpr>, i: int)
    requires
        0 <= i <= es.len(),
    ensures
        exprs_nodes(es) == exprs_nodes(es.subrange(0, i)) + exprs_nodes(es.subrange(i, es.len() as int)),
    decreases i,
{
    if i == 0 {
        assert(es.subrange(0, 0) =~= Seq::<CheckedExpr>::empty());
        assert(es.subrange(0, es.len() as int) =~= es);
    } else {
        lemma_exprs_nodes_split(es.drop_first(), i - 1);
        assert(es.drop_first().subrange(0, i - 1) =~= es.subrange(0, i).drop_first());
        assert(es.drop_first().subrange(i - 1, es.drop_first().len() as int) =~= es.subrange(i, es.len() as int));
    }
}

/// The nodes of a sequence of expressions, one element after another.
pub proof fn lemma_exprs_nodes_step(es: Seq<CheckedExpr>, i: int)
    requires
        0 <= i < es.len(),
    ensures
        exprs_nodes(es.subrange(0, i + 1)) == exprs_nodes(es.subrange(0, i)) + expr_nodes(es[i]),
{
    let a = es.subrange(0, i + 1);
    lemma_exprs_nodes_split(a, i);
    assert(a.subrange(0, i) =~= es.subrange(0, i));
    let t = a.subrange(i, i + 1);
    assert(t.drop_first() =~= Seq::<CheckedExpr>::empty());
    assert(exprs_nodes(t.drop_first()) == 0);
    assert(t[0] == es[i]);
}

/// Same for statements.
pub proof fn lemma_stmts_nodes_split(ss: Seq<CheckedStmt>, i: int)
    requires
        0 <= i <= ss.len(),
    ensures
        stmts_nodes(ss) == stmts_nodes(ss.subrange(0, i)) + stmts_nodes(ss.subrange(i, ss.len() as int)),
    decreases i,
{
    if i == 0 {
        assert(ss.subrange(0, 0) =~= Seq::<CheckedStmt>::empty());
        assert(ss.subrange(0, ss.len() as int) =~= ss);
    } else {
        lemma_stmts_nodes_split(ss.drop_first(), i - 1);
        assert(ss.drop_first().subrange(0, i - 1) =~= ss.subrange(0, i).drop_first());
        assert(ss.drop_first().subrange(i - 1, ss.drop_first().len() as int) =~= ss.subrange(i, ss.len() as int));
    }
}

/// Same for statements.
pub proof fn lemma_stmts_nodes_step(ss: Seq<CheckedStmt>, i: int)
    requires
        0 <= i < ss.len(),
    ensures
        stmts_nodes(ss.subrange(0, i + 1)) == stmts_nodes(ss.subrange(0, i)) + stmt_nodes(ss[i]),
{
    let a = ss.subrange(0, i + 1);
    lemma_stmts_nodes_split(a, i);
    assert(a.subrange(0, i) =~= ss.subrange(0, i));
    let t = a.subrange(i, i + 1);
    assert(t.drop_first() =~= Seq::<CheckedStmt>::empty());
    assert(stmts_nodes(t.drop_first()) == 0);
    assert(t[0] == ss[i]);
}

} // verus!
