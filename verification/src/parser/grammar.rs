//! The expression grammar, as relations between source text and trees.
//!
//! `expr_text(s, i, j, level, e)` says that the characters `s[i..j]` (white
//! space in front included) are an expression of binding `level` whose
//! tree is `e`. The levels, from loosest to tightest: 0 `||` / `or`,
//! 1 `&&` / `and`, 2 comparisons (one operator at most), 3 `+ -`, 4 `* /`,
//! 5 prefix `-` and `!`, 6 postfix indexing and member access, 7 primaries.
//! Text of a level is also text of every looser level, and a
//! parenthesised expression is a primary.
//!
//! `type_text(s, i, j, t)` says the same of a type, and `stmt_text(s, i, j, st)`
//! of a statement.
use vstd::prelude::*;
use crate::ir::ast::{Expr, ExprD, Literal, Statement, TagType, Type, UncheckedExpr, UncheckedStmt};
use crate::parser::lexer::{float_lit_at, has_at, ident_at, int_lit_at, keyword_at, string_lit_at, ws_run};

verus! {

/// The binary operator of `level` (0 to 4) at `p`: its end and its number
/// within the level, in the order `||`/`or`; `&&`/`and`; `==` `!=` `<=`
/// `>=` `<` `>`; `+` `-`; `*` `/`.
pub open spec fn binop_at(s: Seq<char>, p: int, level: int) -> Option<(int, int)> {
    if level == 0 {
        if has_at(s, p, "||"@) {
            Some((p + 2, 0))
        } else if keyword_at(s, p, "or"@) {
            Some((p + 2, 0))
        } else {
            None
        }
    } else if level == 1 {
        if has_at(s, p, "&&"@) {
            Some((p + 2, 0))
        } else if keyword_at(s, p, "and"@) {
            Some((p + 3, 0))
        } else {
            None
        }
    } else if level == 2 {
        if has_at(s, p, "=="@) {
            Some((p + 2, 0))
        } else if has_at(s, p, "!="@) {
            Some((p + 2, 1))
        } else if has_at(s, p, "<="@) {
            Some((p + 2, 2))
        } else if has_at(s, p, ">="@) {
            Some((p + 2, 3))
        } else if has_at(s, p, "<"@) {
            Some((p + 1, 4))
        } else if has_at(s, p, ">"@) {
            Some((p + 1, 5))
        } else {
            None
        }
    } else if level == 3 {
        if has_at(s, p, "+"@) {
            Some((p + 1, 0))
        } else if has_at(s, p, "-"@) {
            Some((p + 1, 1))
        } else {
            None
        }
    } else if level == 4 {
        if has_at(s, p, "*"@) {
            Some((p + 1, 0))
        } else if has_at(s, p, "/"@) {
            Some((p + 1, 1))
        } else {
            None
        }
    } else {
        None
    }
}

/// The tree of operator `op` of `level` applied to `l` and `r`.
pub open spec fn binop_tree(level: int, op: int, l: UncheckedExpr, r: UncheckedExpr) -> Expr<()> {
    let l = Box::new(l);
    let r = Box::new(r);
    if level == 0 {
        Expr::Or(l, r)
    } else if level == 1 {
        Expr::And(l, r)
    } else if level == 2 {
        if op == 0 {
            Expr::Eq(l, r)
        } else if op == 1 {
            Expr::Ne(l, r)
        } else if op == 2 {
            Expr::Le(l, r)
        } else if op == 3 {
            Expr::Ge(l, r)
        } else if op == 4 {
            Expr::Lt(l, r)
        } else {
            Expr::Gt(l, r)
        }
    } else if level == 3 {
        if op == 0 {
            Expr::Add(l, r)
        } else {
            Expr::Sub(l, r)
        }
    } else if op == 0 {
        Expr::Mul(l, r)
    } else {
        Expr::Div(l, r)
    }
}

/// The left operand of a binary operator node (the node itself otherwise).
pub open spec fn left_of(e: UncheckedExpr) -> UncheckedExpr {
    match e.exp {
        Expr::Add(l, _) | Expr::Sub(l, _) | Expr::Mul(l, _) | Expr::Div(l, _) | Expr::Eq(l, _) | Expr::Ne(l, _)
        | Expr::Lt(l, _) | Expr::Le(l, _) | Expr::Gt(l, _) | Expr::Ge(l, _) | Expr::And(l, _) | Expr::Or(l, _) => *l,
        _ => e,
    }
}

/// The right operand of a binary operator node (the node itself otherwise).
pub open spec fn right_of(e: UncheckedExpr) -> UncheckedExpr {
    match e.exp {
        Expr::Add(_, r) | Expr::Sub(_, r) | Expr::Mul(_, r) | Expr::Div(_, r) | Expr::Eq(_, r) | Expr::Ne(_, r)
        | Expr::Lt(_, r) | Expr::Le(_, r) | Expr::Gt(_, r) | Expr::Ge(_, r) | Expr::And(_, r) | Expr::Or(_, r) => *r,
        _ => e,
    }
}

/// The level of the left operand of an operator of `level`: comparisons
/// do not chain, the other operators associate to the left.
pub open spec fn left_level(level: int) -> int {
    if level == 2 {
        3
    } else {
        level
    }
}

/// `s[i..j]` is an expression of `level` with tree `e` (see the module
/// documentation).
pub open spec fn expr_text(s: Seq<char>, i: int, j: int, level: int, e: UncheckedExpr) -> bool
    decreases j - i, 10 - level,
{
    if 0 <= level < 5 {
        ||| exists|k: int, q: int| #![trigger ws_run(s, k, q)]
            i < k <= q && q < j && ws_run(s, k, q) && (binop_at(s, q, level) matches Some((m, op)) && q < m < j
                && e.exp == binop_tree(level, op, left_of(e), right_of(e))
                && expr_text(s, i, k, left_level(level), left_of(e)) && expr_text(s, m, j, level + 1, right_of(e)))
        ||| expr_text(s, i, j, level + 1, e)
    } else if level == 5 {
        exists|p: int| #![trigger ws_run(s, i, p)] ws_run(s, i, p) && p < j && p < s.len() && {
            ||| s[p] == '-' && p + 1 < j && (e.exp matches Expr::Neg(inner) && expr_text(s, p + 1, j, 5, *inner))
            ||| s[p] == '!' && p + 1 < j && (e.exp matches Expr::Not(inner) && expr_text(s, p + 1, j, 5, *inner))
            ||| expr_text(s, p, j, 6, e)
        }
    } else if level == 6 {
        ||| exists|k: int, q: int, m: int, n: int| #![trigger ws_run(s, k, q), ws_run(s, m, n)]
            i < k <= q && q + 1 < m <= n && j == n + 1 && ws_run(s, k, q) && q < s.len() && s[q] == '['
                && ws_run(s, m, n) && n < s.len() && s[n] == ']' && (e.exp matches Expr::Index { base, index }
                && expr_text(s, i, k, 6, *base) && expr_text(s, q + 1, m, 0, *index))
        ||| exists|k: int, q: int, q2: int| #![trigger ws_run(s, k, q), ident_at(s, q2, j)]
            i < k <= q && q < q2 < j && ws_run(s, k, q) && q < s.len() && s[q] == '.' && ws_run(s, q + 1, q2)
                && ident_at(s, q2, j) && (e.exp matches Expr::Member { base, member } && expr_text(s, i, k, 6, *base)
                && member@ == s.subrange(q2, j))
        ||| expr_text(s, i, j, 7, e)
    } else if level == 7 {
        exists|p: int| #![trigger ws_run(s, i, p)] ws_run(s, i, p) && p < j && p < s.len() && primary_text(s, p, j, e)
    } else {
        false
    }
}

/// The primary that starts (without white space) at `p` ends at `j` and
/// has tree `e`.
pub open spec fn primary_text(s: Seq<char>, p: int, j: int, e: UncheckedExpr) -> bool
    decreases j - p, 2int,
{
    ||| 0 <= p < s.len() && s[p] == '(' && exists|q: int, n: int| #![trigger ws_run(s, q, n)]
            p + 1 < q <= n && j == n + 1 && expr_text(s, p + 1, q, 0, e) && ws_run(s, q, n) && n < s.len() && s[n] == ')'
    ||| 0 <= p < s.len() && s[p] == '[' && p + 1 < j && (e.exp matches Expr::ArrayLit(items)
            && list_text(s, p + 1, j, ']', items@))
    ||| 0 <= p < s.len() && s[p] == '"' && (e.exp matches Expr::Literal(Literal::Str(t))
            && string_lit_at(s, p) == Some((t@, j)))
    ||| e.exp matches Expr::Literal(Literal::Int(v)) && int_lit_at(s, p, j, v as int)
    ||| e.exp matches Expr::Literal(Literal::Float(t)) && float_lit_at(s, p, j) && t@ == s.subrange(p, j)
    ||| e.exp matches Expr::Literal(Literal::Bool(b)) && (if b {
            keyword_at(s, p, "true"@) && j == p + 4
        } else {
            keyword_at(s, p, "false"@) && j == p + 5
        })
    ||| e.exp matches Expr::Ident(name) && ident_at(s, p, j) && name@ == s.subrange(p, j)
    ||| exists|q: int, q2: int| #![trigger ident_at(s, p, q), ws_run(s, q, q2)]
            p < q <= q2 && q2 + 1 <= j && ident_at(s, p, q) && ws_run(s, q, q2) && q2 < s.len() && s[q2] == '('
                && (e.exp matches Expr::Call { name, args } && name@ == s.subrange(p, q)
                && list_text(s, q2 + 1, j, ')', args@))
}

/// `s[i..j]` is the rest of a bracketed list after its opening bracket:
/// the expressions `items` separated by commas, then `close`.
pub open spec fn list_text(s: Seq<char>, i: int, j: int, close: char, items: Seq<UncheckedExpr>) -> bool
    decreases j - i, 1int,
{
    if items.len() == 0 {
        exists|n: int| #![trigger ws_run(s, i, n)] j == n + 1 && ws_run(s, i, n) && n < s.len() && s[n] == close
    } else {
        exists|p: int, n: int| #![trigger ws_run(s, p, n)]
            i < p <= n && j == n + 1 && items_text(s, i, p, items) && ws_run(s, p, n) && n < s.len() && s[n] == close
    }
}

/// `s[i..p]` is the non-empty list of expressions `items`, separated by
/// commas.
pub open spec fn items_text(s: Seq<char>, i: int, p: int, items: Seq<UncheckedExpr>) -> bool
    decreases p - i, 11int,
{
    if items.len() == 0 {
        false
    } else if items.len() == 1 {
        expr_text(s, i, p, 0, items[0])
    } else {
        exists|m: int, q: int| #![trigger ws_run(s, m, q)]
            i < m <= q && q + 1 < p && items_text(s, i, m, items.drop_last()) && ws_run(s, m, q) && q < s.len()
                && s[q] == ',' && expr_text(s, q + 1, p, 0, items.last())
    }
}

/// The keyword of a tag type.
pub open spec fn tag_keyword(tt: TagType) -> Seq<char> {
    match tt {
        TagType::Struct => "struct"@,
        TagType::Union => "union"@,
        TagType::Enum => "enum"@,
    }
}

/// `s[p..j]` is `struct N`, `union N` or `enum N` (white space between the
/// two words required), naming `tt` and `name`.
pub open spec fn tagged_name_text(s: Seq<char>, p: int, j: int, tt: TagType, name: Seq<char>) -> bool {
    exists|q: int| #![trigger ws_run(s, p + tag_keyword(tt).len(), q)]
        keyword_at(s, p, tag_keyword(tt)) && ws_run(s, p + tag_keyword(tt).len(), q) && q > p + tag_keyword(tt).len()
            && ident_at(s, q, j) && name == s.subrange(q, j)
}

/// `s[i..j]` (white space in front included) is a type without array
/// dimensions, denoting `t`.
pub open spec fn base_type_text(s: Seq<char>, i: int, j: int, t: Type) -> bool {
    exists|p: int| #![trigger ws_run(s, i, p)] ws_run(s, i, p) && {
        ||| t == Type::Int && keyword_at(s, p, "int"@) && j == p + 3
        ||| t == Type::Float && keyword_at(s, p, "float"@) && j == p + 5
        ||| t == Type::Bool && keyword_at(s, p, "bool"@) && j == p + 4
        ||| t == Type::Str && keyword_at(s, p, "str"@) && j == p + 3
        ||| t == Type::Unit && keyword_at(s, p, "void"@) && j == p + 4
        ||| t matches Type::Tagged { tag_type, tag_name } && tagged_name_text(s, p, j, tag_type, tag_name@)
    }
}

/// `s[i..j]` (white space in front included) is a type denoting `t`: a
/// base type, then one `[]` for each array dimension.
pub open spec fn type_text(s: Seq<char>, i: int, j: int, t: Type) -> bool
    decreases j - i,
{
    ||| base_type_text(s, i, j, t)
    ||| i < j - 2 && has_at(s, j - 2, "[]"@) && (t matches Type::Array(inner) && type_text(s, i, j - 2, *inner))
}

/// White space or a semicolon.
pub open spec fn is_ws_or_semi(c: char) -> bool {
    c == ' ' || c == '\t' || c == '\r' || c == '\n' || c == ';'
}

/// `r` ends the longest run of white space and semicolons that starts at `i`.
pub open spec fn ws_semi_run(s: Seq<char>, i: int, r: int) -> bool {
    &&& i <= r <= s.len()
    &&& forall|k: int| i <= k < r ==> is_ws_or_semi(#[trigger] s[k])
    &&& (r == s.len() || !is_ws_or_semi(s[r]))
}

/// A place that can be assigned: a name, or an element or member of a place.
pub open spec fn is_place(e: UncheckedExpr) -> bool
    decreases e,
{
    match e.exp {
        Expr::Ident(_) => true,
        Expr::Index { base, .. } => is_place(*base),
        Expr::Member { base, .. } => is_place(*base),
        _ => false,
    }
}

/// `s[i..j]` (white space in front included) is a declaration `T x = e`
/// (after `const`, where `constant` holds) with type `ty`, name `name` and
/// initialiser `init`. A constant's declaration ends with `;`; another
/// takes a `;` that follows it.
pub open spec fn decl_text(s: Seq<char>, i: int, j: int, constant: bool, ty: Type, name: Seq<char>, init: UncheckedExpr) -> bool {
    exists|p: int, p2: int, p3: int, p4: int, p5: int, p6: int|
        #![trigger ws_run(s, p, p2), ws_run(s, p3, p4), ws_run(s, p5, p6)]
        type_text(s, i, p, ty) && ws_run(s, p, p2) && ident_at(s, p2, p3) && name == s.subrange(p2, p3)
            && ws_run(s, p3, p4) && p4 < s.len() && s[p4] == '=' && !(p4 + 1 < s.len() && s[p4 + 1] == '=')
            && expr_text(s, p4 + 1, p5, 0, init) && ws_run(s, p5, p6)
            && (if p6 < s.len() && s[p6] == ';' { j == p6 + 1 } else { !constant && j == p5 })
}

/// `s[i..j]` (white space in front included) is a statement with tree `st`.
pub open spec fn stmt_text(s: Seq<char>, i: int, j: int, st: UncheckedStmt) -> bool
    decreases j - i, 2int,
{
    exists|p: int| #![trigger ws_run(s, i, p)] ws_run(s, i, p) && p < j && {
        ||| p < s.len() && s[p] == '{' && block_text(s, p, j, st)
        ||| keyword_at(s, p, "if"@) && p + 2 < j && (st.stmt matches Statement::If { cond, then_branch, else_branch }
                && if_text(s, p + 2, j, *cond, *then_branch, else_branch))
        ||| keyword_at(s, p, "while"@) && p + 5 < j && (st.stmt matches Statement::While { cond, body }
                && while_text(s, p + 5, j, *cond, *body))
        ||| keyword_at(s, p, "return"@) && (st.stmt matches Statement::Return(value) && match value {
                Some(e) => expr_text(s, p + 6, j, 0, *e),
                None => j == p + 6,
            })
        ||| keyword_at(s, p, "assert"@) && (st.stmt matches Statement::Assert(e) && expr_text(s, p + 6, j, 0, *e))
        ||| keyword_at(s, p, "const"@) && (st.stmt matches Statement::ConstDecl { name, ty, init }
                && decl_text(s, p + 5, j, true, ty, name@, *init))
        ||| st.stmt matches Statement::Decl { name, ty, init } && decl_text(s, p, j, false, ty, name@, *init)
        ||| st.stmt matches Statement::Assign { target, value } && is_place(*target)
                && exists|q: int, q1: int| #![trigger ws_run(s, q, q1)] p < q <= q1 && ws_run(s, q, q1)
                    && expr_text(s, p, q, 6, *target) && q1 < s.len() && s[q1] == '='
                    && !(q1 + 1 < s.len() && s[q1 + 1] == '=') && expr_text(s, q1 + 1, j, 0, *value)
        ||| st.stmt matches Statement::Call { name, args }
                && expr_text(s, p, j, 6, ExprD { exp: Expr::Call { name, args }, ty: () })
    }
}

/// The optional word `w` (`then` or `do`) after a condition that ends at
/// `q1`: `q3` is the end of the word where it stands there (after white
/// space), `q1` where it does not.
pub open spec fn then_word(s: Seq<char>, q1: int, q3: int, w: Seq<char>) -> bool {
    exists|q2: int| #![trigger ws_run(s, q1, q2)] ws_run(s, q1, q2)
        && if keyword_at(s, q2, w) { q3 == q2 + w.len() } else { q3 == q1 }
}

/// `s[i..j]` is the rest of a `while` statement after the word `while`.
pub open spec fn while_text(s: Seq<char>, i: int, j: int, cond: UncheckedExpr, body: UncheckedStmt) -> bool
    decreases j - i, 1int,
{
    exists|q1: int, q3: int, b: int| #![trigger expr_text(s, i, q1, 0, cond), then_word(s, q1, q3, "do"@), ws_run(s, q3, b)]
        i < q1 <= q3 && q3 <= b < j && expr_text(s, i, q1, 0, cond) && then_word(s, q1, q3, "do"@)
            && ws_run(s, q3, b) && b < s.len() && s[b] == '{' && block_text(s, b, j, body)
}

/// `s[i..j]` is the rest of an `if` statement after the word `if`.
pub open spec fn if_text(
    s: Seq<char>, i: int, j: int, cond: UncheckedExpr, then_branch: UncheckedStmt,
    else_branch: Option<Box<UncheckedStmt>>,
) -> bool
    decreases j - i, 1int,
{
    exists|q1: int, q3: int, b: int|
        #![trigger expr_text(s, i, q1, 0, cond), then_word(s, q1, q3, "then"@), ws_run(s, q3, b)]
        i < q1 <= q3 && q3 <= b < j && expr_text(s, i, q1, 0, cond) && then_word(s, q1, q3, "then"@)
            && ws_run(s, q3, b) && b < s.len() && s[b] == '{'
            && match else_branch {
                None => block_text(s, b, j, then_branch),
                Some(eb) => exists|q4: int, q5: int, w: int, q6: int| #![trigger ws_run(s, q4, q5), ws_run(s, w, q6)]
                    b < q4 <= q5 && w == q5 + 4 && w <= q6 && q6 < j && block_text(s, b, q4, then_branch)
                    && ws_run(s, q4, q5) && keyword_at(s, q5, "else"@) && ws_run(s, w, q6) && q6 < s.len()
                    && ((s[q6] == '{' && block_text(s, q6, j, *eb)) || (keyword_at(s, q6, "if"@) && stmt_text(s, q6, j, *eb))),
            }
}

/// `s[b..j]` is a block `{ s1; s2; ... }` (`s[b]` being the `{`).
pub open spec fn block_text(s: Seq<char>, b: int, j: int, st: UncheckedStmt) -> bool
    decreases j - b, 1int,
{
    0 <= b < s.len() && s[b] == '{' && (st.stmt matches Statement::Block { seq }
        && exists|p: int, n: int| #![trigger ws_semi_run(s, p, n)]
            b < p <= n && j == n + 1 && stmts_text(s, b + 1, p, seq@) && ws_semi_run(s, p, n) && n < s.len()
                && s[n] == '}')
}

/// `s[i..p]` is the statements `seq`, each after white space and semicolons.
pub open spec fn stmts_text(s: Seq<char>, i: int, p: int, seq: Seq<UncheckedStmt>) -> bool
    decreases p - i, 3int,
{
    if seq.len() == 0 {
        p == i
    } else {
        exists|m: int, q: int| #![trigger ws_semi_run(s, m, q)]
            i <= m <= q && q < p && stmts_text(s, i, m, seq.drop_last()) && ws_semi_run(s, m, q)
                && stmt_text(s, q, p, seq.last())
    }
}

} // verus!
