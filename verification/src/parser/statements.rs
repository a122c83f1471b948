//! Statement syntax:
//!
//! * `T x = e[;]` and `const T x = e;` — declarations (a constant's ends with `;`);
//! * `target = e` — assignment to a variable, an element `a[i]` or a member `s.m`
//!   (of such a place, to any depth);
//! * `f(a, b)` — call;
//! * `{ s1; s2 }` — block; statements may be followed by any number of `;`;
//! * `if e [then] { .. } [else { .. }]` (or `else if ..`), `while e [do] { .. }`;
//! * `return [e]`, `assert e`.
use vstd::prelude::*;
use crate::ir::ast::{Expr, ExprD, Statement, StatementD, UncheckedExpr, UncheckedStmt};
use crate::parser::expressions::{parse_expr, parse_postfix};
use crate::parser::grammar::{
    block_text, decl_text, expr_text, if_text, is_place, is_ws_or_semi, stmt_text, stmts_text, then_word, while_text,
    ws_semi_run,
};
use crate::parser::lexer::{identifier_at, is_ws, keyword_at, keyword_end, skip_ws, ws_run, PResult, ParseError};
use crate::parser::types::{starts_type, type_definition};

verus! {

fn mk(stmt: Statement<()>) -> (r: UncheckedStmt)
    ensures
        r.stmt == stmt,
{
    StatementD { stmt, ty: () }
}

fn place(e: &UncheckedExpr) -> (r: bool)
    ensures
        r == is_place(*e),
    decreases *e,
{
    match &e.exp {
        Expr::Ident(_) => true,
        Expr::Index { base, .. } => place(base),
        Expr::Member { base, .. } => place(base),
        _ => false,
    }
}

/// The block that must stand at `pos` (leading white space skipped).
fn required_block(s: &Vec<char>, pos: usize) -> (r: PResult<UncheckedStmt>)
    requires
        pos <= s.len(),
    ensures
        r matches Ok((e, _)) ==> pos < e <= s.len(),
        r matches Ok((e, t)) ==> exists|b: int| ws_run(s@, pos as int, b) && b < e && b < s.len() && s@[b] == '{'
            && block_text(s@, b, e as int, t),
    decreases s.len() - pos, 2int,
{
    let b = skip_ws(s, pos);
    if b < s.len() && s[b] == '{' {
        let r = block(s, b);
        proof {
            assert(ws_run(s@, pos as int, b as int));
        }
        r
    } else {
        Err(ParseError { position: b })
    }
}

/// Skips white space and semicolons.
pub fn skip_ws_semis(s: &Vec<char>, pos: usize) -> (r: usize)
    requires
        pos <= s.len(),
    ensures
        pos <= r <= s.len(),
        ws_semi_run(s@, pos as int, r as int),
{
    let mut p = skip_ws(s, pos);
    while p < s.len() && s[p] == ';'
        invariant
            pos <= p <= s.len(),
            forall|k: int| pos <= k < p ==> is_ws_or_semi(#[trigger] s@[k]),
            p == s.len() || !is_ws(s@[p as int]),
        decreases s.len() - p,
    {
        p = skip_ws(s, p + 1);
    }
    p
}

/// `T name = e` after the optional `const` (leading white space skipped).
fn declaration(s: &Vec<char>, pos: usize, constant: bool) -> (r: PResult<UncheckedStmt>)
    requires
        pos <= s.len(),
    ensures
        r matches Ok((e, _)) ==> pos < e <= s.len(),
        r matches Ok((e, t)) ==> if constant {
            t.stmt matches Statement::ConstDecl { name, ty, init } && decl_text(s@, pos as int, e as int, true, ty, name@, *init)
        } else {
            t.stmt matches Statement::Decl { name, ty, init } && decl_text(s@, pos as int, e as int, false, ty, name@, *init)
        },
{
    let (p, ty) = match type_definition(s, pos) {
        Ok(x) => x,
        Err(err) => { return Err(err); },
    };
    let p2 = skip_ws(s, p);
    let (p3, name) = match identifier_at(s, p2) {
        Ok(x) => x,
        Err(err) => { return Err(err); },
    };
    let p4 = skip_ws(s, p3);
    if !(p4 < s.len() && s[p4] == '=' && !(p4 + 1 < s.len() && s[p4 + 1] == '=')) {
        return Err(ParseError { position: p4 });
    }
    let (p5, init) = match parse_expr(s, p4 + 1) {
        Ok(x) => x,
        Err(err) => { return Err(err); },
    };
    let ghost (gty, gname, ginit) = (ty, name@, init);
    let init = Box::new(init);
    proof {
        assert(ws_run(s@, p as int, p2 as int));
        assert(ws_run(s@, p3 as int, p4 as int));
    }
    if constant {
        let p6 = skip_ws(s, p5);
        if !(p6 < s.len() && s[p6] == ';') {
            return Err(ParseError { position: p6 });
        }
        proof {
            assert(ws_run(s@, p5 as int, p6 as int));
            assert(decl_text(s@, pos as int, p6 + 1, true, gty, gname, ginit));
        }
        Ok((p6 + 1, mk(Statement::ConstDecl { name, ty, init })))
    } else {
        let p6 = skip_ws(s, p5);
        let end = if p6 < s.len() && s[p6] == ';' { p6 + 1 } else { p5 };
        proof {
            assert(ws_run(s@, p5 as int, p6 as int));
            assert(decl_text(s@, pos as int, end as int, false, gty, gname, ginit));
        }
        Ok((end, mk(Statement::Decl { name, ty, init })))
    }
}

/// Parses a statement at `pos` (leading white space skipped).
pub fn statement(s: &Vec<char>, pos: usize) -> (r: PResult<UncheckedStmt>)
    requires
        pos <= s.len(),
    ensures
        r matches Ok((e, _)) ==> pos < e <= s.len(),
        r matches Ok((e, t)) ==> stmt_text(s@, pos as int, e as int, t),
    decreases s.len() - pos, 1int,
{
    let p = skip_ws(s, pos);
    proof {
        assert(ws_run(s@, pos as int, p as int));
    }
    if p < s.len() && s[p] == '{' {
        return block(s, p);
    }
    if let Some(q) = keyword_end(s, p, "if") {
        proof { reveal_strlit("if"); reveal_strlit("then"); reveal_strlit("else"); }
        let (q1, cond) = match parse_expr(s, q) {
            Ok(x) => x,
            Err(err) => { return Err(err); },
        };
        let q2 = skip_ws(s, q1);
        let q3 = match keyword_end(s, q2, "then") {
            Some(e) => e,
            None => q1,
        };
        proof {
            assert(ws_run(s@, q1 as int, q2 as int));
            assert(then_word(s@, q1 as int, q3 as int, "then"@));
        }
        let (q4, then_branch) = match required_block(s, q3) {
            Ok(x) => x,
            Err(err) => { return Err(err); },
        };
        let ghost b = choose|b: int| ws_run(s@, q3 as int, b) && b < q4 && b < s.len() && s@[b] == '{'
            && block_text(s@, b, q4 as int, then_branch);
        let q5 = skip_ws(s, q4);
        if let Some(q6) = keyword_end(s, q5, "else") {
            let q6b = skip_ws(s, q6);
            let else_part = if q6b < s.len() && s[q6b] == '{' {
                block(s, q6b)
            } else if keyword_end(s, q6b, "if").is_some() {
                statement(s, q6b)
            } else {
                Err(ParseError { position: q6b })
            };
            if let Ok((q7, else_branch)) = else_part {
                let ghost eb = else_branch;
                let res = mk(Statement::If {
                    cond: Box::new(cond),
                    then_branch: Box::new(then_branch),
                    else_branch: Some(Box::new(else_branch)),
                });
                proof {
                    assert(ws_run(s@, q4 as int, q5 as int));
                    assert(ws_run(s@, q6 as int, q6b as int));
                    assert((s@[q6b as int] == '{' && block_text(s@, q6b as int, q7 as int, eb))
                        || (keyword_at(s@, q6b as int, "if"@) && stmt_text(s@, q6b as int, q7 as int, eb)));
                    assert(if_text(s@, p + 2, q7 as int, cond, then_branch, Some(Box::new(eb))));
                    assert(stmt_text(s@, pos as int, q7 as int, res));
                }
                return Ok((q7, res));
            }
        }
        let res = mk(Statement::If {
            cond: Box::new(cond),
            then_branch: Box::new(then_branch),
            else_branch: None,
        });
        proof {
            assert(if_text(s@, p + 2, q4 as int, cond, then_branch, None));
            assert(stmt_text(s@, pos as int, q4 as int, res));
        }
        return Ok((q4, res));
    }
    if let Some(q) = keyword_end(s, p, "while") {
        proof { reveal_strlit("while"); reveal_strlit("do"); }
        let (q1, cond) = match parse_expr(s, q) {
            Ok(x) => x,
            Err(err) => { return Err(err); },
        };
        let q2 = skip_ws(s, q1);
        let q3 = match keyword_end(s, q2, "do") {
            Some(e) => e,
            None => q1,
        };
        proof {
            assert(ws_run(s@, q1 as int, q2 as int));
            assert(then_word(s@, q1 as int, q3 as int, "do"@));
        }
        let (q4, body) = match required_block(s, q3) {
            Ok(x) => x,
            Err(err) => { return Err(err); },
        };
        let res = mk(Statement::While { cond: Box::new(cond), body: Box::new(body) });
        proof {
            let b = choose|b: int| ws_run(s@, q3 as int, b) && b < q4 && b < s.len() && s@[b] == '{'
                && block_text(s@, b, q4 as int, body);
            assert(while_text(s@, p + 5, q4 as int, cond, body));
            assert(stmt_text(s@, pos as int, q4 as int, res));
        }
        return Ok((q4, res));
    }
    if let Some(q) = keyword_end(s, p, "return") {
        proof { reveal_strlit("return"); }
        return match parse_expr(s, q) {
            Ok((q1, e)) => Ok((q1, mk(Statement::Return(Some(Box::new(e)))))),
            Err(_) => Ok((q, mk(Statement::Return(None)))),
        };
    }
    if let Some(q) = keyword_end(s, p, "assert") {
        proof { reveal_strlit("assert"); }
        return match parse_expr(s, q) {
            Ok((q1, e)) => Ok((q1, mk(Statement::Assert(Box::new(e))))),
            Err(err) => Err(err),
        };
    }
    if let Some(q) = keyword_end(s, p, "const") {
        proof { reveal_strlit("const"); }
        return declaration(s, q, true);
    }
    if starts_type(s, p) {
        return declaration(s, p, false);
    }
    // assignment or call
    let (q, target) = match parse_postfix(s, p) {
        Ok(x) => x,
        Err(err) => { return Err(err); },
    };
    let q1 = skip_ws(s, q);
    if q1 < s.len() && s[q1] == '=' && !(q1 + 1 < s.len() && s[q1 + 1] == '=') {
        if !place(&target) {
            return Err(ParseError { position: p });
        }
        return match parse_expr(s, q1 + 1) {
            Ok((q2, value)) => {
                let res = mk(Statement::Assign { target: Box::new(target), value: Box::new(value) });
                proof {
                    assert(ws_run(s@, q as int, q1 as int));
                    assert(stmt_text(s@, pos as int, q2 as int, res));
                }
                Ok((q2, res))
            },
            Err(err) => Err(err),
        };
    }
    let ghost t0 = target;
    match target.exp {
        Expr::Call { name, args } => {
            let res = mk(Statement::Call { name, args });
            proof {
                assert(t0.exp == Expr::Call::<()> { name, args });
                assert(t0.ty == ());
                assert(t0 == ExprD { exp: Expr::Call { name, args }, ty: () });
                assert(stmt_text(s@, pos as int, q as int, res));
            }
            Ok((q, res))
        },
        _ => Err(ParseError { position: q1 }),
    }
}

/// Parses `{ s1; s2; ... }` at `pos`, which holds the `{`.
pub fn block(s: &Vec<char>, pos: usize) -> (r: PResult<UncheckedStmt>)
    requires
        pos < s.len(),
        s@[pos as int] == '{',
    ensures
        r matches Ok((e, _)) ==> pos < e <= s.len(),
        r matches Ok((e, t)) ==> block_text(s@, pos as int, e as int, t),
    decreases s.len() - pos, 0int,
{
    let mut seq: Vec<UncheckedStmt> = Vec::new();
    let mut p = pos + 1;
    loop
        invariant
            pos < p <= s.len(),
            pos < s.len(),
            s@[pos as int] == '{',
            stmts_text(s@, pos + 1, p as int, seq@),
        decreases s.len() - p,
    {
        let q = skip_ws_semis(s, p);
        if q < s.len() && s[q] == '}' {
            let res = mk(Statement::Block { seq });
            proof {
                assert(ws_semi_run(s@, p as int, q as int));
                assert(block_text(s@, pos as int, q + 1, res));
            }
            return Ok((q + 1, res));
        }
        let (q2, st) = match statement(s, q) {
            Ok(x) => x,
            Err(err) => { return Err(err); },
        };
        let ghost before = seq@;
        seq.push(st);
        proof {
            assert(seq@.drop_last() =~= before);
            assert(ws_semi_run(s@, p as int, q as int));
            assert(stmts_text(s@, pos + 1, q2 as int, seq@));
        }
        p = q2;
    }
}

/// Parses `target = e` at `pos` (leading white space skipped).
pub fn assignment(s: &Vec<char>, pos: usize) -> (r: PResult<UncheckedStmt>)
    requires
        pos <= s.len(),
    ensures
        r matches Ok((e, _)) ==> pos < e <= s.len(),
        r matches Ok((e, t)) ==> t.stmt is Assign && stmt_text(s@, pos as int, e as int, t),
{
    let p = skip_ws(s, pos);
    let (q, target) = match parse_postfix(s, p) {
        Ok(x) => x,
        Err(err) => { return Err(err); },
    };
    let q1 = skip_ws(s, q);
    if q1 < s.len() && s[q1] == '=' && !(q1 + 1 < s.len() && s[q1 + 1] == '=') && place(&target) {
        match parse_expr(s, q1 + 1) {
            Ok((q2, value)) => {
                let res = mk(Statement::Assign { target: Box::new(target), value: Box::new(value) });
                proof {
                    assert(ws_run(s@, pos as int, p as int));
                    assert(ws_run(s@, q as int, q1 as int));
                    assert(stmt_text(s@, pos as int, q2 as int, res));
                }
                Ok((q2, res))
            },
            Err(err) => Err(err),
        }
    } else {
        Err(ParseError { position: q1 })
    }
}

} // verus!
