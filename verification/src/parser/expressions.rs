//! Expression syntax, from loosest to tightest binding:
//! `||` (or `or`), `&&` (or `and`), comparisons (`==` `!=` `<=` `>=` `<` `>`, not chained),
//! `+` `-`, `*` `/`, prefix `-` and `!`, postfix indexing `e[i]` and member
//! access `e.m`, and primaries: literals, identifiers, calls `f(a, b)`,
//! array literals `[a, b]` and parenthesised expressions.
//! Binary operators of one level associate to the left.
use vstd::prelude::*;
use crate::ir::ast::{Expr, ExprD, Literal, UncheckedExpr};
use crate::parser::grammar::{binop_at, binop_tree, expr_text, items_text, left_level, list_text, primary_text};
use crate::parser::lexer::{ident_at, ident_run, ws_run};
use crate::parser::types::lemma_ws_run_unique;
use crate::parser::lexer::{
    boolean_at, float_at, identifier_at, integer_at, is_digit_char, keyword_end, skip_ws, string_at, tag_end, PResult,
    ParseError,
};

verus! {

fn mk(exp: Expr<()>) -> (r: UncheckedExpr)
    ensures
        r.exp == exp,
{
    ExprD { exp, ty: () }
}

/// Binary operator levels, from loosest (`||`, `or`) to tightest (`*`, `/`).
pub open spec fn level_rank(level: u8) -> int {
    level as int + 2
}

/// After white space from `i`, a plain name stands: an identifier that
/// begins with a letter or `_` and is not called (no `(` follows it).
pub open spec fn plain_name_at(s: Seq<char>, i: int) -> bool {
    exists|p: int| #![trigger ws_run(s, i, p)] ws_run(s, i, p) && plain_name_start(s, p)
}

/// A plain name starts exactly at `p`.
pub open spec fn plain_name_start(s: Seq<char>, p: int) -> bool {
    &&& 0 <= p < s.len()
    &&& s[p] == '_' || ('a' <= s[p] <= 'z') || ('A' <= s[p] <= 'Z')
    &&& exists|j: int, n: int| #![trigger ident_at(s, p, j), ws_run(s, j, n)]
        ident_at(s, p, j) && ws_run(s, j, n) && (n == s.len() || s[n] != '(')
}

/// After `e` stand, past white space, an operator of `level` and then a
/// plain name: one more operand of that level could be read.
pub open spec fn operand_follows(s: Seq<char>, e: int, level: int) -> bool {
    exists|q: int| #![trigger ws_run(s, e, q)]
        ws_run(s, e, q) && (binop_at(s, q, level) matches Some((q2, _)) && plain_name_at(s, q2))
}

/// An identifier ends at one place.
pub proof fn lemma_ident_end_unique(s: Seq<char>, p: int, a: int, b: int)
    requires
        ident_at(s, p, a),
        ident_at(s, p, b),
    ensures
        a == b,
{
    if a < b {
        assert(crate::parser::lexer::is_ident_char(s[a]));
    } else if b < a {
        assert(crate::parser::lexer::is_ident_char(s[b]));
    }
}

/// Parses an expression at `pos` (leading white space skipped).
pub fn parse_expr(s: &Vec<char>, pos: usize) -> (r: PResult<UncheckedExpr>)
    requires
        pos <= s.len(),
    ensures
        r matches Ok((e, _)) ==> pos < e <= s.len(),
        r matches Ok((e, t)) ==> expr_text(s@, pos as int, e as int, 0, t),
        plain_name_at(s@, pos as int) ==> r is Ok,
        r matches Ok((e, _)) ==> forall|lv: int| 0 <= lv <= 4 && lv != 2 ==> !operand_follows(s@, e as int, lv),
    decreases s.len() - pos, 9int,
{
    parse_binary(s, pos, 0)
}

/// The operator of `level` standing at `p`, with its end.
fn binary_operator(s: &Vec<char>, p: usize, level: u8) -> (r: Option<(usize, u8)>)
    requires
        p <= s.len(),
        level <= 3,
    ensures
        r matches Some((e, op)) ==> p < e <= s.len(),
        match r {
            Some((e, op)) => binop_at(s@, p as int, level as int) == Some((e as int, op as int)),
            None => binop_at(s@, p as int, level as int) is None,
        },
{
    proof {
        reveal_strlit("||");
        reveal_strlit("&&");
        reveal_strlit("or");
        reveal_strlit("and");
        reveal_strlit("==");
        reveal_strlit("!=");
        reveal_strlit("<=");
        reveal_strlit(">=");
        reveal_strlit("<");
        reveal_strlit(">");
        reveal_strlit("+");
        reveal_strlit("-");
        reveal_strlit("*");
        reveal_strlit("/");
    }
    if level == 0 {
        if let Some(e) = tag_end(s, p, "||") {
            Some((e, 0u8))
        } else if let Some(e) = keyword_end(s, p, "or") {
            Some((e, 0u8))
        } else {
            None
        }
    } else if level == 1 {
        if let Some(e) = tag_end(s, p, "&&") {
            Some((e, 0u8))
        } else if let Some(e) = keyword_end(s, p, "and") {
            Some((e, 0u8))
        } else {
            None
        }
    } else if level == 2 {
        if let Some(e) = tag_end(s, p, "==") {
            Some((e, 0u8))
        } else if let Some(e) = tag_end(s, p, "!=") {
            Some((e, 1u8))
        } else if let Some(e) = tag_end(s, p, "<=") {
            Some((e, 2u8))
        } else if let Some(e) = tag_end(s, p, ">=") {
            Some((e, 3u8))
        } else if let Some(e) = tag_end(s, p, "<") {
            Some((e, 4u8))
        } else if let Some(e) = tag_end(s, p, ">") {
            Some((e, 5u8))
        } else {
            None
        }
    } else if level == 3 {
        if let Some(e) = tag_end(s, p, "+") {
            Some((e, 0u8))
        } else if let Some(e) = tag_end(s, p, "-") {
            Some((e, 1u8))
        } else {
            None
        }
    } else {
        None
    }
}

fn combine(level: u8, op: u8, l: UncheckedExpr, r: UncheckedExpr) -> (res: UncheckedExpr)
    ensures
        res.exp == binop_tree(level as int, op as int, l, r),
{
    let l = Box::new(l);
    let r = Box::new(r);
    if level == 0 {
        mk(Expr::Or(l, r))
    } else if level == 1 {
        mk(Expr::And(l, r))
    } else if level == 2 {
        if op == 0 {
            mk(Expr::Eq(l, r))
        } else if op == 1 {
            mk(Expr::Ne(l, r))
        } else if op == 2 {
            mk(Expr::Le(l, r))
        } else if op == 3 {
            mk(Expr::Ge(l, r))
        } else if op == 4 {
            mk(Expr::Lt(l, r))
        } else {
            mk(Expr::Gt(l, r))
        }
    } else if level == 3 {
        if op == 0 {
            mk(Expr::Add(l, r))
        } else {
            mk(Expr::Sub(l, r))
        }
    } else {
        if op == 0 {
            mk(Expr::Mul(l, r))
        } else {
            mk(Expr::Div(l, r))
        }
    }
}

/// Level 4: `*` and `/`.
fn mul_operator(s: &Vec<char>, p: usize) -> (r: Option<(usize, u8)>)
    requires
        p <= s.len(),
    ensures
        r matches Some((e, op)) ==> p < e <= s.len(),
        match r {
            Some((e, op)) => binop_at(s@, p as int, 4) == Some((e as int, op as int)),
            None => binop_at(s@, p as int, 4) is None,
        },
{
    proof {
        reveal_strlit("*");
        reveal_strlit("/");
    }
    if let Some(e) = tag_end(s, p, "*") {
        Some((e, 0u8))
    } else if let Some(e) = tag_end(s, p, "/") {
        Some((e, 1u8))
    } else {
        None
    }
}

/// Parses the operands of `level` and the operators between them.
/// Levels 0 to 3 are `||`, `&&`, comparisons, `+`/`-`; level 4 is `*`/`/`.
/// Comparisons take at most one operator.
pub fn parse_binary(s: &Vec<char>, pos: usize, level: u8) -> (r: PResult<UncheckedExpr>)
    requires
        pos <= s.len(),
        level <= 4,
    ensures
        r matches Ok((e, _)) ==> pos < e <= s.len(),
        r matches Ok((e, t)) ==> expr_text(s@, pos as int, e as int, level as int, t),
        plain_name_at(s@, pos as int) ==> r is Ok,
        r matches Ok((e, _)) ==> forall|lv: int| level <= lv <= 4 && lv != 2 ==> !operand_follows(s@, e as int, lv),
    decreases s.len() - pos, 8 - level as int,
{
    let first = if level < 4 {
        parse_binary(s, pos, level + 1)
    } else {
        parse_unary(s, pos)
    };
    let (mut p, mut acc) = match first {
        Ok(x) => x,
        Err(err) => { return Err(err); },
    };
    proof {
        assert(expr_text(s@, pos as int, p as int, level as int, acc));
    }
    loop
        invariant
            pos < p <= s.len(),
            level <= 4,
            expr_text(s@, pos as int, p as int, level as int, acc),
            level == 2 ==> expr_text(s@, pos as int, p as int, 3, acc),
            forall|lv: int| level < lv <= 4 && lv != 2 ==> !operand_follows(s@, p as int, lv),
        ensures
            pos < p <= s.len(),
            expr_text(s@, pos as int, p as int, level as int, acc),
            forall|lv: int| level <= lv <= 4 && lv != 2 ==> !operand_follows(s@, p as int, lv),
        decreases s.len() - p,
    {
        let q = skip_ws(s, p);
        let op = if level < 4 { binary_operator(s, q, level) } else { mul_operator(s, q) };
        match op {
            None => {
                proof {
                    assert forall|q1: int, q3: int, o1: int| ws_run(s@, p as int, q1) implies
                        binop_at(s@, q1, level as int) != Some((q3, o1)) by {
                        lemma_ws_run_unique(s@, p as int, q as int, q1);
                    }
                    assert(!operand_follows(s@, p as int, level as int));
                }
                break;
            },
            Some((q2, o)) => {
                let rhs = if level < 4 {
                    parse_binary(s, q2, level + 1)
                } else {
                    parse_unary(s, q2)
                };
                match rhs {
                    Err(_) => {
                        proof {
                            assert forall|q1: int, q3: int, o1: int| ws_run(s@, p as int, q1)
                                && binop_at(s@, q1, level as int) == Some((q3, o1)) implies !plain_name_at(s@, q3) by {
                                lemma_ws_run_unique(s@, p as int, q as int, q1);
                            }
                            assert(!operand_follows(s@, p as int, level as int));
                        }
                        break;
                    },
                    Ok((p2, r)) => {
                        let ghost l = acc;
                        let ghost rr = r;
                        acc = combine(level, o, acc, r);
                        proof {
                            assert(expr_text(s@, pos as int, p as int, left_level(level as int), l));
                            assert(expr_text(s@, q2 as int, p2 as int, level as int + 1, rr));
                            assert(binop_at(s@, q as int, level as int) == Some((q2 as int, o as int)));
                            assert(acc.exp == binop_tree(level as int, o as int, l, rr));
                            assert(expr_text(s@, pos as int, p2 as int, level as int, acc));
                        }
                        p = p2;
                        if level == 2 {
                            return Ok((p, acc));
                        }
                    },
                }
            },
        }
    }
    Ok((p, acc))
}

/// Prefix `-` and `!`.
pub fn parse_unary(s: &Vec<char>, pos: usize) -> (r: PResult<UncheckedExpr>)
    requires
        pos <= s.len(),
    ensures
        r matches Ok((e, _)) ==> pos < e <= s.len(),
        r matches Ok((e, t)) ==> expr_text(s@, pos as int, e as int, 5, t),
        plain_name_at(s@, pos as int) ==> r is Ok,
    decreases s.len() - pos, 3int,
{
    let p = skip_ws(s, pos);
    proof {
        if plain_name_at(s@, pos as int) {
            let p1 = choose|p1: int| ws_run(s@, pos as int, p1) && plain_name_start(s@, p1);
            lemma_ws_run_unique(s@, pos as int, p as int, p1);
            assert(ws_run(s@, p as int, p as int));
            assert(plain_name_at(s@, p as int));
        }
    }
    if p < s.len() && s[p] == '-' {
        match parse_unary(s, p + 1) {
            Ok((e, inner)) => {
                let res = mk(Expr::Neg(Box::new(inner)));
                proof {
                    assert(ws_run(s@, pos as int, p as int));
                    assert(expr_text(s@, pos as int, e as int, 5, res));
                }
                Ok((e, res))
            },
            Err(err) => Err(err),
        }
    } else if p < s.len() && s[p] == '!' && !(p + 1 < s.len() && s[p + 1] == '=') {
        match parse_unary(s, p + 1) {
            Ok((e, inner)) => {
                let res = mk(Expr::Not(Box::new(inner)));
                proof {
                    assert(ws_run(s@, pos as int, p as int));
                    assert(expr_text(s@, pos as int, e as int, 5, res));
                }
                Ok((e, res))
            },
            Err(err) => Err(err),
        }
    } else {
        let res = parse_postfix(s, p);
        proof {
            assert(ws_run(s@, pos as int, p as int));
            assert(res matches Ok((e, t)) ==> expr_text(s@, pos as int, e as int, 5, t));
        }
        res
    }
}

/// Postfix indexing `e[i]` and member access `e.m`.
pub fn parse_postfix(s: &Vec<char>, pos: usize) -> (r: PResult<UncheckedExpr>)
    requires
        pos <= s.len(),
    ensures
        r matches Ok((e, _)) ==> pos < e <= s.len(),
        r matches Ok((e, t)) ==> expr_text(s@, pos as int, e as int, 6, t),
        plain_name_at(s@, pos as int) ==> r is Ok,
    decreases s.len() - pos, 2int,
{
    let (mut p, mut acc) = match parse_primary(s, pos) {
        Ok(x) => x,
        Err(err) => { return Err(err); },
    };
    proof {
        assert(expr_text(s@, pos as int, p as int, 6, acc));
    }
    loop
        invariant
            pos < p <= s.len(),
            expr_text(s@, pos as int, p as int, 6, acc),
        decreases s.len() - p,
    {
        let q = skip_ws(s, p);
        if q < s.len() && s[q] == '[' {
            match parse_expr(s, q + 1) {
                Ok((q2, index)) => {
                    let q3 = skip_ws(s, q2);
                    if q3 < s.len() && s[q3] == ']' {
                        let ghost b = acc;
                        acc = mk(Expr::Index { base: Box::new(acc), index: Box::new(index) });
                        proof {
                            assert(ws_run(s@, p as int, q as int));
                            assert(ws_run(s@, q2 as int, q3 as int));
                            assert(expr_text(s@, pos as int, p as int, 6, b));
                            assert(expr_text(s@, pos as int, q3 + 1, 6, acc));
                        }
                        p = q3 + 1;
                    } else {
                        break;
                    }
                },
                Err(_) => { break; },
            }
        } else if q < s.len() && s[q] == '.' {
            let q2 = skip_ws(s, q + 1);
            match identifier_at(s, q2) {
                Ok((q3, member)) => {
                    let ghost b = acc;
                    acc = mk(Expr::Member { base: Box::new(acc), member });
                    proof {
                        assert(ws_run(s@, p as int, q as int));
                        assert(expr_text(s@, pos as int, p as int, 6, b));
                        assert(expr_text(s@, pos as int, q3 as int, 6, acc));
                    }
                    p = q3;
                },
                Err(_) => { break; },
            }
        } else {
            break;
        }
    }
    Ok((p, acc))
}

/// A comma-separated list of expressions up to `close` (which is consumed).
/// `pos` is just after the opening bracket.
pub fn parse_expr_list(s: &Vec<char>, pos: usize, close: char) -> (r: PResult<Vec<UncheckedExpr>>)
    requires
        pos <= s.len(),
    ensures
        r matches Ok((e, _)) ==> pos < e <= s.len(),
        r matches Ok((e, items)) ==> list_text(s@, pos as int, e as int, close, items@),
    decreases s.len() - pos, 10int,
{
    let mut items: Vec<UncheckedExpr> = Vec::new();
    let p0 = skip_ws(s, pos);
    if p0 < s.len() && s[p0] == close {
        proof {
            assert(ws_run(s@, pos as int, p0 as int));
        }
        return Ok((p0 + 1, items));
    }
    let mut p: usize = pos;
    let ghost mut last: int = 0;
    let ghost mut comma: int = 0;
    loop
        invariant
            pos <= p <= s.len(),
            items.len() == 0 ==> p == pos,
            items.len() > 0 ==> pos < p,
            items.len() > 0 ==> pos < last <= comma && p == comma + 1 && comma < s.len() && s@[comma] == ','
                && items_text(s@, pos as int, last, items@) && ws_run(s@, last, comma),
        decreases s.len() - p,
    {
        let (p2, item) = match parse_expr(s, p) {
            Ok(x) => x,
            Err(err) => { return Err(err); },
        };
        let ghost before = items@;
        items.push(item);
        proof {
            if before.len() == 0 {
                assert(items@.len() == 1);
                assert(items@[0] == item);
            } else {
                assert(items@.drop_last() =~= before);
                assert(items@.last() == item);
                assert(ws_run(s@, last, comma));
            }
            assert(items_text(s@, pos as int, p2 as int, items@));
        }
        let q = skip_ws(s, p2);
        if q < s.len() && s[q] == ',' {
            proof {
                last = p2 as int;
                comma = q as int;
            }
            p = q + 1;
        } else if q < s.len() && s[q] == close {
            proof {
                assert(ws_run(s@, p2 as int, q as int));
            }
            return Ok((q + 1, items));
        } else {
            return Err(ParseError { position: q });
        }
    }
}

/// Literals, identifiers, calls, array literals, parenthesised expressions.
pub fn parse_primary(s: &Vec<char>, pos: usize) -> (r: PResult<UncheckedExpr>)
    requires
        pos <= s.len(),
    ensures
        r matches Ok((e, _)) ==> pos < e <= s.len(),
        r matches Ok((e, t)) ==> expr_text(s@, pos as int, e as int, 7, t),
        plain_name_at(s@, pos as int) ==> r is Ok,
    decreases s.len() - pos, 1int,
{
    proof {
        reveal_strlit("true");
        reveal_strlit("false");
    }
    let p = skip_ws(s, pos);
    proof {
        if plain_name_at(s@, pos as int) {
            let p1 = choose|p1: int| ws_run(s@, pos as int, p1) && plain_name_start(s@, p1);
            lemma_ws_run_unique(s@, pos as int, p as int, p1);
        }
    }
    if p >= s.len() {
        return Err(ParseError { position: p });
    }
    let res = primary_at(s, p);
    proof {
        assert(ws_run(s@, pos as int, p as int));
        assert(res matches Ok((e, t)) ==> expr_text(s@, pos as int, e as int, 7, t));
    }
    res
}

/// The primary that starts (after white space) at `p`.
fn primary_at(s: &Vec<char>, p: usize) -> (r: PResult<UncheckedExpr>)
    requires
        p < s.len(),
    ensures
        r matches Ok((e, _)) ==> p < e <= s.len(),
        r matches Ok((e, t)) ==> primary_text(s@, p as int, e as int, t),
        plain_name_start(s@, p as int) ==> r is Ok,
    decreases s.len() - p, 0int,
{
    proof {
        reveal_strlit("true");
        reveal_strlit("false");
    }
    let c = s[p];
    if c == '(' {
        let (q, inner) = match parse_expr(s, p + 1) {
            Ok(x) => x,
            Err(err) => { return Err(err); },
        };
        let q2 = skip_ws(s, q);
        if q2 < s.len() && s[q2] == ')' {
            proof {
                assert(ws_run(s@, q as int, q2 as int));
            }
            return Ok((q2 + 1, inner));
        }
        return Err(ParseError { position: q2 });
    }
    if c == '[' {
        return match parse_expr_list(s, p + 1, ']') {
            Ok((q, items)) => Ok((q, mk(Expr::ArrayLit(items)))),
            Err(err) => Err(err),
        };
    }
    if c == '"' {
        return match string_at(s, p) {
            Ok((q, t)) => Ok((q, mk(Expr::Literal(Literal::Str(t))))),
            Err(err) => Err(err),
        };
    }
    if is_digit_char(c) || (c == '.' && p + 1 < s.len() && is_digit_char(s[p + 1])) {
        if let Ok((q, v)) = integer_at(s, p) {
            return Ok((q, mk(Expr::Literal(Literal::Int(v)))));
        }
        return match float_at(s, p) {
            Ok((q, t)) => Ok((q, mk(Expr::Literal(Literal::Float(t))))),
            Err(err) => Err(err),
        };
    }
    if let Ok((q, b)) = boolean_at(s, p) {
        if q >= s.len() || !crate::parser::lexer::ident_char(s[q]) {
            return Ok((q, mk(Expr::Literal(Literal::Bool(b)))));
        }
    }
    let ghost named = plain_name_start(s@, p as int);
    let (q, name) = match identifier_at(s, p) {
        Ok(x) => x,
        Err(err) => { return Err(err); },
    };
    let q2 = skip_ws(s, q);
    proof {
        if named {
            let (j, n) = choose|j: int, n: int| ident_at(s@, p as int, j) && ws_run(s@, j, n) && (n == s@.len() || s@[n] != '(');
            lemma_ident_end_unique(s@, p as int, q as int, j);
            lemma_ws_run_unique(s@, q as int, q2 as int, n);
        }
    }
    if q2 < s.len() && s[q2] == '(' {
        return match parse_expr_list(s, q2 + 1, ')') {
            Ok((q3, args)) => {
                let res = mk(Expr::Call { name, args });
                proof {
                    assert(ident_at(s@, p as int, q as int));
                    assert(ws_run(s@, q as int, q2 as int));
                    assert(primary_text(s@, p as int, q3 as int, res));
                }
                Ok((q3, res))
            },
            Err(err) => Err(err),
        };
    }
    Ok((q, mk(Expr::Ident(name))))
}

} // verus!
