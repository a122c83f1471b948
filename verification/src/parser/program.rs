//! Top-level syntax. A program is a sequence of items, each optionally
//! followed by semicolons:
//!
//! * `const T x = e` — a global constant;
//! * `test "name" { ... }` — a test block;
//! * `struct N { T a; ... }`, `union N { ... }`, `enum N { A [= n]; ... }`;
//! * `T name(T p, ...) body` — a function declaration.
//!
//! The program parser never fails: it stops at the first text that is not an
//! item and reports where it stopped.
use vstd::prelude::*;
use crate::ir::ast::{
    FunDecl, IdentifierDecl, Member, Program, TagType, TaggedTypeDecl, TestDecl, Type, UncheckedFunDecl,
    UncheckedProgram, UncheckedStmt,
};
use crate::parser::grammar::{block_text, stmt_text, tagged_name_text, type_text, ws_semi_run};
use crate::parser::item_grammar::{
    const_text, consts_of, fun_text, funs_of, ident_decl_text, item_text, items_seq_text, member_text, members_text,
    param_list_text, params_text, tagged_decl_text, tagged_of, test_text, tests_of, ItemTree,
};
use crate::parser::lexer::{ident_at, identifier_at, int_lit_at, integer_at, keyword_at, keyword_end, skip_ws, ws_run, PResult, ParseError};
use crate::text::string_of;
use crate::parser::statements::{block, skip_ws_semis, statement};
use crate::parser::types::{aggregate_type_name, type_definition};

verus! {

/// `T name` (leading white space skipped).
pub fn identifier_decl(s: &Vec<char>, pos: usize) -> (r: PResult<IdentifierDecl>)
    requires
        pos <= s.len(),
    ensures
        r matches Ok((e, _)) ==> pos < e <= s.len(),
        r matches Ok((e, d)) ==> ident_decl_text(s@, pos as int, e as int, d),
{
    let (p, ty) = match type_definition(s, pos) {
        Ok(x) => x,
        Err(err) => { return Err(err); },
    };
    let p2 = skip_ws(s, p);
    match identifier_at(s, p2) {
        Ok((p3, name)) => {
            let d = IdentifierDecl { name, ty };
            proof {
                assert(ws_run(s@, p as int, p2 as int));
            }
            Ok((p3, d))
        },
        Err(err) => Err(err),
    }
}

/// The body of a function whose parameter list ends at `q`.
fn fun_body(s: &Vec<char>, q: usize, name: String, params: Vec<IdentifierDecl>, return_type: Type) -> (r: PResult<UncheckedFunDecl>)
    requires
        q <= s.len(),
    ensures
        r matches Ok((e, _)) ==> q < e <= s.len(),
        r matches Ok((e, f)) ==> f.name == name && f.params == params && f.return_type == return_type
            && stmt_text(s@, q as int, e as int, *f.body),
{
    let (e, body) = match statement(s, q) {
        Ok(x) => x,
        Err(err) => { return Err(err); },
    };
    Ok((e, FunDecl { name, params, return_type, body: Box::new(body) }))
}

/// Parses a function declaration `T name(T p, ...) body` (leading white space skipped).
pub fn fun_decl(s: &Vec<char>, pos: usize) -> (r: PResult<UncheckedFunDecl>)
    requires
        pos <= s.len(),
    ensures
        r matches Ok((e, _)) ==> pos < e <= s.len(),
        r matches Ok((e, f)) ==> fun_text(s@, pos as int, e as int, f),
{
    let (p, return_type) = match type_definition(s, pos) {
        Ok(x) => x,
        Err(err) => { return Err(err); },
    };
    let p2 = skip_ws(s, p);
    if p2 == p {
        return Err(ParseError { position: p });
    }
    let (p3, name) = match identifier_at(s, p2) {
        Ok(x) => x,
        Err(err) => { return Err(err); },
    };
    let p4 = skip_ws(s, p3);
    if !(p4 < s.len() && s[p4] == '(') {
        return Err(ParseError { position: p4 });
    }
    proof {
        assert(ws_run(s@, p as int, p2 as int));
        assert(ws_run(s@, p3 as int, p4 as int));
    }
    let ghost (gname, gret) = (name@, return_type);
    let mut params: Vec<IdentifierDecl> = Vec::new();
    let q0 = skip_ws(s, p4 + 1);
    if q0 < s.len() && s[q0] == ')' {
        proof {
            assert(ws_run(s@, p4 + 1, q0 as int));
            assert(param_list_text(s@, p4 + 1, q0 + 1, params@));
        }
        let r = fun_body(s, q0 + 1, name, params, return_type);
        proof {
            assert(r matches Ok((e, f)) ==> fun_text(s@, pos as int, e as int, f));
        }
        return r;
    }
    let mut q = p4 + 1;
    let ghost mut last: int = 0;
    let ghost mut comma: int = 0;
    loop
        invariant
            pos < p < p2 < p3 <= p4 < q <= s.len(),
            type_text(s@, pos as int, p as int, gret),
            ws_run(s@, p as int, p2 as int),
            ident_at(s@, p2 as int, p3 as int),
            gname == s@.subrange(p2 as int, p3 as int),
            ws_run(s@, p3 as int, p4 as int),
            s@[p4 as int] == '(',
            name@ == gname,
            return_type == gret,
            params.len() == 0 ==> q == p4 + 1,
            params.len() > 0 ==> p4 + 1 < last <= comma && q == comma + 1 && comma < s.len() && s@[comma] == ','
                && params_text(s@, p4 + 1, last, params@) && ws_run(s@, last, comma),
        decreases s.len() - q,
    {
        let (q2, param) = match identifier_decl(s, q) {
            Ok(x) => x,
            Err(err) => { return Err(err); },
        };
        let ghost before = params@;
        params.push(param);
        proof {
            if before.len() > 0 {
                assert(params@.drop_last() =~= before);
            }
            assert(params_text(s@, p4 + 1, q2 as int, params@));
        }
        let q3 = skip_ws(s, q2);
        if q3 < s.len() && s[q3] == ',' {
            proof {
                last = q2 as int;
                comma = q3 as int;
            }
            q = q3 + 1;
        } else if q3 < s.len() && s[q3] == ')' {
            proof {
                assert(ws_run(s@, q2 as int, q3 as int));
                assert(param_list_text(s@, p4 + 1, q3 + 1, params@));
            }
            let r = fun_body(s, q3 + 1, name, params, return_type);
            proof {
                assert(r matches Ok((e, f)) ==> fun_text(s@, pos as int, e as int, f));
            }
            return r;
        } else {
            return Err(ParseError { position: q3 });
        }
    }
}

/// Parses `test "name" { ... }` (leading white space skipped).
pub fn test_decl(s: &Vec<char>, pos: usize) -> (r: PResult<TestDecl<()>>)
    requires
        pos <= s.len(),
    ensures
        r matches Ok((e, _)) ==> pos < e <= s.len(),
        r matches Ok((e, t)) ==> test_text(s@, pos as int, e as int, t),
{
    proof {
        reveal_strlit("test");
    }
    let p = skip_ws(s, pos);
    let p1 = match keyword_end(s, p, "test") {
        Some(e) => e,
        None => { return Err(ParseError { position: p }); },
    };
    let p2 = skip_ws(s, p1);
    if !(p2 < s.len() && s[p2] == '"') {
        return Err(ParseError { position: p2 });
    }
    let mut name: Vec<char> = Vec::new();
    let mut q = p2 + 1;
    while q < s.len() && s[q] != '"'
        invariant
            p2 < q <= s.len(),
            name@ == s@.subrange(p2 + 1, q as int),
            forall|k: int| p2 < k < q ==> s@[k] != '"',
        decreases s.len() - q,
    {
        name.push(s[q]);
        q = q + 1;
        proof {
            assert(name@ =~= s@.subrange(p2 + 1, q as int));
        }
    }
    if q >= s.len() {
        return Err(ParseError { position: q });
    }
    let q2 = skip_ws(s, q + 1);
    if !(q2 < s.len() && s[q2] == '{') {
        return Err(ParseError { position: q2 });
    }
    match block(s, q2) {
        Ok((e, body)) => {
            let t = TestDecl { name: string_of(&name), body: Box::new(body) };
            proof {
                assert(ws_run(s@, pos as int, p as int));
                assert(ws_run(s@, p + 4, p2 as int));
                assert(ws_run(s@, q + 1, q2 as int));
                assert(test_text(s@, pos as int, e as int, t));
            }
            Ok((e, t))
        },
        Err(err) => Err(err),
    }
}

/// A member of a tagged type: `T name;` in a struct or union,
/// `Name [= n];` in an enum.
fn tagged_member(s: &Vec<char>, pos: usize, tag: TagType) -> (r: PResult<Member>)
    requires
        pos <= s.len(),
    ensures
        r matches Ok((e, _)) ==> pos < e <= s.len(),
        r matches Ok((e, m)) ==> member_text(s@, pos as int, e as int, tag, m),
{
    let ghost mut mid: int = 0;
    let (p, m) = match tag {
        TagType::Enum => {
            let p0 = skip_ws(s, pos);
            let (p1, name) = match identifier_at(s, p0) {
                Ok(x) => x,
                Err(err) => { return Err(err); },
            };
            let p2 = skip_ws(s, p1);
            proof {
                assert(ws_run(s@, pos as int, p0 as int));
                assert(ws_run(s@, p1 as int, p2 as int));
            }
            if p2 < s.len() && s[p2] == '=' {
                let p3 = skip_ws(s, p2 + 1);
                match integer_at(s, p3) {
                    Ok((p4, v)) => {
                        let m = Member::Enumerator { name, value: Some(v) };
                        proof {
                            assert(ws_run(s@, p2 + 1, p3 as int));
                            assert(int_lit_at(s@, p3 as int, p4 as int, v as int));
                        }
                        (p4, m)
                    },
                    Err(err) => { return Err(err); },
                }
            } else {
                (p1, Member::Enumerator { name, value: None })
            }
        },
        _ => match identifier_decl(s, pos) {
            Ok((p1, d)) => (p1, Member::Field(d)),
            Err(err) => { return Err(err); },
        },
    };
    let q = skip_ws(s, p);
    if q < s.len() && s[q] == ';' {
        proof {
            assert(ws_run(s@, p as int, q as int));
            assert(member_text(s@, pos as int, q + 1, tag, m));
        }
        Ok((q + 1, m))
    } else {
        Err(ParseError { position: q })
    }
}

/// Parses `struct N { ... }`, `union N { ... }` or `enum N { ... }`, with at
/// least one member (leading white space skipped).
pub fn tagged_type_decl(s: &Vec<char>, pos: usize) -> (r: PResult<TaggedTypeDecl>)
    requires
        pos <= s.len(),
    ensures
        r matches Ok((e, _)) ==> pos < e <= s.len(),
        r matches Ok((e, d)) ==> tagged_decl_text(s@, pos as int, e as int, d),
{
    let (p, (tag_type, tag_name)) = match aggregate_type_name(s, pos) {
        Ok(x) => x,
        Err(err) => { return Err(err); },
    };
    let ghost start = choose|p0: int| ws_run(s@, pos as int, p0) && tagged_name_text(s@, p0, p as int, tag_type, tag_name@);
    let p1 = skip_ws(s, p);
    if !(p1 < s.len() && s[p1] == '{') {
        return Err(ParseError { position: p1 });
    }
    let mut members: Vec<Member> = Vec::new();
    let mut q = p1 + 1;
    loop
        invariant
            pos < p <= p1 < q <= s.len(),
            ws_run(s@, pos as int, start),
            tagged_name_text(s@, start, p as int, tag_type, tag_name@),
            ws_run(s@, p as int, p1 as int),
            s@[p1 as int] == '{',
            members_text(s@, p1 + 1, q as int, tag_type, members@),
        decreases s.len() - q,
    {
        let q1 = skip_ws(s, q);
        if q1 < s.len() && s[q1] == '}' {
            if members.len() == 0 {
                return Err(ParseError { position: q1 });
            }
            let d = TaggedTypeDecl { tag_type, tag_name, members };
            proof {
                assert(ws_run(s@, q as int, q1 as int));
                assert(tagged_decl_text(s@, pos as int, q1 + 1, d));
            }
            return Ok((q1 + 1, d));
        }
        let (q2, m) = match tagged_member(s, q1, tag_type) {
            Ok(x) => x,
            Err(err) => { return Err(err); },
        };
        let ghost before = members@;
        members.push(m);
        proof {
            assert(members@.drop_last() =~= before);
            assert(ws_run(s@, q as int, q1 as int));
            assert(members_text(s@, p1 + 1, q2 as int, tag_type, members@));
        }
        q = q2;
    }
}

/// `const T x = e` at top level (leading white space skipped).
fn global_const(s: &Vec<char>, pos: usize) -> (r: PResult<UncheckedStmt>)
    requires
        pos <= s.len(),
    ensures
        r matches Ok((e, _)) ==> pos < e <= s.len(),
        r matches Ok((e, c)) ==> const_text(s@, pos as int, e as int, c),
{
    proof {
        reveal_strlit("const");
    }
    let p = skip_ws(s, pos);
    match keyword_end(s, p, "const") {
        Some(_) => {
            let r = statement(s, pos);
            proof {
                assert(ws_run(s@, pos as int, p as int));
            }
            r
        },
        None => Err(ParseError { position: p }),
    }
}

/// Parses a program: as many items as the text holds, from `pos`. Never
/// fails; gives the position where the items stop, after the white space
/// and semicolons that follow the last one.
pub fn parse_program(s: &Vec<char>, pos: usize) -> (r: (usize, UncheckedProgram))
    requires
        pos <= s.len(),
    ensures
        pos <= r.0 <= s.len(),
        exists|its: Seq<ItemTree>, m: int| items_seq_text(s@, pos as int, m, its) && ws_semi_run(s@, m, r.0 as int)
            && r.1.constants@ == consts_of(its) && r.1.tests@ == tests_of(its) && r.1.tagged_types@ == tagged_of(its)
            && r.1.functions@ == funs_of(its),
{
    let mut prog = Program {
        tagged_types: Vec::new(),
        constants: Vec::new(),
        functions: Vec::new(),
        tests: Vec::new(),
    };
    let mut p: usize = pos;
    let ghost mut its: Seq<ItemTree> = Seq::empty();
    proof {
        assert(prog.constants@ =~= consts_of(its));
        assert(prog.tests@ =~= tests_of(its));
        assert(prog.tagged_types@ =~= tagged_of(its));
        assert(prog.functions@ =~= funs_of(its));
    }
    loop
        invariant
            pos <= p <= s.len(),
            items_seq_text(s@, pos as int, p as int, its),
            prog.constants@ == consts_of(its),
            prog.tests@ == tests_of(its),
            prog.tagged_types@ == tagged_of(its),
            prog.functions@ == funs_of(its),
        decreases s.len() - p,
    {
        let q = skip_ws_semis(s, p);
        let ghost before = its;
        if let Ok((q2, c)) = global_const(s, q) {
            proof {
                its = its.push(ItemTree::Const(c));
                assert(its.drop_last() =~= before);
                assert(item_text(s@, q as int, q2 as int, its.last()));
            }
            prog.constants.push(c);
            p = q2;
        } else if let Ok((q2, t)) = test_decl(s, q) {
            proof {
                its = its.push(ItemTree::Test(t));
                assert(its.drop_last() =~= before);
                assert(item_text(s@, q as int, q2 as int, its.last()));
            }
            prog.tests.push(t);
            p = q2;
        } else if let Ok((q2, t)) = tagged_type_decl(s, q) {
            proof {
                its = its.push(ItemTree::Tagged(t));
                assert(its.drop_last() =~= before);
                assert(item_text(s@, q as int, q2 as int, its.last()));
            }
            prog.tagged_types.push(t);
            p = q2;
        } else if let Ok((q2, f)) = fun_decl(s, q) {
            proof {
                its = its.push(ItemTree::Fun(f));
                assert(its.drop_last() =~= before);
                assert(item_text(s@, q as int, q2 as int, its.last()));
            }
            prog.functions.push(f);
            p = q2;
        } else {
            // trailing semicolons after the last item belong to it
            return (q, prog);
        }
        proof {
            assert(items_seq_text(s@, pos as int, p as int, its));
        }
    }
}

} // verus!
