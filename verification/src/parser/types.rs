//! Type syntax: `int`, `float`, `bool`, `str`, `void`, `struct N`,
//! `union N`, `enum N`, each followed by any number of `[]`.
use vstd::prelude::*;
use crate::ir::ast::{TagType, Type};
use crate::parser::grammar::{base_type_text, tag_keyword, tagged_name_text, type_text};
use crate::parser::lexer::{has_at, ident_at, identifier_at, keyword, keyword_at, keyword_end, skip_ws, tag_end, ws_run, PResult, ParseError};

verus! {

/// A run of white space from `i` ends at one place.
pub proof fn lemma_ws_run_unique(s: Seq<char>, i: int, a: int, b: int)
    requires
        ws_run(s, i, a),
        ws_run(s, i, b),
    ensures
        a == b,
{
    if a < b {
        assert(crate::parser::lexer::is_ws(s[a]));
    } else if b < a {
        assert(crate::parser::lexer::is_ws(s[b]));
    }
}

/// Two different words of letters do not both stand at `p` where their
/// first letters differ.
proof fn lemma_keywords_differ(s: Seq<char>, p: int, a: Seq<char>, b: Seq<char>)
    requires
        a.len() > 0,
        b.len() > 0,
        a[0] != b[0],
        keyword_at(s, p, a),
    ensures
        !keyword_at(s, p, b),
{
    if keyword_at(s, p, b) {
        assert(s.subrange(p, p + a.len())[0] == s[p]);
        assert(s.subrange(p, p + b.len())[0] == s[p]);
    }
}

/// A type begins with a base type.
pub proof fn lemma_type_text_base(s: Seq<char>, i: int, j: int, t: Type)
    requires
        type_text(s, i, j, t),
    ensures
        exists|j0: int, t0: Type| base_type_text(s, i, j0, t0),
    decreases j - i,
{
    if !base_type_text(s, i, j, t) {
        let inner = t->Array_0;
        lemma_type_text_base(s, i, j - 2, *inner);
    }
}

/// Parses the tag of a tagged type name (`struct`, `union`, `enum`) at `pos`.
pub fn tag_type_at(s: &Vec<char>, pos: usize) -> (r: Option<(usize, TagType)>)
    requires
        pos <= s.len(),
    ensures
        r matches Some((e, tt)) ==> pos < e <= s.len() && (
            (tt == TagType::Struct && keyword_at(s@, pos as int, "struct"@) && e == pos + "struct"@.len())
            || (tt == TagType::Union && keyword_at(s@, pos as int, "union"@) && e == pos + "union"@.len())
            || (tt == TagType::Enum && keyword_at(s@, pos as int, "enum"@) && e == pos + "enum"@.len())),
        r matches Some((e, tt)) ==> keyword_at(s@, pos as int, tag_keyword(tt)) && e == pos + tag_keyword(tt).len(),
        r is None ==> !keyword_at(s@, pos as int, "struct"@) && !keyword_at(s@, pos as int, "union"@)
            && !keyword_at(s@, pos as int, "enum"@),
{
    proof {
        reveal_strlit("struct");
        reveal_strlit("union");
        reveal_strlit("enum");
    }
    if let Some(e) = keyword_end(s, pos, "struct") {
        Some((e, TagType::Struct))
    } else if let Some(e) = keyword_end(s, pos, "union") {
        Some((e, TagType::Union))
    } else if let Some(e) = keyword_end(s, pos, "enum") {
        Some((e, TagType::Enum))
    } else {
        None
    }
}

/// Parses `struct N`, `union N` or `enum N` at `pos` (leading white space skipped).
pub fn aggregate_type_name(s: &Vec<char>, pos: usize) -> (r: PResult<(TagType, String)>)
    requires
        pos <= s.len(),
    ensures
        r matches Ok((e, _)) ==> pos < e <= s.len(),
        r matches Ok((e, (tt, name))) ==> exists|p: int| ws_run(s@, pos as int, p)
            && tagged_name_text(s@, p, e as int, tt, name@),
        r is Err ==> forall|p: int, j: int, tt: TagType, name: Seq<char>| ws_run(s@, pos as int, p)
            ==> !tagged_name_text(s@, p, j, tt, name),
{
    let p = skip_ws(s, pos);
    proof {
        reveal_strlit("struct");
        reveal_strlit("union");
        reveal_strlit("enum");
    }
    match tag_type_at(s, p) {
        Some((q, tt)) => {
            let q2 = skip_ws(s, q);
            proof {
                assert forall|p1: int, j: int, tt1: TagType, name: Seq<char>| ws_run(s@, pos as int, p1)
                    && #[trigger] tagged_name_text(s@, p1, j, tt1, name) implies tt1 == tt && q2 > q
                    && ident_at(s@, q2 as int, j) by {
                    lemma_ws_run_unique(s@, pos as int, p as int, p1);
                    let q1 = choose|q1: int| #![trigger ws_run(s@, p1 + tag_keyword(tt1).len(), q1)]
                        keyword_at(s@, p1, tag_keyword(tt1)) && ws_run(s@, p1 + tag_keyword(tt1).len(), q1)
                        && q1 > p1 + tag_keyword(tt1).len() && ident_at(s@, q1, j) && name == s@.subrange(q1, j);
                    if tt1 != tt {
                        lemma_keywords_differ(s@, p as int, tag_keyword(tt), tag_keyword(tt1));
                    }
                    lemma_ws_run_unique(s@, q as int, q2 as int, q1);
                }
            }
            if q2 == q {
                return Err(ParseError { position: q });
            }
            match identifier_at(s, q2) {
                Ok((e, name)) => {
                    proof {
                        assert(ws_run(s@, q as int, q2 as int));
                        assert(tagged_name_text(s@, p as int, e as int, tt, name@));
                        assert(ws_run(s@, pos as int, p as int));
                    }
                    Ok((e, (tt, name)))
                },
                Err(err) => Err(err),
            }
        },
        None => {
            proof {
                assert forall|p1: int, j: int, tt1: TagType, name: Seq<char>| ws_run(s@, pos as int, p1)
                    implies !tagged_name_text(s@, p1, j, tt1, name) by {
                    lemma_ws_run_unique(s@, pos as int, p as int, p1);
                }
            }
            Err(ParseError { position: p })
        },
    }
}

/// Parses a base type at `pos` (leading white space skipped).
fn base_type(s: &Vec<char>, pos: usize) -> (r: PResult<Type>)
    requires
        pos <= s.len(),
    ensures
        r matches Ok((e, _)) ==> pos < e <= s.len(),
        r matches Ok((e, t)) ==> base_type_text(s@, pos as int, e as int, t),
        r is Err ==> forall|j: int, t: Type| !base_type_text(s@, pos as int, j, t),
{
    proof {
        reveal_strlit("int");
        reveal_strlit("float");
        reveal_strlit("bool");
        reveal_strlit("str");
        reveal_strlit("void");
    }
    let p = skip_ws(s, pos);
    assert(ws_run(s@, pos as int, p as int));
    if let Some(e) = keyword_end(s, p, "int") {
        return Ok((e, Type::Int));
    }
    if let Some(e) = keyword_end(s, p, "float") {
        return Ok((e, Type::Float));
    }
    if let Some(e) = keyword_end(s, p, "bool") {
        return Ok((e, Type::Bool));
    }
    if let Some(e) = keyword_end(s, p, "str") {
        return Ok((e, Type::Str));
    }
    if let Some(e) = keyword_end(s, p, "void") {
        return Ok((e, Type::Unit));
    }
    match aggregate_type_name(s, p) {
        Ok((e, (tt, name))) => {
            proof {
                let p2 = choose|p2: int| ws_run(s@, p as int, p2) && tagged_name_text(s@, p2, e as int, tt, name@);
                assert(p2 == p);
            }
            Ok((e, Type::Tagged { tag_type: tt, tag_name: name }))
        },
        Err(err) => {
            proof {
                assert(ws_run(s@, p as int, p as int));
                assert forall|j: int, t: Type| !base_type_text(s@, pos as int, j, t) by {
                    if base_type_text(s@, pos as int, j, t) {
                        let p1 = choose|p1: int| #![trigger ws_run(s@, pos as int, p1)] ws_run(s@, pos as int, p1) && {
                            ||| t == Type::Int && keyword_at(s@, p1, "int"@) && j == p1 + 3
                            ||| t == Type::Float && keyword_at(s@, p1, "float"@) && j == p1 + 5
                            ||| t == Type::Bool && keyword_at(s@, p1, "bool"@) && j == p1 + 4
                            ||| t == Type::Str && keyword_at(s@, p1, "str"@) && j == p1 + 3
                            ||| t == Type::Unit && keyword_at(s@, p1, "void"@) && j == p1 + 4
                            ||| t matches Type::Tagged { tag_type, tag_name } && tagged_name_text(s@, p1, j, tag_type, tag_name@)
                        };
                        lemma_ws_run_unique(s@, pos as int, p as int, p1);
                    }
                }
            }
            Err(err)
        },
    }
}

/// Parses a type: a base type followed by any number of `[]`, each adding
/// one array dimension (leading white space skipped).
pub fn type_definition(s: &Vec<char>, pos: usize) -> (r: PResult<Type>)
    requires
        pos <= s.len(),
    ensures
        r matches Ok((e, _)) ==> pos < e <= s.len(),
        r matches Ok((e, t)) ==> type_text(s@, pos as int, e as int, t),
        r is Err ==> forall|e: int, t: Type| !type_text(s@, pos as int, e, t),
{
    let (mut p, mut t) = match base_type(s, pos) {
        Ok(x) => x,
        Err(err) => {
            proof {
                assert forall|e: int, t: Type| !type_text(s@, pos as int, e, t) by {
                    if type_text(s@, pos as int, e, t) {
                        lemma_type_text_base(s@, pos as int, e, t);
                    }
                }
            }
            return Err(err);
        },
    };
    proof {
        reveal_strlit("[]");
    }
    loop
        invariant
            pos < p <= s.len(),
            type_text(s@, pos as int, p as int, t),
        decreases s.len() - p,
    {
        proof {
            reveal_strlit("[]");
        }
        match tag_end(s, p, "[]") {
            Some(e) => {
                let ghost inner = t;
                p = e;
                t = Type::Array(Box::new(t));
                proof {
                    assert(type_text(s@, pos as int, p as int - 2, inner));
                }
            },
            None => {
                break;
            },
        }
    }
    Ok((p, t))
}

/// Whether a type keyword (`int`, `float`, `bool`, `str`, `void`,
/// `struct`, `union`, `enum`) stands at `pos`.
pub fn starts_type(s: &Vec<char>, pos: usize) -> (r: bool)
    requires
        pos <= s.len(),
{
    keyword(s, pos, "int") || keyword(s, pos, "float") || keyword(s, pos, "bool") || keyword(s, pos, "str")
        || keyword(s, pos, "void") || keyword(s, pos, "struct") || keyword(s, pos, "union")
        || keyword(s, pos, "enum")
}

} // verus!
