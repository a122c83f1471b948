//! The grammar of top-level items, as relations between source text and
//! trees, in the manner of `grammar`: `s[i..j]` (white space in front
//! included) is the item with the given tree.
use vstd::prelude::*;
use crate::ir::ast::{IdentifierDecl, Member, TagType, TaggedTypeDecl, TestDecl, UncheckedFunDecl, UncheckedStmt};
use crate::parser::grammar::{block_text, stmt_text, tagged_name_text, type_text, ws_semi_run};
use crate::parser::lexer::{ident_at, int_lit_at, keyword_at, ws_run};

verus! {

/// `T name`: a parameter or a field.
pub open spec fn ident_decl_text(s: Seq<char>, i: int, j: int, d: IdentifierDecl) -> bool {
    exists|p: int, p2: int| #![trigger ws_run(s, p, p2)]
        type_text(s, i, p, d.ty) && ws_run(s, p, p2) && ident_at(s, p2, j) && d.name@ == s.subrange(p2, j)
}

/// `s[i..p]` is the non-empty list of parameters `params`, separated by commas.
pub open spec fn params_text(s: Seq<char>, i: int, p: int, params: Seq<IdentifierDecl>) -> bool
    decreases params.len(),
{
    if params.len() == 0 {
        false
    } else if params.len() == 1 {
        ident_decl_text(s, i, p, params[0])
    } else {
        exists|m: int, q: int| #![trigger ws_run(s, m, q)]
            params_text(s, i, m, params.drop_last()) && ws_run(s, m, q) && q < s.len() && s[q] == ','
                && ident_decl_text(s, q + 1, p, params.last())
    }
}

/// `s[i..j]` is a parameter list after its `(`, with its `)`.
pub open spec fn param_list_text(s: Seq<char>, i: int, j: int, params: Seq<IdentifierDecl>) -> bool {
    if params.len() == 0 {
        exists|n: int| #![trigger ws_run(s, i, n)] ws_run(s, i, n) && n < s.len() && s[n] == ')' && j == n + 1
    } else {
        exists|p: int, n: int| #![trigger ws_run(s, p, n)]
            params_text(s, i, p, params) && ws_run(s, p, n) && n < s.len() && s[n] == ')' && j == n + 1
    }
}

/// `T name(T p, ...) body`: a function declaration (white space between the
/// return type and the name required).
pub open spec fn fun_text(s: Seq<char>, i: int, j: int, f: UncheckedFunDecl) -> bool {
    exists|p: int, p2: int, p3: int, p4: int, q: int| #![trigger ws_run(s, p, p2), ws_run(s, p3, p4), stmt_text(s, q, j, *f.body)]
        type_text(s, i, p, f.return_type) && ws_run(s, p, p2) && p < p2 && ident_at(s, p2, p3)
            && f.name@ == s.subrange(p2, p3) && ws_run(s, p3, p4) && p4 < s.len() && s[p4] == '('
            && param_list_text(s, p4 + 1, q, f.params@) && stmt_text(s, q, j, *f.body)
}

/// `test "name" { ... }`: the name is the text between the quotes, which
/// holds no quote.
pub open spec fn test_text(s: Seq<char>, i: int, j: int, t: TestDecl<()>) -> bool {
    exists|p: int, p2: int, q: int, b: int| #![trigger ws_run(s, i, p), ws_run(s, p + 4, p2), ws_run(s, q + 1, b)]
        ws_run(s, i, p) && keyword_at(s, p, "test"@) && ws_run(s, p + 4, p2) && p2 < q < s.len() && s[p2] == '"'
            && s[q] == '"' && (forall|k: int| p2 < k < q ==> s[k] != '"') && t.name@ == s.subrange(p2 + 1, q)
            && ws_run(s, q + 1, b) && block_text(s, b, j, *t.body)
}

/// A member of a tagged type of kind `tag`, with its `;`: `T name;` in a
/// struct or union, `Name;` or `Name = n;` in an enum.
pub open spec fn member_text(s: Seq<char>, i: int, j: int, tag: TagType, m: Member) -> bool {
    exists|p: int, q: int| #![trigger ws_run(s, p, q)]
        ws_run(s, p, q) && q < s.len() && s[q] == ';' && j == q + 1 && if tag == TagType::Enum {
            m matches Member::Enumerator { name, value } && exists|p0: int, p1: int, p2: int|
                #![trigger ws_run(s, i, p0), ws_run(s, p1, p2)]
                ws_run(s, i, p0) && ident_at(s, p0, p1) && name@ == s.subrange(p0, p1) && ws_run(s, p1, p2)
                    && match value {
                        None => !(p2 < s.len() && s[p2] == '=') && p == p1,
                        Some(v) => p2 < s.len() && s[p2] == '=' && exists|p3: int| #![trigger ws_run(s, p2 + 1, p3)]
                            ws_run(s, p2 + 1, p3) && int_lit_at(s, p3, p, v as int),
                    }
        } else {
            m matches Member::Field(d) && ident_decl_text(s, i, p, d)
        }
}

/// `s[i..p]` is the members `ms` of a tagged type of kind `tag`.
pub open spec fn members_text(s: Seq<char>, i: int, p: int, tag: TagType, ms: Seq<Member>) -> bool
    decreases ms.len(),
{
    if ms.len() == 0 {
        p == i
    } else {
        exists|m: int, q: int| #![trigger ws_run(s, m, q)]
            members_text(s, i, m, tag, ms.drop_last()) && ws_run(s, m, q) && member_text(s, q, p, tag, ms.last())
    }
}

/// `struct N { ... }`, `union N { ... }` or `enum N { ... }`, with at least
/// one member.
pub open spec fn tagged_decl_text(s: Seq<char>, i: int, j: int, d: TaggedTypeDecl) -> bool {
    exists|p: int, e: int, p1: int, pm: int, n: int| #![trigger ws_run(s, i, p), ws_run(s, e, p1), ws_run(s, pm, n)]
        ws_run(s, i, p) && tagged_name_text(s, p, e, d.tag_type, d.tag_name@) && ws_run(s, e, p1) && p1 < s.len()
            && s[p1] == '{' && d.members.len() > 0 && members_text(s, p1 + 1, pm, d.tag_type, d.members@)
            && ws_run(s, pm, n) && n < s.len() && s[n] == '}' && j == n + 1
}

/// `const T x = e` at top level.
pub open spec fn const_text(s: Seq<char>, i: int, j: int, c: UncheckedStmt) -> bool {
    exists|p: int| #![trigger ws_run(s, i, p)] ws_run(s, i, p) && keyword_at(s, p, "const"@) && stmt_text(s, i, j, c)
}

/// A top-level item, as the program parser reads it.
pub ghost enum ItemTree {
    Const(UncheckedStmt),
    Test(TestDecl<()>),
    Tagged(TaggedTypeDecl),
    Fun(UncheckedFunDecl),
}

/// `s[i..j]` is the item `it`.
pub open spec fn item_text(s: Seq<char>, i: int, j: int, it: ItemTree) -> bool {
    match it {
        ItemTree::Const(c) => const_text(s, i, j, c),
        ItemTree::Test(t) => test_text(s, i, j, t),
        ItemTree::Tagged(d) => tagged_decl_text(s, i, j, d),
        ItemTree::Fun(f) => fun_text(s, i, j, f),
    }
}

/// `s[i..p]` is the items `its`, each after white space and semicolons.
pub open spec fn items_seq_text(s: Seq<char>, i: int, p: int, its: Seq<ItemTree>) -> bool
    decreases its.len(),
{
    if its.len() == 0 {
        p == i
    } else {
        exists|m: int, q: int| #![trigger ws_semi_run(s, m, q)]
            items_seq_text(s, i, m, its.drop_last()) && ws_semi_run(s, m, q) && item_text(s, q, p, its.last())
    }
}

/// The constants among `its`, in order.
pub open spec fn consts_of(its: Seq<ItemTree>) -> Seq<UncheckedStmt>
    decreases its.len(),
{
    if its.len() == 0 {
        Seq::empty()
    } else {
        match its.last() {
            ItemTree::Const(c) => consts_of(its.drop_last()).push(c),
            _ => consts_of(its.drop_last()),
        }
    }
}

/// The tests among `its`, in order.
pub open spec fn tests_of(its: Seq<ItemTree>) -> Seq<TestDecl<()>>
    decreases its.len(),
{
    if its.len() == 0 {
        Seq::empty()
    } else {
        match its.last() {
            ItemTree::Test(t) => tests_of(its.drop_last()).push(t),
            _ => tests_of(its.drop_last()),
        }
    }
}

/// The tagged type declarations among `its`, in order.
pub open spec fn tagged_of(its: Seq<ItemTree>) -> Seq<TaggedTypeDecl>
    decreases its.len(),
{
    if its.len() == 0 {
        Seq::empty()
    } else {
        match its.last() {
            ItemTree::Tagged(d) => tagged_of(its.drop_last()).push(d),
            _ => tagged_of(its.drop_last()),
        }
    }
}

/// The function declarations among `its`, in order.
pub open spec fn funs_of(its: Seq<ItemTree>) -> Seq<UncheckedFunDecl>
    decreases its.len(),
{
    if its.len() == 0 {
        Seq::empty()
    } else {
        match its.last() {
            ItemTree::Fun(f) => funs_of(its.drop_last()).push(f),
            _ => funs_of(its.drop_last()),
        }
    }
}

} // verus!
