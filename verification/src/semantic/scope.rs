//! Look-ups in the typing context, each decided exactly as the rules state it.
use vstd::prelude::*;
use crate::ir::ast::{Member, TagType, TaggedTypeDecl, Type, ty_eq};
use crate::semantic::rules::{
    compatible, decl_index, field_type, fun_index, member_index, var_index, Binding, FunSig,
};

verus! {

/// Index of the innermost binding of `name`.
pub fn lookup_var(vars: &Vec<Binding>, name: &String) -> (r: Option<usize>)
    ensures
        r matches Some(i) ==> var_index(vars@, name@) == Some(i as int) && i < vars.len() && vars@[i as int].name@ == name@,
        r is None ==> var_index(vars@, name@) is None,
{
    let mut i = vars.len();
    assert(vars@.subrange(0, i as int) =~= vars@);
    while i > 0
        invariant
            i <= vars.len(),
            var_index(vars@, name@) == var_index(vars@.subrange(0, i as int), name@),
        decreases i,
    {
        let ghost pre = vars@.subrange(0, i as int);
        assert(pre.drop_last() =~= vars@.subrange(0, i - 1));
        if vars[i - 1].name.eq(name) {
            return Some(i - 1);
        }
        i = i - 1;
    }
    None
}

/// Index of the first function signature named `name`.
pub fn lookup_fun(funs: &Vec<FunSig>, name: &String) -> (r: Option<usize>)
    ensures
        r matches Some(i) ==> fun_index(funs@, name@) == Some(i as int) && i < funs.len() && funs@[i as int].name@ == name@,
        r is None ==> fun_index(funs@, name@) is None,
{
    let mut i: usize = 0;
    assert(funs@.subrange(0, funs.len() as int) =~= funs@);
    while i < funs.len()
        invariant
            i <= funs.len(),
            fun_index(funs@, name@) == (match fun_index(funs@.subrange(i as int, funs.len() as int), name@) {
                Some(k) => Some(k + i),
                None => None,
            }),
        decreases funs.len() - i,
    {
        let ghost rest = funs@.subrange(i as int, funs.len() as int);
        assert(rest.drop_first() =~= funs@.subrange(i + 1, funs.len() as int));
        if funs[i].name.eq(name) {
            return Some(i);
        }
        i = i + 1;
    }
    assert(funs@.subrange(i as int, funs.len() as int).len() == 0);
    None
}

/// Decides `compatible`.
pub fn is_compatible(expected: &Type, actual: &Type) -> (r: bool)
    ensures
        r == compatible(*expected, *actual),
    decreases *expected,
{
    if matches!(expected, Type::Any) || matches!(actual, Type::Any) {
        return true;
    }
    if expected.equals(actual) {
        return true;
    }
    if matches!(expected, Type::Float) && matches!(actual, Type::Int) {
        return true;
    }
    match (expected, actual) {
        (Type::Array(x), Type::Array(y)) => is_compatible(x, y),
        _ => false,
    }
}

/// The type of a field, looked up as `field_type` states.
pub fn lookup_field<'a>(tagged: &'a Vec<TaggedTypeDecl>, tag: TagType, name: &String, member: &String) -> (r: Option<&'a Type>)
    ensures
        r matches Some(t) ==> field_type(tagged@, tag, name@, member@) == Some(*t),
        r is None ==> field_type(tagged@, tag, name@, member@) is None,
{
    let mut i: usize = 0;
    assert(tagged@.subrange(0, tagged.len() as int) =~= tagged@);
    while i < tagged.len()
        invariant
            i <= tagged.len(),
            decl_index(tagged@, tag, name@) == (match decl_index(tagged@.subrange(i as int, tagged.len() as int), tag, name@) {
                Some(k) => Some(k + i),
                None => None,
            }),
        decreases tagged.len() - i,
    {
        let ghost rest = tagged@.subrange(i as int, tagged.len() as int);
        assert(rest.drop_first() =~= tagged@.subrange(i + 1, tagged.len() as int));
        if tagged[i].tag_type == tag && tagged[i].tag_name.eq(name) {
            let members = &tagged[i].members;
            assert(decl_index(tagged@, tag, name@) == Some(i as int));
            let mut j: usize = 0;
            assert(members@.subrange(0, members.len() as int) =~= members@);
            while j < members.len()
                invariant
                    j <= members.len(),
                    decl_index(tagged@, tag, name@) == Some(i as int),
                    i < tagged.len(),
                    members@ == tagged@[i as int].members@,
                    member_index(members@, member@) == (match member_index(members@.subrange(j as int, members.len() as int), member@) {
                        Some(k) => Some(k + j),
                        None => None,
                    }),
                decreases members.len() - j,
            {
                let ghost mrest = members@.subrange(j as int, members.len() as int);
                assert(mrest.drop_first() =~= members@.subrange(j + 1, members.len() as int));
                match &members[j] {
                    Member::Field(d) => {
                        if d.name.eq(member) {
                            assert(decl_index(tagged@, tag, name@) == Some(i as int));
                            assert(member_index(members@, member@) == Some(j as int));
                            return Some(&d.ty);
                        }
                    },
                    _ => {},
                }
                j = j + 1;
            }
            assert(members@.subrange(j as int, members.len() as int).len() == 0);
            return None;
        }
        i = i + 1;
    }
    assert(tagged@.subrange(i as int, tagged.len() as int).len() == 0);
    None
}

} // verus!
