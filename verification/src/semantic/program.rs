//! Type checking of whole programs.
use vstd::prelude::*;
use crate::ir::ast::{
    ty_eq, CheckedFunDecl, CheckedProgram, CheckedStmt, FunDecl, IdentifierDecl, Member, Program, TaggedTypeDecl,
    TestDecl, Type, UncheckedProgram,
};
use crate::semantic::rules::{
    fun_erases, fun_index, native_sig, params_bound, program_erases, program_typed, signature_of, stmt_erases, stmt_typable,
    stmt_typed, tagged_eq, var_index, Binding, FunSig,
};
use crate::semantic::scope::{lookup_fun, lookup_var};
use crate::semantic::type_checker::{check_stmt, error, error_named, lemma_stmt_prefix, TypeError};
use crate::stdlib::registry::{native_entry_spec, NativeRegistry};

verus! {

/// A copy of a tagged type declaration.
pub fn copy_tagged(t: &TaggedTypeDecl) -> (r: TaggedTypeDecl)
    ensures
        tagged_eq(r, *t),
{
    let mut members: Vec<Member> = Vec::new();
    let mut i: usize = 0;
    while i < t.members.len()
        invariant
            i <= t.members.len(),
            members.len() == i,
            forall|k: int| 0 <= k < i ==> match (#[trigger] members@[k], t.members@[k]) {
                (Member::Field(x), Member::Field(y)) => x.name@ == y.name@ && ty_eq(x.ty, y.ty),
                (Member::Enumerator { name: n1, value: v1 }, Member::Enumerator { name: n2, value: v2 }) => n1@ == n2@ && v1 == v2,
                _ => false,
            },
        decreases t.members.len() - i,
    {
        let m = match &t.members[i] {
            Member::Field(d) => Member::Field(IdentifierDecl { name: d.name.clone(), ty: d.ty.duplicate() }),
            Member::Enumerator { name, value } => Member::Enumerator { name: name.clone(), value: *value },
        };
        members.push(m);
        i = i + 1;
    }
    TaggedTypeDecl { tag_type: t.tag_type, tag_name: t.tag_name.clone(), members }
}

/// The program is well typed for some signature list and global scope (as
/// `program_typed` constrains them).
pub open spec fn well_typed(c: CheckedProgram, tagged: Seq<TaggedTypeDecl>) -> bool {
    exists|funs: Seq<FunSig>, globals: Seq<Binding>| #[trigger] program_typed(c, tagged, funs, globals)
}

/// Index of the first function named `name`.
pub fn find_function<Ty>(functions: &Vec<FunDecl<Ty>>, name: &str) -> (r: Option<usize>)
    ensures
        r matches Some(i) ==> i < functions.len() && functions@[i as int].name@ == name@,
        r is None ==> forall|i: int| 0 <= i < functions.len() ==> functions@[i].name@ != name@,
{
    let mut m: usize = 0;
    while m < functions.len()
        invariant
            m <= functions.len(),
            forall|q: int| 0 <= q < m ==> functions@[q].name@ != name@,
        decreases functions.len() - m,
    {
        if crate::text::string_is(&functions[m].name, name) {
            return Some(m);
        }
        m = m + 1;
    }
    None
}

/// `funs` lists the signatures of `p`'s functions, in order, and then those
/// of the native functions.
pub open spec fn signatures_of(funs: Seq<FunSig>, p: UncheckedProgram) -> bool {
    &&& funs.len() == p.functions.len() + 11
    &&& forall|q: int| 0 <= q < p.functions.len() ==> (#[trigger] funs[q]).name@ == p.functions@[q].name@
        && funs[q].params.len() == p.functions@[q].params.len()
        && (forall|j: int| 0 <= j < funs[q].params.len() ==> ty_eq(#[trigger] funs[q].params@[j], p.functions@[q].params@[j].ty))
        && ty_eq(funs[q].return_type, p.functions@[q].return_type)
    &&& forall|k: int| 0 <= k < 11 ==> native_sig(k, #[trigger] funs[p.functions.len() + k])
}

/// `env` binds, in order, the parameters of `f` as variables.
pub open spec fn binds_params_of(env: Seq<Binding>, f: FunDecl<()>) -> bool {
    &&& env.len() == f.params.len()
    &&& forall|q: int| 0 <= q < env.len() ==> (#[trigger] env[q]).name@ == f.params@[q].name@
        && ty_eq(env[q].ty, f.params@[q].ty) && !env[q].constant
}

/// A program without constants that the rules accept: no two functions
/// share a name, nor two parameters of one function; `main`, where there
/// is one, returns `void` and takes no parameter, and without `main` there
/// is a test; each function body and each test body is typable with the
/// program's signatures and the function's parameters in scope.
pub open spec fn program_typable(p: UncheckedProgram) -> bool {
    &&& p.constants.len() == 0
    &&& forall|a: int, b: int| 0 <= a < b < p.functions.len() ==> p.functions@[a].name@ != p.functions@[b].name@
    &&& forall|i: int, a: int, b: int| 0 <= i < p.functions.len() && 0 <= a < b < p.functions@[i].params.len()
        ==> (#[trigger] p.functions@[i].params@[a]).name@ != (#[trigger] p.functions@[i].params@[b]).name@
    &&& forall|m: int| 0 <= m < p.functions.len() && (#[trigger] p.functions@[m]).name@ == "main"@
        ==> p.functions@[m].return_type is Unit && p.functions@[m].params.len() == 0
    &&& (forall|m: int| 0 <= m < p.functions.len() ==> (#[trigger] p.functions@[m]).name@ != "main"@) ==> p.tests.len() > 0
    &&& forall|funs: Seq<FunSig>| #[trigger] signatures_of(funs, p) ==> (
        (forall|i: int, env: Seq<Binding>, ret: Type| 0 <= i < p.functions.len() && #[trigger] binds_params_of(env, p.functions@[i])
            && #[trigger] ty_eq(ret, p.functions@[i].return_type)
            ==> stmt_typable(env, funs, p.tagged_types@, ret, *p.functions@[i].body))
        && (forall|t: int| 0 <= t < p.tests.len() ==> stmt_typable(Seq::empty(), funs, p.tagged_types@, Type::Unit, *(#[trigger] p.tests@[t]).body)))
}

proof fn lemma_fun_index_none(funs: Seq<FunSig>, name: Seq<char>)
    requires
        forall|k: int| 0 <= k < funs.len() ==> (#[trigger] funs[k]).name@ != name,
    ensures
        fun_index(funs, name) is None,
    decreases funs.len(),
{
    if funs.len() > 0 {
        assert forall|k: int| 0 <= k < funs.drop_first().len() implies (#[trigger] funs.drop_first()[k]).name@ != name by {
            assert(funs.drop_first()[k] == funs[k + 1]);
        }
        lemma_fun_index_none(funs.drop_first(), name);
    }
}

proof fn lemma_var_index_none(vars: Seq<Binding>, name: Seq<char>)
    requires
        forall|k: int| 0 <= k < vars.len() ==> (#[trigger] vars[k]).name@ != name,
    ensures
        var_index(vars, name) is None,
    decreases vars.len(),
{
    if vars.len() > 0 {
        assert forall|k: int| 0 <= k < vars.drop_last().len() implies (#[trigger] vars.drop_last()[k]).name@ != name by {
            assert(vars.drop_last()[k] == vars[k]);
        }
        lemma_var_index_none(vars.drop_last(), name);
    }
}

/// Type-checks a program. On success, the result is the program with every
/// node decorated by its type, and it is well typed by the rules of
/// `program_typed`; otherwise the first type error is reported.
pub fn type_check(p: &UncheckedProgram) -> (r: Result<CheckedProgram, TypeError>)
    ensures
        r matches Ok(c) ==> program_erases(c, *p),
        r matches Ok(c) ==> well_typed(c, p.tagged_types@),
        program_typable(*p) ==> r is Ok,
{
    // signatures: the program's functions, then the native ones
    let mut funs: Vec<FunSig> = Vec::new();
    let mut i: usize = 0;
    while i < p.functions.len()
        invariant
            i <= p.functions.len(),
            funs.len() == i,
            forall|k: int| 0 <= k < i ==> (#[trigger] funs@[k]).name@ == p.functions@[k].name@
                && funs@[k].params.len() == p.functions@[k].params.len()
                && (forall|j: int| 0 <= j < funs@[k].params.len() ==> ty_eq(#[trigger] funs@[k].params@[j], p.functions@[k].params@[j].ty))
                && ty_eq(funs@[k].return_type, p.functions@[k].return_type),
        decreases p.functions.len() - i,
    {
        let f = &p.functions[i];
        proof {
            if program_typable(*p) {
                assert forall|k: int| 0 <= k < funs@.len() implies (#[trigger] funs@[k]).name@ != f.name@ by {
                    assert(funs@[k].name@ == p.functions@[k].name@);
                }
                lemma_fun_index_none(funs@, f.name@);
            }
        }
        if lookup_fun(&funs, &f.name).is_some() {
            return Err(error_named("redeclaration of function '", &f.name, "'"));
        }
        let mut params: Vec<Type> = Vec::new();
        let mut j: usize = 0;
        while j < f.params.len()
            invariant
                j <= f.params.len(),
                params.len() == j,
                forall|k: int| 0 <= k < j ==> ty_eq(#[trigger] params@[k], f.params@[k].ty),
            decreases f.params.len() - j,
        {
            params.push(f.params[j].ty.duplicate());
            j = j + 1;
        }
        funs.push(FunSig { name: f.name.clone(), params, return_type: f.return_type.duplicate() });
        i = i + 1;
    }
    let registry = NativeRegistry::default();
    let natives = registry.iter();
    let mut k: usize = 0;
    while k < natives.len()
        invariant
            k <= natives.len(),
            natives.len() == 11,
            natives@ == registry.entries(),
            forall|m: int| 0 <= m < 11 ==> native_entry_spec(m, #[trigger] registry.entries()[m]),
            funs.len() == p.functions.len() + k,
            forall|m: int| 0 <= m < k ==> native_sig(m, #[trigger] funs@[p.functions.len() + m]),
            forall|q: int| 0 <= q < p.functions.len() ==> (#[trigger] funs@[q]).name@ == p.functions@[q].name@
                && funs@[q].params.len() == p.functions@[q].params.len()
                && (forall|j: int| 0 <= j < funs@[q].params.len() ==> ty_eq(#[trigger] funs@[q].params@[j], p.functions@[q].params@[j].ty))
                && ty_eq(funs@[q].return_type, p.functions@[q].return_type),
        decreases natives.len() - k,
    {
        let (name, entry) = &natives[k];
        assert(native_entry_spec(k as int, registry.entries()[k as int]));
        let mut params: Vec<Type> = Vec::new();
        let mut j: usize = 0;
        while j < entry.params.len()
            invariant
                j <= entry.params.len(),
                params.len() == j,
                forall|q: int| 0 <= q < j ==> ty_eq(#[trigger] params@[q], entry.params@[q]),
            decreases entry.params.len() - j,
        {
            params.push(entry.params[j].duplicate());
            j = j + 1;
        }
        let ghost old_funs = funs@;
        funs.push(FunSig { name: name.clone(), params, return_type: entry.return_type.duplicate() });
        proof {
            assert(funs@[p.functions.len() + k] == funs@.last());
            assert forall|m: int| 0 <= m < k + 1 implies native_sig(m, #[trigger] funs@[p.functions.len() + m]) by {
                if m < k {
                    assert(funs@[p.functions.len() + m] == old_funs[p.functions.len() + m]);
                }
            }
        }
        k = k + 1;
    }
    let tagged = &p.tagged_types;
    assert(signatures_of(funs@, *p));

    // global constants
    let mut vars: Vec<Binding> = Vec::new();
    let mut constants: Vec<CheckedStmt> = Vec::new();
    let ghost mut envs: Seq<Seq<Binding>> = seq![Seq::<Binding>::empty()];
    let mut c: usize = 0;
    while c < p.constants.len()
        invariant
            c <= p.constants.len(),
            constants.len() == c,
            envs.len() == c + 1,
            envs[0] == Seq::<Binding>::empty(),
            envs.last() == vars@,
            forall|q: int| 0 <= q < c ==> stmt_typed(envs[q], envs[q + 1], funs@, tagged@, Type::Unit, #[trigger] constants@[q]),
            forall|q: int| 0 <= q < c ==> stmt_erases(#[trigger] constants@[q], p.constants@[q]),
            signatures_of(funs@, *p),
        decreases p.constants.len() - c,
    {
        let unit = Type::Unit;
        let checked = match check_stmt(&mut vars, &funs, tagged, &unit, &p.constants[c]) {
            Ok(x) => x,
            Err(err) => { return Err(err); },
        };
        proof { envs = envs.push(vars@); }
        constants.push(checked);
        c = c + 1;
    }
    let ghost globals = vars@;
    assert(p.constants.len() == 0 ==> globals =~= Seq::<Binding>::empty());

    // main
    let main_idx = find_function(&p.functions, "main");
    match main_idx {
        Some(m) => {
            if !matches!(p.functions[m].return_type, Type::Unit) {
                return Err(error("main function must return void"));
            }
            if p.functions[m].params.len() != 0 {
                return Err(error("main function must not take parameters"));
            }
        },
        None => {
            if p.tests.len() == 0 {
                return Err(error("program must have a main function"));
            }
        },
    }

    // function bodies
    let mut functions: Vec<CheckedFunDecl> = Vec::new();
    let mut i: usize = 0;
    while i < p.functions.len()
        invariant
            i <= p.functions.len(),
            functions.len() == i,
            vars@ == globals,
            main_idx matches Some(m) ==> m < p.functions.len() && p.functions@[m as int].name@ == "main"@
                && p.functions@[m as int].return_type is Unit && p.functions@[m as int].params.len() == 0,
            main_idx is None ==> p.tests.len() > 0 && forall|z: int| 0 <= z < p.functions.len() ==> p.functions@[z].name@ != "main"@,
            funs.len() == p.functions.len() + 11,
            forall|q: int| 0 <= q < i ==> fun_erases(#[trigger] functions@[q], p.functions@[q]),
            forall|q: int| 0 <= q < i ==> signature_of(#[trigger] functions@[q], funs@[q]),
            forall|q: int| 0 <= q < p.functions.len() ==> (#[trigger] funs@[q]).name@ == p.functions@[q].name@
                && funs@[q].params.len() == p.functions@[q].params.len()
                && (forall|j: int| 0 <= j < funs@[q].params.len() ==> ty_eq(#[trigger] funs@[q].params@[j], p.functions@[q].params@[j].ty))
                && ty_eq(funs@[q].return_type, p.functions@[q].return_type),
            forall|q: int| 0 <= q < i ==> exists|env: Seq<Binding>, after: Seq<Binding>| #![trigger env.len(), after.len()]
                params_bound(globals, #[trigger] functions@[q], env)
                    && stmt_typed(env, after, funs@, tagged@, functions@[q].return_type, *functions@[q].body),
            signatures_of(funs@, *p),
            p.constants.len() == 0 ==> globals.len() == 0,
            tagged@ == p.tagged_types@,
        decreases p.functions.len() - i,
    {
        let f = &p.functions[i];
        let mark = vars.len();
        let mut params: Vec<IdentifierDecl> = Vec::new();
        let mut j: usize = 0;
        while j < f.params.len()
            invariant
                j <= f.params.len(),
                params.len() == j,
                mark == globals.len(),
                vars@.len() == mark + j,
                vars@.subrange(0, mark as int) == globals,
                forall|q: int| 0 <= q < j ==> (#[trigger] params@[q]).name@ == f.params@[q].name@ && ty_eq(params@[q].ty, f.params@[q].ty),
                forall|q: int| 0 <= q < j ==> {
                    let b = #[trigger] vars@[mark + q];
                    b.name@ == params@[q].name@ && ty_eq(b.ty, params@[q].ty) && !b.constant
                },
                forall|q: int| 0 <= q < j ==> ty_eq((#[trigger] vars@[mark + q]).ty, f.params@[q].ty),
                p.constants.len() == 0 ==> mark == 0,
                i < p.functions.len(),
                *f == p.functions@[i as int],
            decreases f.params.len() - j,
        {
            let pd = &f.params[j];
            proof {
                if program_typable(*p) {
                    assert forall|k: int| 0 <= k < vars@.len() implies (#[trigger] vars@[k]).name@ != pd.name@ by {
                        assert(vars@[mark + k].name@ == params@[k].name@);
                        assert(p.functions@[i as int].params@[k].name@ != p.functions@[i as int].params@[j as int].name@);
                    }
                    lemma_var_index_none(vars@, pd.name@);
                }
            }
            if lookup_var(&vars, &pd.name).is_some() {
                return Err(error_named("redeclaration of parameter '", &pd.name, "'"));
            }
            let t1 = pd.ty.duplicate();
            let t2 = pd.ty.duplicate();
            proof {
                crate::ir::ast::lemma_ty_eq_symm(t2, pd.ty);
                crate::ir::ast::lemma_ty_eq_trans(t1, pd.ty, t2);
            }
            let ghost old_vars = vars@;
            vars.push(Binding { name: pd.name.clone(), ty: t1, constant: false });
            params.push(IdentifierDecl { name: pd.name.clone(), ty: t2 });
            proof {
                assert(vars@.subrange(0, mark as int) =~= old_vars.subrange(0, mark as int));
                assert forall|q: int| 0 <= q < j + 1 implies {
                    let b = #[trigger] vars@[mark + q];
                    b.name@ == params@[q].name@ && ty_eq(b.ty, params@[q].ty) && !b.constant
                } by {
                    if q < j {
                        assert(vars@[mark + q] == old_vars[mark + q]);
                    }
                }
                assert forall|q: int| 0 <= q < j + 1 implies ty_eq((#[trigger] vars@[mark + q]).ty, f.params@[q].ty) by {
                    if q < j {
                        assert(vars@[mark + q] == old_vars[mark + q]);
                    }
                }
            }
            j = j + 1;
        }
        let rt = f.return_type.duplicate();
        let ghost env = vars@;
        assert(program_typable(*p) ==> stmt_typable(vars@, funs@, tagged@, rt, *f.body)) by {
            if program_typable(*p) {
                assert(mark == 0);
                assert forall|q: int| 0 <= q < env.len() implies (#[trigger] env[q]).name@ == p.functions@[i as int].params@[q].name@
                    && ty_eq(env[q].ty, p.functions@[i as int].params@[q].ty) && !env[q].constant by {
                    assert(env[q] == vars@[mark + q]);
                }
                assert(binds_params_of(env, p.functions@[i as int]));
                assert(ty_eq(rt, p.functions@[i as int].return_type));
                assert(stmt_typable(env, funs@, p.tagged_types@, rt, *p.functions@[i as int].body));
                assert(env == vars@);
                assert(tagged@ == p.tagged_types@);
                assert(*f == p.functions@[i as int]);
                assert(stmt_typable(vars@, funs@, tagged@, rt, *f.body));
            }
        }
        let body = match check_stmt(&mut vars, &funs, tagged, &rt, &f.body) {
            Ok(x) => x,
            Err(err) => { return Err(err); },
        };
        let ghost after = vars@;
        proof { lemma_stmt_prefix(env, after, funs@, tagged@, rt, body); }
        vars.truncate(mark);
        proof {
            assert(vars@ =~= globals);
        }
        let cf = FunDecl { name: f.name.clone(), params, return_type: rt, body: Box::new(body) };
        proof {
            let sig = funs@[i as int];
            assert forall|z: int| 0 <= z < cf.params.len() implies ty_eq(#[trigger] sig.params@[z], cf.params@[z].ty) by {
                assert(ty_eq(sig.params@[z], f.params@[z].ty));
                crate::ir::ast::lemma_ty_eq_symm(cf.params@[z].ty, f.params@[z].ty);
                crate::ir::ast::lemma_ty_eq_trans(sig.params@[z], f.params@[z].ty, cf.params@[z].ty);
            }
            crate::ir::ast::lemma_ty_eq_symm(rt, f.return_type);
            crate::ir::ast::lemma_ty_eq_trans(sig.return_type, f.return_type, rt);
            assert(signature_of(cf, sig));
            assert(params_bound(globals, cf, env));
            assert(stmt_typed(env, after, funs@, tagged@, cf.return_type, *cf.body));
        }
        functions.push(cf);
        i = i + 1;
    }

    // tests
    let mut tests: Vec<TestDecl<Type>> = Vec::new();
    let mut t: usize = 0;
    while t < p.tests.len()
        invariant
            t <= p.tests.len(),
            tests.len() == t,
            vars@ == globals,
            forall|q: int| 0 <= q < t ==> (#[trigger] tests@[q]).name@ == p.tests@[q].name@
                && stmt_erases(*tests@[q].body, *p.tests@[q].body),
            forall|q: int| 0 <= q < t ==> exists|after: Seq<Binding>| #![trigger after.len()]
                stmt_typed(globals, after, funs@, tagged@, Type::Unit, *(#[trigger] tests@[q]).body),
            signatures_of(funs@, *p),
            p.constants.len() == 0 ==> globals.len() == 0,
            tagged@ == p.tagged_types@,
        decreases p.tests.len() - t,
    {
        let unit = Type::Unit;
        let mark = vars.len();
        assert(program_typable(*p) ==> stmt_typable(vars@, funs@, tagged@, unit, *p.tests@[t as int].body)) by {
            if program_typable(*p) {
                assert(vars@ =~= Seq::<Binding>::empty());
                assert(stmt_typable(Seq::empty(), funs@, p.tagged_types@, Type::Unit, *p.tests@[t as int].body));
                assert(tagged@ == p.tagged_types@);
                assert(unit == Type::Unit);
                assert(stmt_typable(vars@, funs@, tagged@, unit, *p.tests@[t as int].body));
            }
        }
        let body = match check_stmt(&mut vars, &funs, tagged, &unit, &p.tests[t].body) {
            Ok(x) => x,
            Err(err) => { return Err(err); },
        };
        let ghost after = vars@;
        proof { lemma_stmt_prefix(globals, after, funs@, tagged@, Type::Unit, body); }
        vars.truncate(mark);
        proof { assert(vars@ =~= globals); }
        let td = TestDecl { name: p.tests[t].name.clone(), body: Box::new(body) };
        assert(stmt_typed(globals, after, funs@, tagged@, Type::Unit, *td.body));
        tests.push(td);
        t = t + 1;
    }

    // tagged types
    let mut tagged_types: Vec<TaggedTypeDecl> = Vec::new();
    let mut q: usize = 0;
    while q < tagged.len()
        invariant
            q <= tagged.len(),
            tagged_types.len() == q,
            forall|z: int| 0 <= z < q ==> tagged_eq(#[trigger] tagged_types@[z], tagged@[z]),
        decreases tagged.len() - q,
    {
        tagged_types.push(copy_tagged(&tagged[q]));
        q = q + 1;
    }
    let result = Program { tagged_types, constants, functions, tests };
    proof {
        if let Some(m) = main_idx {
            assert(result.functions@[m as int].name@ == "main"@);
        }
        assert(program_erases(result, *p));
        assert(funs@.len() == result.functions.len() + 11);
        assert(forall|i: int| 0 <= i < result.functions.len() ==> signature_of(#[trigger] result.functions@[i], funs@[i]));
        assert(forall|k: int| 0 <= k < 11 ==> native_sig(k, #[trigger] funs@[result.functions.len() + k]));
        assert(envs.len() == result.constants.len() + 1 && envs[0] == Seq::<Binding>::empty() && envs.last() == globals
            && forall|k: int| 0 <= k < result.constants.len() ==> stmt_typed(envs[k], envs[k + 1], funs@, tagged@, Type::Unit, #[trigger] result.constants@[k]));
        assert(program_typed(result, p.tagged_types@, funs@, globals));
        assert(well_typed(result, p.tagged_types@));
    }
    Ok(result)
}

} // verus!
