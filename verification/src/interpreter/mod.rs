//! Tree-walking interpreter for checked MiniC programs.
//!
//! Before a run, the native functions of the standard registry and the
//! program's functions are bound, by name, in one global environment, and
//! the program's constants are evaluated in order into it. A run of the
//! program calls `main`; a run of its tests executes each test body in its
//! own copy of the globals.
pub mod eval_expr;
pub mod exec_stmt;
pub mod value;

use vstd::prelude::*;
use crate::environment::Environment;
use crate::interpreter::exec_stmt::{Host, Interpreter};
use crate::interpreter::value::{val_eq, FnValue, RuntimeError, Value};
use crate::interpreter::exec_stmt::{stmt_post, ExecResult};
use crate::ir::ast::{CheckedProgram, CheckedStmt};
use crate::stdlib::registry::{standard_names, NativeRegistry};
use crate::semantic::program::find_function;
use crate::text::{append_chars, append_str, decimal, decimal_chars, string_of};

verus! {

/// Each function of `p` is bound, under its name, to a function value
/// that names it.
pub open spec fn binds_functions(vars: Map<Seq<char>, Value>, p: CheckedProgram) -> bool {
    forall|i: int| 0 <= i < p.functions.len() ==> vars.contains_key((#[trigger] p.functions@[i]).name@)
        && (vars[p.functions@[i].name@] matches Value::Fn(FnValue::UserDefined(s)) && s@ == p.functions@[i].name@)
}

/// A copy of an environment whose values equal the original's binds the
/// functions as the original does.
pub proof fn lemma_binds_functions_copy(a: Map<Seq<char>, Value>, b: Map<Seq<char>, Value>, p: CheckedProgram)
    requires
        binds_functions(b, p),
        a.dom() == b.dom(),
        forall|k: Seq<char>| #[trigger] a.contains_key(k) ==> val_eq(a[k], b[k]),
    ensures
        binds_functions(a, p),
{
    assert forall|i: int| 0 <= i < p.functions.len() implies a.contains_key((#[trigger] p.functions@[i]).name@)
        && (a[p.functions@[i].name@] matches Value::Fn(FnValue::UserDefined(s)) && s@ == p.functions@[i].name@) by {
        let n = p.functions@[i].name@;
        assert(b.contains_key(n));
        assert(a.contains_key(n));
        assert(val_eq(a[n], b[n]));
    }
}

/// The environment every run starts from: the native functions, then the
/// program's functions (a function of the program hides a native function
/// of the same name).
pub fn build_env(program: &CheckedProgram) -> (r: Environment)
    ensures
        r.wf(),
        forall|k: int| 0 <= k < 11 ==> #[trigger] r.vars().contains_key(standard_names()[k]),
        binds_functions(r.vars(), *program),
        forall|n: Seq<char>| #[trigger] r.vars().contains_key(n) ==> standard_names().contains(n)
            || exists|i: int| 0 <= i < program.functions.len() && (#[trigger] program.functions@[i]).name@ == n,
{
    let mut env = Environment::new();
    let registry = NativeRegistry::default();
    let entries = registry.iter();
    let mut i: usize = 0;
    while i < entries.len()
        invariant
            i <= entries.len(),
            entries@ == registry.entries(),
            registry.names() == standard_names(),
            env.wf(),
            forall|k: int| 0 <= k < i ==> #[trigger] env.vars().contains_key(standard_names()[k]),
            forall|n: Seq<char>| #[trigger] env.vars().contains_key(n) ==> exists|k: int| 0 <= k < i && standard_names()[k] == n,
        decreases entries.len() - i,
    {
        env.declare(entries[i].0.clone(), Value::Fn(FnValue::Native(entries[i].1.func)));
        assert(registry.names()[i as int] == entries@[i as int].0@);
        i = i + 1;
    }
    let mut j: usize = 0;
    while j < program.functions.len()
        invariant
            j <= program.functions.len(),
            env.wf(),
            forall|k: int| 0 <= k < 11 ==> #[trigger] env.vars().contains_key(standard_names()[k]),
            forall|q: int| 0 <= q < j ==> (env.vars().contains_key((#[trigger] program.functions@[q]).name@)
                && (env.vars()[program.functions@[q].name@] matches Value::Fn(FnValue::UserDefined(s))
                    && s@ == program.functions@[q].name@)),
            forall|n: Seq<char>| #[trigger] env.vars().contains_key(n) ==> standard_names().contains(n)
                || exists|q: int| 0 <= q < j && (#[trigger] program.functions@[q]).name@ == n,
        decreases program.functions.len() - j,
    {
        let name = program.functions[j].name.clone();
        let name2 = name.clone();
        env.declare(name, Value::Fn(FnValue::UserDefined(name2)));
        proof {
            assert(program.functions@[j as int].name@ == name@);
        }
        j = j + 1;
    }
    env
}

impl<'a, H: Host> Interpreter<'a, H> {
    /// Prepares a run of `program` with `host` and a budget of `fuel`
    /// steps: binds the functions and evaluates the constants, in order.
    /// Where a constant fails, the error comes back with the host.
    pub fn new(program: &'a CheckedProgram, host: H, fuel: u64) -> (r: Result<Interpreter<'a, H>, (RuntimeError, H)>)
        ensures
            program.constants.len() == 0 ==> r is Ok,
            r matches Ok(m) ==> m.program == program && m.globals.wf() && m.fuel <= fuel,
            r matches Ok(m) ==> (program.constants.len() == 0 ==> forall|n: Seq<char>| #[trigger] m.globals.vars().contains_key(n)
                ==> standard_names().contains(n)
                || exists|i: int| 0 <= i < program.functions.len() && (#[trigger] program.functions@[i]).name@ == n),
            r matches Ok(m) ==> (program.constants.len() == 0 ==> m.fuel == fuel && binds_functions(m.globals.vars(), *program)),
    {
        let globals = build_env(program);
        let ghost start = globals.vars();
        let mut machine = Interpreter { program, globals: globals.duplicate(), host, fuel };
        let mut work = globals;
        let mut i: usize = 0;
        while i < program.constants.len()
            invariant
                i == 0 ==> machine.globals.vars().dom() == start.dom(),
                i == 0 ==> machine.fuel == fuel,
                i == 0 ==> forall|n: Seq<char>| #[trigger] machine.globals.vars().contains_key(n) ==> val_eq(machine.globals.vars()[n], start[n]),
                binds_functions(start, *program),
                forall|n: Seq<char>| #[trigger] start.contains_key(n) ==> standard_names().contains(n)
                    || exists|q: int| 0 <= q < program.functions.len() && (#[trigger] program.functions@[q]).name@ == n,
                i <= program.constants.len(),
                machine.program == program,
                machine.globals.wf(),
                work.wf(),
                machine.fuel <= fuel,
            decreases program.constants.len() - i,
        {
            match machine.exec_stmt(&program.constants[i], &mut work) {
                Ok(_) => {},
                Err(e) => { return Err((e, machine.host)); },
            }
            machine.globals = work.duplicate();
            i = i + 1;
        }
        Ok(machine)
    }
}

/// Runs `program`: calls `main` with no arguments. Fails where there is no
/// `main`, where a constant or `main` fails, and where the budget of steps
/// runs out. Gives back the host.
pub fn interpret<H: Host>(program: &CheckedProgram, host: H, fuel: u64) -> (r: (Result<(), RuntimeError>, H))
    ensures
        (forall|i: int| 0 <= i < program.functions.len() ==> (#[trigger] program.functions@[i]).name@ != "main"@)
            ==> (r.0 matches Err(e) && e.message@ == "no 'main' function found"@),
        program.constants.len() == 0 && (exists|i: int| 0 <= i < program.functions.len() && (#[trigger] program.functions@[i]).name@ == "main"@) ==> (
            (exists|i: int, e0: Environment, e1: Environment, res: ExecResult|
                0 <= i < program.functions.len()
                && program.functions@[i].name@ == "main"@
                && program.functions@[i].params.len() == 0
                && #[trigger] stmt_post(*program.functions@[i].body, e0, e1, res)
                && (r.0 is Ok <==> res is Ok)
                && (res matches Err(e) ==> r.0 == Err::<(), RuntimeError>(e)))
            || (r.0 is Err && (fuel == 0 || exists|i: int| 0 <= i < program.functions.len()
                && (#[trigger] program.functions@[i]).name@ == "main"@ && program.functions@[i].params.len() != 0))),
{
    if find_function(&program.functions, "main").is_none() {
        proof { reveal_strlit("main"); }
        return (Err(RuntimeError::new("no 'main' function found")), host);
    }
    let mut machine = match Interpreter::new(program, host, fuel) {
        Ok(m) => m,
        Err((e, h)) => { return (Err(e), h); },
    };
    let main_name = String::from_str("main");
    let env = machine.globals.duplicate();
    if env.get("main").is_none() {
        return (Err(RuntimeError::new("no 'main' function found")), machine.host);
    }
    proof { reveal_strlit("main"); }
    let ghost f0 = machine.fuel;
    let ghost m0 = machine;
    let result = machine.eval_call(&main_name, Vec::new(), &env);
    proof {
        if program.constants.len() == 0 {
            assert(m0.program == program);
            if exists|i: int| 0 <= i < program.functions.len() && (#[trigger] program.functions@[i]).name@ == "main"@ {
                let i = choose|i: int| 0 <= i < program.functions.len() && (#[trigger] program.functions@[i]).name@ == "main"@;
                assert(m0.globals.vars().contains_key(program.functions@[i].name@));
                assert(env.vars().contains_key(main_name@));
                assert(val_eq(env.vars()[main_name@], m0.globals.vars()[main_name@]));
            }
        }
    }
    match result {
        Ok(_) => (Ok(()), machine.host),
        Err(e) => (Err(e), machine.host),
    }
}

/// The outcome of one test block.
#[derive(Debug)]
pub struct TestOutcome {
    pub name: String,
    pub result: Result<(), RuntimeError>,
}

/// `result` is what a run of `body` can give: some run from an environment
/// that (where `p` has no constants) binds `p`'s functions ends with `res`,
/// and `result` passes exactly when `res` does, with `res`'s error.
pub open spec fn ran_as(body: CheckedStmt, p: CheckedProgram, result: Result<(), RuntimeError>) -> bool {
    exists|e0: Environment, e1: Environment, res: ExecResult| #[trigger] stmt_post(body, e0, e1, res)
        && (p.constants.len() == 0 ==> binds_functions(e0.vars(), p))
        && (result is Ok <==> res is Ok)
        && (res matches Err(e) ==> result == Err::<(), RuntimeError>(e))
}

/// Runs every test block of `program`, each in its own copy of the
/// globals; a test passes when its body runs without a run-time error.
/// The outcomes are in the order of the tests.
pub fn run_tests<H: Host>(program: &CheckedProgram, host: H, fuel: u64) -> (r: (Result<Vec<TestOutcome>, RuntimeError>, H))
    ensures
        program.constants.len() == 0 ==> r.0 is Ok,
        r.0 matches Ok(outs) ==> outs.len() == program.tests.len() && forall|i: int| 0 <= i < outs.len() ==>
            (#[trigger] outs@[i]).name@ == program.tests@[i].name@,
        r.0 matches Ok(outs) ==> forall|i: int| 0 <= i < outs.len() ==>
            ran_as(*program.tests@[i].body, *program, (#[trigger] outs@[i]).result),
{
    let mut machine = match Interpreter::new(program, host, fuel) {
        Ok(m) => m,
        Err((e, h)) => { return (Err(e), h); },
    };
    let mut outs: Vec<TestOutcome> = Vec::new();
    let mut i: usize = 0;
    while i < program.tests.len()
        invariant
            i <= program.tests.len(),
            machine.program == program,
            machine.globals.wf(),
            outs.len() == i,
            forall|k: int| 0 <= k < i ==> (#[trigger] outs@[k]).name@ == program.tests@[k].name@,
            program.constants.len() == 0 ==> binds_functions(machine.globals.vars(), *program),
            forall|k: int| 0 <= k < i ==> ran_as(*program.tests@[k].body, *program, (#[trigger] outs@[k]).result),
        decreases program.tests.len() - i,
    {
        let mut env = machine.globals.duplicate();
        proof {
            if program.constants.len() == 0 {
                lemma_binds_functions_copy(env.vars(), machine.globals.vars(), *program);
            }
        }
        let ghost e0 = env;
        let res = machine.exec_stmt(&program.tests[i].body, &mut env);
        let ghost e1 = env;
        let result = match res {
            Ok(_) => Ok(()),
            Err(e) => Err(e),
        };
        let ghost before = outs@;
        outs.push(TestOutcome { name: program.tests[i].name.clone(), result });
        proof {
            assert(stmt_post(*program.tests@[i as int].body, e0, e1, res));
            assert(ran_as(*program.tests@[i as int].body, *program, result));
            assert forall|k: int| 0 <= k < i + 1 implies ran_as(*program.tests@[k].body, *program, (#[trigger] outs@[k]).result) by {
                if k < i {
                    assert(outs@[k] == before[k]);
                } else {
                    assert(outs@[k].result == result);
                }
            }
        }
        i = i + 1;
    }
    (Ok(outs), machine.host)
}

/// The number of failed outcomes among `outs`.
pub open spec fn failures(outs: Seq<TestOutcome>) -> nat
    decreases outs.len(),
{
    if outs.len() == 0 {
        0
    } else {
        failures(outs.drop_last()) + if outs.last().result is Err { 1nat } else { 0nat }
    }
}

/// The verdict on a run of the tests: `Ok` when every test passed, else
/// an error that gives the number of failed tests ("N test(s) failed").
/// Also gives the summary line "P / T tests passed".
pub fn test_summary(outs: &Vec<TestOutcome>) -> (r: (String, Result<(), RuntimeError>))
    ensures
        failures(outs@) <= outs.len(),
        r.0@ == decimal((outs.len() - failures(outs@)) as nat) + " / "@ + decimal(outs.len() as nat) + " tests passed"@,
        failures(outs@) == 0 ==> r.1 is Ok,
        failures(outs@) > 0 ==> (r.1 matches Err(e) && e.message@ == decimal(failures(outs@)) + " test(s) failed"@),
{
    let mut failed: usize = 0;
    let mut i: usize = 0;
    while i < outs.len()
        invariant
            i <= outs.len(),
            failed == failures(outs@.subrange(0, i as int)),
            failed <= i,
        decreases outs.len() - i,
    {
        assert(outs@.subrange(0, i + 1).drop_last() =~= outs@.subrange(0, i as int));
        if outs[i].result.is_err() {
            failed = failed + 1;
        }
        i = i + 1;
    }
    assert(outs@.subrange(0, outs.len() as int) =~= outs@);
    let mut line: Vec<char> = Vec::new();
    append_chars(&mut line, &decimal_chars((outs.len() - failed) as u64));
    append_str(&mut line, " / ");
    append_chars(&mut line, &decimal_chars(outs.len() as u64));
    append_str(&mut line, " tests passed");
    let verdict = if failed == 0 {
        Ok(())
    } else {
        let mut m: Vec<char> = Vec::new();
        append_chars(&mut m, &decimal_chars(failed as u64));
        append_str(&mut m, " test(s) failed");
        Err(RuntimeError { message: string_of(&m) })
    };
    (string_of(&line), verdict)
}

} // verus!
