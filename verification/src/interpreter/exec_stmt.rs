//! The interpreter's machine and the execution of statements.
//!
//! A statement completes normally (`Ok(None)`), returns from the enclosing
//! function (`Ok(Some(v))`), or fails with a run-time error. A block drops
//! the names it declared when it is left; assignments to names of outer
//! scopes survive.
//!
//! Native functions do input and output, and floating-point arithmetic is
//! not done by this library: both are the work of a [`Host`] that the
//! caller supplies. Every run has a budget of steps (function calls, loop
//! iterations and aggregate constructions); a run that would exceed it fails
//! with a run-time error instead of running on.
use vstd::prelude::*;
use crate::environment::{in_names, Environment};
use crate::interpreter::value::{val_eq, FnValue, RuntimeError, Value};
use crate::ir::ast::{CheckedExpr, CheckedProgram, CheckedStmt, Expr, Member, Statement, TagType, TaggedTypeDecl, Type};
use crate::semantic::rules::decl_index;
use crate::stdlib::registry::NativeFn;
use crate::interpreter::eval_expr::{pure_fails, pure_value};
use crate::codegen::counts::{
    expr_nodes, exprs_nodes, lemma_exprs_nodes_split, lemma_exprs_nodes_step, lemma_stmts_nodes_split, lemma_stmts_nodes_step,
    stmt_nodes, stmts_nodes,
};
use crate::text::{decimal, decimal_int, decimal_chars_i64, string_of};

verus! {

/// An arithmetic operation on two floating-point numbers.
#[derive(Debug, PartialEq, Eq, Structural, Clone, Copy)]
pub enum ArithOp {
    Add,
    Sub,
    Mul,
    Div,
}

/// A comparison of two numbers.
#[derive(Debug, PartialEq, Eq, Structural, Clone, Copy)]
pub enum Relation {
    Lt,
    Le,
    Gt,
    Ge,
    Eq,
    Ne,
}

/// Floating-point work, on IEEE-754 bit patterns.
#[derive(Debug, PartialEq)]
pub enum FloatOp {
    /// The value of a floating-point literal, given by its text.
    Literal(String),
    /// An integer as a float.
    FromInt(i64),
    /// A float as an integer (truncated toward zero, saturating).
    ToInt(u64),
    /// Negation.
    Neg(u64),
    /// `a op b`, a float.
    Arith(ArithOp, u64, u64),
    /// `a rel b`, a boolean.
    Compare(Relation, u64, u64),
}

/// What the interpreter leaves to its caller: running a native function
/// (these do input and output) and floating-point work. Nothing is assumed
/// of the answers.
pub trait Host {
    fn call_native(&mut self, func: NativeFn, args: Vec<Value>) -> Result<Value, RuntimeError>;

    fn float_op(&mut self, op: FloatOp) -> Result<Value, RuntimeError>;
}

/// The state of a run: the program, the global environment (native
/// functions, the program's functions and its constants), the host and the
/// budget of steps left.
pub struct Interpreter<'a, H: Host> {
    pub program: &'a CheckedProgram,
    pub globals: Environment,
    pub host: H,
    pub fuel: u64,
}

/// Outcome of a statement: `None` to go on, `Some(v)` when `return` ran.
pub type ExecResult = Result<Option<Value>, RuntimeError>;

/// Index of the first declaration of kind `tag` named `name`.
pub fn find_tagged(tagged: &Vec<TaggedTypeDecl>, tag: TagType, name: &String) -> (r: Option<usize>)
    ensures
        r matches Some(i) ==> i < tagged.len() && decl_index(tagged@, tag, name@) == Some(i as int),
        r is None <==> decl_index(tagged@, tag, name@) is None,
{
    let mut i: usize = 0;
    assert(tagged@.subrange(0, tagged.len() as int) =~= tagged@);
    while i < tagged.len()
        invariant
            i <= tagged.len(),
            decl_index(tagged@, tag, name@) == (match decl_index(tagged@.subrange(i as int, tagged.len() as int), tag, name@) {
                Some(k) => Some(k + i),
                None => None,
            }),
        decreases tagged.len() - i,
    {
        let ghost rest = tagged@.subrange(i as int, tagged.len() as int);
        assert(rest.drop_first() =~= tagged@.subrange(i + 1, tagged.len() as int));
        if tagged[i].tag_type == tag && tagged[i].tag_name.eq(name) {
            return Some(i);
        }
        i = i + 1;
    }
    assert(tagged@.subrange(i as int, tagged.len() as int).len() == 0);
    None
}

/// Where `decl_index` finds a declaration, it is one of kind `tag` named `name`.
pub proof fn lemma_decl_index(tagged: Seq<TaggedTypeDecl>, tag: TagType, name: Seq<char>)
    ensures
        decl_index(tagged, tag, name) matches Some(i) ==> 0 <= i < tagged.len() && tagged[i].tag_type == tag
            && tagged[i].tag_name@ == name,
    decreases tagged.len(),
{
    if tagged.len() > 0 {
        lemma_decl_index(tagged.drop_first(), tag, name);
    }
}

/// Whether `fields` binds `name`.
pub open spec fn has_field(fields: Seq<(String, Value)>, name: Seq<char>) -> bool {
    exists|hk: int| 0 <= hk < fields.len() && (#[trigger] fields[hk]).0@ == name
}

/// `after` is `before` with field `name` set to `value`: the first entry
/// named `name` gets the value in place, or, where there is none, a new
/// entry is added at the end.
pub open spec fn field_put(before: Seq<(String, Value)>, after: Seq<(String, Value)>, name: Seq<char>, value: Value) -> bool {
    &&& has_field(before, name) ==> after.len() == before.len() && exists|k: int|
            0 <= k < before.len() && before[k].0@ == name && after[k].0@ == name
                && (forall|j: int| 0 <= j < k ==> before[j].0@ != name)
                && after == before.update(k, (#[trigger] after[k].0, value))
    &&& !has_field(before, name) ==> after.len() == before.len() + 1
            && after.subrange(0, before.len() as int) == before
            && after.last().0@ == name && after.last().1 == value
}

/// `k` is the first entry of `fields` named `name`.
pub open spec fn first_named(fields: Seq<(String, Value)>, name: Seq<char>, k: int) -> bool {
    0 <= k < fields.len() && fields[k].0@ == name && forall|j: int| 0 <= j < k ==> fields[j].0@ != name
}

/// The value of field `name` among `fields`: that of the first entry so
/// named, if any.
pub open spec fn field_value(fields: Seq<(String, Value)>, name: Seq<char>) -> Option<Value> {
    if exists|k: int| first_named(fields, name, k) {
        Some(fields[choose|k: int| first_named(fields, name, k)].1)
    } else {
        None
    }
}

/// Where `k` is the first entry named `name`, the field's value is that entry's.
pub proof fn lemma_field_value_at(fields: Seq<(String, Value)>, name: Seq<char>, k: int)
    requires
        first_named(fields, name, k),
    ensures
        field_value(fields, name) == Some(fields[k].1),
{
    let c = choose|c: int| first_named(fields, name, c);
    assert(first_named(fields, name, c));
    if c < k {
        assert(fields[c].0@ != name);
    } else if k < c {
        assert(fields[k].0@ != name);
    }
}

/// A read gives back the write: after field `name` is set to `value`, the
/// field holds `value`, and every other field holds what it held before.
pub proof fn law_field_read_after_write(before: Seq<(String, Value)>, after: Seq<(String, Value)>, name: Seq<char>, value: Value, other: Seq<char>)
    requires
        field_put(before, after, name, value),
    ensures
        field_value(after, name) == Some(value),
        other != name ==> field_value(after, other) == field_value(before, other),
{
    if has_field(before, name) {
        let k = choose|k: int| 0 <= k < before.len() && before[k].0@ == name && after[k].0@ == name
            && (forall|j: int| 0 <= j < k ==> before[j].0@ != name)
            && after == before.update(k, (#[trigger] after[k].0, value));
        assert(forall|j: int| 0 <= j < after.len() ==> after[j].0@ == before[j].0@);
        assert(first_named(after, name, k));
        lemma_field_value_at(after, name, k);
        if other != name {
            if exists|c: int| first_named(before, other, c) {
                let c = choose|c: int| first_named(before, other, c);
                assert(c != k);
                assert(first_named(after, other, c));
                lemma_field_value_at(before, other, c);
                lemma_field_value_at(after, other, c);
            } else {
                assert forall|c: int| !first_named(after, other, c) by {
                    if first_named(after, other, c) {
                        assert(first_named(before, other, c));
                    }
                }
            }
        }
    } else {
        let n = before.len() as int;
        assert forall|j: int| 0 <= j < n implies after[j] == before[j] by {
            assert(after[j] == after.subrange(0, n)[j]);
        }
        assert forall|j: int| 0 <= j < n implies before[j].0@ != name by {
            if before[j].0@ == name {
                assert(has_field(before, name));
            }
        }
        assert(first_named(after, name, n));
        lemma_field_value_at(after, name, n);
        if other != name {
            if exists|c: int| first_named(before, other, c) {
                let c = choose|c: int| first_named(before, other, c);
                assert(first_named(after, other, c));
                lemma_field_value_at(before, other, c);
                lemma_field_value_at(after, other, c);
            } else {
                assert forall|c: int| !first_named(after, other, c) by {
                    if first_named(after, other, c) {
                        if c < n {
                            assert(first_named(before, other, c));
                        }
                    }
                }
            }
        }
    }
}

/// Sets field `name` to `value`: in place where the field exists, at the
/// end where it does not.
pub fn put_field(fields: &mut Vec<(String, Value)>, name: &str, value: Value)
    ensures
        field_put(old(fields)@, final(fields)@, name@, value),
{
    let key = String::from_str(name);
    let mut i: usize = 0;
    while i < fields.len()
        invariant
            i <= fields.len(),
            key@ == name@,
            fields@ == old(fields)@,
            forall|k: int| 0 <= k < i ==> fields@[k].0@ != name@,
        decreases fields.len() - i,
    {
        if fields[i].0.eq(&key) {
            let n = fields[i].0.clone();
            fields.set(i, (n, value));
            assert(final(fields)@[i as int].0 == n);
            return;
        }
        i = i + 1;
    }
    assert(!has_field(old(fields)@, name@));
    fields.push((key, value));
    assert(fields@.subrange(0, old(fields)@.len() as int) =~= old(fields)@);
}

/// The value `coerce_value_to_type` gives where no floating-point work is
/// needed; `None` where it fails.
pub open spec fn coerced(val: Value, ty: Type) -> Option<Value> {
    match (val, ty) {
        (Value::Int(n), Type::Int) => Some(Value::Int(n)),
        (Value::Int(n), Type::Bool) => Some(Value::Bool(n != 0)),
        (Value::Float(x), Type::Float) => Some(Value::Float(x)),
        (Value::Bool(b), Type::Bool) => Some(Value::Bool(b)),
        _ => None,
    }
}

impl<'a, H: Host> Interpreter<'a, H> {
    /// Spends one step; fails when none is left.
    pub fn step(&mut self) -> (r: Result<(), RuntimeError>)
        ensures
            r is Ok <==> old(self).fuel > 0,
            r is Ok ==> final(self).fuel == old(self).fuel - 1,
            r is Err ==> final(self).fuel == old(self).fuel,
            final(self).program == old(self).program,
            final(self).globals == old(self).globals,
    {
        if self.fuel == 0 {
            return Err(RuntimeError::new("step limit reached"));
        }
        self.fuel = self.fuel - 1;
        Ok(())
    }

    /// Converts a value to the type of the field it is stored in: an int
    /// becomes a float, a bool (`n != 0`) or its decimal text; a float
    /// becomes an int; values already of the type stay. Other pairs fail.
    pub fn coerce_value_to_type(&mut self, val: Value, ty: &Type) -> (r: Result<Value, RuntimeError>)
        ensures
            final(self).program == old(self).program,
            final(self).globals == old(self).globals,
            final(self).fuel == old(self).fuel,
            coerced(val, *ty) matches Some(v) ==> r == Ok::<Value, RuntimeError>(v),
            (val is Int && ty is Str) ==> (r matches Ok(Value::Str(s)) && s@ == decimal_int(val->Int_0 as int)),
            (val is Str && ty is Str) ==> (r matches Ok(Value::Str(s)) && s@ == val->Str_0@),
            !(val is Int && (ty is Int || ty is Float || ty is Bool || ty is Str)) && !(val is Float && (ty is Float
                || ty is Int)) && !(val is Bool && ty is Bool) && !(val is Str && ty is Str) ==> r is Err,
    {
        match (val, ty) {
            (Value::Int(n), Type::Int) => Ok(Value::Int(n)),
            (Value::Int(n), Type::Float) => self.host.float_op(FloatOp::FromInt(n)),
            (Value::Int(n), Type::Bool) => Ok(Value::Bool(n != 0)),
            (Value::Int(n), Type::Str) => Ok(Value::Str(string_of(&decimal_chars_i64(n)))),
            (Value::Float(x), Type::Float) => Ok(Value::Float(x)),
            (Value::Float(x), Type::Int) => self.host.float_op(FloatOp::ToInt(x)),
            (Value::Bool(b), Type::Bool) => Ok(Value::Bool(b)),
            (Value::Str(s), Type::Str) => Ok(Value::Str(s)),
            (_, _) => Err(RuntimeError::new("cannot coerce value to the required type")),
        }
    }

    /// The value a variable of type `ty` starts with: `0`, `0.0`, `false`,
    /// the empty string or the empty array; for a tagged type the value
    /// `build_aggregate_value` makes from `0`. Function types and `Any`
    /// have none.
    pub fn default_value_for_type(&mut self, ty: &Type) -> (r: Result<Value, RuntimeError>)
        ensures
            final(self).program == old(self).program,
            final(self).globals == old(self).globals,
            final(self).fuel <= old(self).fuel,
            ty is Unit ==> r == Ok::<Value, RuntimeError>(Value::Void),
            ty is Int ==> r == Ok::<Value, RuntimeError>(Value::Int(0)),
            ty is Float ==> r == Ok::<Value, RuntimeError>(Value::Float(0)),
            ty is Bool ==> r == Ok::<Value, RuntimeError>(Value::Bool(false)),
            ty is Str ==> (r matches Ok(Value::Str(s)) && s@.len() == 0),
            ty is Array ==> (r matches Ok(Value::Array(v)) && v@.len() == 0),
            (ty is Function || ty is Any) ==> r is Err,
            *ty matches Type::Tagged { tag_type, tag_name } ==> (r is Ok ==> decl_index(old(self).program.tagged_types@, tag_type, tag_name@) is Some),
            r matches Ok(v) ==> default_shape(*ty, v),
        decreases old(self).fuel, 1int,
    {
        match ty {
            Type::Unit => Ok(Value::Void),
            Type::Int => Ok(Value::Int(0)),
            Type::Float => Ok(Value::Float(0)),
            Type::Bool => Ok(Value::Bool(false)),
            Type::Str => Ok(Value::Str(String::new())),
            Type::Array(_) => Ok(Value::Array(Vec::new())),
            Type::Tagged { tag_type, tag_name } => self.build_aggregate_value(*tag_type, tag_name, Value::Int(0)),
            Type::Function { .. } | Type::Any => Err(RuntimeError::new("cannot create default runtime value for this type")),
        }
    }

    /// The initial value of a variable of the tagged type `tag name`,
    /// declared with the initial value `init_val`. A struct gets each of its
    /// fields with its default value; a union gets its first field, set to
    /// `init_val` converted to that field's type; an enum gets the integer
    /// `init_val`. Fails where the type is not declared, where a union has
    /// no field, and where an enum's initial value is not an int.
    #[verifier::loop_isolation(false)]
    pub fn build_aggregate_value(&mut self, tag: TagType, name: &String, init_val: Value) -> (r: Result<Value, RuntimeError>)
        ensures
            final(self).program == old(self).program,
            final(self).globals == old(self).globals,
            final(self).fuel <= old(self).fuel,
            r is Ok ==> decl_index(old(self).program.tagged_types@, tag, name@) is Some,
            decl_index(old(self).program.tagged_types@, tag, name@) is None ==> r is Err,
            r matches Ok(v) ==> match tag {
                TagType::Struct => v matches Value::Struct { identifier, fields } && identifier@ == name@
                    && struct_fields(old(self).program.tagged_types@[decl_index(old(self).program.tagged_types@, tag, name@)->0].members@, fields@)
                    && field_defaults(old(self).program.tagged_types@[decl_index(old(self).program.tagged_types@, tag, name@)->0].members@, fields@),
                TagType::Union => v matches Value::Union { identifier, active_field, value } && identifier@ == name@
                    && union_field(old(self).program.tagged_types@[decl_index(old(self).program.tagged_types@, tag, name@)->0].members@,
                        active_field@)
                    && (coerced(init_val, first_field_ty(old(self).program.tagged_types@[decl_index(old(self).program.tagged_types@, tag, name@)->0].members@))
                        matches Some(cv) ==> *value == cv),
                TagType::Enum => v matches Value::Enum { identifier, value } && identifier@ == name@
                    && init_val == Value::Int(value),
            },
            tag == TagType::Enum && decl_index(old(self).program.tagged_types@, tag, name@) is Some ==> (r is Ok <==> init_val is Int),
        decreases old(self).fuel, 0int,
    {
        let index = find_tagged(&self.program.tagged_types, tag, name);
        proof { lemma_decl_index(self.program.tagged_types@, tag, name@); }
        let i = match index {
            Some(i) => i,
            None => { return Err(RuntimeError::new("unknown aggregate type at runtime")); },
        };
        let ghost p = self.program;
        assert(decl_index(old(self).program.tagged_types@, tag, name@) == Some(i as int));
        match tag {
            TagType::Struct => {
                self.step()?;
                let members = &self.program.tagged_types[i].members;
                let mut fields: Vec<(String, Value)> = Vec::new();
                let mut k: usize = 0;
                while k < members.len()
                    invariant
                        k <= members.len(),
                        self.program == p,
                        i < p.tagged_types.len(),
                        members@ == p.tagged_types@[i as int].members@,
                        self.fuel < old(self).fuel,
                        self.globals == old(self).globals,
                        struct_fields(members@.subrange(0, k as int), fields@),
                        field_defaults(members@.subrange(0, k as int), fields@),
                    decreases members.len() - k,
                {
                    match &members[k] {
                        Member::Field(field) => {
                            let v = self.default_value_for_type(&field.ty)?;
                            let ghost before = fields@;
                            put_field(&mut fields, field.name.as_str(), v);
                            proof {
                                lemma_struct_fields_push(members@, k as int, before, fields@);
                                lemma_field_put_entries(before, fields@, field.name@, v);
                                lemma_field_defaults_push(members@, k as int, before, fields@);
                            }
                        },
                        Member::Enumerator { .. } => {
                            proof {
                                lemma_struct_fields_push(members@, k as int, fields@, fields@);
                                lemma_field_defaults_push(members@, k as int, fields@, fields@);
                            }
                        },
                    }
                    k = k + 1;
                }
                assert(members@.subrange(0, members.len() as int) =~= members@);
                Ok(Value::Struct { identifier: name.clone(), fields })
            },
            TagType::Union => {
                let members = &self.program.tagged_types[i].members;
                let mut k: usize = 0;
                while k < members.len()
                    invariant
                        k <= members.len(),
                        self.program == old(self).program,
                        self.globals == old(self).globals,
                        self.fuel == old(self).fuel,
                        decl_index(old(self).program.tagged_types@, tag, name@) == Some(i as int),
                        i < old(self).program.tagged_types.len(),
                        members@ == old(self).program.tagged_types@[i as int].members@,
                        forall|j: int| 0 <= j < k ==> !(#[trigger] members@[j] is Field),
                    decreases members.len() - k,
                {
                    match &members[k] {
                        Member::Field(field) => {
                            proof { lemma_first_field(members@, k as int); }
                            let coerced = self.coerce_value_to_type(init_val, &field.ty)?;
                            assert(self.program == old(self).program);
                            assert(decl_index(old(self).program.tagged_types@, tag, name@) == Some(i as int));
                            assert(old(self).program.tagged_types@[i as int].members@ == members@);
                            assert(first_field(members@) == Some(k as int));
                            assert(member_name(members@[k as int]) == field.name@);
                            assert(union_field(members@, field.name@));
                            assert(first_field_ty(members@) == field.ty);
                            return Ok(Value::Union {
                                identifier: name.clone(),
                                active_field: field.name.clone(),
                                value: Box::new(coerced),
                            });
                        },
                        Member::Enumerator { .. } => {},
                    }
                    k = k + 1;
                }
                Err(RuntimeError::new("union has no fields at runtime"))
            },
            TagType::Enum => match init_val {
                Value::Int(n) => Ok(Value::Enum { identifier: name.clone(), value: n }),
                _ => Err(RuntimeError::new("enum initializer must be integer")),
            },
        }
    }
}

/// The statements of `stmts` run one after another from `e0`, each ending
/// normally without a value, and leave `e1`.
pub open spec fn runs_through(stmts: Seq<CheckedStmt>, e0: Environment, e1: Environment) -> bool
    decreases stmts, 0nat,
{
    if stmts.len() == 0 {
        e1.vars() == e0.vars()
    } else {
        exists|em: Environment| #![trigger em.vars()] runs_through(stmts.drop_last(), e0, em)
            && stmt_post(stmts.last(), em, e1, Ok::<Option<Value>, RuntimeError>(None))
    }
}

/// Where the loop condition `cond` lets a run go on from `e`: it does not
/// fail there and, where its value is known, it is `true`.
pub open spec fn cond_allows(cond: CheckedExpr, e: Environment) -> bool {
    !pure_fails(cond, e.vars()) && (pure_value(cond, e.vars()) is None || pure_value(cond, e.vars()) == Some(Value::Bool(true)))
}

/// The environments `tr` are those before each round of a `while` loop and
/// after the last: before each round the condition lets the run go on, and
/// each run of the body ends normally without a value.
pub open spec fn loop_trace(cond: CheckedExpr, body: CheckedStmt, tr: Seq<Environment>) -> bool
    decreases body, 1nat,
{
    &&& tr.len() >= 1
    &&& forall|k: int| #![trigger tr[k]] 0 <= k < tr.len() - 1 ==> cond_allows(cond, tr[k])
        && stmt_post(body, tr[k], tr[k + 1], Ok::<Option<Value>, RuntimeError>(None))
}

/// What a statement's execution does to the variables in scope and what it
/// yields, as far as it is fixed by the statement and the values of its
/// side-effect-free expressions: `env0` before, `env1` after, `r` the outcome.
/// An `if` whose condition has a known value behaves as the branch it selects.
pub open spec fn stmt_post(s: CheckedStmt, env0: Environment, env1: Environment, r: ExecResult) -> bool
    decreases s, 0nat,
{
    &&& r is Ok ==> env0.vars().dom().subset_of(env1.vars().dom())
    &&& (s.stmt is Block && r is Ok) ==> env1.vars().dom() == env0.vars().dom()
    &&& s.stmt matches Statement::Decl { name, .. } ==> (r is Ok ==> r == Ok::<Option<Value>, RuntimeError>(None)
        && env1.vars().dom() == env0.vars().dom().insert(name@))
    &&& s.stmt matches Statement::ConstDecl { name, .. } ==> (r is Ok ==> r == Ok::<Option<Value>, RuntimeError>(None)
        && env1.vars().dom() == env0.vars().dom().insert(name@))
    &&& s.stmt is Assign ==> (r is Ok ==> r == Ok::<Option<Value>, RuntimeError>(None)
        && env1.vars().dom() == env0.vars().dom())
    &&& (s.stmt is Call || s.stmt is Assert || s.stmt is Return) ==> env1 == env0
    &&& (s.stmt is Call || s.stmt is Assert) ==> (r is Ok ==> r == Ok::<Option<Value>, RuntimeError>(None))
    &&& s.stmt is Return ==> (r is Ok ==> r matches Ok(Some(_)))
    &&& s.stmt matches Statement::Return(None) ==> r == Ok::<Option<Value>, RuntimeError>(Some(Value::Void))
    &&& s.stmt matches Statement::Decl { name, ty, init } ==> (!(ty is Tagged) ==>
        (pure_value(*init, env0.vars()) matches Some(v) ==> (r == Ok::<Option<Value>, RuntimeError>(None)
            && env1.vars() == env0.vars().insert(name@, v))))
    &&& s.stmt matches Statement::ConstDecl { name, ty, init } ==> (!(ty is Tagged) ==>
        (pure_value(*init, env0.vars()) matches Some(v) ==> (r == Ok::<Option<Value>, RuntimeError>(None)
            && env1.vars() == env0.vars().insert(name@, v))))
    &&& s.stmt matches Statement::Decl { init, .. } ==> (pure_fails(*init, env0.vars()) ==> r is Err)
    &&& s.stmt matches Statement::ConstDecl { init, .. } ==> (pure_fails(*init, env0.vars()) ==> r is Err)
    &&& s.stmt matches Statement::Assign { target, value } ==> (target.exp matches Expr::Ident(n) ==>
        (pure_value(*value, env0.vars()) matches Some(v) ==> ((r is Ok <==> env0.vars().contains_key(n@))
            && (r is Ok ==> env1.vars() == env0.vars().insert(n@, v)))))
    &&& s.stmt matches Statement::Assign { value, .. } ==> (pure_fails(*value, env0.vars()) ==> r is Err)
    &&& s.stmt matches Statement::Return(Some(e)) ==> (pure_value(*e, env0.vars()) matches Some(v)
        ==> r == Ok::<Option<Value>, RuntimeError>(Some(v)))
    &&& s.stmt matches Statement::Return(Some(e)) ==> (pure_fails(*e, env0.vars()) ==> r is Err)
    &&& s.stmt matches Statement::Assert(e) ==> (pure_value(*e, env0.vars()) matches Some(v) ==>
        (r == Ok::<Option<Value>, RuntimeError>(None) <==> v == Value::Bool(true)) && (r is Err <==> v != Value::Bool(true)))
    &&& s.stmt matches Statement::Assert(e) ==> (pure_fails(*e, env0.vars()) ==> r is Err)
    &&& s.stmt matches Statement::If { cond, else_branch, .. } ==> (pure_value(*cond, env0.vars()) matches Some(v) ==>
        ((!(v is Bool) ==> r is Err)
        && (v == Value::Bool(false) && else_branch is None ==> r == Ok::<Option<Value>, RuntimeError>(None) && env1 == env0)))
    &&& s.stmt matches Statement::If { cond, .. } ==> (pure_fails(*cond, env0.vars()) ==> r is Err)
    &&& s.stmt matches Statement::While { cond, .. } ==> (pure_value(*cond, env0.vars()) matches Some(v) ==>
        ((!(v is Bool) ==> r is Err)
        && (v == Value::Bool(false) ==> r == Ok::<Option<Value>, RuntimeError>(None) && env1 == env0)))
    &&& s.stmt matches Statement::While { cond, .. } ==> (pure_fails(*cond, env0.vars()) ==> r is Err)
    &&& s.stmt matches Statement::While { cond, .. } ==> (r == Ok::<Option<Value>, RuntimeError>(None)
        ==> pure_value(*cond, env1.vars()) != Some(Value::Bool(true)))
    &&& match s.stmt {
        Statement::Block { seq } => (
            (r == Ok::<Option<Value>, RuntimeError>(None) ==> exists|el: Environment| #![trigger el.vars()]
                runs_through(seq@, env0, el) && env1.vars() == el.vars().restrict(env0.vars().dom()))
            && (r matches Ok(Some(_)) ==> exists|i: int, em: Environment, el: Environment|
                #![trigger seq@[i], em.vars(), el.vars()] 0 <= i < seq.len()
                && runs_through(seq@.take(i), env0, em) && stmt_post(seq@[i], em, el, r)
                && env1.vars() == el.vars().restrict(env0.vars().dom()))
            && (r is Err ==> exists|i: int, em: Environment, el: Environment|
                #![trigger seq@[i], em.vars(), el.vars()] 0 <= i < seq.len()
                && runs_through(seq@.take(i), env0, em) && stmt_post(seq@[i], em, el, r))),
        Statement::While { cond, body } => (
            (r == Ok::<Option<Value>, RuntimeError>(None) ==> exists|tr: Seq<Environment>| #![trigger tr.len()]
                loop_trace(*cond, *body, tr) && tr[0].vars() == env0.vars() && tr.last().vars() == env1.vars())
            && (r matches Ok(Some(_)) ==> exists|tr: Seq<Environment>| #![trigger tr.len()]
                loop_trace(*cond, *body, tr) && tr[0].vars() == env0.vars()
                && cond_allows(*cond, tr.last()) && stmt_post(*body, tr.last(), env1, r))),
        Statement::If { cond, then_branch, else_branch } => (pure_value(*cond, env0.vars()) matches Some(v) ==> (
            (v == Value::Bool(true) ==> stmt_post(*then_branch, env0, env1, r))
            && (v == Value::Bool(false) ==> (else_branch matches Some(eb) ==> stmt_post(*eb, env0, env1, r))))),
        _ => true,
    }
}

/// A block that stops at its `i`-th statement, with a value or an error,
/// meets `stmt_post`.
proof fn lemma_block_stops(s: CheckedStmt, env0: Environment, env1: Environment, r: ExecResult, i: int, em: Environment, el: Environment)
    requires
        s.stmt matches Statement::Block { seq } && 0 <= i < seq.len() && runs_through(seq@.take(i), env0, em)
            && stmt_post(seq@[i], em, el, r),
        r is Err || r matches Ok(Some(_)),
        r is Ok ==> env1.vars() == el.vars().restrict(env0.vars().dom()) && env1.vars().dom() == env0.vars().dom(),
    ensures
        stmt_post(s, env0, env1, r),
{
}

/// A block whose statements all end normally without a value meets
/// `stmt_post`.
proof fn lemma_block_ends(s: CheckedStmt, env0: Environment, env1: Environment, el: Environment)
    requires
        s.stmt matches Statement::Block { seq } && runs_through(seq@, env0, el),
        env1.vars() == el.vars().restrict(env0.vars().dom()),
        env1.vars().dom() == env0.vars().dom(),
    ensures
        stmt_post(s, env0, env1, Ok::<Option<Value>, RuntimeError>(None)),
{
}

impl<'a, H: Host> Interpreter<'a, H> {
    /// Executes a statement.
    ///
    /// A declaration binds its name to the value of its initialiser (for a
    /// tagged type, the value `build_aggregate_value` makes of it); an
    /// assignment stores into a declared variable, an element of an array
    /// variable or a field of an aggregate variable; a block runs its
    /// statements in order and then drops the names they declared; `if`
    /// and `while` need a boolean condition; `assert` fails when its
    /// condition is false; `return` ends the enclosing function.
    #[verifier::loop_isolation(false)]
    pub fn exec_stmt(&mut self, s: &CheckedStmt, env: &mut Environment) -> (r: ExecResult)
        requires
            old(self).globals.wf(),
            old(env).wf(),
        ensures
            final(env).wf(),
            final(self).program == old(self).program,
            final(self).globals == old(self).globals,
            final(self).fuel <= old(self).fuel,
            stmt_post(*s, *old(env), *final(env), r),
        decreases old(self).fuel, stmt_nodes(*s), 1int,
    {
        match &s.stmt {
            Statement::Decl { name, ty, init } | Statement::ConstDecl { name, ty, init } => {
                let init_val = self.eval_expr(init, env)?;
                let stored = match ty {
                    Type::Tagged { tag_type, tag_name } => self.build_aggregate_value(*tag_type, tag_name, init_val)?,
                    _ => init_val,
                };
                env.declare(name.clone(), stored);
                Ok(None)
            },
            Statement::Assign { target, value } => {
                let val = self.eval_expr(value, env)?;
                self.assign_lvalue(target, val, env)?;
                Ok(None)
            },
            Statement::Block { seq } => {
                let outer = env.names();
                let ghost start = *old(env);
                let mut i: usize = 0;
                while i < seq.len()
                    invariant
                        i <= seq.len(),
                        env.wf(),
                        self.globals.wf(),
                        self.program == old(self).program,
                        self.globals == old(self).globals,
                        self.fuel <= old(self).fuel,
                        start.vars().dom().subset_of(env.vars().dom()),
                        forall|k: Seq<char>| start.vars().contains_key(k) <==> in_names(outer@, k),
                        stmts_nodes(seq@) + 1 == stmt_nodes(*s),
                        runs_through(seq@.take(i as int), start, *env),
                    decreases seq.len() - i,
                {
                    proof {
                        lemma_stmts_nodes_step(seq@, i as int);
                        lemma_stmts_nodes_split(seq@, i + 1);
                    }
                    let ghost em = *env;
                    let res = self.exec_stmt(&seq[i], env);
                    let ghost el = *env;
                    match res {
                        Err(e) => {
                            proof {
                                lemma_block_stops(*s, start, el, Err::<Option<Value>, RuntimeError>(e), i as int, em, el);
                            }
                            return Err(e);
                        },
                        Ok(Some(ret)) => {
                            env.remove_new(&outer);
                            proof {
                                assert(env.vars().dom() =~= start.vars().dom());
                                assert(Set::new(|k: Seq<char>| in_names(outer@, k)) =~= start.vars().dom());
                                lemma_block_stops(*s, start, *env, Ok::<Option<Value>, RuntimeError>(Some(ret)), i as int, em, el);
                            }
                            return Ok(Some(ret));
                        },
                        Ok(None) => {
                            proof {
                                let t = seq@.take(i + 1);
                                assert(t.drop_last() =~= seq@.take(i as int));
                                assert(t.last() == seq@[i as int]);
                                assert(runs_through(t.drop_last(), start, em));
                                assert(runs_through(t, start, el));
                            }
                        },
                    }
                    i = i + 1;
                }
                let ghost last = *env;
                env.remove_new(&outer);
                proof {
                    assert(env.vars().dom() =~= start.vars().dom());
                    assert(Set::new(|k: Seq<char>| in_names(outer@, k)) =~= start.vars().dom());
                    assert(seq@.take(i as int) =~= seq@);
                    lemma_block_ends(*s, start, *env, last);
                }
                Ok(None)
            },
            Statement::If { cond, then_branch, else_branch } => match self.eval_expr(cond, env)? {
                Value::Bool(true) => self.exec_stmt(then_branch, env),
                Value::Bool(false) => match else_branch {
                    Some(eb) => self.exec_stmt(eb, env),
                    None => Ok(None),
                },
                _ => Err(RuntimeError::new("if condition must be bool")),
            },
            Statement::While { cond, body } => {
                let ghost start = *old(env);
                let ghost mut first = true;
                let ghost mut tr: Seq<Environment> = seq![*env];
                loop
                    invariant
                        env.wf(),
                        self.globals.wf(),
                        self.program == old(self).program,
                        self.globals == old(self).globals,
                        self.fuel <= old(self).fuel,
                        start.vars().dom().subset_of(env.vars().dom()),
                        start == *old(env),
                        first ==> *env == start,
                        !first ==> !pure_fails(**cond, start.vars()) && (pure_value(**cond, start.vars()) is None
                            || pure_value(**cond, start.vars()) == Some(Value::Bool(true))),
                        loop_trace(**cond, **body, tr),
                        tr[0] == start,
                        tr.last() == *env,
                    decreases self.fuel,
                {
                    let ghost em = *env;
                    match self.eval_expr(cond, env)? {
                        Value::Bool(true) => {
                            proof { first = false; }
                            assert(cond_allows(**cond, em));
                            self.step()?;
                            let res = self.exec_stmt(body, env);
                            let ghost el = *env;
                            match res {
                                Err(e) => { return Err(e); },
                                Ok(Some(ret)) => {
                                    proof {
                                        assert(stmt_post(**body, em, el, Ok::<Option<Value>, RuntimeError>(Some(ret))));
                                        assert(tr.len() >= 1);
                                    }
                                    return Ok(Some(ret));
                                },
                                Ok(None) => {
                                    proof {
                                        let old_tr = tr;
                                        tr = tr.push(el);
                                        assert forall|k: int| 0 <= k < tr.len() - 1 implies cond_allows(**cond, #[trigger] tr[k])
                                            && stmt_post(**body, tr[k], tr[k + 1], Ok::<Option<Value>, RuntimeError>(None)) by {
                                            if k < old_tr.len() - 1 {
                                                assert(tr[k] == old_tr[k] && tr[k + 1] == old_tr[k + 1]);
                                                assert(cond_allows(**cond, old_tr[k]));
                                            } else {
                                                assert(tr[k] == em && tr[k + 1] == el);
                                            }
                                        }
                                    }
                                },
                            }
                        },
                        Value::Bool(false) => {
                            proof { assert(tr.len() >= 1); }
                            return Ok(None);
                        },
                        _ => { return Err(RuntimeError::new("while condition must be bool")); },
                    }
                }
            },
            Statement::Return(Some(expr)) => {
                let val = self.eval_expr(expr, env)?;
                Ok(Some(val))
            },
            Statement::Return(None) => Ok(Some(Value::Void)),
            Statement::Call { name, args } => {
                let vals = self.eval_arg_list(args, env, Ghost(stmt_nodes(*s)))?;
                self.eval_call(name, vals, env)?;
                Ok(None)
            },
            Statement::Assert(expr) => match self.eval_expr(expr, env)? {
                Value::Bool(true) => Ok(None),
                Value::Bool(false) => Err(RuntimeError::new("assertion failed")),
                _ => Err(RuntimeError::new("assert condition must be bool")),
            },
        }
    }

    /// Evaluates the arguments of a call statement.
    fn eval_arg_list(&mut self, args: &Vec<CheckedExpr>, env: &Environment, Ghost(whole): Ghost<nat>) -> (r: Result<Vec<Value>, RuntimeError>)
        requires
            old(self).globals.wf(),
            env.wf(),
            whole == 1 + exprs_nodes(args@),
        ensures
            final(self).program == old(self).program,
            final(self).globals == old(self).globals,
            final(self).fuel <= old(self).fuel,
        decreases old(self).fuel, whole, 0int,
    {
        let mut vals: Vec<Value> = Vec::new();
        let mut i: usize = 0;
        while i < args.len()
            invariant
                i <= args.len(),
                self.globals.wf(),
                env.wf(),
                self.program == old(self).program,
                self.globals == old(self).globals,
                self.fuel <= old(self).fuel,
                whole == 1 + exprs_nodes(args@),
            decreases args.len() - i,
        {
            proof {
                lemma_exprs_nodes_step(args@, i as int);
                lemma_exprs_nodes_split(args@, i + 1);
            }
            let v = self.eval_expr(&args[i], env)?;
            vals.push(v);
            i = i + 1;
        }
        Ok(vals)
    }

    /// Stores `val` into the place `target` names: a declared variable, an
    /// element of an array variable (or of an array element of one), or a
    /// field of an aggregate variable. Fails where the place does not exist.
    pub fn assign_lvalue(&mut self, target: &CheckedExpr, val: Value, env: &mut Environment) -> (r: Result<(), RuntimeError>)
        requires
            old(self).globals.wf(),
            old(env).wf(),
        ensures
            final(env).wf(),
            final(self).program == old(self).program,
            final(self).globals == old(self).globals,
            final(self).fuel <= old(self).fuel,
            final(env).vars().dom() == old(env).vars().dom(),
            r is Err ==> final(env).vars() == old(env).vars(),
            target.exp matches Expr::Ident(n) ==> (r is Ok <==> old(env).vars().contains_key(n@)),
            target.exp matches Expr::Ident(n) ==> (r is Ok ==> final(env).vars() == old(env).vars().insert(n@, val)),
            target.exp matches Expr::Ident(n) ==> (r matches Err(e) ==>
                e.message@ == "assignment to undeclared variable '"@ + n@ + "'"@),
            target.exp matches Expr::Index { base, index } ==> (base.exp matches Expr::Ident(n) ==>
                (pure_value(*index, old(env).vars()) matches Some(Value::Int(i)) ==>
                    ((r is Ok <==> (old(env).vars().contains_key(n@)
                        && (old(env).vars()[n@] matches Value::Array(items) && 0 <= i < items.len())))
                    && (r is Ok ==> (old(env).vars()[n@] matches Value::Array(items)
                        && final(env).vars()[n@] matches Value::Array(items2) && items2@ == items@.update(i as int, val)
                        && final(env).vars() == old(env).vars().insert(n@, final(env).vars()[n@])))))),
            target.exp matches Expr::Index { index, .. } ==> (pure_fails(*index, old(env).vars()) ==> r is Err),
            target.exp matches Expr::Member { base, .. } ==> (base.exp matches Expr::Ident(n) ==>
                (r is Ok <==> (old(env).vars().contains_key(n@)
                    && (old(env).vars()[n@] is Struct || old(env).vars()[n@] is Union)))),
            !(target.exp is Ident || target.exp is Index || target.exp is Member) ==> r is Err,
        decreases old(self).fuel, expr_nodes(*target), 1int,
    {
        match &target.exp {
            Expr::Ident(name) => {
                if env.set(name.as_str(), val) {
                    Ok(())
                } else {
                    Err(RuntimeError::named("assignment to undeclared variable '", name.as_str(), "'"))
                }
            },
            Expr::Index { base, index } => {
                let idx = match self.eval_expr(index, env)? {
                    Value::Int(i) => i,
                    _ => { return Err(RuntimeError::new("array index must be int")); },
                };
                self.assign_index(base, idx, val, env)
            },
            Expr::Member { base, member } => assign_member(base, member, val, env),
            _ => Err(RuntimeError::new("invalid assignment target")),
        }
    }

    /// Stores `val` at index `idx` of the array that `base` names: an
    /// array variable, or an element of an array variable.
    pub fn assign_index(&mut self, base: &CheckedExpr, idx: i64, val: Value, env: &mut Environment) -> (r: Result<(), RuntimeError>)
        requires
            old(self).globals.wf(),
            old(env).wf(),
        ensures
            final(env).wf(),
            final(self).program == old(self).program,
            final(self).globals == old(self).globals,
            final(self).fuel <= old(self).fuel,
            final(env).vars().dom() == old(env).vars().dom(),
            r is Err ==> final(env).vars() == old(env).vars(),
            base.exp matches Expr::Ident(n) ==> (r is Ok <==> (old(env).vars().contains_key(n@)
                && (old(env).vars()[n@] matches Value::Array(items) && 0 <= idx < items.len()))),
            base.exp matches Expr::Ident(n) ==> (!old(env).vars().contains_key(n@) ==> (r matches Err(e)
                && e.message@ == "undefined variable '"@ + n@ + "'"@)),
            base.exp matches Expr::Ident(n) ==> (old(env).vars().contains_key(n@) ==> (old(env).vars()[n@] matches Value::Array(items)
                ==> (!(0 <= idx < items.len()) ==> (r matches Err(e) && e.message@ == "array index "@ + decimal(idx as u64 as nat)
                + " out of bounds (len "@ + decimal(items.len() as nat) + ")"@)))),
            base.exp matches Expr::Ident(n) ==> (r is Ok ==> (old(env).vars()[n@] matches Value::Array(items)
                && final(env).vars()[n@] matches Value::Array(items2) && items2@ == items@.update(idx as int, val)
                && final(env).vars() == old(env).vars().insert(n@, final(env).vars()[n@]))),
            base.exp matches Expr::Index { base: ib, index: ii } ==> (ib.exp matches Expr::Ident(n) ==>
                (pure_value(*ii, old(env).vars()) matches Some(Value::Int(j)) ==>
                    ((r is Ok <==> (old(env).vars().contains_key(n@) && nested_slot_fits(old(env).vars()[n@], j as int, idx as int)))
                    && (r is Ok ==> nested_store(old(env).vars()[n@], final(env).vars()[n@], j as int, idx as int, val)
                        && final(env).vars() == old(env).vars().insert(n@, final(env).vars()[n@]))))),
            base.exp matches Expr::Index { index: ii, .. } ==> (pure_fails(*ii, old(env).vars()) ==> r is Err),
            base.exp matches Expr::Index { base: ib, index: ii } ==> (ib.exp matches Expr::Ident(n) ==>
                (pure_value(*ii, old(env).vars()) matches Some(Value::Int(j)) ==> (
                    (!old(env).vars().contains_key(n@) ==> (r matches Err(e) && e.message@ == "undefined variable '"@ + n@ + "'"@))
                    && (old(env).vars().contains_key(n@) ==> (old(env).vars()[n@] matches Value::Array(items) ==> (
                        (!(0 <= j < items.len()) ==> (r matches Err(e) && e.message@ == "array index "@ + decimal(j as u64 as nat)
                            + " out of bounds (len "@ + decimal(items.len() as nat) + ")"@))
                        && (0 <= j < items.len() ==> (items@[j as int] matches Value::Array(inner) ==> (!(0 <= idx < inner.len())
                            ==> (r matches Err(e) && e.message@ == "array index "@ + decimal(idx as u64 as nat)
                            + " out of bounds (len "@ + decimal(inner.len() as nat) + ")"@)))))))))),
        decreases old(self).fuel, expr_nodes(*base), 1int,
    {
        match &base.exp {
            Expr::Ident(name) => {
                let arr = match env.take(name.as_str()) {
                    Some(v) => v,
                    None => { return Err(RuntimeError::named("undefined variable '", name.as_str(), "'")); },
                };
                match arr {
                    Value::Array(mut elems) => {
                        if idx < 0 || idx as u64 >= elems.len() as u64 {
                            let len = elems.len() as u64;
                            let _ = env.set(name.as_str(), Value::Array(elems));
                            proof { assert(env.vars() =~= old(env).vars()); }
                            return Err(RuntimeError::index_out_of_bounds(idx as u64, len));
                        }
                        elems.set(idx as usize, val);
                        let _ = env.set(name.as_str(), Value::Array(elems));
                        proof { assert(env.vars() =~= old(env).vars().insert(name@, env.vars()[name@])); }
                        Ok(())
                    },
                    other => {
                        let _ = env.set(name.as_str(), other);
                        proof { assert(env.vars() =~= old(env).vars()); }
                        Err(RuntimeError::new("cannot index non-array value"))
                    },
                }
            },
            Expr::Index { base: inner_base, index: inner_index } => {
                let inner_idx = match self.eval_expr(inner_index, env)? {
                    Value::Int(i) => i,
                    _ => { return Err(RuntimeError::new("array index must be int")); },
                };
                let outer_name = match &inner_base.exp {
                    Expr::Ident(n) => n,
                    _ => { return Err(RuntimeError::new("nested array assignment only supported for simple variable bases")); },
                };
                let outer = match env.take(outer_name.as_str()) {
                    Some(v) => v,
                    None => { return Err(RuntimeError::named("undefined variable '", outer_name.as_str(), "'")); },
                };
                match outer {
                    Value::Array(mut outer_elems) => {
                        if inner_idx < 0 || inner_idx as u64 >= outer_elems.len() as u64 {
                            let len = outer_elems.len() as u64;
                            let _ = env.set(outer_name.as_str(), Value::Array(outer_elems));
                            proof { assert(env.vars() =~= old(env).vars()); }
                            return Err(RuntimeError::index_out_of_bounds(inner_idx as u64, len));
                        }
                        let slot = inner_idx as usize;
                        let inner_len: Option<u64> = match &outer_elems[slot] {
                            Value::Array(inner_elems) => Some(inner_elems.len() as u64),
                            _ => None,
                        };
                        let fits = match inner_len {
                            Some(n) => 0 <= idx && (idx as u64) < n,
                            None => false,
                        };
                        if !fits {
                            let _ = env.set(outer_name.as_str(), Value::Array(outer_elems));
                            proof { assert(env.vars() =~= old(env).vars()); }
                            return match inner_len {
                                Some(n) => Err(RuntimeError::index_out_of_bounds(idx as u64, n)),
                                None => Err(RuntimeError::new("cannot index non-array value")),
                            };
                        }
                        let ghost items = outer_elems@;
                        let inner = outer_elems.remove(slot);
                        match inner {
                            Value::Array(mut inner_elems) => {
                                inner_elems.set(idx as usize, val);
                                outer_elems.insert(slot, Value::Array(inner_elems));
                                proof {
                                    assert(outer_elems@ =~= items.update(slot as int, Value::Array(inner_elems)));
                                }
                            },
                            other => {
                                outer_elems.insert(slot, other);
                            },
                        }
                        let _ = env.set(outer_name.as_str(), Value::Array(outer_elems));
                        proof {
                            assert(env.vars().dom() =~= old(env).vars().dom());
                            assert(env.vars() =~= old(env).vars().insert(outer_name@, env.vars()[outer_name@]));
                        }
                        Ok(())
                    },
                    other => {
                        let _ = env.set(outer_name.as_str(), other);
                        proof { assert(env.vars() =~= old(env).vars()); }
                        Err(RuntimeError::new("cannot index non-array value"))
                    },
                }
            },
            _ => Err(RuntimeError::new("invalid assignment target")),
        }
    }
}

/// `v` is an array whose element `j` is an array with an element `idx`.
pub open spec fn nested_slot_fits(v: Value, j: int, idx: int) -> bool {
    v matches Value::Array(items) && 0 <= j < items@.len()
        && (items@[j] matches Value::Array(inner) && 0 <= idx < inner@.len())
}

/// `after` is the array `before` with element `idx` of its element `j`
/// replaced by `val`.
pub open spec fn nested_store(before: Value, after: Value, j: int, idx: int, val: Value) -> bool {
    before matches Value::Array(items) && after matches Value::Array(items2)
        && items2@.len() == items@.len()
        && (forall|k: int| 0 <= k < items@.len() && k != j ==> items2@[k] == items@[k])
        && (items@[j] matches Value::Array(inner) && items2@[j] matches Value::Array(inner2)
            && inner2@ == inner@.update(idx, val))
}

/// Stores `val` into field `member` of the aggregate variable `base`: a
/// struct gets the field set (added where it is missing); a union gets
/// `member` as its active field, holding `val`.
pub fn assign_member(base: &CheckedExpr, member: &String, val: Value, env: &mut Environment) -> (r: Result<(), RuntimeError>)
    requires
        old(env).wf(),
    ensures
        final(env).wf(),
        final(env).vars().dom() == old(env).vars().dom(),
        r is Err ==> final(env).vars() == old(env).vars(),
        !(base.exp is Ident) ==> (r matches Err(e) && e.message@ == "member assignment currently requires a simple variable base"@),
        base.exp matches Expr::Ident(n) ==> (!old(env).vars().contains_key(n@) ==> (r matches Err(e)
            && e.message@ == "undefined variable '"@ + n@ + "'"@)),
        base.exp matches Expr::Ident(n) ==> (r is Ok <==> (old(env).vars().contains_key(n@)
            && (old(env).vars()[n@] is Struct || old(env).vars()[n@] is Union))),
        base.exp matches Expr::Ident(n) ==> (r is Ok ==> final(env).vars() == old(env).vars().insert(n@, final(env).vars()[n@])),
        base.exp matches Expr::Ident(n) ==> (r is Ok && old(env).vars()[n@] is Union ==> (final(env).vars()[n@] matches Value::Union {
            identifier, active_field, value } && identifier@ == old(env).vars()[n@]->Union_identifier@ && active_field@ == member@
            && *value == val)),
        base.exp matches Expr::Ident(n) ==> (r is Ok && old(env).vars()[n@] is Struct ==> (final(env).vars()[n@] matches Value::Struct {
            identifier, fields } && identifier@ == old(env).vars()[n@]->Struct_identifier@
            && field_put(old(env).vars()[n@]->Struct_fields@, fields@, member@, val))),
{
    match &base.exp {
        Expr::Ident(name) => {
            let current = match env.take(name.as_str()) {
                Some(v) => v,
                None => { return Err(RuntimeError::named("undefined variable '", name.as_str(), "'")); },
            };
            let updated = match current {
                Value::Struct { identifier, mut fields } => {
                    put_field(&mut fields, member.as_str(), val);
                    Value::Struct { identifier, fields }
                },
                Value::Union { identifier, .. } => Value::Union {
                    identifier,
                    active_field: member.clone(),
                    value: Box::new(val),
                },
                other => {
                    let _ = env.set(name.as_str(), other);
                    proof { assert(env.vars() =~= old(env).vars()); }
                    return Err(RuntimeError::new("cannot assign member on non-aggregate value"));
                },
            };
            let _ = env.set(name.as_str(), updated);
            proof { assert(env.vars() =~= old(env).vars().insert(name@, env.vars()[name@])); }
            Ok(())
        },
        _ => {
            proof { reveal_strlit("member assignment currently requires a simple variable base"); }
            Err(RuntimeError::new("member assignment currently requires a simple variable base"))
        },
    }
}

/// The name of a field member (empty for an enumerator).
pub open spec fn member_name(m: Member) -> Seq<char> {
    match m {
        Member::Field(d) => d.name@,
        Member::Enumerator { .. } => Seq::empty(),
    }
}

/// `name` is the name of a field among `members`.
pub open spec fn is_field_name(members: Seq<Member>, name: Seq<char>) -> bool {
    exists|mi: int| 0 <= mi < members.len() && (#[trigger] members[mi]) is Field && member_name(members[mi]) == name
}

/// `fields` holds, in order, one entry for each distinct field name of
/// `members` (a name declared twice keeps its first place).
pub open spec fn struct_fields(members: Seq<Member>, fields: Seq<(String, Value)>) -> bool {
    &&& forall|fi: int| 0 <= fi < fields.len() ==> is_field_name(members, (#[trigger] fields[fi]).0@)
    &&& forall|mi: int| 0 <= mi < members.len() ==> ((#[trigger] members[mi]) is Field ==> has_field(fields, member_name(members[mi])))
    &&& forall|fa: int, fb: int| 0 <= fa < fb < fields.len() ==> fields[fa].0@ != fields[fb].0@
}

/// The type of the last field named `name` among `members` (`Unit` where
/// there is none).
pub open spec fn last_field_ty(members: Seq<Member>, name: Seq<char>) -> Type
    decreases members.len(),
{
    if members.len() == 0 {
        Type::Unit
    } else {
        match members.last() {
            Member::Field(d) => if d.name@ == name { d.ty } else { last_field_ty(members.drop_last(), name) },
            _ => last_field_ty(members.drop_last(), name),
        }
    }
}

/// `v` is the value a fresh variable of type `ty` starts with: zero,
/// `false`, the empty string or array, or an aggregate of that name (an
/// enum at its first value).
pub open spec fn default_shape(ty: Type, v: Value) -> bool {
    match ty {
        Type::Unit => v == Value::Void,
        Type::Int => v == Value::Int(0),
        Type::Float => v == Value::Float(0),
        Type::Bool => v == Value::Bool(false),
        Type::Str => v matches Value::Str(s) && s@.len() == 0,
        Type::Array(_) => v matches Value::Array(a) && a@.len() == 0,
        Type::Tagged { tag_type, tag_name } => match tag_type {
            TagType::Struct => v matches Value::Struct { identifier, .. } && identifier@ == tag_name@,
            TagType::Union => v matches Value::Union { identifier, .. } && identifier@ == tag_name@,
            TagType::Enum => v matches Value::Enum { identifier, value } && identifier@ == tag_name@ && value == 0,
        },
        _ => false,
    }
}

/// Each field of `fields` holds the starting value of the type its name
/// was last declared with among `members`.
pub open spec fn field_defaults(members: Seq<Member>, fields: Seq<(String, Value)>) -> bool {
    forall|fi: int| 0 <= fi < fields.len() ==> default_shape(last_field_ty(members, (#[trigger] fields[fi]).0@), fields[fi].1)
}

/// The type of the first field among `members`.
pub open spec fn first_field_ty(members: Seq<Member>) -> Type {
    match first_field(members) {
        Some(k) => match members[k] {
            Member::Field(d) => d.ty,
            _ => Type::Unit,
        },
        None => Type::Unit,
    }
}

/// After `field_put`, the entries of other names come from before, and
/// the entries named `name` hold `value` (names being distinct before).
proof fn lemma_field_put_entries(before: Seq<(String, Value)>, after: Seq<(String, Value)>, name: Seq<char>, value: Value)
    requires
        field_put(before, after, name, value),
        forall|fa: int, fb: int| 0 <= fa < fb < before.len() ==> before[fa].0@ != before[fb].0@,
    ensures
        forall|j: int| 0 <= j < after.len() && after[j].0@ != name ==> exists|i: int| 0 <= i < before.len() && #[trigger] before[i] == after[j],
        forall|j: int| 0 <= j < after.len() && after[j].0@ == name ==> #[trigger] after[j].1 == value,
{
    if has_field(before, name) {
        let k = choose|k: int| 0 <= k < before.len() && before[k].0@ == name && after[k].0@ == name
            && (forall|j: int| 0 <= j < k ==> before[j].0@ != name)
            && after == before.update(k, (#[trigger] after[k].0, value));
        assert forall|j: int| 0 <= j < after.len() && after[j].0@ != name implies exists|i: int| 0 <= i < before.len() && #[trigger] before[i] == after[j] by {
            assert(before[j] == after[j]);
        }
        assert forall|j: int| 0 <= j < after.len() && after[j].0@ == name implies #[trigger] after[j].1 == value by {
            if j != k {
                assert(after[j] == before[j]);
                if j < k {
                    assert(before[j].0@ != before[k].0@);
                } else {
                    assert(before[k].0@ != before[j].0@);
                }
            }
        }
    } else {
        assert forall|j: int| 0 <= j < after.len() && after[j].0@ != name implies exists|i: int| 0 <= i < before.len() && #[trigger] before[i] == after[j] by {
            assert(j < before.len());
            assert(after[j] == after.subrange(0, before.len() as int)[j]);
        }
        assert forall|j: int| 0 <= j < after.len() && after[j].0@ == name implies #[trigger] after[j].1 == value by {
            if j < before.len() {
                assert(after[j] == after.subrange(0, before.len() as int)[j]);
                assert(!has_field(before, name));
                assert(before[j].0@ == name);
            }
        }
    }
}

proof fn lemma_field_defaults_push(members: Seq<Member>, k: int, before: Seq<(String, Value)>, after: Seq<(String, Value)>)
    requires
        0 <= k < members.len(),
        field_defaults(members.subrange(0, k), before),
        members[k] matches Member::Field(d) ==> (forall|j: int| 0 <= j < after.len() && after[j].0@ != d.name@ ==> exists|i: int|
                0 <= i < before.len() && #[trigger] before[i] == after[j])
            && (forall|j: int| 0 <= j < after.len() && after[j].0@ == d.name@ ==> default_shape(d.ty, #[trigger] after[j].1)),
        members[k] is Enumerator ==> after == before,
    ensures
        field_defaults(members.subrange(0, k + 1), after),
{
    let m0 = members.subrange(0, k);
    let m1 = members.subrange(0, k + 1);
    assert(m1.drop_last() =~= m0);
    assert(m1.last() == members[k]);
    assert forall|fi: int| 0 <= fi < after.len() implies default_shape(last_field_ty(m1, (#[trigger] after[fi]).0@), after[fi].1) by {
        let n = after[fi].0@;
        match members[k] {
            Member::Field(d) => {
                if d.name@ != n {
                    let i = choose|i: int| 0 <= i < before.len() && #[trigger] before[i] == after[fi];
                    assert(default_shape(last_field_ty(m0, before[i].0@), before[i].1));
                }
            },
            _ => {
                assert(after[fi] == before[fi]);
            },
        }
    }
}

/// `name` is the name of the first field among `members`.
pub open spec fn union_field(members: Seq<Member>, name: Seq<char>) -> bool {
    match first_field(members) {
        Some(k) => member_name(members[k]) == name,
        None => false,
    }
}

/// Index of the first field among `members`.
pub open spec fn first_field(members: Seq<Member>) -> Option<int>
    decreases members.len(),
{
    if members.len() == 0 {
        None
    } else if members[0] is Field {
        Some(0)
    } else {
        match first_field(members.drop_first()) {
            Some(k) => Some(k + 1),
            None => None,
        }
    }
}

proof fn lemma_first_field(members: Seq<Member>, k: int)
    requires
        0 <= k < members.len(),
        members[k] is Field,
        forall|j: int| 0 <= j < k ==> !(#[trigger] members[j] is Field),
    ensures
        first_field(members) == Some(k),
    decreases k,
{
    if k > 0 {
        assert(!(members[0] is Field));
        assert forall|j: int| 0 <= j < k - 1 implies !(#[trigger] members.drop_first()[j] is Field) by {
            assert(members.drop_first()[j] == members[j + 1]);
        }
        lemma_first_field(members.drop_first(), k - 1);
    }
}

proof fn lemma_struct_fields_push(members: Seq<Member>, k: int, before: Seq<(String, Value)>, after: Seq<(String, Value)>)
    requires
        0 <= k < members.len(),
        struct_fields(members.subrange(0, k), before),
        members[k] is Field ==> (
            (has_field(before, member_name(members[k])) ==> after.len() == before.len() && exists|i: int| 0 <= i < before.len()
                && before[i].0@ == member_name(members[k]) && after[i].0@ == member_name(members[k])
                && after == before.update(i, (#[trigger] after[i].0, after[i].1)))
            && (!has_field(before, member_name(members[k])) ==> after.len() == before.len() + 1
                && after.subrange(0, before.len() as int) == before && after.last().0@ == member_name(members[k]))),
        members[k] is Enumerator ==> after == before,
    ensures
        struct_fields(members.subrange(0, k + 1), after),
{
    let m0 = members.subrange(0, k);
    let m1 = members.subrange(0, k + 1);
    assert forall|j: int| 0 <= j < k implies m1[j] == m0[j] by {}
    assert(m1[k] == members[k]);
    let nm = member_name(members[k]);
    // every name in `after` is a name in `before` or the new field's name
    assert forall|a: int| 0 <= a < after.len() implies (exists|c: int| 0 <= c < before.len() && (#[trigger] before[c]).0@ == after[a].0@)
        || (members[k] is Field && after[a].0@ == nm) by {
        if members[k] is Field {
            if has_field(before, nm) {
                let i = choose|i: int| 0 <= i < before.len() && before[i].0@ == nm && after[i].0@ == nm
                    && after == before.update(i, (#[trigger] after[i].0, after[i].1));
                if a != i {
                    assert(before[a].0@ == after[a].0@);
                }
            } else {
                if a < before.len() {
                    assert(after[a] == after.subrange(0, before.len() as int)[a]);
                    assert(before[a].0@ == after[a].0@);
                }
            }
        } else {
            assert(before[a].0@ == after[a].0@);
        }
    }
    // every name in `before` is still in `after`
    assert forall|c: int| 0 <= c < before.len() implies has_field(after, (#[trigger] before[c]).0@) by {
        if members[k] is Field && has_field(before, nm) {
            let i = choose|i: int| 0 <= i < before.len() && before[i].0@ == nm && after[i].0@ == nm
                && after == before.update(i, (#[trigger] after[i].0, after[i].1));
            if c == i {
                assert(after[i].0@ == before[c].0@);
            } else {
                assert(after[c].0@ == before[c].0@);
            }
        } else if members[k] is Field {
            assert(after[c] == after.subrange(0, before.len() as int)[c]);
        } else {
            assert(after[c] == before[c]);
        }
    }
    assert forall|a: int| 0 <= a < after.len() implies is_field_name(m1, (#[trigger] after[a]).0@) by {
        if members[k] is Field && after[a].0@ == nm {
            assert(m1[k] is Field && member_name(m1[k]) == after[a].0@);
        } else {
            let c = choose|c: int| 0 <= c < before.len() && (#[trigger] before[c]).0@ == after[a].0@;
            assert(is_field_name(m0, before[c].0@));
            let j = choose|j: int| 0 <= j < m0.len() && (#[trigger] m0[j]) is Field && member_name(m0[j]) == before[c].0@;
            assert(m1[j] == m0[j]);
        }
    }
    assert forall|j: int| 0 <= j < m1.len() && (#[trigger] m1[j]) is Field implies has_field(after, member_name(m1[j])) by {
        {
            if j == k {
                if has_field(before, nm) {
                    let i = choose|i: int| 0 <= i < before.len() && before[i].0@ == nm && after[i].0@ == nm
                        && after == before.update(i, (#[trigger] after[i].0, after[i].1));
                    assert(after[i].0@ == nm);
                } else {
                    assert(after[before.len() as int].0@ == nm);
                }
            } else {
                assert(m0[j] == m1[j]);
                let c = choose|c: int| 0 <= c < before.len() && (#[trigger] before[c]).0@ == member_name(m1[j]);
            }
        }
    }
    assert forall|a: int, b: int| 0 <= a < b < after.len() implies after[a].0@ != after[b].0@ by {
        if members[k] is Field && has_field(before, nm) {
            let i = choose|i: int| 0 <= i < before.len() && before[i].0@ == nm && after[i].0@ == nm
                && after == before.update(i, (#[trigger] after[i].0, after[i].1));
            assert(after[a].0@ == before[a].0@);
            assert(after[b].0@ == before[b].0@);
        } else if members[k] is Field {
            let n = before.len() as int;
            assert(after[a] == after.subrange(0, n)[a]);
            if b < n {
                assert(after[b] == after.subrange(0, n)[b]);
            } else if after[a].0@ == after[b].0@ {
                assert(has_field(before, nm));
            }
        } else {
            assert(after[a] == before[a]);
            assert(after[b] == before[b]);
        }
    }
}

} // verus!
