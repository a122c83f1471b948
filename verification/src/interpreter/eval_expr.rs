//! Evaluation of expressions and calls of functions.
//!
//! Integers are 64-bit; an arithmetic result out of range, and a division
//! by zero, are run-time errors. When either operand of an arithmetic or
//! comparison operator is a float, both are taken as floats and the
//! operation is the host's. `&&` and `||` evaluate their right operand
//! only when the left one does not decide. A call runs the callee in an
//! environment made of the globals and its parameters, so it never changes
//! the caller's variables.
use vstd::prelude::*;
use crate::codegen::counts::{expr_nodes, exprs_nodes, lemma_exprs_nodes_split, lemma_exprs_nodes_step};
use crate::environment::Environment;
use crate::interpreter::exec_stmt::{field_value, first_named, lemma_field_value_at, stmt_post, ArithOp, ExecResult, FloatOp, Host, Interpreter, Relation};
use crate::interpreter::value::{lemma_val_eq_trans, val_eq, FnValue, RuntimeError, Value};
use crate::ir::ast::{CheckedExpr, CheckedProgram, Expr, IdentifierDecl, Literal};
use crate::semantic::program::find_function;

use crate::stdlib::string::{call_pure_native, is_pure_native, pure_native, pure_native_result};
verus! {

/// `x op y` on 64-bit integers; `None` when out of range or dividing by zero.
pub open spec fn int_arith(op: ArithOp, x: i64, y: i64) -> Option<i64> {
    match op {
        ArithOp::Add => x.checked_add(y),
        ArithOp::Sub => x.checked_sub(y),
        ArithOp::Mul => x.checked_mul(y),
        ArithOp::Div => x.checked_div(y),
    }
}

/// `x rel y` on integers.
pub open spec fn int_relation(rel: Relation, x: int, y: int) -> bool {
    match rel {
        Relation::Lt => x < y,
        Relation::Le => x <= y,
        Relation::Gt => x > y,
        Relation::Ge => x >= y,
        Relation::Eq => x == y,
        Relation::Ne => x != y,
    }
}

fn is_number(v: &Value) -> (r: bool)
    ensures
        r == (v is Int || v is Float),
{
    match v {
        Value::Int(_) | Value::Float(_) => true,
        _ => false,
    }
}

/// The value of an integer or boolean expression over integer and boolean
/// variables: literals, names, `-`, `+ - * /` (checked 64-bit), comparisons,
/// `!`, and `&&`/`||` evaluated left to right with short-circuit. `None`
/// where the expression is not of that kind or its evaluation fails.
pub open spec fn pure_value(e: CheckedExpr, vars: Map<Seq<char>, Value>) -> Option<Value>
    decreases e,
{
    match e.exp {
        Expr::Literal(Literal::Int(n)) => Some(Value::Int(n)),
        Expr::Literal(Literal::Bool(b)) => Some(Value::Bool(b)),
        Expr::Ident(n) => if vars.contains_key(n@) && (vars[n@] is Int || vars[n@] is Bool) {
            Some(vars[n@])
        } else {
            None
        },
        Expr::Neg(x) => match pure_value(*x, vars) {
            Some(Value::Int(n)) => if n == i64::MIN { None } else { Some(Value::Int((-n) as i64)) },
            _ => None,
        },
        Expr::Add(l, r) => arith_value(ArithOp::Add, pure_value(*l, vars), pure_value(*r, vars)),
        Expr::Sub(l, r) => arith_value(ArithOp::Sub, pure_value(*l, vars), pure_value(*r, vars)),
        Expr::Mul(l, r) => arith_value(ArithOp::Mul, pure_value(*l, vars), pure_value(*r, vars)),
        Expr::Div(l, r) => arith_value(ArithOp::Div, pure_value(*l, vars), pure_value(*r, vars)),
        Expr::Lt(l, r) => relation_value(Relation::Lt, pure_value(*l, vars), pure_value(*r, vars)),
        Expr::Le(l, r) => relation_value(Relation::Le, pure_value(*l, vars), pure_value(*r, vars)),
        Expr::Gt(l, r) => relation_value(Relation::Gt, pure_value(*l, vars), pure_value(*r, vars)),
        Expr::Ge(l, r) => relation_value(Relation::Ge, pure_value(*l, vars), pure_value(*r, vars)),
        Expr::Eq(l, r) => relation_value(Relation::Eq, pure_value(*l, vars), pure_value(*r, vars)),
        Expr::Ne(l, r) => relation_value(Relation::Ne, pure_value(*l, vars), pure_value(*r, vars)),
        Expr::Not(x) => match pure_value(*x, vars) {
            Some(Value::Bool(b)) => Some(Value::Bool(!b)),
            _ => None,
        },
        Expr::And(l, r) => match pure_value(*l, vars) {
            Some(Value::Bool(false)) => Some(Value::Bool(false)),
            Some(Value::Bool(true)) => match pure_value(*r, vars) {
                Some(Value::Bool(b)) => Some(Value::Bool(b)),
                _ => None,
            },
            _ => None,
        },
        Expr::Or(l, r) => match pure_value(*l, vars) {
            Some(Value::Bool(true)) => Some(Value::Bool(true)),
            Some(Value::Bool(false)) => match pure_value(*r, vars) {
                Some(Value::Bool(b)) => Some(Value::Bool(b)),
                _ => None,
            },
            _ => None,
        },
        _ => None,
    }
}

/// `a op b` on two integer values.
pub open spec fn arith_value(op: ArithOp, a: Option<Value>, b: Option<Value>) -> Option<Value> {
    match (a, b) {
        (Some(Value::Int(x)), Some(Value::Int(y))) => match int_arith(op, x, y) {
            Some(n) => Some(Value::Int(n)),
            None => None,
        },
        _ => None,
    }
}

/// `a rel b` on two integers, or `==`/`!=` on two booleans.
pub open spec fn relation_value(rel: Relation, a: Option<Value>, b: Option<Value>) -> Option<Value> {
    match (a, b) {
        (Some(Value::Int(x)), Some(Value::Int(y))) => Some(Value::Bool(int_relation(rel, x as int, y as int))),
        (Some(Value::Bool(x)), Some(Value::Bool(y))) => if rel == Relation::Eq {
            Some(Value::Bool(x == y))
        } else if rel == Relation::Ne {
            Some(Value::Bool(x != y))
        } else {
            None
        },
        _ => None,
    }
}

/// The evaluation of an integer or boolean expression fails: an operand
/// fails, or an integer operation is out of range or divides by zero.
pub open spec fn pure_fails(e: CheckedExpr, vars: Map<Seq<char>, Value>) -> bool
    decreases e,
{
    match e.exp {
        Expr::Neg(x) => pure_fails(*x, vars) || pure_value(*x, vars) == Some(Value::Int(i64::MIN)),
        Expr::Add(l, r) => (pure_fails(*l, vars) || (pure_value(*l, vars) is Some && pure_fails(*r, vars))) || arith_fails(ArithOp::Add, pure_value(*l, vars), pure_value(*r, vars)),
        Expr::Sub(l, r) => (pure_fails(*l, vars) || (pure_value(*l, vars) is Some && pure_fails(*r, vars))) || arith_fails(ArithOp::Sub, pure_value(*l, vars), pure_value(*r, vars)),
        Expr::Mul(l, r) => (pure_fails(*l, vars) || (pure_value(*l, vars) is Some && pure_fails(*r, vars))) || arith_fails(ArithOp::Mul, pure_value(*l, vars), pure_value(*r, vars)),
        Expr::Div(l, r) => (pure_fails(*l, vars) || (pure_value(*l, vars) is Some && pure_fails(*r, vars))) || arith_fails(ArithOp::Div, pure_value(*l, vars), pure_value(*r, vars)),
        Expr::Lt(l, r) | Expr::Le(l, r) | Expr::Gt(l, r) | Expr::Ge(l, r) | Expr::Eq(l, r) | Expr::Ne(l, r) =>
            (pure_fails(*l, vars) || (pure_value(*l, vars) is Some && pure_fails(*r, vars))),
        Expr::Not(x) => pure_fails(*x, vars),
        Expr::And(l, r) => pure_fails(*l, vars) || (pure_value(*l, vars) == Some(Value::Bool(true)) && pure_fails(*r, vars)),
        Expr::Or(l, r) => pure_fails(*l, vars) || (pure_value(*l, vars) == Some(Value::Bool(false)) && pure_fails(*r, vars)),
        _ => false,
    }
}

/// The left operand fails, or it has a value and the right one fails.
pub open spec fn pair_fails(l: CheckedExpr, r: CheckedExpr, vars: Map<Seq<char>, Value>) -> bool {
    pure_fails(l, vars) || (pure_value(l, vars) is Some && pure_fails(r, vars))
}

/// Both operands are integers and the checked operation has no result.
pub open spec fn arith_fails(op: ArithOp, a: Option<Value>, b: Option<Value>) -> bool {
    match (a, b) {
        (Some(Value::Int(x)), Some(Value::Int(y))) => int_arith(op, x, y) is None,
        _ => false,
    }
}

fn int_op(op: ArithOp, x: i64, y: i64) -> (r: Option<i64>)
    ensures
        r == int_arith(op, x, y),
{
    match op {
        ArithOp::Add => x.checked_add(y),
        ArithOp::Sub => x.checked_sub(y),
        ArithOp::Mul => x.checked_mul(y),
        ArithOp::Div => x.checked_div(y),
    }
}

fn int_rel(rel: Relation, x: i64, y: i64) -> (r: bool)
    ensures
        r == int_relation(rel, x as int, y as int),
{
    match rel {
        Relation::Lt => x < y,
        Relation::Le => x <= y,
        Relation::Gt => x > y,
        Relation::Ge => x >= y,
        Relation::Eq => x == y,
        Relation::Ne => x != y,
    }
}

/// `r` is what a run of the function of `p` named `fname` can give for
/// `args`: its body, from an environment binding its parameters to `args`,
/// ends with `res`, and `r` is the call's result of `res`.
pub open spec fn ran_function(p: CheckedProgram, fname: Seq<char>, args: Seq<Value>, r: Result<Value, RuntimeError>) -> bool {
    exists|i: int, e0: Environment, e1: Environment, res: ExecResult|
        #![trigger stmt_post(*p.functions@[i].body, e0, e1, res)]
        0 <= i < p.functions.len() && p.functions@[i].name@ == fname && p.functions@[i].params.len() == args.len()
        && binds_params(e0, p.functions@[i].params@, args) && stmt_post(*p.functions@[i].body, e0, e1, res)
        && r == call_result(res)
}

/// What a call makes of its body's outcome: the value returned, `Void`
/// where the body ends without `return`, or the body's error.
pub open spec fn call_result(res: ExecResult) -> Result<Value, RuntimeError> {
    match res {
        Ok(Some(v)) => Ok(v),
        Ok(None) => Ok(Value::Void),
        Err(e) => Err(e),
    }
}

/// `e0` binds each parameter to its argument; of two parameters with one
/// name, the later one's argument stands.
pub open spec fn binds_params(e0: Environment, params: Seq<IdentifierDecl>, args: Seq<Value>) -> bool {
    forall|q: int| #![trigger params[q]] 0 <= q < params.len()
        && (forall|m: int| q < m < params.len() ==> params[m].name@ != params[q].name@)
        ==> e0.vars().contains_key(params[q].name@) && e0.vars()[params[q].name@] == args[q]
}

impl<'a, H: Host> Interpreter<'a, H> {
    /// The bit pattern of a number as a float: an int is converted by the
    /// host, a float is itself.
    fn as_float(&mut self, v: Value) -> (r: Result<u64, RuntimeError>)
        ensures
            final(self).program == old(self).program,
            final(self).globals == old(self).globals,
            final(self).fuel == old(self).fuel,
            v matches Value::Float(x) ==> r == Ok::<u64, RuntimeError>(x),
            !(v is Int || v is Float) ==> r is Err,
    {
        match v {
            Value::Float(x) => Ok(x),
            Value::Int(n) => match self.host.float_op(FloatOp::FromInt(n))? {
                Value::Float(x) => Ok(x),
                _ => Err(RuntimeError::new("host returned a non-float value")),
            },
            _ => Err(RuntimeError::new("arithmetic on a non-numeric value")),
        }
    }

    /// `a op b`: on two ints the checked integer operation, otherwise the
    /// host's floating-point operation.
    pub fn arith(&mut self, op: ArithOp, a: Value, b: Value) -> (r: Result<Value, RuntimeError>)
        ensures
            final(self).program == old(self).program,
            final(self).globals == old(self).globals,
            final(self).fuel == old(self).fuel,
            (a is Int && b is Int) ==> match int_arith(op, a->Int_0, b->Int_0) {
                Some(n) => r == Ok::<Value, RuntimeError>(Value::Int(n)),
                None => r is Err,
            },
            !(a is Int || a is Float) || !(b is Int || b is Float) ==> r is Err,
    {
        match (&a, &b) {
            (Value::Int(x), Value::Int(y)) => match int_op(op, *x, *y) {
                Some(n) => Ok(Value::Int(n)),
                None => {
                    if op == ArithOp::Div && *y == 0 {
                        Err(RuntimeError::new("division by zero"))
                    } else {
                        Err(RuntimeError::new("integer overflow"))
                    }
                },
            },
            _ => {
                if !(is_number(&a) && is_number(&b)) {
                    return Err(RuntimeError::new("arithmetic on a non-numeric value"));
                }
                let x = self.as_float(a)?;
                let y = self.as_float(b)?;
                self.host.float_op(FloatOp::Arith(op, x, y))
            },
        }
    }

    /// `a rel b`: ints compare as integers, numbers with a float through the
    /// host; booleans, strings, `void` and enum values compare for equality.
    pub fn compare(&mut self, rel: Relation, a: Value, b: Value) -> (r: Result<Value, RuntimeError>)
        ensures
            final(self).program == old(self).program,
            final(self).globals == old(self).globals,
            final(self).fuel == old(self).fuel,
            (a is Int && b is Int) ==> r == Ok::<Value, RuntimeError>(Value::Bool(int_relation(rel, a->Int_0 as int, b->Int_0 as int))),
            (rel == Relation::Eq || rel == Relation::Ne) && a is Bool && b is Bool ==>
                r == Ok::<Value, RuntimeError>(Value::Bool((a->Bool_0 == b->Bool_0) == (rel == Relation::Eq))),
            (rel == Relation::Eq || rel == Relation::Ne) && a is Str && b is Str ==>
                r == Ok::<Value, RuntimeError>(Value::Bool((a->Str_0@ == b->Str_0@) == (rel == Relation::Eq))),
    {
        match (&a, &b) {
            (Value::Int(x), Value::Int(y)) => Ok(Value::Bool(int_rel(rel, *x, *y))),
            (Value::Int(_), Value::Float(_)) | (Value::Float(_), Value::Int(_)) | (Value::Float(_), Value::Float(_)) => {
                let x = self.as_float(a)?;
                let y = self.as_float(b)?;
                self.host.float_op(FloatOp::Compare(rel, x, y))
            },
            _ => {
                let same: bool = match (&a, &b) {
                    (Value::Bool(x), Value::Bool(y)) => *x == *y,
                    (Value::Str(x), Value::Str(y)) => x.eq(y),
                    (Value::Void, Value::Void) => true,
                    (Value::Enum { identifier: i1, value: v1 }, Value::Enum { identifier: i2, value: v2 }) => i1.eq(i2) && *v1 == *v2,
                    _ => { return Err(RuntimeError::new("values cannot be compared")); },
                };
                match rel {
                    Relation::Eq => Ok(Value::Bool(same)),
                    Relation::Ne => Ok(Value::Bool(!same)),
                    _ => Err(RuntimeError::new("values cannot be ordered")),
                }
            },
        }
    }

    /// Evaluates both operands, left first.
    fn eval_pair(&mut self, l: &CheckedExpr, r: &CheckedExpr, env: &Environment, Ghost(whole): Ghost<nat>) -> (res: Result<(Value, Value), RuntimeError>)
        requires
            old(self).globals.wf(),
            env.wf(),
            whole == 1 + expr_nodes(*l) + expr_nodes(*r),
        ensures
            final(self).program == old(self).program,
            final(self).globals == old(self).globals,
            final(self).fuel <= old(self).fuel,
            pure_value(*l, env.vars()) matches Some(v) ==> (res matches Ok(p) ==> p.0 == v),
            pure_value(*r, env.vars()) matches Some(v) ==> (res matches Ok(p) ==> p.1 == v),
            pure_value(*l, env.vars()) is Some ==> (res is Ok || pure_fails(*r, env.vars()) || pure_value(*r, env.vars()) is None),
            pure_value(*l, env.vars()) is Some && pure_value(*r, env.vars()) is Some ==> res is Ok,
            pair_fails(*l, *r, env.vars()) ==> res is Err,
            l.exp matches Expr::Ident(n) ==> (res matches Ok(p) ==> val_eq(p.0, env.vars()[n@])),
            l.exp matches Expr::Ident(n) ==> (env.vars().contains_key(n@) && pure_value(*r, env.vars()) is Some ==> res is Ok),
        decreases old(self).fuel, whole, 0int,
    {
        let a = self.eval_expr(l, env)?;
        let b = self.eval_expr(r, env)?;
        Ok((a, b))
    }

    /// Evaluates an expression. Literals give their value (a float literal
    /// through the host), a name the value bound to it.
    #[verifier::loop_isolation(false)]
    #[verifier::rlimit(60)]
    pub fn eval_expr(&mut self, e: &CheckedExpr, env: &Environment) -> (r: Result<Value, RuntimeError>)
        requires
            old(self).globals.wf(),
            env.wf(),
        ensures
            final(self).program == old(self).program,
            final(self).globals == old(self).globals,
            final(self).fuel <= old(self).fuel,
            e.exp matches Expr::Literal(Literal::Int(n)) ==> r == Ok::<Value, RuntimeError>(Value::Int(n)),
            e.exp matches Expr::Literal(Literal::Bool(b)) ==> r == Ok::<Value, RuntimeError>(Value::Bool(b)),
            e.exp matches Expr::Literal(Literal::Str(s)) ==> (r matches Ok(Value::Str(t)) && t@ == s@),
            e.exp matches Expr::Ident(n) ==> (r is Ok <==> env.vars().contains_key(n@)),
            e.exp matches Expr::Ident(n) ==> (r matches Ok(v) ==> val_eq(v, env.vars()[n@])),
            e.exp is Not ==> (r matches Ok(v) ==> v is Bool),
            pure_value(*e, env.vars()) matches Some(v) ==> r == Ok::<Value, RuntimeError>(v),
            pure_fails(*e, env.vars()) ==> r is Err,
            e.exp matches Expr::Index { base, index } ==> (base.exp matches Expr::Ident(n) ==> (env.vars().contains_key(n@)
                ==> (env.vars()[n@] matches Value::Array(items) ==> (pure_value(*index, env.vars()) matches Some(Value::Int(k))
                ==> (r is Ok <==> 0 <= k < items.len()))))),
            e.exp matches Expr::Member { base, member } ==> (base.exp matches Expr::Ident(n) ==> (env.vars().contains_key(n@)
                ==> (env.vars()[n@] matches Value::Struct { fields, .. } ==> (field_value(fields@, member@) matches Some(w)
                ==> (r matches Ok(v) && val_eq(v, w)))))),
            e.exp matches Expr::Member { base, member } ==> (base.exp matches Expr::Ident(n) ==> (env.vars().contains_key(n@)
                ==> (env.vars()[n@] matches Value::Struct { fields, .. } ==> (field_value(fields@, member@) is None ==> r is Err)))),
            e.exp matches Expr::Member { base, member } ==> (base.exp matches Expr::Ident(n) ==> (env.vars().contains_key(n@)
                ==> (env.vars()[n@] matches Value::Union { active_field, value, .. } ==> ((active_field@ == member@
                ==> (r matches Ok(v) && val_eq(v, *value))) && (active_field@ != member@ ==> r is Err))))),
            e.exp matches Expr::ArrayLit(items) ==> (r matches Ok(v) ==> (v matches Value::Array(vs) && vs.len() == items.len()
                && forall|k: int| 0 <= k < items.len() ==> (pure_value(#[trigger] items@[k], env.vars()) matches Some(x) ==> vs@[k] == x))),
            e.exp matches Expr::Call { name, args } ==> (r is Ok && env.vars().contains_key(name@) ==> (env.vars()[name@]
                matches Value::Fn(FnValue::UserDefined(fname)) ==> exists|vals: Seq<Value>|
                #![trigger ran_function(*old(self).program, fname@, vals, r)]
                ran_function(*old(self).program, fname@, vals, r) && vals.len() == args.len()
                && forall|k: int| 0 <= k < args.len() ==> (pure_value(#[trigger] args@[k], env.vars()) matches Some(x) ==> vals[k] == x))),
        decreases old(self).fuel, expr_nodes(*e), 1int,
    {
        match &e.exp {
            Expr::Literal(Literal::Int(n)) => Ok(Value::Int(*n)),
            Expr::Literal(Literal::Bool(b)) => Ok(Value::Bool(*b)),
            Expr::Literal(Literal::Str(s)) => Ok(Value::Str(s.clone())),
            Expr::Literal(Literal::Float(text)) => self.host.float_op(FloatOp::Literal(text.clone())),
            Expr::Ident(name) => match env.get(name.as_str()) {
                Some(v) => Ok(v.duplicate()),
                None => Err(RuntimeError::new("undefined variable")),
            },
            Expr::Neg(x) => {
                let v = self.eval_expr(x, env)?;
                match v {
                    Value::Int(n) => {
                        if n == i64::MIN {
                            Err(RuntimeError::new("integer overflow"))
                        } else {
                            Ok(Value::Int(-n))
                        }
                    },
                    Value::Float(f) => self.host.float_op(FloatOp::Neg(f)),
                    _ => Err(RuntimeError::new("negation of a non-numeric value")),
                }
            },
            Expr::Add(l, r) => {
                let (a, b) = self.eval_pair(l, r, env, Ghost(expr_nodes(*e)))?;
                self.arith(ArithOp::Add, a, b)
            },
            Expr::Sub(l, r) => {
                let (a, b) = self.eval_pair(l, r, env, Ghost(expr_nodes(*e)))?;
                self.arith(ArithOp::Sub, a, b)
            },
            Expr::Mul(l, r) => {
                let (a, b) = self.eval_pair(l, r, env, Ghost(expr_nodes(*e)))?;
                self.arith(ArithOp::Mul, a, b)
            },
            Expr::Div(l, r) => {
                let (a, b) = self.eval_pair(l, r, env, Ghost(expr_nodes(*e)))?;
                self.arith(ArithOp::Div, a, b)
            },
            Expr::Lt(l, r) => {
                let (a, b) = self.eval_pair(l, r, env, Ghost(expr_nodes(*e)))?;
                self.compare(Relation::Lt, a, b)
            },
            Expr::Le(l, r) => {
                let (a, b) = self.eval_pair(l, r, env, Ghost(expr_nodes(*e)))?;
                self.compare(Relation::Le, a, b)
            },
            Expr::Gt(l, r) => {
                let (a, b) = self.eval_pair(l, r, env, Ghost(expr_nodes(*e)))?;
                self.compare(Relation::Gt, a, b)
            },
            Expr::Ge(l, r) => {
                let (a, b) = self.eval_pair(l, r, env, Ghost(expr_nodes(*e)))?;
                self.compare(Relation::Ge, a, b)
            },
            Expr::Eq(l, r) => {
                let (a, b) = self.eval_pair(l, r, env, Ghost(expr_nodes(*e)))?;
                self.compare(Relation::Eq, a, b)
            },
            Expr::Ne(l, r) => {
                let (a, b) = self.eval_pair(l, r, env, Ghost(expr_nodes(*e)))?;
                self.compare(Relation::Ne, a, b)
            },
            Expr::Not(x) => match self.eval_expr(x, env)? {
                Value::Bool(b) => Ok(Value::Bool(!b)),
                _ => Err(RuntimeError::new("'!' applied to a non-boolean value")),
            },
            Expr::And(l, r) => match self.eval_expr(l, env)? {
                Value::Bool(false) => Ok(Value::Bool(false)),
                Value::Bool(true) => match self.eval_expr(r, env)? {
                    Value::Bool(b) => Ok(Value::Bool(b)),
                    _ => Err(RuntimeError::new("'&&' applied to a non-boolean value")),
                },
                _ => Err(RuntimeError::new("'&&' applied to a non-boolean value")),
            },
            Expr::Or(l, r) => match self.eval_expr(l, env)? {
                Value::Bool(true) => Ok(Value::Bool(true)),
                Value::Bool(false) => match self.eval_expr(r, env)? {
                    Value::Bool(b) => Ok(Value::Bool(b)),
                    _ => Err(RuntimeError::new("'||' applied to a non-boolean value")),
                },
                _ => Err(RuntimeError::new("'||' applied to a non-boolean value")),
            },
            Expr::Call { name, args } => {
                let vals = self.eval_args(args, env, Ghost(expr_nodes(*e)))?;
                self.eval_call(name, vals, env)
            },
            Expr::ArrayLit(items) => {
                let vals = self.eval_args(items, env, Ghost(expr_nodes(*e)))?;
                Ok(Value::Array(vals))
            },
            Expr::Index { base, index } => {
                let (b, i) = self.eval_pair(base, index, env, Ghost(expr_nodes(*e)))?;
                match (b, i) {
                    (Value::Array(items), Value::Int(k)) => {
                        if k < 0 || k as u64 >= items.len() as u64 {
                            Err(RuntimeError::new("array index out of bounds"))
                        } else {
                            Ok(items[k as usize].duplicate())
                        }
                    },
                    (Value::Array(_), _) => Err(RuntimeError::new("array index must be int")),
                    _ => Err(RuntimeError::new("cannot index non-array value")),
                }
            },
            Expr::Member { base, member } => {
                let b = self.eval_expr(base, env)?;
                match b {
                    Value::Struct { fields, .. } => {
                        let mut k: usize = 0;
                        while k < fields.len()
                            invariant
                                k <= fields.len(),
                                forall|j: int| 0 <= j < k ==> fields@[j].0@ != member@,
                            decreases fields.len() - k,
                        {
                            if fields[k].0.eq(member) {
                                let v = fields[k].1.duplicate();
                                proof {
                                    if let Expr::Ident(n) = &base.exp {
                                        if env.vars().contains_key(n@) {
                                            if let Value::Struct { fields: f0, .. } = env.vars()[n@] {
                                                assert(fields@[k as int].0@ == f0@[k as int].0@);
                                                assert(first_named(f0@, member@, k as int)) by {
                                                    assert forall|j: int| 0 <= j < k implies f0@[j].0@ != member@ by {
                                                        assert(fields@[j].0@ == f0@[j].0@);
                                                    }
                                                }
                                                lemma_field_value_at(f0@, member@, k as int);
                                                lemma_val_eq_trans(v, fields@[k as int].1, f0@[k as int].1);
                                            }
                                        }
                                    }
                                }
                                return Ok(v);
                            }
                            k = k + 1;
                        }
                        proof {
                            if let Expr::Ident(n) = &base.exp {
                                if env.vars().contains_key(n@) {
                                    if let Value::Struct { fields: f0, .. } = env.vars()[n@] {
                                        assert forall|c: int| !first_named(f0@, member@, c) by {
                                            if first_named(f0@, member@, c) {
                                                assert(fields@[c].0@ == f0@[c].0@);
                                            }
                                        }
                                    }
                                }
                            }
                        }
                        Err(RuntimeError::new("no such field"))
                    },
                    Value::Union { active_field, value, .. } => {
                        if active_field.eq(member) {
                            Ok(*value)
                        } else {
                            Err(RuntimeError::new("union field is not the active one"))
                        }
                    },
                    _ => Err(RuntimeError::new("member access on a non-aggregate value")),
                }
            },
        }
    }

    /// Evaluates the expressions of a list, first to last.
    fn eval_args(&mut self, args: &Vec<CheckedExpr>, env: &Environment, Ghost(whole): Ghost<nat>) -> (r: Result<Vec<Value>, RuntimeError>)
        requires
            old(self).globals.wf(),
            env.wf(),
            whole == 1 + exprs_nodes(args@),
        ensures
            final(self).program == old(self).program,
            final(self).globals == old(self).globals,
            final(self).fuel <= old(self).fuel,
            r matches Ok(vs) ==> vs.len() == args.len(),
            r matches Ok(vs) ==> forall|k: int| 0 <= k < args.len() ==> (pure_value(#[trigger] args@[k], env.vars()) matches Some(x)
                ==> vs@[k] == x),
        decreases old(self).fuel, whole, 0int,
    {
        let mut vals: Vec<Value> = Vec::new();
        let mut i: usize = 0;
        while i < args.len()
            invariant
                i <= args.len(),
                vals.len() == i,
                self.globals.wf(),
                env.wf(),
                self.program == old(self).program,
                self.globals == old(self).globals,
                self.fuel <= old(self).fuel,
                whole == 1 + exprs_nodes(args@),
                forall|k: int| 0 <= k < i ==> (pure_value(#[trigger] args@[k], env.vars()) matches Some(x) ==> vals@[k] == x),
            decreases args.len() - i,
        {
            proof {
                lemma_exprs_nodes_step(args@, i as int);
                lemma_exprs_nodes_split(args@, i + 1);
            }
            let v = self.eval_expr(&args[i], env)?;
            let ghost before = vals@;
            vals.push(v);
            proof {
                assert forall|k: int| 0 <= k < i + 1 implies (pure_value(#[trigger] args@[k], env.vars()) matches Some(x) ==> vals@[k] == x) by {
                    if k < i {
                        assert(vals@[k] == before[k]);
                    }
                }
            }
            i = i + 1;
        }
        Ok(vals)
    }

    /// Calls the function bound to `name` with `args`: a native function
    /// through the host; a function of the program by running its body in
    /// the globals extended with its parameters, its result being what its
    /// `return` gave (`void` without one). Each call of a function of the
    /// program is one step.
    pub fn eval_call(&mut self, name: &String, args: Vec<Value>, env: &Environment) -> (r: Result<Value, RuntimeError>)
        requires
            old(self).globals.wf(),
            env.wf(),
        ensures
            final(self).program == old(self).program,
            final(self).globals == old(self).globals,
            final(self).fuel <= old(self).fuel,
            !env.vars().contains_key(name@) ==> r is Err,
            env.vars().contains_key(name@) && !(env.vars()[name@] is Fn) ==> r is Err,
            env.vars().contains_key(name@) ==> (env.vars()[name@] matches Value::Fn(FnValue::Native(f)) ==> (is_pure_native(f)
                ==> pure_native_result(f, args@, r))),
            env.vars().contains_key(name@) ==> (env.vars()[name@] matches Value::Fn(FnValue::UserDefined(fname)) ==> (
                ran_function(*old(self).program, fname@, args@, r)
                || (r is Err && (old(self).fuel == 0
                    || (forall|i: int| 0 <= i < old(self).program.functions.len()
                        ==> (#[trigger] old(self).program.functions@[i]).name@ != fname@)
                    || (exists|i: int| 0 <= i < old(self).program.functions.len()
                        && (#[trigger] old(self).program.functions@[i]).name@ == fname@
                        && old(self).program.functions@[i].params.len() != args.len()))))),
        decreases old(self).fuel, 0nat, 0int,
    {
        match env.get(name.as_str()) {
            Some(Value::Fn(FnValue::Native(f))) => {
                if pure_native(*f) {
                    call_pure_native(*f, args)
                } else {
                    self.host.call_native(*f, args)
                }
            },
            Some(Value::Fn(FnValue::UserDefined(fname))) => {
                let index = find_function(&self.program.functions, fname.as_str());
                let i = match index {
                    Some(i) => i,
                    None => { return Err(RuntimeError::new("undefined function")); },
                };
                let program = self.program;
                let fun = &program.functions[i];
                if fun.params.len() != args.len() {
                    return Err(RuntimeError::new("wrong number of arguments"));
                }
                self.step()?;
                let mut callee = self.globals.duplicate();
                let ghost all_args = args@;
                let mut args = args;
                let mut k: usize = 0;
                while k < fun.params.len()
                    invariant
                        k <= fun.params.len(),
                        args.len() + k == fun.params.len(),
                        all_args.len() == fun.params.len(),
                        args@ == all_args.skip(k as int),
                        callee.wf(),
                        binds_params(callee, fun.params@.take(k as int), all_args.take(k as int)),
                    decreases fun.params.len() - k,
                {
                    let ghost before = callee;
                    let v = args.remove(0);
                    assert(v == all_args[k as int]);
                    callee.declare(fun.params[k].name.clone(), v);
                    proof {
                        let ps = fun.params@.take(k + 1);
                        let vs = all_args.take(k + 1);
                        let ops = fun.params@.take(k as int);
                        let ovs = all_args.take(k as int);
                        assert(args@ =~= all_args.skip(k + 1));
                        assert(ps[k as int] == fun.params@[k as int]);
                        assert(vs[k as int] == all_args[k as int]);
                        assert forall|q: int| 0 <= q < ps.len() && (forall|m: int| q < m < ps.len() ==> ps[m].name@ != ps[q].name@)
                            implies callee.vars().contains_key(ps[q].name@) && callee.vars()[ps[q].name@] == vs[q] by {
                            if q < k {
                                assert(ps[k as int].name@ != ps[q].name@);
                                assert(ops[q] == ps[q]);
                                assert(ovs[q] == vs[q]);
                                assert forall|m: int| q < m < ops.len() implies ops[m].name@ != ops[q].name@ by {
                                    assert(ops[m] == ps[m]);
                                }
                                assert(before.vars().contains_key(ops[q].name@) && before.vars()[ops[q].name@] == ovs[q]);
                            }
                        }
                    }
                    k = k + 1;
                }
                proof {
                    assert(fun.params@.take(k as int) =~= fun.params@);
                    assert(all_args.take(k as int) =~= all_args);
                }
                let ghost e0 = callee;
                let res = self.exec_stmt(&fun.body, &mut callee);
                proof {
                    assert(stmt_post(*fun.body, e0, callee, res));
                    assert(old(self).program.functions@[i as int].name@ == fname@);
                }
                match res {
                    Ok(Some(v)) => Ok(v),
                    Ok(None) => Ok(Value::Void),
                    Err(e) => Err(e),
                }
            },
            Some(_) => Err(RuntimeError::new("called value is not a function")),
            None => Err(RuntimeError::new("undefined function")),
        }
    }
}

} // verus!
