//! Lowering of checked programs to three-address code.
//!
//! Expressions are lowered in two ways. As a value ([`translate_expression`]),
//! a compound expression leaves its result in a fresh temporary; booleans are
//! materialised through labelled code, with `&&` and `||` short-circuiting.
//! As a condition ([`translate_conditional`]), a boolean expression becomes
//! jumps to a true label and a false label. Statements follow the usual
//! schemes: `if` and `while` through conditional jumps and labels, `assert e`
//! as a jump over a call of `assert_fail`. Each function starts with a label
//! of its name, each test with `test_<name>`.
use vstd::prelude::*;
use crate::codegen::counts::{
    expr_lowerable, expr_nodes, exprs_nodes, lemma_exprs_nodes_step, lemma_stmts_nodes_step, stmt_lowerable,
    stmt_nodes, stmts_nodes,
};
use crate::ir::ast::{
    ty_eq, CheckedExpr, CheckedFunDecl, CheckedProgram, CheckedStmt, Expr, Literal, Statement, TestDecl, Type,
};
use crate::codegen::scheme::{
    addr_view, args_code, binary_code, bool_view, lemma_type_view_ty_eq, type_view, TypeView, cond_code, expr_code, lemma_views_add, lemma_views_push, params,
    relational_code, relational_value_code, stmt_code, stmts_code, views, while_code, Code, AddrView, InstrView, LitView,
};
use crate::ir::tac::{Address, Instruction, Operator, TACProgram};
use crate::semantic::type_checker::copy_literal;
use crate::text::{append_chars, append_str, char_is_alphanumeric, chars_of, decimal, decimal_chars, is_alphanumeric, string_of};

verus! {


/// The name of the `n`-th label: `Label<n>:`.
#[verifier::opaque]
pub open spec fn label_name(n: nat) -> Seq<char> {
    "Label"@ + decimal(n) + ":"@
}

/// The name of the `n`-th temporary: `temp<n>`.
#[verifier::opaque]
pub open spec fn temp_name(n: nat) -> Seq<char> {
    "temp"@ + decimal(n)
}

/// Labels with different numbers have different names.
pub proof fn lemma_label_names_distinct(a: nat, b: nat)
    requires
        a != b,
    ensures
        label_name(a) != label_name(b),
{
    reveal_strlit("Label");
    reveal_strlit(":");
    reveal(label_name);
    if label_name(a) == label_name(b) {
        assert(label_name(a).subrange(5, label_name(a).len() - 1) =~= decimal(a));
        assert(label_name(b).subrange(5, label_name(b).len() - 1) =~= decimal(b));
        crate::text::lemma_decimal_injective(a, b);
    }
}

/// Temporaries with different numbers have different names.
pub proof fn lemma_temp_names_distinct(a: nat, b: nat)
    requires
        a != b,
    ensures
        temp_name(a) != temp_name(b),
{
    reveal_strlit("temp");
    reveal(temp_name);
    if temp_name(a) == temp_name(b) {
        assert(temp_name(a).subrange(4, temp_name(a).len() as int) =~= decimal(a));
        assert(temp_name(b).subrange(4, temp_name(b).len() as int) =~= decimal(b));
        crate::text::lemma_decimal_injective(a, b);
    }
}

/// Code-generation state: the number of labels and of temporaries made so far.
#[derive(Clone, Copy, Debug)]
pub struct Environment {
    current_label: usize,
    current_temporary: usize,
}

impl Environment {
    /// Number of labels made so far.
    pub closed spec fn labels(&self) -> nat {
        self.current_label as nat
    }

    /// Number of temporaries made so far.
    pub closed spec fn temps(&self) -> nat {
        self.current_temporary as nat
    }

    /// A state in which no label and no temporary has been made.
    pub fn new() -> (r: Self)
        ensures
            r.labels() == 0,
            r.temps() == 0,
    {
        Environment { current_label: 0, current_temporary: 0 }
    }

    /// A fresh label: `Label<n>:` where `n` is the new number of labels.
    pub fn new_label(&mut self) -> (r: String)
        requires
            old(self).labels() < usize::MAX,
        ensures
            final(self).labels() == old(self).labels() + 1,
            final(self).temps() == old(self).temps(),
            r@ == label_name(final(self).labels()),
    {
        self.current_label = self.current_label + 1;
        let mut out: Vec<char> = Vec::new();
        append_str(&mut out, "Label");
        let d = decimal_chars(self.current_label as u64);
        append_chars(&mut out, &d);
        append_str(&mut out, ":");
        proof { reveal(label_name); }
        string_of(&out)
    }

    /// A fresh temporary: `temp<n>` where `n` is the new number of temporaries.
    pub fn new_temporary(&mut self) -> (r: String)
        requires
            old(self).temps() < usize::MAX,
        ensures
            final(self).temps() == old(self).temps() + 1,
            final(self).labels() == old(self).labels(),
            r@ == temp_name(final(self).temps()),
    {
        self.current_temporary = self.current_temporary + 1;
        let mut out: Vec<char> = Vec::new();
        append_str(&mut out, "temp");
        let d = decimal_chars(self.current_temporary as u64);
        append_chars(&mut out, &d);
        proof { reveal(temp_name); }
        string_of(&out)
    }
}

impl Default for Environment {
    fn default() -> (r: Self)
        ensures
            r.labels() == 0,
            r.temps() == 0,
    {
        Self::new()
    }
}

/// The generator may run on `n` more nodes from state `env`.
pub open spec fn has_room(env: Environment, n: nat) -> bool {
    env.labels() + 3 * n <= usize::MAX && env.temps() + n <= usize::MAX
}

/// From `a` to `b` the generator made at most the labels and temporaries
/// that `n` nodes may need.
pub open spec fn used_within(a: Environment, b: Environment, n: nat) -> bool {
    a.labels() <= b.labels() <= a.labels() + 3 * n && a.temps() <= b.temps() <= a.temps() + n
}

/// The character a test name keeps in a label: letters and digits stay,
/// everything else becomes `_`.
pub open spec fn sanitized(s: Seq<char>) -> Seq<char> {
    Seq::new(s.len(), |i: int| if is_alphanumeric(s[i]) { s[i] } else { '_' })
}

/// A sanitised name has the length of the name, and holds only letters,
/// digits and `_`.
pub proof fn lemma_sanitized_is_label_safe(s: Seq<char>)
    ensures
        sanitized(s).len() == s.len(),
        forall|i: int| 0 <= i < s.len() ==> is_alphanumeric(#[trigger] sanitized(s)[i]) || sanitized(s)[i] == '_',
{
}

/// Turns a test name into a label-safe suffix.
pub fn sanitize(name: &str) -> (r: String)
    ensures
        r@ == sanitized(name@),
{
    let cs = chars_of(name);
    let mut out: Vec<char> = Vec::new();
    let mut i: usize = 0;
    while i < cs.len()
        invariant
            i <= cs.len(),
            cs@ == name@,
            out@ == sanitized(name@).subrange(0, i as int),
        decreases cs.len() - i,
    {
        let c = cs[i];
        out.push(if char_is_alphanumeric(c) { c } else { '_' });
        assert(out@ =~= sanitized(name@).subrange(0, i + 1));
        i = i + 1;
    }
    assert(out@ =~= sanitized(name@));
    string_of(&out)
}

/// A copy of an address.
pub fn copy_address(a: &Address) -> (r: Address)
    ensures
        match (r, *a) {
            (Address::Variable(n1, t1), Address::Variable(n2, t2)) => n1 == n2 && ty_eq(t1, t2),
            (Address::Temporary(n1, t1), Address::Temporary(n2, t2)) => n1 == n2 && ty_eq(t1, t2),
            (Address::Constant(l1, t1), Address::Constant(l2, t2)) => l1 == l2 && ty_eq(t1, t2),
            _ => false,
        },
        addr_view(r) == addr_view(*a),
{
    match a {
        Address::Variable(n, t) => {
            let t2 = t.duplicate();
            proof { lemma_type_view_ty_eq(t2, *t); }
            Address::Variable(n.clone(), t2)
        },
        Address::Temporary(n, t) => {
            let t2 = t.duplicate();
            proof { lemma_type_view_ty_eq(t2, *t); }
            Address::Temporary(n.clone(), t2)
        },
        Address::Constant(l, t) => {
            let t2 = t.duplicate();
            proof { lemma_type_view_ty_eq(t2, *t); }
            Address::Constant(copy_literal(l), t2)
        },
    }
}

fn bool_const(b: bool) -> (r: Address)
    ensures
        addr_view(r) == bool_view(b),
{
    Address::Constant(Literal::Bool(b), Type::Bool)
}

/// Where the value of an expression ends up: a literal is its own constant,
/// a variable is itself, anything else is the last temporary made.
pub open spec fn result_address(e: CheckedExpr, a: Address, after: Environment) -> bool {
    match e.exp {
        Expr::Literal(l) => a matches Address::Constant(l2, t) && l2 == l && ty_eq(t, e.ty),
        Expr::Ident(n) => a matches Address::Variable(n2, t) && n2@ == n@ && ty_eq(t, e.ty),
        _ => a matches Address::Temporary(n2, _) && n2@ == temp_name(after.temps()),
    }
}

/// Lowers an expression to code that leaves its value in the returned
/// address; the code is the one the scheme gives (`expr_code`).
#[verifier::rlimit(60)]
#[verifier::spinoff_prover]
pub fn translate_expression(expression: &CheckedExpr, env: &mut Environment) -> (r: (Address, Vec<Instruction>))
    requires
        expr_lowerable(*expression),
        has_room(*old(env), expr_nodes(*expression)),
    ensures
        used_within(*old(env), *final(env), expr_nodes(*expression)),
        result_address(*expression, r.0, *final(env)),
        !(expression.exp is Literal || expression.exp is Ident) ==> final(env).temps() > old(env).temps(),
        views(r.1@) == expr_code(*expression, old(env).labels(), old(env).temps()).code,
        addr_view(r.0) == expr_code(*expression, old(env).labels(), old(env).temps()).addr,
        final(env).labels() == expr_code(*expression, old(env).labels(), old(env).temps()).labels,
        final(env).temps() == expr_code(*expression, old(env).labels(), old(env).temps()).temps,
    decreases expr_nodes(*expression), 2int,
{
    let ghost l0 = env.labels();
    let ghost t0 = env.temps();
    let result_ty = expression.ty.duplicate();
    proof { lemma_type_view_ty_eq(result_ty, expression.ty); }
    match &expression.exp {
        Expr::Literal(value) => {
            let r = (Address::Constant(copy_literal(value), result_ty), Vec::new());
            assert(views(r.1@) =~= Seq::<InstrView>::empty());
            r
        },
        Expr::Ident(name) => {
            let r = (Address::Variable(name.clone(), result_ty), Vec::new());
            assert(views(r.1@) =~= Seq::<InstrView>::empty());
            r
        },
        Expr::Add(l, r) => translate_binary(Operator::Add, l, r, result_ty, env),
        Expr::Sub(l, r) => translate_binary(Operator::Sub, l, r, result_ty, env),
        Expr::Mul(l, r) => translate_binary(Operator::Mul, l, r, result_ty, env),
        Expr::Div(l, r) => translate_binary(Operator::Div, l, r, result_ty, env),
        Expr::Lt(l, r) => translate_relational_value(Operator::LT, l, r, env),
        Expr::Le(l, r) => translate_relational_value(Operator::LTE, l, r, env),
        Expr::Gt(l, r) => translate_relational_value(Operator::GT, l, r, env),
        Expr::Ge(l, r) => translate_relational_value(Operator::GTE, l, r, env),
        Expr::Eq(l, r) => translate_relational_value(Operator::EQ, l, r, env),
        Expr::Ne(l, r) => translate_relational_value(Operator::NE, l, r, env),
        Expr::Neg(_) => translate_neg(expression, result_ty, env),
        Expr::Not(_) => translate_not(expression, result_ty, env),
        Expr::And(_, _) => translate_and(expression, result_ty, env),
        Expr::Or(_, _) => translate_or(expression, result_ty, env),
        Expr::Call { .. } => translate_call(expression, result_ty, env),
        _ => {
            proof { assert(false); }
            (Address::Constant(Literal::Bool(false), Type::Bool), Vec::new())
        },
    }
}

/// `translate_expression` on neg expressions.
#[verifier::rlimit(40)]
fn translate_neg(expression: &CheckedExpr, result_ty: Type, env: &mut Environment) -> (r: (Address, Vec<Instruction>))
    requires
        ty_eq(result_ty, expression.ty),
        expression.exp is Neg,
        expr_lowerable(*expression),
        has_room(*old(env), expr_nodes(*expression)),
    ensures
        used_within(*old(env), *final(env), expr_nodes(*expression)),
        r.0 matches Address::Temporary(n, _) && n@ == temp_name(final(env).temps()),
        final(env).temps() > old(env).temps(),
        views(r.1@) == expr_code(*expression, old(env).labels(), old(env).temps()).code,
        addr_view(r.0) == expr_code(*expression, old(env).labels(), old(env).temps()).addr,
        final(env).labels() == expr_code(*expression, old(env).labels(), old(env).temps()).labels,
        final(env).temps() == expr_code(*expression, old(env).labels(), old(env).temps()).temps,
    decreases expr_nodes(*expression), 1int,
{
    let ghost l0 = env.labels();
    let ghost t0 = env.temps();
    match &expression.exp {
        Expr::Neg(inner) => {
            let (addr, mut instructions) = translate_expression(inner, env);
            let ghost c0 = instructions@;
            let t = env.new_temporary();
            let rt = result_ty.duplicate();
            proof {
                lemma_type_view_ty_eq(rt, result_ty);
                lemma_type_view_ty_eq(result_ty, expression.ty);
            }
            let temp = Address::Temporary(t.clone(), rt);
            instructions.push(Instruction::UnaryAssignment(Operator::Neg, Address::Temporary(t, result_ty), addr));
            proof { lemma_views_push(c0, instructions@.last()); assert(instructions@ == c0.push(instructions@.last())); }
            (temp, instructions)
        },
        _ => {
            proof { assert(false); }
            (Address::Constant(Literal::Bool(false), Type::Bool), Vec::new())
        },
    }
}

/// `translate_expression` on not expressions.
#[verifier::rlimit(40)]
fn translate_not(expression: &CheckedExpr, result_ty: Type, env: &mut Environment) -> (r: (Address, Vec<Instruction>))
    requires
        ty_eq(result_ty, expression.ty),
        expression.exp is Not,
        expr_lowerable(*expression),
        has_room(*old(env), expr_nodes(*expression)),
    ensures
        used_within(*old(env), *final(env), expr_nodes(*expression)),
        r.0 matches Address::Temporary(n, _) && n@ == temp_name(final(env).temps()),
        final(env).temps() > old(env).temps(),
        views(r.1@) == expr_code(*expression, old(env).labels(), old(env).temps()).code,
        addr_view(r.0) == expr_code(*expression, old(env).labels(), old(env).temps()).addr,
        final(env).labels() == expr_code(*expression, old(env).labels(), old(env).temps()).labels,
        final(env).temps() == expr_code(*expression, old(env).labels(), old(env).temps()).temps,
    decreases expr_nodes(*expression), 1int,
{
    let ghost l0 = env.labels();
    let ghost t0 = env.temps();
    match &expression.exp {
        Expr::Not(inner) => {
            let (addr, mut instructions) = translate_expression(inner, env);
            let ghost c0 = instructions@;
            let label_false = env.new_label();
            let label_exit = env.new_label();
            let t = env.new_temporary();
            let mut tail: Vec<Instruction> = Vec::new();
            tail.push(Instruction::ConditionalJMPFalse(addr, label_false.clone()));
            tail.push(Instruction::CopyAssignment(Address::Temporary(t.clone(), Type::Bool), bool_const(false)));
            tail.push(Instruction::JMP(label_exit.clone()));
            tail.push(Instruction::Label(label_false));
            tail.push(Instruction::CopyAssignment(Address::Temporary(t.clone(), Type::Bool), bool_const(true)));
            tail.push(Instruction::Label(label_exit));
            let ghost c1 = tail@;
            instructions.append(&mut tail);
            proof {
                lemma_views_add(c0, c1);
                let cx = expr_code(**inner, l0, t0);
                let tmp = AddrView::Temp(temp_name(cx.temps + 1), type_view(Type::Bool));
                assert(views(c1) =~= seq![
                    InstrView::CondJmpFalse(cx.addr, label_name(cx.labels + 1)),
                    InstrView::Copy(tmp, bool_view(false)),
                    InstrView::Jmp(label_name(cx.labels + 2)),
                    InstrView::Label(label_name(cx.labels + 1)),
                    InstrView::Copy(tmp, bool_view(true)),
                    InstrView::Label(label_name(cx.labels + 2)),
                ]);
            }
            (Address::Temporary(t, Type::Bool), instructions)
        },
        _ => {
            proof { assert(false); }
            (Address::Constant(Literal::Bool(false), Type::Bool), Vec::new())
        },
    }
}

/// `translate_expression` on and expressions.
#[verifier::rlimit(40)]
fn translate_and(expression: &CheckedExpr, result_ty: Type, env: &mut Environment) -> (r: (Address, Vec<Instruction>))
    requires
        ty_eq(result_ty, expression.ty),
        expression.exp is And,
        expr_lowerable(*expression),
        has_room(*old(env), expr_nodes(*expression)),
    ensures
        used_within(*old(env), *final(env), expr_nodes(*expression)),
        r.0 matches Address::Temporary(n, _) && n@ == temp_name(final(env).temps()),
        final(env).temps() > old(env).temps(),
        views(r.1@) == expr_code(*expression, old(env).labels(), old(env).temps()).code,
        addr_view(r.0) == expr_code(*expression, old(env).labels(), old(env).temps()).addr,
        final(env).labels() == expr_code(*expression, old(env).labels(), old(env).temps()).labels,
        final(env).temps() == expr_code(*expression, old(env).labels(), old(env).temps()).temps,
    decreases expr_nodes(*expression), 1int,
{
    let ghost l0 = env.labels();
    let ghost t0 = env.temps();
    match &expression.exp {
        Expr::And(l, r) => {
            let (l_addr, mut instructions) = translate_expression(l, env);
            let ghost c0 = instructions@;
            let (r_addr, r_instructions) = translate_expression(r, env);
            let ghost c1 = r_instructions@;
            let label_false = env.new_label();
            let label_exit = env.new_label();
            let t = env.new_temporary();
            let mut mid: Vec<Instruction> = Vec::new();
            mid.push(Instruction::ConditionalJMPFalse(l_addr, label_false.clone()));
            let ghost cm = mid@;
            let mut r_instructions = r_instructions;
            let mut tail: Vec<Instruction> = Vec::new();
            tail.push(Instruction::ConditionalJMPFalse(r_addr, label_false.clone()));
            tail.push(Instruction::CopyAssignment(Address::Temporary(t.clone(), Type::Bool), bool_const(true)));
            tail.push(Instruction::JMP(label_exit.clone()));
            tail.push(Instruction::Label(label_false));
            tail.push(Instruction::CopyAssignment(Address::Temporary(t.clone(), Type::Bool), bool_const(false)));
            tail.push(Instruction::Label(label_exit));
            let ghost ct = tail@;
            instructions.append(&mut mid);
            instructions.append(&mut r_instructions);
            instructions.append(&mut tail);
            proof {
                lemma_views_add(c0, cm);
                lemma_views_add(c0 + cm, c1);
                lemma_views_add(c0 + cm + c1, ct);
                let ca = expr_code(**l, l0, t0);
                let cb = expr_code(**r, ca.labels, ca.temps);
                let tmp = AddrView::Temp(temp_name(cb.temps + 1), type_view(Type::Bool));
                assert(views(cm) =~= seq![InstrView::CondJmpFalse(ca.addr, label_name(cb.labels + 1))]);
                assert(views(ct) =~= seq![
                    InstrView::CondJmpFalse(cb.addr, label_name(cb.labels + 1)),
                    InstrView::Copy(tmp, bool_view(true)),
                    InstrView::Jmp(label_name(cb.labels + 2)),
                    InstrView::Label(label_name(cb.labels + 1)),
                    InstrView::Copy(tmp, bool_view(false)),
                    InstrView::Label(label_name(cb.labels + 2)),
                ]);
            }
            (Address::Temporary(t, Type::Bool), instructions)
        },
        _ => {
            proof { assert(false); }
            (Address::Constant(Literal::Bool(false), Type::Bool), Vec::new())
        },
    }
}

/// `translate_expression` on or expressions.
#[verifier::rlimit(40)]
fn translate_or(expression: &CheckedExpr, result_ty: Type, env: &mut Environment) -> (r: (Address, Vec<Instruction>))
    requires
        ty_eq(result_ty, expression.ty),
        expression.exp is Or,
        expr_lowerable(*expression),
        has_room(*old(env), expr_nodes(*expression)),
    ensures
        used_within(*old(env), *final(env), expr_nodes(*expression)),
        r.0 matches Address::Temporary(n, _) && n@ == temp_name(final(env).temps()),
        final(env).temps() > old(env).temps(),
        views(r.1@) == expr_code(*expression, old(env).labels(), old(env).temps()).code,
        addr_view(r.0) == expr_code(*expression, old(env).labels(), old(env).temps()).addr,
        final(env).labels() == expr_code(*expression, old(env).labels(), old(env).temps()).labels,
        final(env).temps() == expr_code(*expression, old(env).labels(), old(env).temps()).temps,
    decreases expr_nodes(*expression), 1int,
{
    let ghost l0 = env.labels();
    let ghost t0 = env.temps();
    match &expression.exp {
        Expr::Or(l, r) => {
            let (l_addr, mut instructions) = translate_expression(l, env);
            let ghost c0 = instructions@;
            let (r_addr, r_instructions) = translate_expression(r, env);
            let ghost c1 = r_instructions@;
            let label_true = env.new_label();
            let label_false = env.new_label();
            let label_exit = env.new_label();
            let t = env.new_temporary();
            let mut mid: Vec<Instruction> = Vec::new();
            mid.push(Instruction::ConditionalJMPFalse(l_addr, label_false.clone()));
            mid.push(Instruction::JMP(label_true.clone()));
            mid.push(Instruction::Label(label_false));
            let ghost cm = mid@;
            let mut r_instructions = r_instructions;
            let mut tail: Vec<Instruction> = Vec::new();
            tail.push(Instruction::ConditionalJMP(r_addr, label_true.clone()));
            tail.push(Instruction::CopyAssignment(Address::Temporary(t.clone(), Type::Bool), bool_const(false)));
            tail.push(Instruction::JMP(label_exit.clone()));
            tail.push(Instruction::Label(label_true));
            tail.push(Instruction::CopyAssignment(Address::Temporary(t.clone(), Type::Bool), bool_const(true)));
            tail.push(Instruction::Label(label_exit));
            let ghost ct = tail@;
            instructions.append(&mut mid);
            instructions.append(&mut r_instructions);
            instructions.append(&mut tail);
            proof {
                lemma_views_add(c0, cm);
                lemma_views_add(c0 + cm, c1);
                lemma_views_add(c0 + cm + c1, ct);
                let ca = expr_code(**l, l0, t0);
                let cb = expr_code(**r, ca.labels, ca.temps);
                let tmp = AddrView::Temp(temp_name(cb.temps + 1), type_view(Type::Bool));
                assert(views(cm) =~= seq![InstrView::CondJmpFalse(ca.addr, label_name(cb.labels + 2)), InstrView::Jmp(label_name(cb.labels + 1)),
                    InstrView::Label(label_name(cb.labels + 2))]);
                assert(views(ct) =~= seq![
                    InstrView::CondJmp(cb.addr, label_name(cb.labels + 1)),
                    InstrView::Copy(tmp, bool_view(false)),
                    InstrView::Jmp(label_name(cb.labels + 3)),
                    InstrView::Label(label_name(cb.labels + 1)),
                    InstrView::Copy(tmp, bool_view(true)),
                    InstrView::Label(label_name(cb.labels + 3)),
                ]);
            }
            (Address::Temporary(t, Type::Bool), instructions)
        },
        _ => {
            proof { assert(false); }
            (Address::Constant(Literal::Bool(false), Type::Bool), Vec::new())
        },
    }
}

/// `translate_expression` on call expressions.
#[verifier::rlimit(40)]
fn translate_call(expression: &CheckedExpr, result_ty: Type, env: &mut Environment) -> (r: (Address, Vec<Instruction>))
    requires
        ty_eq(result_ty, expression.ty),
        expression.exp is Call,
        expr_lowerable(*expression),
        has_room(*old(env), expr_nodes(*expression)),
    ensures
        used_within(*old(env), *final(env), expr_nodes(*expression)),
        r.0 matches Address::Temporary(n, _) && n@ == temp_name(final(env).temps()),
        final(env).temps() > old(env).temps(),
        views(r.1@) == expr_code(*expression, old(env).labels(), old(env).temps()).code,
        addr_view(r.0) == expr_code(*expression, old(env).labels(), old(env).temps()).addr,
        final(env).labels() == expr_code(*expression, old(env).labels(), old(env).temps()).labels,
        final(env).temps() == expr_code(*expression, old(env).labels(), old(env).temps()).temps,
    decreases expr_nodes(*expression), 1int,
{
    let ghost l0 = env.labels();
    let ghost t0 = env.temps();
    match &expression.exp {
        Expr::Call { name, args } => {
            let (mut instructions, arg_addrs) = translate_args(args, env, Ghost(expr_nodes(*expression)));
            let ghost c0 = instructions@;
            let mut ps = params_of(&arg_addrs);
            let ghost c1 = ps@;
            instructions.append(&mut ps);
            let t = env.new_temporary();
            let n = arg_addrs.len();
            let rt = result_ty.duplicate();
            proof {
                lemma_type_view_ty_eq(rt, result_ty);
                lemma_type_view_ty_eq(result_ty, expression.ty);
            }
            instructions.push(Instruction::Call(Some(Address::Temporary(t.clone(), rt)), name.clone(), n));
            proof {
                lemma_views_add(c0, c1);
                lemma_views_push(c0 + c1, instructions@.last());
                assert(instructions@ == (c0 + c1).push(instructions@.last()));
            }
            (Address::Temporary(t, result_ty), instructions)
        },
        _ => {
            proof { assert(false); }
            (Address::Constant(Literal::Bool(false), Type::Bool), Vec::new())
        },
    }
}

/// The address views of some addresses.
pub open spec fn addr_views(a: Seq<Address>) -> Seq<AddrView> {
    a.map_values(|x: Address| addr_view(x))
}

/// Lowers the expressions of a list, first to last.
fn translate_args(args: &Vec<CheckedExpr>, env: &mut Environment, Ghost(whole): Ghost<nat>) -> (r: (Vec<Instruction>, Vec<Address>))
    requires
        forall|k: int| 0 <= k < args.len() ==> expr_lowerable(#[trigger] args@[k]),
        whole == 1 + exprs_nodes(args@),
        has_room(*old(env), exprs_nodes(args@)),
    ensures
        used_within(*old(env), *final(env), exprs_nodes(args@)),
        views(r.0@) == args_code(args@, old(env).labels(), old(env).temps()).code,
        addr_views(r.1@) == args_code(args@, old(env).labels(), old(env).temps()).addrs,
        final(env).labels() == args_code(args@, old(env).labels(), old(env).temps()).labels,
        final(env).temps() == args_code(args@, old(env).labels(), old(env).temps()).temps,
    decreases whole, 0int,
{
    let mut instructions: Vec<Instruction> = Vec::new();
    let mut arg_addrs: Vec<Address> = Vec::new();
    let ghost start = *env;
    let mut i: usize = 0;
    assert(args@.subrange(0, 0) =~= Seq::<CheckedExpr>::empty());
    assert(views(instructions@) =~= Seq::<InstrView>::empty());
    assert(addr_views(arg_addrs@) =~= Seq::<AddrView>::empty());
    while i < args.len()
        invariant
            i <= args.len(),
            arg_addrs.len() == i,
            forall|k: int| 0 <= k < args.len() ==> expr_lowerable(#[trigger] args@[k]),
            whole == 1 + exprs_nodes(args@),
            has_room(start, exprs_nodes(args@)),
            used_within(start, *env, exprs_nodes(args@.subrange(0, i as int))),
            exprs_nodes(args@.subrange(0, i as int)) <= exprs_nodes(args@),
            views(instructions@) == args_code(args@.subrange(0, i as int), start.labels(), start.temps()).code,
            addr_views(arg_addrs@) == args_code(args@.subrange(0, i as int), start.labels(), start.temps()).addrs,
            env.labels() == args_code(args@.subrange(0, i as int), start.labels(), start.temps()).labels,
            env.temps() == args_code(args@.subrange(0, i as int), start.labels(), start.temps()).temps,
        decreases args.len() - i,
    {
        proof {
            lemma_exprs_nodes_step(args@, i as int);
            crate::codegen::counts::lemma_exprs_nodes_split(args@, i + 1);
        }
        let ghost c0 = instructions@;
        let ghost a0 = arg_addrs@;
        let (addr, mut arg_instructions) = translate_expression(&args[i], env);
        let ghost c1 = arg_instructions@;
        instructions.append(&mut arg_instructions);
        arg_addrs.push(addr);
        proof {
            let sub = args@.subrange(0, i + 1);
            assert(sub.drop_last() =~= args@.subrange(0, i as int));
            assert(sub.last() == args@[i as int]);
            lemma_views_add(c0, c1);
            assert(addr_views(arg_addrs@) =~= addr_views(a0).push(addr_view(arg_addrs@.last())));
        }
        i = i + 1;
    }
    proof {
        assert(args@.subrange(0, args.len() as int) =~= args@);
    }
    (instructions, arg_addrs)
}

/// `param a` for each address, in order.
fn params_of(addrs: &Vec<Address>) -> (r: Vec<Instruction>)
    ensures
        views(r@) == params(addr_views(addrs@)),
{
    let mut out: Vec<Instruction> = Vec::new();
    let mut j: usize = 0;
    while j < addrs.len()
        invariant
            j <= addrs.len(),
            views(out@) == params(addr_views(addrs@.subrange(0, j as int))),
        decreases addrs.len() - j,
    {
        let ghost c0 = out@;
        let a = copy_address(&addrs[j]);
        out.push(Instruction::Param(a));
        proof {
            lemma_views_push(c0, out@.last());
            assert(params(addr_views(addrs@.subrange(0, j + 1))) =~= params(addr_views(addrs@.subrange(0, j as int))).push(
                InstrView::Param(addr_view(addrs@[j as int]))));
        }
        j = j + 1;
    }
    assert(addrs@.subrange(0, addrs.len() as int) =~= addrs@);
    out
}

/// Lowers `left <op> right` into `t := a <op> b`.
fn translate_binary(op: Operator, left: &CheckedExpr, right: &CheckedExpr, result_ty: Type, env: &mut Environment) -> (r: (
    Address,
    Vec<Instruction>,
))
    requires
        expr_lowerable(*left),
        expr_lowerable(*right),
        has_room(*old(env), 1 + expr_nodes(*left) + expr_nodes(*right)),
    ensures
        used_within(*old(env), *final(env), 1 + expr_nodes(*left) + expr_nodes(*right)),
        r.0 matches Address::Temporary(n, _) && n@ == temp_name(final(env).temps()),
        final(env).temps() > old(env).temps(),
        ({
            let ca = expr_code(*left, old(env).labels(), old(env).temps());
            let c = binary_code(op, ca, expr_code(*right, ca.labels, ca.temps), type_view(result_ty));
            views(r.1@) == c.code && addr_view(r.0) == c.addr && final(env).labels() == c.labels && final(env).temps() == c.temps
        }),
    decreases 1 + expr_nodes(*left) + expr_nodes(*right), 0int,
{
    let (l_addr, mut instructions) = translate_expression(left, env);
    let ghost c0 = instructions@;
    let (r_addr, mut r_instructions) = translate_expression(right, env);
    let ghost c1 = r_instructions@;
    instructions.append(&mut r_instructions);
    let t = env.new_temporary();
    let rt = result_ty.duplicate();
    proof { lemma_type_view_ty_eq(rt, result_ty); }
    instructions.push(Instruction::BinaryAssignment(op, Address::Temporary(t.clone(), rt), l_addr, r_addr));
    proof {
        lemma_views_add(c0, c1);
        lemma_views_push(c0 + c1, instructions@.last());
        assert(instructions@ == (c0 + c1).push(instructions@.last()));
    }
    (Address::Temporary(t, result_ty), instructions)
}

/// Materialises a comparison into a boolean temporary through a relational jump.
fn translate_relational_value(op: Operator, left: &CheckedExpr, right: &CheckedExpr, env: &mut Environment) -> (r: (
    Address,
    Vec<Instruction>,
))
    requires
        expr_lowerable(*left),
        expr_lowerable(*right),
        has_room(*old(env), 1 + expr_nodes(*left) + expr_nodes(*right)),
    ensures
        used_within(*old(env), *final(env), 1 + expr_nodes(*left) + expr_nodes(*right)),
        r.0 matches Address::Temporary(n, _) && n@ == temp_name(final(env).temps()),
        final(env).temps() > old(env).temps(),
        ({
            let ca = expr_code(*left, old(env).labels(), old(env).temps());
            let c = relational_value_code(op, ca, expr_code(*right, ca.labels, ca.temps));
            views(r.1@) == c.code && addr_view(r.0) == c.addr && final(env).labels() == c.labels && final(env).temps() == c.temps
        }),
    decreases 1 + expr_nodes(*left) + expr_nodes(*right), 0int,
{
    let (l_addr, mut instructions) = translate_expression(left, env);
    let ghost c0 = instructions@;
    let (r_addr, mut r_instructions) = translate_expression(right, env);
    let ghost c1 = r_instructions@;
    instructions.append(&mut r_instructions);
    let label_true = env.new_label();
    let label_exit = env.new_label();
    let t = env.new_temporary();
    let mut tail: Vec<Instruction> = Vec::new();
    tail.push(Instruction::ConditionalJMPRelational(op, l_addr, r_addr, label_true.clone()));
    tail.push(Instruction::CopyAssignment(Address::Temporary(t.clone(), Type::Bool), bool_const(false)));
    tail.push(Instruction::JMP(label_exit.clone()));
    tail.push(Instruction::Label(label_true));
    tail.push(Instruction::CopyAssignment(Address::Temporary(t.clone(), Type::Bool), bool_const(true)));
    tail.push(Instruction::Label(label_exit));
    let ghost ct = tail@;
    instructions.append(&mut tail);
    proof {
        lemma_views_add(c0, c1);
        lemma_views_add(c0 + c1, ct);
        let ca = expr_code(*left, old(env).labels(), old(env).temps());
        let cb = expr_code(*right, ca.labels, ca.temps);
        let tmp = AddrView::Temp(temp_name(cb.temps + 1), type_view(Type::Bool));
        assert(views(ct) =~= seq![
            InstrView::CondJmpRel(op, ca.addr, cb.addr, label_name(cb.labels + 1)),
            InstrView::Copy(tmp, bool_view(false)),
            InstrView::Jmp(label_name(cb.labels + 2)),
            InstrView::Label(label_name(cb.labels + 1)),
            InstrView::Copy(tmp, bool_view(true)),
            InstrView::Label(label_name(cb.labels + 2)),
        ]);
    }
    (Address::Temporary(t, Type::Bool), instructions)
}

/// Lowers a boolean expression used as a condition: control reaches
/// `true_label` when it holds and `false_label` when it does not. The code
/// is the one the scheme gives (`cond_code`).
#[verifier::rlimit(40)]
pub fn translate_conditional(expression: &CheckedExpr, env: &mut Environment, true_label: String, false_label: String) -> (r:
    Vec<Instruction>)
    requires
        expr_lowerable(*expression),
        has_room(*old(env), expr_nodes(*expression)),
    ensures
        used_within(*old(env), *final(env), expr_nodes(*expression)),
        views(r@) == cond_code(*expression, true_label@, false_label@, old(env).labels(), old(env).temps()).code,
        final(env).labels() == cond_code(*expression, true_label@, false_label@, old(env).labels(), old(env).temps()).labels,
        final(env).temps() == cond_code(*expression, true_label@, false_label@, old(env).labels(), old(env).temps()).temps,
    decreases expr_nodes(*expression),
{
    let ghost l0 = env.labels();
    let ghost t0 = env.temps();
    let ghost tl = true_label@;
    let ghost fl = false_label@;
    match &expression.exp {
        Expr::Literal(Literal::Bool(true)) => {
            let r = vec![Instruction::JMP(true_label)];
            assert(views(r@) =~= seq![InstrView::Jmp(tl)]);
            r
        },
        Expr::Literal(Literal::Bool(false)) => {
            let r = vec![Instruction::JMP(false_label)];
            assert(views(r@) =~= seq![InstrView::Jmp(fl)]);
            r
        },
        Expr::Ident(name) => {
            let addr = Address::Variable(name.clone(), expression.ty.duplicate());
            proof { lemma_type_view_ty_eq(addr->Variable_1, expression.ty); }
            let r = vec![Instruction::ConditionalJMP(addr, true_label), Instruction::JMP(false_label)];
            assert(views(r@) =~= seq![InstrView::CondJmp(AddrView::Var(name@, type_view(expression.ty)), tl), InstrView::Jmp(fl)]);
            r
        },
        Expr::And(left, right) => {
            let label_right = env.new_label();
            let mut instructions = translate_conditional(left, env, label_right.clone(), false_label.clone());
            let ghost c0 = instructions@;
            instructions.push(Instruction::Label(label_right));
            let ghost c1 = instructions@;
            let mut rest = translate_conditional(right, env, true_label, false_label);
            let ghost c2 = rest@;
            instructions.append(&mut rest);
            proof {
                lemma_views_push(c0, c1.last());
                assert(c1 == c0.push(c1.last()));
                lemma_views_add(c1, c2);
            }
            instructions
        },
        Expr::Or(left, right) => {
            let label_right = env.new_label();
            let mut instructions = translate_conditional(left, env, true_label.clone(), label_right.clone());
            let ghost c0 = instructions@;
            instructions.push(Instruction::Label(label_right));
            let ghost c1 = instructions@;
            let mut rest = translate_conditional(right, env, true_label, false_label);
            let ghost c2 = rest@;
            instructions.append(&mut rest);
            proof {
                lemma_views_push(c0, c1.last());
                assert(c1 == c0.push(c1.last()));
                lemma_views_add(c1, c2);
            }
            instructions
        },
        Expr::Not(inner) => translate_conditional(inner, env, false_label, true_label),
        Expr::Lt(l, r) => translate_relational(l, r, Operator::LT, true_label, false_label, env),
        Expr::Le(l, r) => translate_relational(l, r, Operator::LTE, true_label, false_label, env),
        Expr::Gt(l, r) => translate_relational(l, r, Operator::GT, true_label, false_label, env),
        Expr::Ge(l, r) => translate_relational(l, r, Operator::GTE, true_label, false_label, env),
        Expr::Eq(l, r) => translate_relational(l, r, Operator::EQ, true_label, false_label, env),
        Expr::Ne(l, r) => translate_relational(l, r, Operator::NE, true_label, false_label, env),
        _ => {
            let (addr, mut instructions) = translate_expression(expression, env);
            let ghost c0 = instructions@;
            let mut tail = vec![Instruction::ConditionalJMP(addr, true_label), Instruction::JMP(false_label)];
            let ghost c1 = tail@;
            instructions.append(&mut tail);
            proof {
                lemma_views_add(c0, c1);
                let c = expr_code(*expression, l0, t0);
                assert(views(c1) =~= seq![InstrView::CondJmp(c.addr, tl), InstrView::Jmp(fl)]);
            }
            instructions
        },
    }
}

/// `if a <op> b goto true_label; goto false_label`.
fn translate_relational(
    left: &CheckedExpr,
    right: &CheckedExpr,
    op: Operator,
    true_label: String,
    false_label: String,
    env: &mut Environment,
) -> (r: Vec<Instruction>)
    requires
        expr_lowerable(*left),
        expr_lowerable(*right),
        has_room(*old(env), 1 + expr_nodes(*left) + expr_nodes(*right)),
    ensures
        used_within(*old(env), *final(env), 1 + expr_nodes(*left) + expr_nodes(*right)),
        ({
            let ca = expr_code(*left, old(env).labels(), old(env).temps());
            let c = relational_code(op, ca, expr_code(*right, ca.labels, ca.temps), true_label@, false_label@);
            views(r@) == c.code && final(env).labels() == c.labels && final(env).temps() == c.temps
        }),
{
    let ghost tl = true_label@;
    let ghost fl = false_label@;
    let (l_addr, mut instructions) = translate_expression(left, env);
    let ghost c0 = instructions@;
    let (r_addr, mut r_instructions) = translate_expression(right, env);
    let ghost c1 = r_instructions@;
    instructions.append(&mut r_instructions);
    let mut tail = vec![Instruction::ConditionalJMPRelational(op, l_addr, r_addr, true_label), Instruction::JMP(false_label)];
    let ghost ct = tail@;
    instructions.append(&mut tail);
    proof {
        lemma_views_add(c0, c1);
        lemma_views_add(c0 + c1, ct);
        let ca = expr_code(*left, old(env).labels(), old(env).temps());
        let cb = expr_code(*right, ca.labels, ca.temps);
        assert(views(ct) =~= seq![InstrView::CondJmpRel(op, ca.addr, cb.addr, tl), InstrView::Jmp(fl)]);
    }
    instructions
}

/// Lowers a statement; the code is the one the scheme gives (`stmt_code`).
pub fn translate_statement(statement: &CheckedStmt, env: &mut Environment) -> (r: Vec<Instruction>)
    requires
        stmt_lowerable(*statement),
        has_room(*old(env), stmt_nodes(*statement)),
    ensures
        used_within(*old(env), *final(env), stmt_nodes(*statement)),
        views(r@) == stmt_code(*statement, old(env).labels(), old(env).temps()).code,
        final(env).labels() == stmt_code(*statement, old(env).labels(), old(env).temps()).labels,
        final(env).temps() == stmt_code(*statement, old(env).labels(), old(env).temps()).temps,
    decreases stmt_nodes(*statement), 1int,
{
    let ghost l0 = env.labels();
    let ghost t0 = env.temps();
    match &statement.stmt {
        Statement::Block { .. } => translate_block(statement, env),
        Statement::Decl { name, ty, init } | Statement::ConstDecl { name, ty, init } => {
            let var = Address::Variable(name.clone(), ty.duplicate());
            proof { lemma_type_view_ty_eq(var->Variable_1, *ty); }
            let (addr, mut instructions) = translate_expression(init, env);
            let ghost c0 = instructions@;
            instructions.push(Instruction::CopyAssignment(var, addr));
            proof {
                lemma_views_push(c0, instructions@.last());
                assert(instructions@ == c0.push(instructions@.last()));
            }
            instructions
        },
        Statement::Assign { target, value } => {
            match &target.exp {
                Expr::Ident(name) => {
                    let var = Address::Variable(name.clone(), target.ty.duplicate());
                    proof { lemma_type_view_ty_eq(var->Variable_1, target.ty); }
                    let (addr, mut instructions) = translate_expression(value, env);
                    let ghost c0 = instructions@;
                    instructions.push(Instruction::CopyAssignment(var, addr));
                    proof {
                        lemma_views_push(c0, instructions@.last());
                        assert(instructions@ == c0.push(instructions@.last()));
                    }
                    instructions
                },
                _ => {
                    proof { assert(false); }
                    Vec::new()
                },
            }
        },
        Statement::Call { .. } => translate_call_statement(statement, env),
        Statement::If { else_branch: Some(_), .. } => translate_if_else(statement, env),
        Statement::If { else_branch: None, .. } => translate_if(statement, env),
        Statement::While { .. } => translate_while(statement, env),
        Statement::Return(Some(expr)) => {
            let (addr, mut instructions) = translate_expression(expr, env);
            let ghost c0 = instructions@;
            instructions.push(Instruction::Return(Some(addr)));
            proof {
                lemma_views_push(c0, instructions@.last());
                assert(instructions@ == c0.push(instructions@.last()));
            }
            instructions
        },
        Statement::Return(None) => {
            let r = vec![Instruction::Return(None)];
            assert(views(r@) =~= seq![InstrView::Return(None)]);
            r
        },
        Statement::Assert(_) => translate_assert(statement, env),
    }
}

proof fn lemma_views_five(a: Seq<Instruction>, b: Seq<Instruction>, c: Seq<Instruction>, d: Seq<Instruction>, e: Seq<Instruction>)
    ensures
        views(a + b + c + d + e) == views(a) + views(b) + views(c) + views(d) + views(e),
{
    lemma_views_add(a, b);
    lemma_views_add(a + b, c);
    lemma_views_add(a + b + c, d);
    lemma_views_add(a + b + c + d, e);
}

proof fn lemma_views_parts(
    c0: Seq<Instruction>, c1: Seq<Instruction>, c2: Seq<Instruction>, c3: Seq<Instruction>, c4: Seq<Instruction>,
    v0: Seq<InstrView>, v1: Seq<InstrView>, v2: Seq<InstrView>, v3: Seq<InstrView>, v4: Seq<InstrView>,
)
    requires
        views(c0) == v0,
        views(c1) == v1,
        views(c2) == v2,
        views(c3) == v3,
        views(c4) == v4,
    ensures
        views(c0 + c1 + c2 + c3 + c4) == v0 + v1 + v2 + v3 + v4,
{
    lemma_views_five(c0, c1, c2, c3, c4);
}

/// A block: its statements, one after another.
#[verifier::rlimit(90)]
#[verifier::spinoff_prover]
fn translate_block(statement: &CheckedStmt, env: &mut Environment) -> (r: Vec<Instruction>)
    requires
        statement.stmt is Block,
        stmt_lowerable(*statement),
        has_room(*old(env), stmt_nodes(*statement)),
    ensures
        used_within(*old(env), *final(env), stmt_nodes(*statement)),
        views(r@) == stmt_code(*statement, old(env).labels(), old(env).temps()).code,
        final(env).labels() == stmt_code(*statement, old(env).labels(), old(env).temps()).labels,
        final(env).temps() == stmt_code(*statement, old(env).labels(), old(env).temps()).temps,
    decreases stmt_nodes(*statement), 0int,
{
    let ghost l0 = env.labels();
    let ghost t0 = env.temps();
    match &statement.stmt {
        Statement::Block { seq } => {
            let mut instructions: Vec<Instruction> = Vec::new();
            let ghost start = *env;
            let mut i: usize = 0;
            assert(seq@.subrange(0, 0) =~= Seq::<CheckedStmt>::empty());
            assert(views(instructions@) =~= Seq::<InstrView>::empty());
            while i < seq.len()
                invariant
                    i <= seq.len(),
                    forall|k: int| 0 <= k < seq.len() ==> stmt_lowerable(#[trigger] seq@[k]),
                    stmts_nodes(seq@) + 1 == stmt_nodes(*statement),
                    has_room(start, stmt_nodes(*statement)),
                    used_within(start, *env, stmts_nodes(seq@.subrange(0, i as int))),
                    stmts_nodes(seq@.subrange(0, i as int)) <= stmts_nodes(seq@),
                    start.labels() == l0,
                    start.temps() == t0,
                    views(instructions@) == stmts_code(seq@.subrange(0, i as int), l0, t0).code,
                    env.labels() == stmts_code(seq@.subrange(0, i as int), l0, t0).labels,
                    env.temps() == stmts_code(seq@.subrange(0, i as int), l0, t0).temps,
                decreases seq.len() - i,
            {
                proof {
                    lemma_stmts_nodes_step(seq@, i as int);
                    crate::codegen::counts::lemma_stmts_nodes_split(seq@, i + 1);
                }
                let ghost c0 = instructions@;
                let mut part = translate_statement(&seq[i], env);
                let ghost c1 = part@;
                instructions.append(&mut part);
                proof {
                    let sub = seq@.subrange(0, i + 1);
                    assert(sub.drop_last() =~= seq@.subrange(0, i as int));
                    assert(sub.last() == seq@[i as int]);
                    lemma_views_add(c0, c1);
                }
                i = i + 1;
            }
            assert(seq@.subrange(0, seq.len() as int) =~= seq@);
            instructions
        },
        _ => {
            proof { assert(false); }
            Vec::new()
        },
    }
}

/// A call statement: its arguments, their `param`s, and the call.
#[verifier::rlimit(90)]
#[verifier::spinoff_prover]
fn translate_call_statement(statement: &CheckedStmt, env: &mut Environment) -> (r: Vec<Instruction>)
    requires
        statement.stmt is Call,
        stmt_lowerable(*statement),
        has_room(*old(env), stmt_nodes(*statement)),
    ensures
        used_within(*old(env), *final(env), stmt_nodes(*statement)),
        views(r@) == stmt_code(*statement, old(env).labels(), old(env).temps()).code,
        final(env).labels() == stmt_code(*statement, old(env).labels(), old(env).temps()).labels,
        final(env).temps() == stmt_code(*statement, old(env).labels(), old(env).temps()).temps,
    decreases stmt_nodes(*statement), 0int,
{
    let ghost l0 = env.labels();
    let ghost t0 = env.temps();
    match &statement.stmt {
        Statement::Call { name, args } => {
            let (mut instructions, addrs) = translate_args(args, env, Ghost(stmt_nodes(*statement)));
            let ghost c0 = instructions@;
            let mut ps = params_of(&addrs);
            let ghost c1 = ps@;
            instructions.append(&mut ps);
            instructions.push(Instruction::Call(None, name.clone(), addrs.len()));
            proof {
                lemma_views_add(c0, c1);
                lemma_views_push(c0 + c1, instructions@.last());
                assert(instructions@ == (c0 + c1).push(instructions@.last()));
            }
            instructions
        },
        _ => {
            proof { assert(false); }
            Vec::new()
        },
    }
}

/// The code of a `while` statement, from the code of its parts.
#[verifier::spinoff_prover]
proof fn lemma_while_assemble(
    s: CheckedStmt, l0: nat, t0: nat,
    c0: Seq<Instruction>, c1: Seq<Instruction>, c2: Seq<Instruction>, c3: Seq<Instruction>, c4: Seq<Instruction>,
)
    requires
        s.stmt matches Statement::While { cond, body } && ({
            let cc = cond_code(*cond, label_name(l0 + 2), label_name(l0 + 3), l0 + 3, t0);
            &&& views(c0) == seq![InstrView::Label(label_name(l0 + 1))]
            &&& views(c1) == cc.code
            &&& views(c2) == seq![InstrView::Label(label_name(l0 + 2))]
            &&& views(c3) == stmt_code(*body, cc.labels, cc.temps).code
            &&& views(c4) == seq![InstrView::Jmp(label_name(l0 + 1)), InstrView::Label(label_name(l0 + 3))]
        }),
    ensures
        views(c0 + c1 + c2 + c3 + c4) == stmt_code(s, l0, t0).code,
        s.stmt matches Statement::While { cond, body } && ({
            let cc = cond_code(*cond, label_name(l0 + 2), label_name(l0 + 3), l0 + 3, t0);
            &&& stmt_code(s, l0, t0).labels == stmt_code(*body, cc.labels, cc.temps).labels
            &&& stmt_code(s, l0, t0).temps == stmt_code(*body, cc.labels, cc.temps).temps
        }),
{
    match s.stmt {
        Statement::While { cond, body } => {
            let cc = cond_code(*cond, label_name(l0 + 2), label_name(l0 + 3), l0 + 3, t0);
            let cb = stmt_code(*body, cc.labels, cc.temps);
            lemma_views_parts(c0, c1, c2, c3, c4, seq![InstrView::Label(label_name(l0 + 1))], cc.code,
                seq![InstrView::Label(label_name(l0 + 2))], cb.code,
                seq![InstrView::Jmp(label_name(l0 + 1)), InstrView::Label(label_name(l0 + 3))]);
            assert(stmt_code(s, l0, t0) == while_code(*cond, cb, l0, t0));
        },
        _ => {},
    }
}

/// The code of an `if` statement with an `else` branch, from the code of its parts.
#[verifier::spinoff_prover]
proof fn lemma_if_else_assemble(
    s: CheckedStmt, l0: nat, t0: nat,
    c0: Seq<Instruction>, c1: Seq<Instruction>, c2: Seq<Instruction>, c3: Seq<Instruction>, c4: Seq<Instruction>,
    c5: Seq<Instruction>,
)
    requires
        s.stmt matches Statement::If { cond, then_branch, else_branch: Some(eb) } && ({
            let cc = cond_code(*cond, label_name(l0 + 1), label_name(l0 + 2), l0 + 3, t0);
            let ct = stmt_code(*then_branch, cc.labels, cc.temps);
            &&& views(c0) == cc.code
            &&& c1 == c0.push(c1.last())
            &&& c1.last() matches Instruction::Label(x) && x@ == label_name(l0 + 1)
            &&& views(c2) == ct.code
            &&& views(c3) == seq![InstrView::Jmp(label_name(l0 + 3)), InstrView::Label(label_name(l0 + 2))]
            &&& views(c4) == stmt_code(*eb, ct.labels, ct.temps).code
            &&& views(c5) == seq![InstrView::Label(label_name(l0 + 3))]
        }),
    ensures
        views(c1 + c2 + c3 + c4 + c5) == stmt_code(s, l0, t0).code,
{
    lemma_views_push(c0, c1.last());
    lemma_views_add(c1, c2);
    lemma_views_add(c1 + c2, c3);
    lemma_views_add(c1 + c2 + c3, c4);
    lemma_views_add(c1 + c2 + c3 + c4, c5);
}

/// `if` with an `else` branch.
#[verifier::rlimit(100)]
#[verifier::spinoff_prover]
fn translate_if_else(statement: &CheckedStmt, env: &mut Environment) -> (r: Vec<Instruction>)
    requires
        statement.stmt matches Statement::If { else_branch: Some(_), .. },
        stmt_lowerable(*statement),
        has_room(*old(env), stmt_nodes(*statement)),
    ensures
        used_within(*old(env), *final(env), stmt_nodes(*statement)),
        views(r@) == stmt_code(*statement, old(env).labels(), old(env).temps()).code,
        final(env).labels() == stmt_code(*statement, old(env).labels(), old(env).temps()).labels,
        final(env).temps() == stmt_code(*statement, old(env).labels(), old(env).temps()).temps,
    decreases stmt_nodes(*statement), 0int,
{
    let ghost l0 = env.labels();
    let ghost t0 = env.temps();
    match &statement.stmt {
        Statement::If { cond, then_branch, else_branch: Some(else_branch) } => {
            let label_then = env.new_label();
            let label_else = env.new_label();
            let label_end = env.new_label();
            let ghost lt = label_then@;
            let ghost le = label_else@;
            let ghost lend = label_end@;
            let mut instructions = translate_conditional(cond, env, label_then.clone(), label_else.clone());
            let ghost c0 = instructions@;
            instructions.push(Instruction::Label(label_then));
            let ghost c1 = instructions@;
            let mut part = translate_statement(then_branch, env);
            let ghost c2 = part@;
            instructions.append(&mut part);
            let mut mid = vec![Instruction::JMP(label_end.clone()), Instruction::Label(label_else)];
            let ghost c3 = mid@;
            instructions.append(&mut mid);
            let mut part2 = translate_statement(else_branch, env);
            let ghost c4 = part2@;
            instructions.append(&mut part2);
            let mut last = vec![Instruction::Label(label_end)];
            let ghost c5 = last@;
            instructions.append(&mut last);
            proof {
                assert(c1 == c0.push(c1.last()));
                assert(views(c3) =~= seq![InstrView::Jmp(lend), InstrView::Label(le)]);
                assert(views(c5) =~= seq![InstrView::Label(lend)]);
                assert(instructions@ == c1 + c2 + c3 + c4 + c5);
                lemma_if_else_assemble(*statement, l0, t0, c0, c1, c2, c3, c4, c5);
            }
            instructions
        },
        _ => {
            proof { assert(false); }
            Vec::new()
        },
    }
}

/// `if` without an `else` branch.
#[verifier::rlimit(90)]
#[verifier::spinoff_prover]
fn translate_if(statement: &CheckedStmt, env: &mut Environment) -> (r: Vec<Instruction>)
    requires
        statement.stmt matches Statement::If { else_branch: None, .. },
        stmt_lowerable(*statement),
        has_room(*old(env), stmt_nodes(*statement)),
    ensures
        used_within(*old(env), *final(env), stmt_nodes(*statement)),
        views(r@) == stmt_code(*statement, old(env).labels(), old(env).temps()).code,
        final(env).labels() == stmt_code(*statement, old(env).labels(), old(env).temps()).labels,
        final(env).temps() == stmt_code(*statement, old(env).labels(), old(env).temps()).temps,
    decreases stmt_nodes(*statement), 0int,
{
    let ghost l0 = env.labels();
    let ghost t0 = env.temps();
    match &statement.stmt {
        Statement::If { cond, then_branch, else_branch: None } => {
            let label_then = env.new_label();
            let label_end = env.new_label();
            let ghost lend = label_end@;
            let mut instructions = translate_conditional(cond, env, label_then.clone(), label_end.clone());
            let ghost c0 = instructions@;
            instructions.push(Instruction::Label(label_then));
            let ghost c1 = instructions@;
            let mut part = translate_statement(then_branch, env);
            let ghost c2 = part@;
            instructions.append(&mut part);
            let mut last = vec![Instruction::Label(label_end)];
            let ghost c3 = last@;
            instructions.append(&mut last);
            proof {
                lemma_views_push(c0, c1.last());
                assert(c1 == c0.push(c1.last()));
                lemma_views_add(c1, c2);
                lemma_views_add(c1 + c2, c3);
                assert(views(c3) =~= seq![InstrView::Label(lend)]);
            }
            instructions
        },
        _ => {
            proof { assert(false); }
            Vec::new()
        },
    }
}

/// `l:`.
fn label_code(l: String) -> (r: Vec<Instruction>)
    ensures
        views(r@) == seq![InstrView::Label(l@)],
{
    let r = vec![Instruction::Label(l)];
    assert(views(r@) =~= seq![InstrView::Label(l@)]);
    r
}

/// `goto a; b:`.
fn jump_label_code(a: String, b: String) -> (r: Vec<Instruction>)
    ensures
        views(r@) == seq![InstrView::Jmp(a@), InstrView::Label(b@)],
{
    let r = vec![Instruction::JMP(a), Instruction::Label(b)];
    assert(views(r@) =~= seq![InstrView::Jmp(a@), InstrView::Label(b@)]);
    r
}

/// `fail: param message; call routine, 1; ok:`.
fn assert_fail_code(fail: String, message: String, routine: String, ok: String) -> (r: Vec<Instruction>)
    ensures
        views(r@) == seq![
            InstrView::Label(fail@),
            InstrView::Param(AddrView::Const(LitView::Str(message@), type_view(Type::Str))),
            InstrView::Call(None, routine@, 1),
            InstrView::Label(ok@),
        ],
{
    let r = vec![
        Instruction::Label(fail),
        Instruction::Param(Address::Constant(Literal::Str(message), Type::Str)),
        Instruction::Call(None, routine, 1),
        Instruction::Label(ok),
    ];
    assert(views(r@) =~= seq![
        InstrView::Label(fail@),
        InstrView::Param(AddrView::Const(LitView::Str(message@), type_view(Type::Str))),
        InstrView::Call(None, routine@, 1),
        InstrView::Label(ok@),
    ]);
    r
}

/// `while`: the condition is tested before each run of the body.
#[verifier::rlimit(100)]
#[verifier::spinoff_prover]
fn translate_while(statement: &CheckedStmt, env: &mut Environment) -> (r: Vec<Instruction>)
    requires
        statement.stmt is While,
        stmt_lowerable(*statement),
        has_room(*old(env), stmt_nodes(*statement)),
    ensures
        used_within(*old(env), *final(env), stmt_nodes(*statement)),
        views(r@) == stmt_code(*statement, old(env).labels(), old(env).temps()).code,
        final(env).labels() == stmt_code(*statement, old(env).labels(), old(env).temps()).labels,
        final(env).temps() == stmt_code(*statement, old(env).labels(), old(env).temps()).temps,
    decreases stmt_nodes(*statement), 0int,
{
    let ghost l0 = env.labels();
    let ghost t0 = env.temps();
    match &statement.stmt {
        Statement::While { cond, body } => {
            let label_start = env.new_label();
            let label_body = env.new_label();
            let label_end = env.new_label();
            let ghost ls = label_start@;
            let ghost lb = label_body@;
            let ghost lend = label_end@;
            let mut c = translate_conditional(cond, env, label_body.clone(), label_end.clone());
            let ghost c1 = c@;
            let mut instructions = label_code(label_start.clone());
            let ghost c0 = instructions@;
            instructions.append(&mut c);
            let mut mid = label_code(label_body);
            let ghost c2 = mid@;
            instructions.append(&mut mid);
            let mut part = translate_statement(body, env);
            let ghost c3 = part@;
            instructions.append(&mut part);
            let mut last = jump_label_code(label_start, label_end);
            let ghost c4 = last@;
            instructions.append(&mut last);
            proof {
                assert(instructions@ == c0 + c1 + c2 + c3 + c4);
                lemma_while_assemble(*statement, l0, t0, c0, c1, c2, c3, c4);
            }
            instructions
        },
        _ => {
            proof { assert(false); }
            Vec::new()
        },
    }
}

/// `assert e`: a jump over a call of `assert_fail` when `e` holds.
#[verifier::rlimit(90)]
#[verifier::spinoff_prover]
fn translate_assert(statement: &CheckedStmt, env: &mut Environment) -> (r: Vec<Instruction>)
    requires
        statement.stmt is Assert,
        stmt_lowerable(*statement),
        has_room(*old(env), stmt_nodes(*statement)),
    ensures
        used_within(*old(env), *final(env), stmt_nodes(*statement)),
        views(r@) == stmt_code(*statement, old(env).labels(), old(env).temps()).code,
        final(env).labels() == stmt_code(*statement, old(env).labels(), old(env).temps()).labels,
        final(env).temps() == stmt_code(*statement, old(env).labels(), old(env).temps()).temps,
    decreases stmt_nodes(*statement), 0int,
{
    let ghost l0 = env.labels();
    let ghost t0 = env.temps();
    match &statement.stmt {
        Statement::Assert(expr) => {
            let label_ok = env.new_label();
            let label_fail = env.new_label();
            let ghost lok = label_ok@;
            let ghost lfail = label_fail@;
            let mut instructions = translate_conditional(expr, env, label_ok.clone(), label_fail.clone());
            let ghost c0 = instructions@;
            let message = String::from_str("assertion failed");
            let routine = String::from_str("assert_fail");
            proof {
                reveal_strlit("assertion failed");
                reveal_strlit("assert_fail");
            }
            let mut tail = assert_fail_code(label_fail, message, routine, label_ok);
            let ghost c1 = tail@;
            instructions.append(&mut tail);
            proof {
                lemma_views_add(c0, c1);
            }
            instructions
        },
        _ => {
            proof { assert(false); }
            Vec::new()
        },
    }
}

/// Lowers a function: its label, then the code of its body.
pub fn translate_function(function: &CheckedFunDecl, env: &mut Environment) -> (r: Vec<Instruction>)
    requires
        stmt_lowerable(*function.body),
        has_room(*old(env), stmt_nodes(*function.body)),
    ensures
        used_within(*old(env), *final(env), stmt_nodes(*function.body)),
        views(r@) == function_code(*function, old(env).labels(), old(env).temps()).code,
        final(env).labels() == function_code(*function, old(env).labels(), old(env).temps()).labels,
        final(env).temps() == function_code(*function, old(env).labels(), old(env).temps()).temps,
{
    let mut instructions: Vec<Instruction> = Vec::new();
    instructions.push(Instruction::Label(function.name.clone()));
    let ghost c0 = instructions@;
    let mut body = translate_statement(&function.body, env);
    let ghost c1 = body@;
    instructions.append(&mut body);
    proof {
        lemma_views_add(c0, c1);
        assert(views(c0) =~= seq![InstrView::Label(function.name@)]);
    }
    instructions
}

/// The code of a function: a label of its name, then its body.
pub open spec fn function_code(f: CheckedFunDecl, l: nat, t: nat) -> Code {
    let c = stmt_code(*f.body, l, t);
    Code { code: seq![InstrView::Label(f.name@)] + c.code, labels: c.labels, temps: c.temps }
}

/// The code of a test: a label `test_<name>` (name sanitised), then its body.
pub open spec fn test_code(tst: TestDecl<Type>, l: nat, t: nat) -> Code {
    let c = stmt_code(*tst.body, l, t);
    Code { code: seq![InstrView::Label("test_"@ + sanitized(tst.name@))] + c.code, labels: c.labels, temps: c.temps }
}

/// The code of functions one after another.
pub open spec fn functions_code(fs: Seq<CheckedFunDecl>, l: nat, t: nat) -> Code
    decreases fs.len(),
{
    if fs.len() == 0 {
        Code { code: Seq::empty(), labels: l, temps: t }
    } else {
        let before = functions_code(fs.drop_last(), l, t);
        let last = function_code(fs.last(), before.labels, before.temps);
        Code { code: before.code + last.code, labels: last.labels, temps: last.temps }
    }
}

/// The code of tests one after another.
pub open spec fn tests_code(ts: Seq<TestDecl<Type>>, l: nat, t: nat) -> Code
    decreases ts.len(),
{
    if ts.len() == 0 {
        Code { code: Seq::empty(), labels: l, temps: t }
    } else {
        let before = tests_code(ts.drop_last(), l, t);
        let last = test_code(ts.last(), before.labels, before.temps);
        Code { code: before.code + last.code, labels: last.labels, temps: last.temps }
    }
}

/// The code of a program: its functions, then its tests, with one
/// numbering of labels and temporaries from the start.
pub open spec fn program_code(p: CheckedProgram) -> Seq<InstrView> {
    let f = functions_code(p.functions@, 0, 0);
    f.code + tests_code(p.tests@, f.labels, f.temps).code
}

/// Total nodes of the bodies of some functions.
pub open spec fn bodies_nodes(fs: Seq<CheckedFunDecl>) -> nat
    decreases fs.len(),
{
    if fs.len() == 0 {
        0
    } else {
        bodies_nodes(fs.drop_last()) + stmt_nodes(*fs.last().body)
    }
}

/// Total nodes of the bodies of some tests.
pub open spec fn tests_nodes(ts: Seq<TestDecl<Type>>) -> nat
    decreases ts.len(),
{
    if ts.len() == 0 {
        0
    } else {
        tests_nodes(ts.drop_last()) + stmt_nodes(*ts.last().body)
    }
}

/// The program is within what the generator lowers: only lowerable
/// statements, and few enough nodes for the label and temporary counters.
pub open spec fn program_lowerable(p: CheckedProgram) -> bool {
    &&& forall|i: int| 0 <= i < p.functions.len() ==> stmt_lowerable(*(#[trigger] p.functions@[i]).body)
    &&& forall|i: int| 0 <= i < p.tests.len() ==> stmt_lowerable(*(#[trigger] p.tests@[i]).body)
    &&& 3 * (bodies_nodes(p.functions@) + tests_nodes(p.tests@)) <= usize::MAX
}

/// Generates the code of a whole program: each function, in order, then each
/// test as a routine labelled `test_<name>` (name sanitised); the code is
/// the one the scheme gives (`program_code`).
pub fn generate_tac(program: &CheckedProgram) -> (r: TACProgram)
    requires
        program_lowerable(*program),
    ensures
        views(r@) == program_code(*program),
{
    let mut env = Environment::new();
    let mut instructions: Vec<Instruction> = Vec::new();
    let mut i: usize = 0;
    assert(views(instructions@) =~= Seq::<InstrView>::empty());
    while i < program.functions.len()
        invariant
            i <= program.functions.len(),
            program_lowerable(*program),
            env.labels() <= 3 * bodies_nodes(program.functions@.subrange(0, i as int)),
            env.temps() <= bodies_nodes(program.functions@.subrange(0, i as int)),
            views(instructions@) == functions_code(program.functions@.subrange(0, i as int), 0, 0).code,
            env.labels() == functions_code(program.functions@.subrange(0, i as int), 0, 0).labels,
            env.temps() == functions_code(program.functions@.subrange(0, i as int), 0, 0).temps,
        decreases program.functions.len() - i,
    {
        proof {
            let fs = program.functions@;
            assert(fs.subrange(0, i + 1).drop_last() =~= fs.subrange(0, i as int));
            assert(fs.subrange(0, i + 1).last() == fs[i as int]);
            lemma_bodies_prefix(fs, i + 1);
        }
        let ghost c0 = instructions@;
        let mut part = translate_function(&program.functions[i], &mut env);
        let ghost c1 = part@;
        instructions.append(&mut part);
        proof { lemma_views_add(c0, c1); }
        i = i + 1;
    }
    proof {
        assert(program.functions@.subrange(0, i as int) =~= program.functions@);
    }
    let ghost fc = functions_code(program.functions@, 0, 0);
    let ghost before_tests = instructions@;
    let mut t: usize = 0;
    assert(program.tests@.subrange(0, 0) =~= Seq::<TestDecl<Type>>::empty());
    assert(before_tests + Seq::<Instruction>::empty() =~= before_tests);
    while t < program.tests.len()
        invariant
            t <= program.tests.len(),
            program_lowerable(*program),
            env.labels() <= 3 * (bodies_nodes(program.functions@) + tests_nodes(program.tests@.subrange(0, t as int))),
            env.temps() <= bodies_nodes(program.functions@) + tests_nodes(program.tests@.subrange(0, t as int)),
            views(instructions@) == fc.code + tests_code(program.tests@.subrange(0, t as int), fc.labels, fc.temps).code,
            env.labels() == tests_code(program.tests@.subrange(0, t as int), fc.labels, fc.temps).labels,
            env.temps() == tests_code(program.tests@.subrange(0, t as int), fc.labels, fc.temps).temps,
        decreases program.tests.len() - t,
    {
        proof {
            let ts = program.tests@;
            assert(ts.subrange(0, t + 1).drop_last() =~= ts.subrange(0, t as int));
            assert(ts.subrange(0, t + 1).last() == ts[t as int]);
            lemma_tests_prefix(ts, t + 1);
        }
        let test = &program.tests[t];
        let mut label: Vec<char> = Vec::new();
        append_str(&mut label, "test_");
        let s = sanitize(test.name.as_str());
        append_str(&mut label, s.as_str());
        let ghost c0 = instructions@;
        instructions.push(Instruction::Label(string_of(&label)));
        let ghost c1 = instructions@;
        let mut part = translate_statement(&test.body, &mut env);
        let ghost c2 = part@;
        instructions.append(&mut part);
        proof {
            lemma_views_push(c0, c1.last());
            assert(c1 == c0.push(c1.last()));
            lemma_views_add(c1, c2);
            let tc = tests_code(program.tests@.subrange(0, t as int), fc.labels, fc.temps);
            assert(views(instructions@) =~= fc.code + tc.code + (seq![InstrView::Label("test_"@ + sanitized(test.name@))]
                + stmt_code(*test.body, tc.labels, tc.temps).code));
        }
        t = t + 1;
    }
    proof {
        assert(program.tests@.subrange(0, t as int) =~= program.tests@);
    }
    instructions
}

proof fn lemma_bodies_prefix(fs: Seq<CheckedFunDecl>, i: int)
    requires
        0 <= i <= fs.len(),
    ensures
        bodies_nodes(fs.subrange(0, i)) <= bodies_nodes(fs),
    decreases fs.len() - i,
{
    if i < fs.len() {
        lemma_bodies_prefix(fs, i + 1);
        assert(fs.subrange(0, i + 1).drop_last() =~= fs.subrange(0, i));
    } else {
        assert(fs.subrange(0, i) =~= fs);
    }
}

proof fn lemma_tests_prefix(ts: Seq<TestDecl<Type>>, i: int)
    requires
        0 <= i <= ts.len(),
    ensures
        tests_nodes(ts.subrange(0, i)) <= tests_nodes(ts),
    decreases ts.len() - i,
{
    if i < ts.len() {
        lemma_tests_prefix(ts, i + 1);
        assert(ts.subrange(0, i + 1).drop_last() =~= ts.subrange(0, i));
    } else {
        assert(ts.subrange(0, i) =~= ts);
    }
}

} // verus!
