//! The translation scheme of the code generator, as spec functions over
//! views of instructions: for each construct, the code it becomes, given
//! how many labels and temporaries were made before it.
//!
//! A view keeps everything an instruction holds: names, literals, types,
//! operators, labels and argument counts; names and types are taken by
//! their characters.
use vstd::prelude::*;
use crate::codegen::tac_code_gen::{label_name, temp_name};
use crate::ir::ast::{ty_eq, CheckedExpr, CheckedStmt, Expr, Literal, Statement, TagType, Type};
use crate::ir::tac::{Address, Instruction, Operator};
use crate::interpreter::eval_expr::{arith_value, int_relation, pure_value};
use crate::interpreter::exec_stmt::{ArithOp, Relation};
use crate::interpreter::value::Value;

verus! {

/// A literal, with its strings as characters.
pub enum LitView {
    Int(i64),
    Float(Seq<char>),
    Str(Seq<char>),
    Bool(bool),
}

/// A type, with its names as characters.
pub enum TypeView {
    Unit,
    Int,
    Float,
    Bool,
    Str,
    Array(Box<TypeView>),
    Tagged(TagType, Seq<char>),
    Function(Seq<TypeView>, Box<TypeView>),
    Any,
}

#[verifier::opaque]
pub open spec fn type_view(t: Type) -> TypeView
    decreases t,
{
    match t {
        Type::Unit => TypeView::Unit,
        Type::Int => TypeView::Int,
        Type::Float => TypeView::Float,
        Type::Bool => TypeView::Bool,
        Type::Str => TypeView::Str,
        Type::Array(x) => TypeView::Array(Box::new(type_view(*x))),
        Type::Tagged { tag_type, tag_name } => TypeView::Tagged(tag_type, tag_name@),
        Type::Function { params, return_type } => {
            proof {
                assert(decreases_to!(t => params));
                assert(decreases_to!(params => params@));
            }
            TypeView::Function(types_view(params@), Box::new(type_view(*return_type)))
        },
        Type::Any => TypeView::Any,
    }
}

/// The views of a sequence of types.
pub open spec fn types_view(ps: Seq<Type>) -> Seq<TypeView>
    decreases ps,
{
    if ps.len() == 0 {
        Seq::empty()
    } else {
        types_view(ps.subrange(0, ps.len() - 1)).push(type_view(ps[ps.len() - 1]))
    }
}

/// Types equal up to names' representation have one view.
pub proof fn lemma_type_view_ty_eq(a: Type, b: Type)
    requires
        ty_eq(a, b),
    ensures
        type_view(a) == type_view(b),
    decreases a,
{
    reveal(type_view);
    match (a, b) {
        (Type::Array(x), Type::Array(y)) => lemma_type_view_ty_eq(*x, *y),
        (Type::Function { params: p1, return_type: r1 }, Type::Function { params: p2, return_type: r2 }) => {
            assert(decreases_to!(a => p1)) by { assert(decreases_to!(a => p1)); }
            lemma_types_view_ty_eq(p1@, p2@, p1);
            lemma_type_view_ty_eq(*r1, *r2);
        },
        _ => {},
    }
}

proof fn lemma_types_view_ty_eq(p1: Seq<Type>, p2: Seq<Type>, v: Vec<Type>)
    requires
        p1 == v@,
        p1.len() == p2.len(),
        forall|i: int| 0 <= i < p1.len() ==> ty_eq(#[trigger] p1[i], p2[i]),
    ensures
        types_view(p1) == types_view(p2),
    decreases v, 1int, 0int,
{
    assert(v@.subrange(0, v@.len() as int) =~= p1);
    lemma_types_view_ty_eq_seq(p1, p2, v, v@.len() as int);
}

proof fn lemma_types_view_ty_eq_seq(q1: Seq<Type>, q2: Seq<Type>, v: Vec<Type>, n: int)
    requires
        0 <= n <= v@.len(),
        q1 == v@.subrange(0, n),
        q1.len() == q2.len(),
        forall|i: int| 0 <= i < q1.len() ==> ty_eq(#[trigger] q1[i], q2[i]),
    ensures
        types_view(q1) == types_view(q2),
    decreases v, 0int, n,
{
    if n > 0 {
        let m = n - 1;
        assert(q1[m] == v@[m]);
        assert(decreases_to!(v => v@[m])) by {
            assert(decreases_to!(v => v@));
        }
        lemma_type_view_ty_eq(q1[m], q2[m]);
        assert(q1.subrange(0, m) =~= v@.subrange(0, m));
        lemma_types_view_ty_eq_seq(q1.subrange(0, m), q2.subrange(0, m), v, m);
        reveal(type_view);
        assert(q1.len() == n && q2.len() == n);
        assert(q1.subrange(0, q1.len() - 1) =~= q1.subrange(0, m));
        assert(q2.subrange(0, q2.len() - 1) =~= q2.subrange(0, m));

    } else {
        assert(types_view(q1) == types_view(q2));
    }
}

/// An address, its type by its view.
pub enum AddrView {
    Var(Seq<char>, TypeView),
    Temp(Seq<char>, TypeView),
    Const(LitView, TypeView),
}

/// An instruction, its addresses by their views.
pub enum InstrView {
    Label(Seq<char>),
    Copy(AddrView, AddrView),
    Unary(Operator, AddrView, AddrView),
    Binary(Operator, AddrView, AddrView, AddrView),
    Jmp(Seq<char>),
    CondJmp(AddrView, Seq<char>),
    CondJmpFalse(AddrView, Seq<char>),
    CondJmpRel(Operator, AddrView, AddrView, Seq<char>),
    Param(AddrView),
    Call(Option<AddrView>, Seq<char>, nat),
    Store(AddrView, AddrView, AddrView),
    Load(AddrView, AddrView, AddrView),
    Return(Option<AddrView>),
}

pub open spec fn lit_view(l: Literal) -> LitView {
    match l {
        Literal::Int(n) => LitView::Int(n),
        Literal::Float(t) => LitView::Float(t@),
        Literal::Str(s) => LitView::Str(s@),
        Literal::Bool(b) => LitView::Bool(b),
    }
}

pub open spec fn addr_view(a: Address) -> AddrView {
    match a {
        Address::Variable(n, t) => AddrView::Var(n@, type_view(t)),
        Address::Temporary(n, t) => AddrView::Temp(n@, type_view(t)),
        Address::Constant(l, t) => AddrView::Const(lit_view(l), type_view(t)),
    }
}

pub open spec fn opt_addr_view(a: Option<Address>) -> Option<AddrView> {
    match a {
        Some(x) => Some(addr_view(x)),
        None => None,
    }
}

pub open spec fn instr_view(i: Instruction) -> InstrView {
    match i {
        Instruction::Label(l) => InstrView::Label(l@),
        Instruction::CopyAssignment(d, s) => InstrView::Copy(addr_view(d), addr_view(s)),
        Instruction::UnaryAssignment(op, d, a) => InstrView::Unary(op, addr_view(d), addr_view(a)),
        Instruction::BinaryAssignment(op, d, a, b) => InstrView::Binary(op, addr_view(d), addr_view(a), addr_view(b)),
        Instruction::JMP(l) => InstrView::Jmp(l@),
        Instruction::ConditionalJMP(a, l) => InstrView::CondJmp(addr_view(a), l@),
        Instruction::ConditionalJMPFalse(a, l) => InstrView::CondJmpFalse(addr_view(a), l@),
        Instruction::ConditionalJMPRelational(op, a, b, l) => InstrView::CondJmpRel(op, addr_view(a), addr_view(b), l@),
        Instruction::Param(a) => InstrView::Param(addr_view(a)),
        Instruction::Call(d, n, k) => InstrView::Call(opt_addr_view(d), n@, k as nat),
        Instruction::Store(b, i, v) => InstrView::Store(addr_view(b), addr_view(i), addr_view(v)),
        Instruction::Load(d, b, i) => InstrView::Load(addr_view(d), addr_view(b), addr_view(i)),
        Instruction::Return(a) => InstrView::Return(opt_addr_view(a)),
    }
}

/// The views of a sequence of instructions.
pub open spec fn views(s: Seq<Instruction>) -> Seq<InstrView> {
    s.map_values(|i: Instruction| instr_view(i))
}

pub proof fn lemma_views_add(a: Seq<Instruction>, b: Seq<Instruction>)
    ensures
        views(a + b) == views(a) + views(b),
{
    assert(views(a + b) =~= views(a) + views(b));
}

pub proof fn lemma_views_push(a: Seq<Instruction>, x: Instruction)
    ensures
        views(a.push(x)) == views(a).push(instr_view(x)),
{
    assert(views(a.push(x)) =~= views(a).push(instr_view(x)));
}

/// Code for an expression: its instructions, the address of its value, and
/// the numbers of labels and temporaries made once it is done.
pub struct ExprCode {
    pub code: Seq<InstrView>,
    pub addr: AddrView,
    pub labels: nat,
    pub temps: nat,
}

/// Code for a list of expressions, one after another.
pub struct ArgsCode {
    pub code: Seq<InstrView>,
    pub addrs: Seq<AddrView>,
    pub labels: nat,
    pub temps: nat,
}

/// Code for a condition or a statement.
pub struct Code {
    pub code: Seq<InstrView>,
    pub labels: nat,
    pub temps: nat,
}

pub open spec fn bool_view(b: bool) -> AddrView {
    AddrView::Const(LitView::Bool(b), type_view(Type::Bool))
}

/// `t := a op b`, `t` of type `ty`.
pub open spec fn binary_code(op: Operator, a: ExprCode, b: ExprCode, ty: TypeView) -> ExprCode {
    let t = AddrView::Temp(temp_name(b.temps + 1), ty);
    ExprCode {
        code: a.code + b.code + seq![InstrView::Binary(op, t, a.addr, b.addr)],
        addr: t,
        labels: b.labels,
        temps: b.temps + 1,
    }
}

/// A comparison materialised into a boolean temporary.
pub open spec fn relational_value_code(op: Operator, a: ExprCode, b: ExprCode) -> ExprCode {
    let lt = label_name(b.labels + 1);
    let le = label_name(b.labels + 2);
    let t = AddrView::Temp(temp_name(b.temps + 1), type_view(Type::Bool));
    ExprCode {
        code: a.code + b.code + seq![
            InstrView::CondJmpRel(op, a.addr, b.addr, lt),
            InstrView::Copy(t, bool_view(false)),
            InstrView::Jmp(le),
            InstrView::Label(lt),
            InstrView::Copy(t, bool_view(true)),
            InstrView::Label(le),
        ],
        addr: t,
        labels: b.labels + 2,
        temps: b.temps + 1,
    }
}

/// The `param` instructions of some addresses.
pub open spec fn params(addrs: Seq<AddrView>) -> Seq<InstrView> {
    addrs.map_values(|a: AddrView| InstrView::Param(a))
}

/// The code of an expression lowered as a value, starting from `l` labels
/// and `t` temporaries.
pub open spec fn expr_code(e: CheckedExpr, l: nat, t: nat) -> ExprCode
    decreases e,
{
    match e.exp {
        Expr::Literal(v) => ExprCode { code: Seq::empty(), addr: AddrView::Const(lit_view(v), type_view(e.ty)), labels: l, temps: t },
        Expr::Ident(n) => ExprCode { code: Seq::empty(), addr: AddrView::Var(n@, type_view(e.ty)), labels: l, temps: t },
        Expr::Add(a, b) => binary_code(Operator::Add, expr_code(*a, l, t), expr_code(*b, expr_code(*a, l, t).labels, expr_code(*a, l, t).temps), type_view(e.ty)),
        Expr::Sub(a, b) => binary_code(Operator::Sub, expr_code(*a, l, t), expr_code(*b, expr_code(*a, l, t).labels, expr_code(*a, l, t).temps), type_view(e.ty)),
        Expr::Mul(a, b) => binary_code(Operator::Mul, expr_code(*a, l, t), expr_code(*b, expr_code(*a, l, t).labels, expr_code(*a, l, t).temps), type_view(e.ty)),
        Expr::Div(a, b) => binary_code(Operator::Div, expr_code(*a, l, t), expr_code(*b, expr_code(*a, l, t).labels, expr_code(*a, l, t).temps), type_view(e.ty)),
        Expr::Lt(a, b) => relational_value_code(Operator::LT, expr_code(*a, l, t), expr_code(*b, expr_code(*a, l, t).labels, expr_code(*a, l, t).temps)),
        Expr::Le(a, b) => relational_value_code(Operator::LTE, expr_code(*a, l, t), expr_code(*b, expr_code(*a, l, t).labels, expr_code(*a, l, t).temps)),
        Expr::Gt(a, b) => relational_value_code(Operator::GT, expr_code(*a, l, t), expr_code(*b, expr_code(*a, l, t).labels, expr_code(*a, l, t).temps)),
        Expr::Ge(a, b) => relational_value_code(Operator::GTE, expr_code(*a, l, t), expr_code(*b, expr_code(*a, l, t).labels, expr_code(*a, l, t).temps)),
        Expr::Eq(a, b) => relational_value_code(Operator::EQ, expr_code(*a, l, t), expr_code(*b, expr_code(*a, l, t).labels, expr_code(*a, l, t).temps)),
        Expr::Ne(a, b) => relational_value_code(Operator::NE, expr_code(*a, l, t), expr_code(*b, expr_code(*a, l, t).labels, expr_code(*a, l, t).temps)),
        Expr::Neg(x) => {
            let cx = expr_code(*x, l, t);
            let tmp = AddrView::Temp(temp_name(cx.temps + 1), type_view(e.ty));
            ExprCode { code: cx.code.push(InstrView::Unary(Operator::Neg, tmp, cx.addr)), addr: tmp, labels: cx.labels, temps: cx.temps + 1 }
        },
        Expr::Not(x) => {
            let cx = expr_code(*x, l, t);
            let lf = label_name(cx.labels + 1);
            let le = label_name(cx.labels + 2);
            let tmp = AddrView::Temp(temp_name(cx.temps + 1), type_view(Type::Bool));
            ExprCode {
                code: cx.code + seq![
                    InstrView::CondJmpFalse(cx.addr, lf),
                    InstrView::Copy(tmp, bool_view(false)),
                    InstrView::Jmp(le),
                    InstrView::Label(lf),
                    InstrView::Copy(tmp, bool_view(true)),
                    InstrView::Label(le),
                ],
                addr: tmp,
                labels: cx.labels + 2,
                temps: cx.temps + 1,
            }
        },
        Expr::And(a, b) => {
            let ca = expr_code(*a, l, t);
            let cb = expr_code(*b, ca.labels, ca.temps);
            let lf = label_name(cb.labels + 1);
            let le = label_name(cb.labels + 2);
            let tmp = AddrView::Temp(temp_name(cb.temps + 1), type_view(Type::Bool));
            ExprCode {
                code: ca.code + seq![InstrView::CondJmpFalse(ca.addr, lf)] + cb.code + seq![
                    InstrView::CondJmpFalse(cb.addr, lf),
                    InstrView::Copy(tmp, bool_view(true)),
                    InstrView::Jmp(le),
                    InstrView::Label(lf),
                    InstrView::Copy(tmp, bool_view(false)),
                    InstrView::Label(le),
                ],
                addr: tmp,
                labels: cb.labels + 2,
                temps: cb.temps + 1,
            }
        },
        Expr::Or(a, b) => {
            let ca = expr_code(*a, l, t);
            let cb = expr_code(*b, ca.labels, ca.temps);
            let lt = label_name(cb.labels + 1);
            let lf = label_name(cb.labels + 2);
            let le = label_name(cb.labels + 3);
            let tmp = AddrView::Temp(temp_name(cb.temps + 1), type_view(Type::Bool));
            ExprCode {
                code: ca.code + seq![InstrView::CondJmpFalse(ca.addr, lf), InstrView::Jmp(lt), InstrView::Label(lf)] + cb.code
                    + seq![
                    InstrView::CondJmp(cb.addr, lt),
                    InstrView::Copy(tmp, bool_view(false)),
                    InstrView::Jmp(le),
                    InstrView::Label(lt),
                    InstrView::Copy(tmp, bool_view(true)),
                    InstrView::Label(le),
                ],
                addr: tmp,
                labels: cb.labels + 3,
                temps: cb.temps + 1,
            }
        },
        Expr::Call { name, args } => {
            let ca = args_code(args@, l, t);
            let tmp = AddrView::Temp(temp_name(ca.temps + 1), type_view(e.ty));
            ExprCode {
                code: ca.code + params(ca.addrs) + seq![InstrView::Call(Some(tmp), name@, ca.addrs.len())],
                addr: tmp,
                labels: ca.labels,
                temps: ca.temps + 1,
            }
        },
        _ => ExprCode { code: Seq::empty(), addr: bool_view(false), labels: l, temps: t },
    }
}

/// The code of a list of expressions, each lowered as a value in turn.
pub open spec fn args_code(args: Seq<CheckedExpr>, l: nat, t: nat) -> ArgsCode
    decreases args,
{
    if args.len() == 0 {
        ArgsCode { code: Seq::empty(), addrs: Seq::empty(), labels: l, temps: t }
    } else {
        let before = args_code(args.drop_last(), l, t);
        let last = expr_code(args.last(), before.labels, before.temps);
        ArgsCode { code: before.code + last.code, addrs: before.addrs.push(last.addr), labels: last.labels, temps: last.temps }
    }
}

/// `if a op b goto tl; goto fl`.
pub open spec fn relational_code(op: Operator, a: ExprCode, b: ExprCode, tl: Seq<char>, fl: Seq<char>) -> Code {
    Code {
        code: a.code + b.code + seq![InstrView::CondJmpRel(op, a.addr, b.addr, tl), InstrView::Jmp(fl)],
        labels: b.labels,
        temps: b.temps,
    }
}

/// The code of a boolean expression used as a condition: control goes to
/// label `tl` when it holds and to `fl` when it does not.
pub open spec fn cond_code(e: CheckedExpr, tl: Seq<char>, fl: Seq<char>, l: nat, t: nat) -> Code
    decreases e,
{
    match e.exp {
        Expr::Literal(Literal::Bool(true)) => Code { code: seq![InstrView::Jmp(tl)], labels: l, temps: t },
        Expr::Literal(Literal::Bool(false)) => Code { code: seq![InstrView::Jmp(fl)], labels: l, temps: t },
        Expr::Ident(n) => Code { code: seq![InstrView::CondJmp(AddrView::Var(n@, type_view(e.ty)), tl), InstrView::Jmp(fl)], labels: l, temps: t },
        Expr::And(a, b) => {
            let lr = label_name(l + 1);
            let ca = cond_code(*a, lr, fl, l + 1, t);
            let cb = cond_code(*b, tl, fl, ca.labels, ca.temps);
            Code { code: ca.code.push(InstrView::Label(lr)) + cb.code, labels: cb.labels, temps: cb.temps }
        },
        Expr::Or(a, b) => {
            let lr = label_name(l + 1);
            let ca = cond_code(*a, tl, lr, l + 1, t);
            let cb = cond_code(*b, tl, fl, ca.labels, ca.temps);
            Code { code: ca.code.push(InstrView::Label(lr)) + cb.code, labels: cb.labels, temps: cb.temps }
        },
        Expr::Not(x) => cond_code(*x, fl, tl, l, t),
        Expr::Lt(a, b) => relational_code(Operator::LT, expr_code(*a, l, t), expr_code(*b, expr_code(*a, l, t).labels, expr_code(*a, l, t).temps), tl, fl),
        Expr::Le(a, b) => relational_code(Operator::LTE, expr_code(*a, l, t), expr_code(*b, expr_code(*a, l, t).labels, expr_code(*a, l, t).temps), tl, fl),
        Expr::Gt(a, b) => relational_code(Operator::GT, expr_code(*a, l, t), expr_code(*b, expr_code(*a, l, t).labels, expr_code(*a, l, t).temps), tl, fl),
        Expr::Ge(a, b) => relational_code(Operator::GTE, expr_code(*a, l, t), expr_code(*b, expr_code(*a, l, t).labels, expr_code(*a, l, t).temps), tl, fl),
        Expr::Eq(a, b) => relational_code(Operator::EQ, expr_code(*a, l, t), expr_code(*b, expr_code(*a, l, t).labels, expr_code(*a, l, t).temps), tl, fl),
        Expr::Ne(a, b) => relational_code(Operator::NE, expr_code(*a, l, t), expr_code(*b, expr_code(*a, l, t).labels, expr_code(*a, l, t).temps), tl, fl),
        _ => {
            let c = expr_code(e, l, t);
            Code { code: c.code + seq![InstrView::CondJmp(c.addr, tl), InstrView::Jmp(fl)], labels: c.labels, temps: c.temps }
        },
    }
}

/// The code of `while cond body`, given the code `cb` of its body.
pub open spec fn while_code(cond: CheckedExpr, cb: Code, l: nat, t: nat) -> Code {
    let ls = label_name(l + 1);
    let lb = label_name(l + 2);
    let lend = label_name(l + 3);
    let cc = cond_code(cond, lb, lend, l + 3, t);
    Code {
        code: seq![InstrView::Label(ls)] + cc.code + seq![InstrView::Label(lb)] + cb.code + seq![InstrView::Jmp(ls), InstrView::Label(lend)],
        labels: cb.labels,
        temps: cb.temps,
    }
}

/// The code of a statement.
pub open spec fn stmt_code(s: CheckedStmt, l: nat, t: nat) -> Code
    decreases s,
{
    match s.stmt {
        Statement::Block { seq } => stmts_code(seq@, l, t),
        Statement::Decl { name, ty, init } | Statement::ConstDecl { name, ty, init } => {
            let c = expr_code(*init, l, t);
            Code { code: c.code.push(InstrView::Copy(AddrView::Var(name@, type_view(ty)), c.addr)), labels: c.labels, temps: c.temps }
        },
        Statement::Assign { target, value } => match target.exp {
            Expr::Ident(n) => {
                let c = expr_code(*value, l, t);
                Code { code: c.code.push(InstrView::Copy(AddrView::Var(n@, type_view(target.ty)), c.addr)), labels: c.labels, temps: c.temps }
            },
            _ => Code { code: Seq::empty(), labels: l, temps: t },
        },
        Statement::Call { name, args } => {
            let c = args_code(args@, l, t);
            Code { code: c.code + params(c.addrs) + seq![InstrView::Call(None, name@, c.addrs.len())], labels: c.labels, temps: c.temps }
        },
        Statement::If { cond, then_branch, else_branch: Some(eb) } => {
            let lt = label_name(l + 1);
            let le = label_name(l + 2);
            let lend = label_name(l + 3);
            let cc = cond_code(*cond, lt, le, l + 3, t);
            let ct = stmt_code(*then_branch, cc.labels, cc.temps);
            let ce = stmt_code(*eb, ct.labels, ct.temps);
            Code {
                code: cc.code.push(InstrView::Label(lt)) + ct.code + seq![InstrView::Jmp(lend), InstrView::Label(le)] + ce.code
                    + seq![InstrView::Label(lend)],
                labels: ce.labels,
                temps: ce.temps,
            }
        },
        Statement::If { cond, then_branch, else_branch: None } => {
            let lt = label_name(l + 1);
            let lend = label_name(l + 2);
            let cc = cond_code(*cond, lt, lend, l + 2, t);
            let ct = stmt_code(*then_branch, cc.labels, cc.temps);
            Code { code: cc.code.push(InstrView::Label(lt)) + ct.code + seq![InstrView::Label(lend)], labels: ct.labels, temps: ct.temps }
        },
        Statement::While { cond, body } => while_code(*cond, stmt_code(*body, cond_code(*cond, label_name(l + 2), label_name(l + 3), l + 3, t).labels,
            cond_code(*cond, label_name(l + 2), label_name(l + 3), l + 3, t).temps), l, t),
        Statement::Return(Some(e)) => {
            let c = expr_code(*e, l, t);
            Code { code: c.code.push(InstrView::Return(Some(c.addr))), labels: c.labels, temps: c.temps }
        },
        Statement::Return(None) => Code { code: seq![InstrView::Return(None)], labels: l, temps: t },
        Statement::Assert(e) => {
            let lok = label_name(l + 1);
            let lfail = label_name(l + 2);
            let cc = cond_code(*e, lok, lfail, l + 2, t);
            Code {
                code: cc.code + seq![
                    InstrView::Label(lfail),
                    InstrView::Param(AddrView::Const(LitView::Str("assertion failed"@), type_view(Type::Str))),
                    InstrView::Call(None, "assert_fail"@, 1),
                    InstrView::Label(lok),
                ],
                labels: cc.labels,
                temps: cc.temps,
            }
        },
    }
}

/// The code of statements one after another.
pub open spec fn stmts_code(ss: Seq<CheckedStmt>, l: nat, t: nat) -> Code
    decreases ss,
{
    if ss.len() == 0 {
        Code { code: Seq::empty(), labels: l, temps: t }
    } else {
        let before = stmts_code(ss.drop_last(), l, t);
        let last = stmt_code(ss.last(), before.labels, before.temps);
        Code { code: before.code + last.code, labels: last.labels, temps: last.temps }
    }
}


/// What a relational jump tests between two integers.
pub open spec fn relation_holds(op: Operator, x: int, y: int) -> bool {
    match op {
        Operator::LT => x < y,
        Operator::LTE => x <= y,
        Operator::GT => x > y,
        Operator::GTE => x >= y,
        Operator::EQ => x == y,
        Operator::NE => x != y,
        _ => false,
    }
}

/// The operands of a comparison.
pub open spec fn comparison_operands(e: CheckedExpr) -> Option<(CheckedExpr, CheckedExpr)> {
    match e.exp {
        Expr::Lt(a, b) | Expr::Le(a, b) | Expr::Gt(a, b) | Expr::Ge(a, b) | Expr::Eq(a, b) | Expr::Ne(a, b) => Some((*a, *b)),
        _ => None,
    }
}

proof fn lemma_relational_code_tail(op: Operator, a: ExprCode, b: ExprCode, tl: Seq<char>, fl: Seq<char>)
    ensures
        ({
            let c = relational_code(op, a, b, tl, fl).code;
            &&& c.len() >= 2
            &&& c.last() == InstrView::Jmp(fl)
            &&& c[c.len() - 2] == InstrView::CondJmpRel(op, a.addr, b.addr, tl)
        }),
{
    let c = relational_code(op, a, b, tl, fl).code;
    assert(c == (a.code + b.code) + seq![InstrView::CondJmpRel(op, a.addr, b.addr, tl), InstrView::Jmp(fl)]);
}

/// The code of a comparison used as a condition ends with a jump to the
/// true label that is taken exactly when the comparison, evaluated on the
/// operands' integer values, is true, followed by a jump to the false label.
#[verifier::rlimit(60)]
#[verifier::spinoff_prover]
pub proof fn law_condition_tests_the_comparison(
    e: CheckedExpr,
    tl: Seq<char>,
    fl: Seq<char>,
    l: nat,
    t: nat,
    vars: Map<Seq<char>, Value>,
    x: i64,
    y: i64,
)
    requires
        comparison_operands(e) matches Some((a, b)) && pure_value(a, vars) == Some(Value::Int(x))
            && pure_value(b, vars) == Some(Value::Int(y)),
    ensures
        ({
            let c = cond_code(e, tl, fl, l, t).code;
            &&& c.len() >= 2
            &&& c.last() == InstrView::Jmp(fl)
            &&& c[c.len() - 2] matches InstrView::CondJmpRel(op, _, _, target) && target == tl
                && (relation_holds(op, x as int, y as int) <==> pure_value(e, vars) == Some(Value::Bool(true)))
        }),
{
    match e.exp {
        Expr::Lt(a, b) => {
            let ca = expr_code(*a, l, t);
            let cb = expr_code(*b, ca.labels, ca.temps);
            assert(cond_code(e, tl, fl, l, t) == relational_code(Operator::LT, ca, cb, tl, fl));
            lemma_relational_code_tail(Operator::LT, ca, cb, tl, fl);
            assert(pure_value(e, vars) == Some(Value::Bool(int_relation(Relation::Lt, x as int, y as int))));
        },
        Expr::Le(a, b) => {
            let ca = expr_code(*a, l, t);
            let cb = expr_code(*b, ca.labels, ca.temps);
            assert(cond_code(e, tl, fl, l, t) == relational_code(Operator::LTE, ca, cb, tl, fl));
            lemma_relational_code_tail(Operator::LTE, ca, cb, tl, fl);
            assert(pure_value(e, vars) == Some(Value::Bool(int_relation(Relation::Le, x as int, y as int))));
        },
        Expr::Gt(a, b) => {
            let ca = expr_code(*a, l, t);
            let cb = expr_code(*b, ca.labels, ca.temps);
            assert(cond_code(e, tl, fl, l, t) == relational_code(Operator::GT, ca, cb, tl, fl));
            lemma_relational_code_tail(Operator::GT, ca, cb, tl, fl);
            assert(pure_value(e, vars) == Some(Value::Bool(int_relation(Relation::Gt, x as int, y as int))));
        },
        Expr::Ge(a, b) => {
            let ca = expr_code(*a, l, t);
            let cb = expr_code(*b, ca.labels, ca.temps);
            assert(cond_code(e, tl, fl, l, t) == relational_code(Operator::GTE, ca, cb, tl, fl));
            lemma_relational_code_tail(Operator::GTE, ca, cb, tl, fl);
            assert(pure_value(e, vars) == Some(Value::Bool(int_relation(Relation::Ge, x as int, y as int))));
        },
        Expr::Eq(a, b) => {
            let ca = expr_code(*a, l, t);
            let cb = expr_code(*b, ca.labels, ca.temps);
            assert(cond_code(e, tl, fl, l, t) == relational_code(Operator::EQ, ca, cb, tl, fl));
            lemma_relational_code_tail(Operator::EQ, ca, cb, tl, fl);
            assert(pure_value(e, vars) == Some(Value::Bool(int_relation(Relation::Eq, x as int, y as int))));
        },
        Expr::Ne(a, b) => {
            let ca = expr_code(*a, l, t);
            let cb = expr_code(*b, ca.labels, ca.temps);
            assert(cond_code(e, tl, fl, l, t) == relational_code(Operator::NE, ca, cb, tl, fl));
            lemma_relational_code_tail(Operator::NE, ca, cb, tl, fl);
            assert(pure_value(e, vars) == Some(Value::Bool(int_relation(Relation::Ne, x as int, y as int))));
        },
        _ => {},
    }
}


proof fn lemma_relational_value_code_tail(op: Operator, a: ExprCode, b: ExprCode)
    ensures
        ({
            let c = relational_value_code(op, a, b);
            let n = c.code.len() as int;
            &&& n >= 6
            &&& c.code[n - 6] == InstrView::CondJmpRel(op, a.addr, b.addr, label_name(b.labels + 1))
            &&& c.code[n - 5] == InstrView::Copy(c.addr, bool_view(false))
            &&& c.code[n - 3] == InstrView::Label(label_name(b.labels + 1))
            &&& c.code[n - 2] == InstrView::Copy(c.addr, bool_view(true))
        }),
{
    let c = relational_value_code(op, a, b);
    assert(c.code == (a.code + b.code) + seq![
        InstrView::CondJmpRel(op, a.addr, b.addr, label_name(b.labels + 1)),
        InstrView::Copy(c.addr, bool_view(false)),
        InstrView::Jmp(label_name(b.labels + 2)),
        InstrView::Label(label_name(b.labels + 1)),
        InstrView::Copy(c.addr, bool_view(true)),
        InstrView::Label(label_name(b.labels + 2)),
    ]);
}

/// The code of a comparison used as a value sets its result to `true`
/// after a jump that is taken exactly when the comparison, evaluated on
/// the operands' integer values, is true, and to `false` otherwise.
#[verifier::rlimit(60)]
#[verifier::spinoff_prover]
pub proof fn law_comparison_value_tests_the_comparison(
    e: CheckedExpr,
    l: nat,
    t: nat,
    vars: Map<Seq<char>, Value>,
    x: i64,
    y: i64,
)
    requires
        comparison_operands(e) matches Some((a, b)) && pure_value(a, vars) == Some(Value::Int(x))
            && pure_value(b, vars) == Some(Value::Int(y)),
    ensures
        ({
            let c = expr_code(e, l, t);
            let n = c.code.len() as int;
            &&& n >= 6
            &&& c.code[n - 5] == InstrView::Copy(c.addr, bool_view(false))
            &&& c.code[n - 2] == InstrView::Copy(c.addr, bool_view(true))
            &&& c.code[n - 6] matches InstrView::CondJmpRel(op, _, _, target) && c.code[n - 3] == InstrView::Label(target)
                && (relation_holds(op, x as int, y as int) <==> pure_value(e, vars) == Some(Value::Bool(true)))
        }),
{
    match e.exp {
        Expr::Lt(a, b) => {
            let ca = expr_code(*a, l, t);
            let cb = expr_code(*b, ca.labels, ca.temps);
            assert(expr_code(e, l, t) == relational_value_code(Operator::LT, ca, cb));
            lemma_relational_value_code_tail(Operator::LT, ca, cb);
            assert(pure_value(e, vars) == Some(Value::Bool(int_relation(Relation::Lt, x as int, y as int))));
        },
        Expr::Le(a, b) => {
            let ca = expr_code(*a, l, t);
            let cb = expr_code(*b, ca.labels, ca.temps);
            assert(expr_code(e, l, t) == relational_value_code(Operator::LTE, ca, cb));
            lemma_relational_value_code_tail(Operator::LTE, ca, cb);
            assert(pure_value(e, vars) == Some(Value::Bool(int_relation(Relation::Le, x as int, y as int))));
        },
        Expr::Gt(a, b) => {
            let ca = expr_code(*a, l, t);
            let cb = expr_code(*b, ca.labels, ca.temps);
            assert(expr_code(e, l, t) == relational_value_code(Operator::GT, ca, cb));
            lemma_relational_value_code_tail(Operator::GT, ca, cb);
            assert(pure_value(e, vars) == Some(Value::Bool(int_relation(Relation::Gt, x as int, y as int))));
        },
        Expr::Ge(a, b) => {
            let ca = expr_code(*a, l, t);
            let cb = expr_code(*b, ca.labels, ca.temps);
            assert(expr_code(e, l, t) == relational_value_code(Operator::GTE, ca, cb));
            lemma_relational_value_code_tail(Operator::GTE, ca, cb);
            assert(pure_value(e, vars) == Some(Value::Bool(int_relation(Relation::Ge, x as int, y as int))));
        },
        Expr::Eq(a, b) => {
            let ca = expr_code(*a, l, t);
            let cb = expr_code(*b, ca.labels, ca.temps);
            assert(expr_code(e, l, t) == relational_value_code(Operator::EQ, ca, cb));
            lemma_relational_value_code_tail(Operator::EQ, ca, cb);
            assert(pure_value(e, vars) == Some(Value::Bool(int_relation(Relation::Eq, x as int, y as int))));
        },
        Expr::Ne(a, b) => {
            let ca = expr_code(*a, l, t);
            let cb = expr_code(*b, ca.labels, ca.temps);
            assert(expr_code(e, l, t) == relational_value_code(Operator::NE, ca, cb));
            lemma_relational_value_code_tail(Operator::NE, ca, cb);
            assert(pure_value(e, vars) == Some(Value::Bool(int_relation(Relation::Ne, x as int, y as int))));
        },
        _ => {},
    }
}


/// What an arithmetic instruction computes on two integers.
pub open spec fn arith_holds(op: Operator, x: int, y: int, z: int) -> bool {
    match op {
        Operator::Add => z == x + y,
        Operator::Sub => z == x - y,
        Operator::Mul => z == x * y,
        Operator::Div => y > 0 && x >= 0 ==> z == x / y,
        _ => false,
    }
}

/// The operands of `+`, `-`, `*` or `/`.
pub open spec fn arith_operands(e: CheckedExpr) -> Option<(CheckedExpr, CheckedExpr)> {
    match e.exp {
        Expr::Add(a, b) | Expr::Sub(a, b) | Expr::Mul(a, b) | Expr::Div(a, b) => Some((*a, *b)),
        _ => None,
    }
}

/// The code of an arithmetic expression ends with one instruction that
/// computes, into the expression's address, what the expression evaluates
/// to from its operands' integer values.
#[verifier::rlimit(60)]
pub proof fn law_arithmetic_code_computes(e: CheckedExpr, l: nat, t: nat, vars: Map<Seq<char>, Value>, x: i64, y: i64, z: i64)
    requires
        arith_operands(e) matches Some((a, b)) && pure_value(a, vars) == Some(Value::Int(x))
            && pure_value(b, vars) == Some(Value::Int(y)),
        pure_value(e, vars) == Some(Value::Int(z)),
    ensures
        ({
            let c = expr_code(e, l, t);
            &&& c.code.len() >= 1
            &&& c.code.last() matches InstrView::Binary(op, dst, _, _) && dst == c.addr
                && arith_holds(op, x as int, y as int, z as int)
        }),
{
    match e.exp {
        Expr::Add(a, b) => {
            let ca = expr_code(*a, l, t);
            let cb = expr_code(*b, ca.labels, ca.temps);
            assert(expr_code(e, l, t) == binary_code(Operator::Add, ca, cb, type_view(e.ty)));
            assert(binary_code(Operator::Add, ca, cb, type_view(e.ty)).code.last()
                == InstrView::Binary(Operator::Add, binary_code(Operator::Add, ca, cb, type_view(e.ty)).addr, ca.addr, cb.addr));
            assert(pure_value(e, vars) == arith_value(ArithOp::Add, Some(Value::Int(x)), Some(Value::Int(y))));
        },
        Expr::Sub(a, b) => {
            let ca = expr_code(*a, l, t);
            let cb = expr_code(*b, ca.labels, ca.temps);
            assert(expr_code(e, l, t) == binary_code(Operator::Sub, ca, cb, type_view(e.ty)));
            assert(binary_code(Operator::Sub, ca, cb, type_view(e.ty)).code.last()
                == InstrView::Binary(Operator::Sub, binary_code(Operator::Sub, ca, cb, type_view(e.ty)).addr, ca.addr, cb.addr));
            assert(pure_value(e, vars) == arith_value(ArithOp::Sub, Some(Value::Int(x)), Some(Value::Int(y))));
        },
        Expr::Mul(a, b) => {
            let ca = expr_code(*a, l, t);
            let cb = expr_code(*b, ca.labels, ca.temps);
            assert(expr_code(e, l, t) == binary_code(Operator::Mul, ca, cb, type_view(e.ty)));
            assert(binary_code(Operator::Mul, ca, cb, type_view(e.ty)).code.last()
                == InstrView::Binary(Operator::Mul, binary_code(Operator::Mul, ca, cb, type_view(e.ty)).addr, ca.addr, cb.addr));
            assert(pure_value(e, vars) == arith_value(ArithOp::Mul, Some(Value::Int(x)), Some(Value::Int(y))));
        },
        Expr::Div(a, b) => {
            let ca = expr_code(*a, l, t);
            let cb = expr_code(*b, ca.labels, ca.temps);
            assert(expr_code(e, l, t) == binary_code(Operator::Div, ca, cb, type_view(e.ty)));
            assert(binary_code(Operator::Div, ca, cb, type_view(e.ty)).code.last()
                == InstrView::Binary(Operator::Div, binary_code(Operator::Div, ca, cb, type_view(e.ty)).addr, ca.addr, cb.addr));
            assert(pure_value(e, vars) == arith_value(ArithOp::Div, Some(Value::Int(x)), Some(Value::Int(y))));
        },
        _ => {},
    }
}

} // verus!
