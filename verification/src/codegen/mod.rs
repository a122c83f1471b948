//! Code generation: lowers a checked program to three-address code, and
//! renders three-address code as text.
//!
//! In the text, labels stand flush left with a colon after them; every
//! other instruction is indented by two spaces: `t1 := a + b`,
//! `if x >= y goto L3`, `param t2`, `t3 := call f, 2`. A string constant is
//! written as Rust's `{:?}` writes it (quoted, with escapes); a
//! floating-point constant written as plain decimal digits with one point
//! loses the zeros that do not count (`2.50` is written `2.5`, `3.0` is
//! written `3`, `.5` is written `0.5`); other float literals are written as
//! they stand.
pub mod counts;
pub mod linker;
pub mod scheme;
pub mod tac_code_gen;

use vstd::prelude::*;
use crate::ir::ast::{Expr, Literal, UncheckedExpr};
use crate::parser::grammar::{binop_at, binop_tree};
use crate::parser::lexer::has_at;
use crate::ir::tac::{Address, Instruction, Operator, TACProgram};
use crate::text::{append_chars, append_str, chars_of, decimal_chars, decimal_chars_i64, decimal, decimal_int, is_digit, string_of};

verus! {

/// The quoted form of a string, as Rust's `{:?}` formatting writes it.
pub uninterp spec fn debug_quoted(s: Seq<char>) -> Seq<char>;

/// Formats a string with `{:?}` (the `Debug` implementation of `str`).
/// Claimed: the result is the function `debug_quoted` of the string's
/// characters.
#[verifier::external_body]
fn quote_debug(s: &String) -> (r: String)
    ensures
        r@ == debug_quoted(s@),
{
    format!("{:?}", s)
}

/// The symbol of an operator.
pub open spec fn operator_text(op: Operator) -> Seq<char> {
    match op {
        Operator::Add => "+"@,
        Operator::Sub => "-"@,
        Operator::Mul => "*"@,
        Operator::Div => "/"@,
        Operator::Neg => "-"@,
        Operator::LT => "<"@,
        Operator::LTE => "<="@,
        Operator::GT => ">"@,
        Operator::GTE => ">="@,
        Operator::EQ => "=="@,
        Operator::NE => "!="@,
        Operator::SL => "<<"@,
        Operator::SR => ">>"@,
    }
}

/// The source expression that an operator written between two operands
/// denotes, for the operators the language writes infix.
pub open spec fn source_tree(op: Operator, l: UncheckedExpr, r: UncheckedExpr) -> Option<Expr<()>> {
    let l = Box::new(l);
    let r = Box::new(r);
    match op {
        Operator::Add => Some(Expr::Add(l, r)),
        Operator::Sub => Some(Expr::Sub(l, r)),
        Operator::Mul => Some(Expr::Mul(l, r)),
        Operator::Div => Some(Expr::Div(l, r)),
        Operator::LT => Some(Expr::Lt(l, r)),
        Operator::LTE => Some(Expr::Le(l, r)),
        Operator::GT => Some(Expr::Gt(l, r)),
        Operator::GTE => Some(Expr::Ge(l, r)),
        Operator::EQ => Some(Expr::Eq(l, r)),
        Operator::NE => Some(Expr::Ne(l, r)),
        _ => None,
    }
}

/// Each infix operator is written as the symbol that the language's own
/// grammar reads, in full, as that operator.
pub proof fn law_operator_text_reads_back(op: Operator, l: UncheckedExpr, r: UncheckedExpr)
    requires
        source_tree(op, l, r) is Some,
    ensures
        exists|level: int, code: int| binop_at(operator_text(op), 0, level) == Some((operator_text(op).len() as int, code))
            && binop_tree(level, code, l, r) == source_tree(op, l, r)->0,
{
    reveal_strlit("||");
    reveal_strlit("or");
    reveal_strlit("&&");
    reveal_strlit("and");
    reveal_strlit("==");
    reveal_strlit("!=");
    reveal_strlit("<=");
    reveal_strlit(">=");
    reveal_strlit("<");
    reveal_strlit(">");
    reveal_strlit("+");
    reveal_strlit("-");
    reveal_strlit("*");
    reveal_strlit("/");
    let t = operator_text(op);
    assert(t.subrange(0, t.len() as int) =~= t);
    match op {
        Operator::Add => { assert(binop_at(t, 0, 3) == Some((1int, 0int))); assert(binop_tree(3, 0, l, r) == source_tree(op, l, r)->0); },
        Operator::Sub => {
            assert(t.subrange(0, 1)[0] == '-');
            assert(!has_at(t, 0, "+"@));
            assert(binop_at(t, 0, 3) == Some((1int, 1int))); assert(binop_tree(3, 1, l, r) == source_tree(op, l, r)->0);
        },
        Operator::Mul => { assert(binop_at(t, 0, 4) == Some((1int, 0int))); assert(binop_tree(4, 0, l, r) == source_tree(op, l, r)->0); },
        Operator::Div => {
            assert(t.subrange(0, 1)[0] == '/');
            assert(!has_at(t, 0, "*"@));
            assert(binop_at(t, 0, 4) == Some((1int, 1int))); assert(binop_tree(4, 1, l, r) == source_tree(op, l, r)->0);
        },
        Operator::LT => {
            assert(t.len() == 1);
            assert(binop_at(t, 0, 2) == Some((1int, 4int))); assert(binop_tree(2, 4, l, r) == source_tree(op, l, r)->0);
        },
        Operator::LTE => {
            assert(t.subrange(0, 2)[0] == '<');
            assert(!has_at(t, 0, "=="@) && !has_at(t, 0, "!="@));
            assert(binop_at(t, 0, 2) == Some((2int, 2int))); assert(binop_tree(2, 2, l, r) == source_tree(op, l, r)->0);
        },
        Operator::GT => {
            assert(t.len() == 1);
            assert(t.subrange(0, 1)[0] == '>');
            assert(!has_at(t, 0, "<"@));
            assert(binop_at(t, 0, 2) == Some((1int, 5int))); assert(binop_tree(2, 5, l, r) == source_tree(op, l, r)->0);
        },
        Operator::GTE => {
            assert(t.subrange(0, 2)[0] == '>');
            assert(!has_at(t, 0, "=="@) && !has_at(t, 0, "!="@) && !has_at(t, 0, "<="@));
            assert(binop_at(t, 0, 2) == Some((2int, 3int))); assert(binop_tree(2, 3, l, r) == source_tree(op, l, r)->0);
        },
        Operator::EQ => { assert(binop_at(t, 0, 2) == Some((2int, 0int))); assert(binop_tree(2, 0, l, r) == source_tree(op, l, r)->0); },
        Operator::NE => {
            assert(t.subrange(0, 2)[0] == '!');
            assert(!has_at(t, 0, "=="@));
            assert(binop_at(t, 0, 2) == Some((2int, 1int))); assert(binop_tree(2, 1, l, r) == source_tree(op, l, r)->0);
        },
        _ => {},
    }
}

/// Different operators are written differently; only negation and
/// subtraction share their sign.
pub proof fn law_operator_text_distinct(a: Operator, b: Operator)
    requires
        operator_text(a) == operator_text(b),
    ensures
        a == b || (a == Operator::Sub && b == Operator::Neg) || (a == Operator::Neg && b == Operator::Sub),
{
    reveal_strlit("+");
    reveal_strlit("-");
    reveal_strlit("*");
    reveal_strlit("/");
    reveal_strlit("<");
    reveal_strlit("<=");
    reveal_strlit(">");
    reveal_strlit(">=");
    reveal_strlit("==");
    reveal_strlit("!=");
    reveal_strlit("<<");
    reveal_strlit(">>");
    let ta = operator_text(a);
    let tb = operator_text(b);
    assert(ta.len() == tb.len());
    if ta.len() > 0 {
        assert(ta[0] == tb[0]);
    }
    if ta.len() > 1 {
        assert(ta[1] == tb[1]);
    }
}

/// `t` is digits with one `.` among them, and at least one digit.
pub open spec fn plain_decimal(t: Seq<char>, dot: int) -> bool {
    &&& 0 <= dot < t.len()
    &&& t[dot] == '.'
    &&& t.len() >= 2
    &&& forall|i: int| 0 <= i < t.len() && i != dot ==> is_digit(#[trigger] t[i])
}

/// `t` without its leading zeros.
pub open spec fn drop_leading_zeros(t: Seq<char>) -> Seq<char>
    decreases t.len(),
{
    if t.len() > 0 && t[0] == '0' {
        drop_leading_zeros(t.drop_first())
    } else {
        t
    }
}

/// `t` without its trailing zeros.
pub open spec fn drop_trailing_zeros(t: Seq<char>) -> Seq<char>
    decreases t.len(),
{
    if t.len() > 0 && t.last() == '0' {
        drop_trailing_zeros(t.drop_last())
    } else {
        t
    }
}

/// The text of a floating-point literal: a plain decimal without the zeros
/// that do not count (an empty integer part becomes `0`, an empty fraction
/// drops the point); any other text as it stands.
pub open spec fn float_text(t: Seq<char>) -> Seq<char> {
    if exists|d: int| plain_decimal(t, d) {
        let d = choose|d: int| plain_decimal(t, d);
        let ip = drop_leading_zeros(t.subrange(0, d));
        let fp = drop_trailing_zeros(t.subrange(d + 1, t.len() as int));
        let ip2 = if ip.len() == 0 { seq!['0'] } else { ip };
        if fp.len() == 0 { ip2 } else { ip2 + seq!['.'] + fp }
    } else {
        t
    }
}

/// The text of a literal constant.
pub open spec fn literal_text(l: Literal) -> Seq<char> {
    match l {
        Literal::Int(n) => decimal_int(n as int),
        Literal::Float(t) => float_text(t@),
        Literal::Bool(b) => if b { "true"@ } else { "false"@ },
        Literal::Str(s) => debug_quoted(s@),
    }
}

/// The text of an address: a variable or temporary by its name, a
/// constant by its literal.
pub open spec fn address_text(a: Address) -> Seq<char> {
    match a {
        Address::Variable(n, _) => n@,
        Address::Temporary(n, _) => n@,
        Address::Constant(l, _) => literal_text(l),
    }
}

/// The line of an instruction.
pub open spec fn instruction_text(i: Instruction) -> Seq<char> {
    match i {
        Instruction::Label(l) => l@ + ":"@,
        Instruction::CopyAssignment(d, s) => "  "@ + address_text(d) + " := "@ + address_text(s),
        Instruction::UnaryAssignment(op, d, a) => "  "@ + address_text(d) + " := "@ + operator_text(op) + " "@ + address_text(a),
        Instruction::BinaryAssignment(op, d, a, b) =>
            "  "@ + address_text(d) + " := "@ + address_text(a) + " "@ + operator_text(op) + " "@ + address_text(b),
        Instruction::JMP(l) => "  goto "@ + l@,
        Instruction::ConditionalJMP(a, l) => "  if "@ + address_text(a) + " goto "@ + l@,
        Instruction::ConditionalJMPFalse(a, l) => "  if_false "@ + address_text(a) + " goto "@ + l@,
        Instruction::ConditionalJMPRelational(op, a, b, l) =>
            "  if "@ + address_text(a) + " "@ + operator_text(op) + " "@ + address_text(b) + " goto "@ + l@,
        Instruction::Param(a) => "  param "@ + address_text(a),
        Instruction::Call(None, n, k) => "  call "@ + n@ + ", "@ + decimal(k as nat),
        Instruction::Call(Some(d), n, k) => "  "@ + address_text(d) + " := call "@ + n@ + ", "@ + decimal(k as nat),
        Instruction::Store(b, i, v) => "  "@ + address_text(b) + "["@ + address_text(i) + "] := "@ + address_text(v),
        Instruction::Load(d, b, i) => "  "@ + address_text(d) + " := "@ + address_text(b) + "["@ + address_text(i) + "]"@,
        Instruction::Return(None) => "  return"@,
        Instruction::Return(Some(a)) => "  return "@ + address_text(a),
    }
}

/// The lines of the instructions, joined by newlines.
pub open spec fn program_text(p: Seq<Instruction>) -> Seq<char>
    decreases p.len(),
{
    if p.len() == 0 {
        Seq::empty()
    } else if p.len() == 1 {
        instruction_text(p[0])
    } else {
        program_text(p.drop_last()) + "\n"@ + instruction_text(p.last())
    }
}

/// The symbol of an operator.
pub fn format_operator(op: &Operator) -> (r: &'static str)
    ensures
        r@ == operator_text(*op),
{
    match op {
        Operator::Add => "+",
        Operator::Sub => "-",
        Operator::Mul => "*",
        Operator::Div => "/",
        Operator::Neg => "-",
        Operator::LT => "<",
        Operator::LTE => "<=",
        Operator::GT => ">",
        Operator::GTE => ">=",
        Operator::EQ => "==",
        Operator::NE => "!=",
        Operator::SL => "<<",
        Operator::SR => ">>",
    }
}

proof fn lemma_leading(t: Seq<char>, a: int)
    requires
        0 <= a <= t.len(),
        forall|i: int| 0 <= i < a ==> t[i] == '0',
        a == t.len() || t[a] != '0',
    ensures
        drop_leading_zeros(t) == t.subrange(a, t.len() as int),
    decreases a,
{
    if a == 0 {
        assert(t.subrange(0, t.len() as int) =~= t);
    } else {
        lemma_leading(t.drop_first(), a - 1);
        assert(t.drop_first().subrange(a - 1, t.len() - 1) =~= t.subrange(a, t.len() as int));
    }
}

proof fn lemma_trailing(t: Seq<char>, b: int)
    requires
        0 <= b <= t.len(),
        forall|i: int| b <= i < t.len() ==> t[i] == '0',
        b == 0 || t[b - 1] != '0',
    ensures
        drop_trailing_zeros(t) == t.subrange(0, b),
    decreases t.len() - b,
{
    if b == t.len() {
        assert(t.subrange(0, b) =~= t);
    } else {
        lemma_trailing(t.drop_last(), b);
        assert(t.drop_last().subrange(0, b) =~= t.subrange(0, b));
    }
}

/// The text of a floating-point literal, as `float_text` describes it.
fn float_literal_text(t: &String) -> (r: Vec<char>)
    ensures
        r@ == float_text(t@),
{
    let cs = chars_of(t.as_str());
    let n = cs.len();
    let mut dot: usize = 0;
    while dot < n && cs[dot] != '.'
        invariant
            dot <= n,
            n == cs.len(),
            forall|k: int| 0 <= k < dot ==> cs@[k] != '.',
        decreases n - dot,
    {
        dot = dot + 1;
    }
    if dot == n || n < 2 {
        proof {
            assert forall|d: int| !plain_decimal(cs@, d) by {
                if plain_decimal(cs@, d) {
                    assert(cs@[d] == '.');
                }
            }
        }
        return cs;
    }
    let mut i: usize = 0;
    while i < n
        invariant
            i <= n,
            dot < n,
            2 <= n,
            n == cs.len(),
            cs@ == t@,
            cs@[dot as int] == '.',
            forall|k: int| 0 <= k < dot ==> cs@[k] != '.',
            forall|k: int| 0 <= k < i && k != dot ==> is_digit(#[trigger] cs@[k]),
        decreases n - i,
    {
        if i != dot && !('0' <= cs[i] && cs[i] <= '9') {
            proof {
                assert forall|d: int| !plain_decimal(cs@, d) by {
                    if plain_decimal(cs@, d) {
                        if d == i as int {
                            assert(d > dot as int);
                            assert(!is_digit(cs@[dot as int]));
                        } else {
                            assert(is_digit(cs@[i as int]));
                        }
                    }
                }
            }
            return cs;
        }
        i = i + 1;
    }
    proof {
        assert(plain_decimal(cs@, dot as int));
        assert forall|d: int| plain_decimal(cs@, d) implies d == dot as int by {
            if d != dot as int {
                if d < dot as int {
                    assert(cs@[d] != '.');
                } else {
                    assert(!is_digit(cs@[dot as int]));
                }
            }
        }
    }
    let mut a: usize = 0;
    while a < dot && cs[a] == '0'
        invariant
            a <= dot < n,
            n == cs.len(),
            forall|k: int| 0 <= k < a ==> cs@[k] == '0',
        decreases dot - a,
    {
        a = a + 1;
    }
    let mut b: usize = n;
    while b > dot + 1 && cs[b - 1] == '0'
        invariant
            dot + 1 <= b <= n,
            n == cs.len(),
            forall|k: int| b <= k < n ==> cs@[k] == '0',
        decreases b,
    {
        b = b - 1;
    }
    proof {
        let ip = cs@.subrange(0, dot as int);
        lemma_leading(ip, a as int);
        assert(ip.subrange(a as int, ip.len() as int) =~= cs@.subrange(a as int, dot as int));
        let fp = cs@.subrange(dot + 1, n as int);
        lemma_trailing(fp, b - dot - 1);
        assert(fp.subrange(0, b - dot - 1) =~= cs@.subrange(dot + 1, b as int));
    }
    let mut out: Vec<char> = Vec::new();
    if a == dot {
        out.push('0');
    } else {
        let mut k: usize = a;
        while k < dot
            invariant
                a <= k <= dot < n,
                n == cs.len(),
                out@ == cs@.subrange(a as int, k as int),
            decreases dot - k,
        {
            out.push(cs[k]);
            assert(out@ =~= cs@.subrange(a as int, k + 1));
            k = k + 1;
        }
    }
    let ghost ip2 = out@;
    if b > dot + 1 {
        out.push('.');
        let mut k: usize = dot + 1;
        while k < b
            invariant
                dot + 1 <= k <= b <= n,
                n == cs.len(),
                out@ == ip2 + seq!['.'] + cs@.subrange(dot + 1, k as int),
            decreases b - k,
        {
            out.push(cs[k]);
            assert(out@ =~= ip2 + seq!['.'] + cs@.subrange(dot + 1, k + 1));
            k = k + 1;
        }
    }
    proof {
        if a == dot {
            assert(ip2 =~= seq!['0']);
        }
        if b == dot + 1 {
            assert(cs@.subrange(dot + 1, b as int).len() == 0);
        }
    }
    out
}

fn push_literal(out: &mut Vec<char>, l: &Literal)
    ensures
        final(out)@ == old(out)@ + literal_text(*l),
{
    match l {
        Literal::Int(n) => {
            let d = decimal_chars_i64(*n);
            append_chars(out, &d);
        },
        Literal::Float(t) => {
            let f = float_literal_text(t);
            append_chars(out, &f);
        },
        Literal::Bool(b) => {
            if *b {
                append_str(out, "true");
            } else {
                append_str(out, "false");
            }
        },
        Literal::Str(s) => {
            let q = quote_debug(s);
            append_str(out, q.as_str());
        },
    }
}

fn push_address(out: &mut Vec<char>, a: &Address)
    ensures
        final(out)@ == old(out)@ + address_text(*a),
{
    match a {
        Address::Variable(n, _) => append_str(out, n.as_str()),
        Address::Temporary(n, _) => append_str(out, n.as_str()),
        Address::Constant(l, _) => push_literal(out, l),
    }
}

fn push_operator(out: &mut Vec<char>, op: &Operator)
    ensures
        final(out)@ == old(out)@ + operator_text(*op),
{
    append_str(out, format_operator(op));
}

/// Appends the line of an instruction.
fn push_instruction(out: &mut Vec<char>, instruction: &Instruction)
    ensures
        final(out)@ == old(out)@ + instruction_text(*instruction),
{
    let ghost start = out@;
    match instruction {
        Instruction::Label(l) => {
            append_str(out, l.as_str());
            append_str(out, ":");
        },
        Instruction::CopyAssignment(d, s) => {
            append_str(out, "  ");
            push_address(out, d);
            append_str(out, " := ");
            push_address(out, s);
        },
        Instruction::UnaryAssignment(op, d, a) => {
            append_str(out, "  ");
            push_address(out, d);
            append_str(out, " := ");
            push_operator(out, op);
            append_str(out, " ");
            push_address(out, a);
        },
        Instruction::BinaryAssignment(op, d, a, b) => {
            append_str(out, "  ");
            push_address(out, d);
            append_str(out, " := ");
            push_address(out, a);
            append_str(out, " ");
            push_operator(out, op);
            append_str(out, " ");
            push_address(out, b);
        },
        Instruction::JMP(l) => {
            append_str(out, "  goto ");
            append_str(out, l.as_str());
        },
        Instruction::ConditionalJMP(a, l) => {
            append_str(out, "  if ");
            push_address(out, a);
            append_str(out, " goto ");
            append_str(out, l.as_str());
        },
        Instruction::ConditionalJMPFalse(a, l) => {
            append_str(out, "  if_false ");
            push_address(out, a);
            append_str(out, " goto ");
            append_str(out, l.as_str());
        },
        Instruction::ConditionalJMPRelational(op, a, b, l) => {
            append_str(out, "  if ");
            push_address(out, a);
            append_str(out, " ");
            push_operator(out, op);
            append_str(out, " ");
            push_address(out, b);
            append_str(out, " goto ");
            append_str(out, l.as_str());
        },
        Instruction::Param(a) => {
            append_str(out, "  param ");
            push_address(out, a);
        },
        Instruction::Call(None, n, k) => {
            append_str(out, "  call ");
            append_str(out, n.as_str());
            append_str(out, ", ");
            let d = decimal_chars(*k as u64);
            append_chars(out, &d);
        },
        Instruction::Call(Some(dst), n, k) => {
            append_str(out, "  ");
            push_address(out, dst);
            append_str(out, " := call ");
            append_str(out, n.as_str());
            append_str(out, ", ");
            let d = decimal_chars(*k as u64);
            append_chars(out, &d);
        },
        Instruction::Store(b, i, v) => {
            append_str(out, "  ");
            push_address(out, b);
            append_str(out, "[");
            push_address(out, i);
            append_str(out, "] := ");
            push_address(out, v);
        },
        Instruction::Load(d, b, i) => {
            append_str(out, "  ");
            push_address(out, d);
            append_str(out, " := ");
            push_address(out, b);
            append_str(out, "[");
            push_address(out, i);
            append_str(out, "]");
        },
        Instruction::Return(None) => append_str(out, "  return"),
        Instruction::Return(Some(a)) => {
            append_str(out, "  return ");
            push_address(out, a);
        },
    }
    assert(out@ =~= start + instruction_text(*instruction));
}

/// The line of one instruction.
pub fn format_instruction(instruction: &Instruction) -> (r: String)
    ensures
        r@ == instruction_text(*instruction),
{
    let mut out: Vec<char> = Vec::new();
    push_instruction(&mut out, instruction);
    string_of(&out)
}

/// Renders a program as text, one instruction per line.
pub fn format_program(program: &TACProgram) -> (r: String)
    ensures
        r@ == program_text(program@),
{
    let mut out: Vec<char> = Vec::new();
    let mut i: usize = 0;
    while i < program.len()
        invariant
            i <= program.len(),
            out@ == program_text(program@.subrange(0, i as int)),
        decreases program.len() - i,
    {
        let ghost before = out@;
        if i > 0 {
            append_str(&mut out, "\n");
        }
        push_instruction(&mut out, &program[i]);
        proof {
            let p = program@.subrange(0, i + 1);
            assert(p.drop_last() =~= program@.subrange(0, i as int));
            assert(p.last() == program@[i as int]);
            if i == 0 {
                assert(out@ =~= instruction_text(program@[0]));
            } else {
                reveal_strlit("\n");
                assert(out@ =~= before + "\n"@ + instruction_text(program@[i as int]));
            }
        }
        i = i + 1;
    }
    assert(program@.subrange(0, program.len() as int) =~= program@);
    string_of(&out)
}

/// A literal as it is written in source code: a string between double
/// quotes, as it stands.
pub open spec fn display_literal_text(l: Literal) -> Seq<char> {
    match l {
        Literal::Str(s) => "\""@ + s@ + "\""@,
        _ => literal_text(l),
    }
}

/// An address as the instruction text shows it.
pub open spec fn display_address_text(a: Address) -> Seq<char> {
    match a {
        Address::Variable(n, _) => n@,
        Address::Temporary(n, _) => n@,
        Address::Constant(l, _) => display_literal_text(l),
    }
}

/// An instruction as pseudo-code (`t1 = -x`, `if !b goto L`, `param "hi"`).
pub open spec fn display_text(i: Instruction) -> Seq<char> {
    match i {
        Instruction::Label(l) => l@,
        Instruction::CopyAssignment(d, s) => display_address_text(d) + " = "@ + display_address_text(s),
        Instruction::UnaryAssignment(op, d, a) => display_address_text(d) + " = "@ + operator_text(op) + display_address_text(a),
        Instruction::BinaryAssignment(op, d, a, b) =>
            display_address_text(d) + " = "@ + display_address_text(a) + " "@ + operator_text(op) + " "@ + display_address_text(b),
        Instruction::JMP(l) => "goto "@ + l@,
        Instruction::ConditionalJMP(a, l) => "if "@ + display_address_text(a) + " goto "@ + l@,
        Instruction::ConditionalJMPFalse(a, l) => "if !"@ + display_address_text(a) + " goto "@ + l@,
        Instruction::ConditionalJMPRelational(op, a, b, l) =>
            "if "@ + display_address_text(a) + " "@ + operator_text(op) + " "@ + display_address_text(b) + " goto "@ + l@,
        Instruction::Param(a) => "param "@ + display_address_text(a),
        Instruction::Call(None, n, k) => "call "@ + n@ + ", "@ + decimal(k as nat),
        Instruction::Call(Some(d), n, k) => display_address_text(d) + " = call "@ + n@ + ", "@ + decimal(k as nat),
        Instruction::Store(b, i, v) => display_address_text(b) + "["@ + display_address_text(i) + "] = "@ + display_address_text(v),
        Instruction::Load(d, b, i) => display_address_text(d) + " = "@ + display_address_text(b) + "["@ + display_address_text(i) + "]"@,
        Instruction::Return(None) => "return"@,
        Instruction::Return(Some(a)) => "return "@ + display_address_text(a),
    }
}

fn push_display_literal(out: &mut Vec<char>, l: &Literal)
    ensures
        final(out)@ == old(out)@ + display_literal_text(*l),
{
    match l {
        Literal::Str(t) => {
            let ghost start = out@;
            append_str(out, "\"");
            append_str(out, t.as_str());
            append_str(out, "\"");
            assert(out@ =~= start + display_literal_text(*l));
        },
        _ => push_literal(out, l),
    }
}

fn push_display_address(out: &mut Vec<char>, a: &Address)
    ensures
        final(out)@ == old(out)@ + display_address_text(*a),
{
    match a {
        Address::Variable(n, _) => append_str(out, n.as_str()),
        Address::Temporary(n, _) => append_str(out, n.as_str()),
        Address::Constant(l, _) => push_display_literal(out, l),
    }
}

fn push_display(out: &mut Vec<char>, instruction: &Instruction)
    ensures
        final(out)@ == old(out)@ + display_text(*instruction),
{
    let ghost start = out@;
    match instruction {
        Instruction::Label(l) => append_str(out, l.as_str()),
        Instruction::CopyAssignment(d, s) => {
            push_display_address(out, d);
            append_str(out, " = ");
            push_display_address(out, s);
        },
        Instruction::UnaryAssignment(op, d, a) => {
            push_display_address(out, d);
            append_str(out, " = ");
            push_operator(out, op);
            push_display_address(out, a);
        },
        Instruction::BinaryAssignment(op, d, a, b) => {
            push_display_address(out, d);
            append_str(out, " = ");
            push_display_address(out, a);
            append_str(out, " ");
            push_operator(out, op);
            append_str(out, " ");
            push_display_address(out, b);
        },
        Instruction::JMP(l) => {
            append_str(out, "goto ");
            append_str(out, l.as_str());
        },
        Instruction::ConditionalJMP(a, l) => {
            append_str(out, "if ");
            push_display_address(out, a);
            append_str(out, " goto ");
            append_str(out, l.as_str());
        },
        Instruction::ConditionalJMPFalse(a, l) => {
            append_str(out, "if !");
            push_display_address(out, a);
            append_str(out, " goto ");
            append_str(out, l.as_str());
        },
        Instruction::ConditionalJMPRelational(op, a, b, l) => {
            append_str(out, "if ");
            push_display_address(out, a);
            append_str(out, " ");
            push_operator(out, op);
            append_str(out, " ");
            push_display_address(out, b);
            append_str(out, " goto ");
            append_str(out, l.as_str());
        },
        Instruction::Param(a) => {
            append_str(out, "param ");
            push_display_address(out, a);
        },
        Instruction::Call(None, n, k) => {
            append_str(out, "call ");
            append_str(out, n.as_str());
            append_str(out, ", ");
            let d = decimal_chars(*k as u64);
            append_chars(out, &d);
        },
        Instruction::Call(Some(dst), n, k) => {
            push_display_address(out, dst);
            append_str(out, " = call ");
            append_str(out, n.as_str());
            append_str(out, ", ");
            let d = decimal_chars(*k as u64);
            append_chars(out, &d);
        },
        Instruction::Store(b, i, v) => {
            push_display_address(out, b);
            append_str(out, "[");
            push_display_address(out, i);
            append_str(out, "] = ");
            push_display_address(out, v);
        },
        Instruction::Load(d, b, i) => {
            push_display_address(out, d);
            append_str(out, " = ");
            push_display_address(out, b);
            append_str(out, "[");
            push_display_address(out, i);
            append_str(out, "]");
        },
        Instruction::Return(None) => append_str(out, "return"),
        Instruction::Return(Some(a)) => {
            append_str(out, "return ");
            push_display_address(out, a);
        },
    }
    assert(out@ =~= start + display_text(*instruction));
}

impl Instruction {
    /// The instruction as pseudo-code: `t1 = -x`, `if !b goto L2`,
    /// `temp1 = call f, 2`; a label by its name alone.
    pub fn to_text(&self) -> (r: String)
        ensures
            r@ == display_text(*self),
    {
        let mut out: Vec<char> = Vec::new();
        push_display(&mut out, self);
        string_of(&out)
    }
}

impl Address {
    /// The address as text: a variable or temporary by its name, a
    /// constant as it is written in source code.
    pub fn to_text(&self) -> (r: String)
        ensures
            r@ == display_address_text(*self),
    {
        let mut out: Vec<char> = Vec::new();
        push_display_address(&mut out, self);
        assert(out@ =~= display_address_text(*self));
        string_of(&out)
    }
}

impl Operator {
    /// The operator's symbol.
    pub fn to_text(&self) -> (r: String)
        ensures
            r@ == operator_text(*self),
    {
        String::from_str(format_operator(self))
    }
}

/// A literal as it is written in source code (a string between double
/// quotes, as it stands).
pub fn literal_to_text(l: &Literal) -> (r: String)
    ensures
        r@ == display_literal_text(*l),
{
    let mut out: Vec<char> = Vec::new();
    push_display_literal(&mut out, l);
    assert(out@ =~= display_literal_text(*l));
    string_of(&out)
}

} // verus!
