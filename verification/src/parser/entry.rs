//! Entry points on source text. Each parser reads from the start of `input`
//! and returns the rest of the input after what it recognised, with the value
//! it built, in the manner of parser combinators.
use vstd::prelude::*;
use crate::ir::ast::{Literal, TaggedTypeDecl, Type, UncheckedExpr, UncheckedFunDecl, UncheckedProgram, UncheckedStmt};
use crate::parser::lexer::{
    boolean_at, float_at, float_lit_at, has_at, ident_at, identifier_at, int_lit_at, integer_at, slice_chars,
    string_at, string_lit_at, ParseError, PResult,
};
use crate::parser::expressions::{operand_follows, plain_name_at};
use crate::parser::grammar::{expr_text, stmt_text, type_text, ws_semi_run};
use crate::parser::item_grammar::{consts_of, fun_text, funs_of, items_seq_text, tagged_decl_text, tagged_of, tests_of, ItemTree};
use crate::text::{chars_of, string_of};

verus! {

/// The text of `s` from position `e` on.
fn rest_of(s: &Vec<char>, e: usize) -> (r: String)
    requires
        e <= s.len(),
    ensures
        r@ == s@.subrange(e as int, s.len() as int),
{
    let v = slice_chars(s, e, s.len());
    string_of(&v)
}

/// Turns a result at a position into a result with the rest of the text.
fn with_rest<T>(s: &Vec<char>, r: PResult<T>) -> (out: Result<(String, T), ParseError>)
    requires
        r matches Ok((e, _)) ==> e <= s.len(),
    ensures
        r is Ok <==> out is Ok,
        out matches Ok((rest, v)) ==> r matches Ok((e, v2)) && v == v2 && rest@ == s@.subrange(e as int, s.len() as int),
        out matches Err(err) ==> r == Err::<(usize, T), ParseError>(err),
{
    match r {
        Ok((e, v)) => Ok((rest_of(s, e), v)),
        Err(err) => Err(err),
    }
}

/// Parses a complete program: as many top-level items as the text holds.
/// Never fails; the rest is the text after the last item (and the white
/// space and semicolons after it). The text read is the items in order,
/// and the program holds each kind of item in that order.
pub fn program(input: &str) -> (r: Result<(String, UncheckedProgram), ParseError>)
    ensures
        r is Ok,
        r matches Ok((rest, _)) ==> rest@.len() <= input@.len() && rest@ == input@.subrange(input@.len() - rest@.len(), input@.len() as int),
        r matches Ok((rest, prog)) ==> exists|its: Seq<ItemTree>, m: int| items_seq_text(input@, 0, m, its)
            && ws_semi_run(input@, m, input@.len() - rest@.len())
            && prog.constants@ == consts_of(its) && prog.tests@ == tests_of(its)
            && prog.tagged_types@ == tagged_of(its) && prog.functions@ == funs_of(its),
{
    let s = chars_of(input);
    let (e, p) = crate::parser::program::parse_program(&s, 0);
    Ok((rest_of(&s, e), p))
}

/// Parses an expression (leading white space skipped). The text it reads
/// is an expression of the grammar with the tree it returns. Where a plain
/// name stands, it succeeds; and it reads as far as it can: no `||`, `&&`,
/// `+`, `-`, `*` or `/` followed by a plain name stands after what it read.
pub fn expression(input: &str) -> (r: Result<(String, UncheckedExpr), ParseError>)
    ensures
        r matches Ok((rest, _)) ==> rest@.len() < input@.len() && rest@ == input@.subrange(input@.len() - rest@.len(), input@.len() as int),
        r matches Ok((rest, e)) ==> expr_text(input@, 0, input@.len() - rest@.len(), 0, e),
        plain_name_at(input@, 0) ==> r is Ok,
        r matches Ok((rest, _)) ==> forall|lv: int| 0 <= lv <= 4 && lv != 2
            ==> !#[trigger] operand_follows(input@, input@.len() - rest@.len(), lv),
{
    let s = chars_of(input);
    with_rest(&s, crate::parser::expressions::parse_expr(&s, 0))
}

/// Parses a statement (leading white space skipped).
pub fn statement(input: &str) -> (r: Result<(String, UncheckedStmt), ParseError>)
    ensures
        r matches Ok((rest, _)) ==> rest@.len() < input@.len() && rest@ == input@.subrange(input@.len() - rest@.len(), input@.len() as int),
        r matches Ok((rest, st)) ==> stmt_text(input@, 0, input@.len() - rest@.len(), st),
{
    let s = chars_of(input);
    with_rest(&s, crate::parser::statements::statement(&s, 0))
}

/// Parses an assignment `target = e` (leading white space skipped).
pub fn assignment(input: &str) -> (r: Result<(String, UncheckedStmt), ParseError>)
    ensures
        r matches Ok((rest, _)) ==> rest@.len() < input@.len() && rest@ == input@.subrange(input@.len() - rest@.len(), input@.len() as int),
        r matches Ok((rest, st)) ==> st.stmt is Assign && stmt_text(input@, 0, input@.len() - rest@.len(), st),
{
    let s = chars_of(input);
    with_rest(&s, crate::parser::statements::assignment(&s, 0))
}

/// Parses a function declaration (leading white space skipped).
pub fn fun_decl(input: &str) -> (r: Result<(String, UncheckedFunDecl), ParseError>)
    ensures
        r matches Ok((rest, _)) ==> rest@.len() < input@.len() && rest@ == input@.subrange(input@.len() - rest@.len(), input@.len() as int),
        r matches Ok((rest, f)) ==> fun_text(input@, 0, input@.len() - rest@.len(), f),
{
    let s = chars_of(input);
    with_rest(&s, crate::parser::program::fun_decl(&s, 0))
}

/// Parses a type (leading white space skipped).
pub fn type_definition(input: &str) -> (r: Result<(String, Type), ParseError>)
    ensures
        r matches Ok((rest, _)) ==> rest@.len() < input@.len() && rest@ == input@.subrange(input@.len() - rest@.len(), input@.len() as int),
        r matches Ok((rest, t)) ==> type_text(input@, 0, input@.len() - rest@.len(), t),
        r is Ok <==> exists|e: int, t: Type| type_text(input@, 0, e, t),
{
    let s = chars_of(input);
    with_rest(&s, crate::parser::types::type_definition(&s, 0))
}

/// Parses a tagged type declaration `struct N { ... }` (leading white space skipped).
pub fn aggregate_type_decl(input: &str) -> (r: Result<(String, TaggedTypeDecl), ParseError>)
    ensures
        r matches Ok((rest, _)) ==> rest@.len() < input@.len() && rest@ == input@.subrange(input@.len() - rest@.len(), input@.len() as int),
        r matches Ok((rest, d)) ==> tagged_decl_text(input@, 0, input@.len() - rest@.len(), d),
{
    let s = chars_of(input);
    with_rest(&s, crate::parser::program::tagged_type_decl(&s, 0))
}

/// Parses an identifier at the start of the input: a letter or `_`, then
/// letters, digits and `_`, not a reserved word. The value is the identifier.
pub fn identifier(input: &str) -> (r: Result<(String, String), ParseError>)
    ensures
        r is Ok <==> exists|e: int| ident_at(input@, 0, e),
        r matches Ok((rest, id)) ==> ident_at(input@, 0, id@.len() as int) && id@ + rest@ == input@
            && id@ == input@.subrange(0, id@.len() as int),
{
    let s = chars_of(input);
    let r = identifier_at(&s, 0);
    match r {
        Ok((e, id)) => {
            let rest = rest_of(&s, e);
            assert(id@ + rest@ =~= input@);
            Ok((rest, id))
        },
        Err(err) => Err(err),
    }
}

/// Parses an integer literal at the start of the input: an optional `-` and
/// decimal digits, not followed by `.` and a digit, within the range of `i64`.
pub fn integer_literal(input: &str) -> (r: Result<(String, i64), ParseError>)
    ensures
        r is Ok <==> exists|e: int, v: int| int_lit_at(input@, 0, e, v),
        r matches Ok((rest, v)) ==> int_lit_at(input@, 0, input@.len() - rest@.len(), v as int)
            && rest@ == input@.subrange(input@.len() - rest@.len(), input@.len() as int),
{
    let s = chars_of(input);
    let r = integer_at(&s, 0);
    proof {
        if r is Ok {
            let (e, v) = r->Ok_0;
            assert(int_lit_at(s@, 0, e as int, v as int));
        }
    }
    with_rest(&s, r)
}

/// Parses a floating-point literal at the start of the input; the value is its text.
pub fn float_literal(input: &str) -> (r: Result<(String, String), ParseError>)
    ensures
        r matches Ok((rest, t)) ==> float_lit_at(input@, 0, t@.len() as int) && t@ + rest@ == input@,
        r is Err ==> forall|e: int| !float_lit_at(input@, 0, e),
{
    let s = chars_of(input);
    match float_at(&s, 0) {
        Ok((e, t)) => {
            let rest = rest_of(&s, e);
            assert(t@ + rest@ =~= input@);
            Ok((rest, t))
        },
        Err(err) => Err(err),
    }
}

/// Parses a string literal at the start of the input; the value is the text
/// between the quotes with the escapes `\\`, `\"`, `\n`, `\t` decoded.
pub fn string_literal(input: &str) -> (r: Result<(String, String), ParseError>)
    ensures
        r is Ok <==> string_lit_at(input@, 0) is Some,
        r matches Ok((rest, t)) ==> string_lit_at(input@, 0) == Some((t@, input@.len() - rest@.len()))
            && rest@ == input@.subrange(input@.len() - rest@.len(), input@.len() as int),
{
    let s = chars_of(input);
    let r = string_at(&s, 0);
    with_rest(&s, r)
}

/// Parses `true` or `false` at the start of the input.
pub fn boolean_literal(input: &str) -> (r: Result<(String, bool), ParseError>)
    ensures
        r is Ok <==> (has_at(input@, 0, "true"@) || has_at(input@, 0, "false"@)),
        r matches Ok((rest, b)) ==> (if b {
            has_at(input@, 0, "true"@) && rest@ == input@.subrange("true"@.len() as int, input@.len() as int)
        } else {
            !has_at(input@, 0, "true"@) && rest@ == input@.subrange("false"@.len() as int, input@.len() as int)
        }),
{
    let s = chars_of(input);
    with_rest(&s, boolean_at(&s, 0))
}

/// Parses a literal at the start of the input, trying in order: boolean,
/// integer, floating-point, string (so `42` is an integer and `4.2` a float).
pub fn literal(input: &str) -> (r: Result<(String, Literal), ParseError>)
    ensures
        r matches Ok((rest, Literal::Bool(b))) ==> (has_at(input@, 0, "true"@) || has_at(input@, 0, "false"@)),
        r matches Ok((rest, Literal::Int(v))) ==> !(has_at(input@, 0, "true"@) || has_at(input@, 0, "false"@))
            && int_lit_at(input@, 0, input@.len() - rest@.len(), v as int),
        r matches Ok((rest, Literal::Float(t))) ==> !(has_at(input@, 0, "true"@) || has_at(input@, 0, "false"@))
            && (forall|e: int, v: int| !int_lit_at(input@, 0, e, v)) && float_lit_at(input@, 0, t@.len() as int),
        r matches Ok((rest, Literal::Str(t))) ==> !(has_at(input@, 0, "true"@) || has_at(input@, 0, "false"@))
            && (forall|e: int, v: int| !int_lit_at(input@, 0, e, v)) && (forall|e: int| !float_lit_at(input@, 0, e))
            && string_lit_at(input@, 0) == Some((t@, input@.len() - rest@.len())),
        r is Err ==> !(has_at(input@, 0, "true"@) || has_at(input@, 0, "false"@))
            && (forall|e: int, v: int| !int_lit_at(input@, 0, e, v)) && (forall|e: int| !float_lit_at(input@, 0, e))
            && string_lit_at(input@, 0) is None,
{
    let s = chars_of(input);
    if let Ok((e, b)) = boolean_at(&s, 0) {
        return Ok((rest_of(&s, e), Literal::Bool(b)));
    }
    let ri = integer_at(&s, 0);
    if let Ok((e, v)) = ri {
        return Ok((rest_of(&s, e), Literal::Int(v)));
    }
    if let Ok((e, t)) = float_at(&s, 0) {
        let rest = rest_of(&s, e);
        return Ok((rest, Literal::Float(t)));
    }
    match string_at(&s, 0) {
        Ok((e, t)) => Ok((rest_of(&s, e), Literal::Str(t))),
        Err(err) => Err(err),
    }
}

} // verus!
