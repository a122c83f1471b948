//! Parser tests, and the constant-declaration checks that go through the
//! parser and the type checker.

use mini_c::ir::ast::{CheckedProgram, Expr, ExprD, Literal, Statement, Type};
use mini_c::parser::{
    assignment, boolean_literal, expression, float_literal, fun_decl, identifier, integer_literal, literal,
    program, statement, string_literal,
};
use mini_c::semantic::{type_check, TypeError};

fn parse_and_type_check(src: &str) -> Result<CheckedProgram, TypeError> {
    let (rest, prog) = program(src).map_err(|_| TypeError { message: "parse failed".to_string() })?;
    if !rest.is_empty() {
        return Err(TypeError { message: "parse failed".to_string() });
    }
    type_check(&prog)
}

#[test]
fn parser_test_const_local_int_ok() {
    assert!(parse_and_type_check("void main() { const int N = 42; }").is_ok());
}

#[test]
fn parser_test_const_local_float_ok() {
    assert!(parse_and_type_check("void main() { const float PI = 3.14159; }").is_ok());
}

#[test]
fn parser_test_const_used_in_expression() {
    assert!(parse_and_type_check("void main() { const int N = 10; int doubled = N * 2; }").is_ok());
}

#[test]
fn parser_test_const_passed_as_argument() {
    assert!(parse_and_type_check(
        r#"
        int double(int x) { return x * 2; }
        void main() { const int N = 5; int r = double(N); }
    "#
    )
    .is_ok());
}

#[test]
fn parser_test_const_float_from_int_expr_coercion() {
    assert!(parse_and_type_check("void main() { const float half = 1 + 0.5; }").is_ok());
}

#[test]
fn parser_test_const_global_visible_in_main() {
    assert!(parse_and_type_check("const int MAX = 100;\nvoid main() { int x = MAX; }").is_ok());
}

#[test]
fn parser_test_const_global_visible_in_all_functions() {
    assert!(parse_and_type_check(
        r#"
        const int LIMIT = 50;
        int capped(int x) {
            if x > LIMIT { return LIMIT; }
            return x;
        }
        void main() { int r = capped(200); }
    "#
    )
    .is_ok());
}

#[test]
fn parser_test_const_local_assign_rejected() {
    assert!(
        parse_and_type_check("void main() { const int N = 10; N = 20; }").is_err(),
        "assignment to a local const must be rejected"
    );
}

#[test]
fn parser_test_const_assign_error_message_mentions_const() {
    let err = parse_and_type_check("void main() { const int N = 10; N = 20; }").unwrap_err();
    let msg = err.message.to_lowercase();
    assert!(
        msg.contains("const") || msg.contains("constant") || msg.contains("immutable"),
        "error '{}' should mention const/constant/immutable",
        err.message
    );
}

#[test]
fn parser_test_const_global_assign_rejected_in_main() {
    assert!(
        parse_and_type_check("const int MAX = 100;\nvoid main() { MAX = 200; }").is_err(),
        "assignment to global const must be rejected"
    );
}

#[test]
fn parser_test_const_global_assign_rejected_in_other_function() {
    assert!(
        parse_and_type_check(
            r#"
            const int LIMIT = 10;
            void reset() { LIMIT = 0; }
            void main() {}
        "#
        )
        .is_err(),
        "assignment to global const in any function must be rejected"
    );
}

#[test]
fn parser_test_const_init_type_mismatch() {
    assert!(
        parse_and_type_check("void main() { const int X = true; }").is_err(),
        "bool initialiser for const int must be a type error"
    );
}

#[test]
fn parser_test_const_void_type_rejected() {
    assert!(
        parse_and_type_check("void main() { const void X = 1; }").is_err(),
        "const void must be rejected"
    );
}

// --- Literals ---

#[test]
fn test_integer_positive() {
    assert_eq!(integer_literal("42").map(|(r, v)| (r, v)), Ok(("".to_string(), 42)));
    assert_eq!(integer_literal("0").unwrap().1, 0);
    assert_eq!(integer_literal("12345").unwrap().1, 12345);
}

#[test]
fn test_integer_negative() {
    assert_eq!(integer_literal("-17").unwrap(), ("".to_string(), -17));
    assert_eq!(integer_literal("-0").unwrap(), ("".to_string(), 0));
}

#[test]
fn test_integer_reject() {
    assert!(integer_literal("abc").is_err());
    assert!(integer_literal("12.34").is_err());
}

#[test]
fn test_integer_overflow_rejected() {
    assert_eq!(integer_literal("9223372036854775807").unwrap().1, i64::MAX);
    assert!(integer_literal("9223372036854775808").is_err());
}

#[test]
fn test_float() {
    let (rest, text) = float_literal("3.14").unwrap();
    assert_eq!(rest, "");
    assert_eq!(text.parse::<f64>().unwrap(), 3.14);
    assert_eq!(float_literal("0.5").unwrap().1.parse::<f64>().unwrap(), 0.5);
    assert_eq!(float_literal("-0.25").unwrap().1.parse::<f64>().unwrap(), -0.25);
    assert_eq!(float_literal("1e3x").unwrap(), ("x".to_string(), "1e3".to_string()));
    assert!(float_literal("1e").is_err());
    assert!(float_literal(".").is_err());
}

#[test]
fn test_string_simple() {
    assert_eq!(string_literal(r#""hello""#).unwrap(), ("".to_string(), "hello".to_string()));
    assert_eq!(string_literal(r#""""#).unwrap(), ("".to_string(), "".to_string()));
}

#[test]
fn test_string_escapes() {
    assert_eq!(string_literal(r#""a\"b""#).unwrap().1, r#"a"b"#);
    assert_eq!(string_literal(r#""line1\nline2""#).unwrap().1, "line1\nline2");
    assert_eq!(string_literal(r#""tab\there""#).unwrap().1, "tab\there");
    assert!(string_literal(r#""bad\q""#).is_err());
    assert!(string_literal(r#""open"#).is_err());
}

#[test]
fn test_boolean() {
    assert_eq!(boolean_literal("true").unwrap(), ("".to_string(), true));
    assert_eq!(boolean_literal("false").unwrap(), ("".to_string(), false));
}

#[test]
fn test_boolean_reject() {
    assert!(boolean_literal("True").is_err());
    assert!(boolean_literal("1").is_err());
}

#[test]
fn test_literal_combined() {
    assert_eq!(literal("42").unwrap(), ("".to_string(), Literal::Int(42)));
    assert_eq!(literal("3.14").unwrap(), ("".to_string(), Literal::Float("3.14".to_string())));
    assert_eq!(literal(r#""hi""#).unwrap(), ("".to_string(), Literal::Str("hi".to_string())));
    assert_eq!(literal("true").unwrap(), ("".to_string(), Literal::Bool(true)));
}

// --- Identifiers ---

#[test]
fn test_identifier_simple() {
    assert_eq!(identifier("x").unwrap(), ("".to_string(), "x".to_string()));
    assert_eq!(identifier("count").unwrap().1, "count");
    assert_eq!(identifier("_temp").unwrap().1, "_temp");
}

#[test]
fn test_identifier_with_digits() {
    assert_eq!(identifier("var1").unwrap().1, "var1");
    assert_eq!(identifier("max_value_42").unwrap().1, "max_value_42");
}

#[test]
fn test_identifier_reject_digit_start() {
    assert!(identifier("1var").is_err());
    assert!(identifier("42").is_err());
}

#[test]
fn test_identifier_reject_reserved() {
    assert!(identifier("true").is_err());
    assert!(identifier("false").is_err());
    assert!(identifier("int").is_err());
    assert!(identifier("void").is_err());
}

#[test]
fn test_identifier_accept_true_prefix() {
    assert_eq!(identifier("tru").unwrap().1, "tru");
    assert_eq!(identifier("truex").unwrap().1, "truex");
}

// --- Expressions ---

fn lit(n: i64) -> Box<ExprD<()>> {
    Box::new(ExprD { exp: Expr::Literal(Literal::Int(n)), ty: () })
}

#[test]
fn test_primary_literal() {
    assert_eq!(expression("42").unwrap().1.exp, Expr::Literal(Literal::Int(42)));
    assert_eq!(expression("true").unwrap().1.exp, Expr::Literal(Literal::Bool(true)));
    assert_eq!(expression("x").unwrap().1.exp, Expr::Ident("x".to_string()));
}

#[test]
fn test_arithmetic() {
    assert_eq!(expression("1 + 2").unwrap().1.exp, Expr::Add(lit(1), lit(2)));
    assert_eq!(expression("10 - 3").unwrap().1.exp, Expr::Sub(lit(10), lit(3)));
    assert_eq!(expression("4 * 5").unwrap().1.exp, Expr::Mul(lit(4), lit(5)));
    assert_eq!(
        expression("-x").unwrap().1.exp,
        Expr::Neg(Box::new(ExprD { exp: Expr::Ident("x".to_string()), ty: () }))
    );
}

#[test]
fn test_precedence_arithmetic() {
    let e = expression("1 + 2 * 3").unwrap().1.exp;
    assert_eq!(e, Expr::Add(lit(1), Box::new(ExprD { exp: Expr::Mul(lit(2), lit(3)), ty: () })));
}

#[test]
fn test_left_associative_subtraction() {
    let e = expression("10 - 3 - 2").unwrap().1.exp;
    assert_eq!(e, Expr::Sub(Box::new(ExprD { exp: Expr::Sub(lit(10), lit(3)), ty: () }), lit(2)));
}

#[test]
fn test_relational_and_logical() {
    let e = expression("a < b && c").unwrap().1.exp;
    match e {
        Expr::And(l, _) => assert!(matches!(l.exp, Expr::Lt(_, _))),
        other => panic!("expected And, got {:?}", other),
    }
    assert!(matches!(expression("x != 1").unwrap().1.exp, Expr::Ne(_, _)));
    assert!(matches!(expression("!b").unwrap().1.exp, Expr::Not(_)));
}

#[test]
fn test_call_index_member_array() {
    match expression("f(1, x)").unwrap().1.exp {
        Expr::Call { name, args } => {
            assert_eq!(name, "f");
            assert_eq!(args.len(), 2);
        }
        other => panic!("expected call, got {:?}", other),
    }
    assert!(matches!(expression("a[0]").unwrap().1.exp, Expr::Index { .. }));
    assert!(matches!(expression("p.x").unwrap().1.exp, Expr::Member { .. }));
    match expression("[1, 2, 3]").unwrap().1.exp {
        Expr::ArrayLit(items) => assert_eq!(items.len(), 3),
        other => panic!("expected array, got {:?}", other),
    }
}

// --- Statements ---

#[test]
fn test_assignment() {
    match assignment("x = 1").unwrap().1.stmt {
        Statement::Assign { target, value } => {
            assert_eq!(target.exp, Expr::Ident("x".to_string()));
            assert_eq!(value.exp, Expr::Literal(Literal::Int(1)));
        }
        other => panic!("expected assign, got {:?}", other),
    }
}

#[test]
fn test_const_decl_statement() {
    match statement("const int MAX_SIZE = 100;").unwrap().1.stmt {
        Statement::ConstDecl { name, ty, init } => {
            assert_eq!(name, "MAX_SIZE");
            assert_eq!(ty, Type::Int);
            assert_eq!(init.exp, Expr::Literal(Literal::Int(100)));
        }
        other => panic!("expected ConstDecl, got {:?}", other),
    }
}

#[test]
fn test_if_while_block() {
    assert!(statement("if x then y = 1").is_err());
    assert!(statement("while x do x = x - 1").is_err());
    assert!(matches!(statement("if x then { y = 1; } else { y = 2; }").unwrap().1.stmt, Statement::If { .. }));
    assert!(matches!(statement("if x { y = 1; }").unwrap().1.stmt, Statement::If { .. }));
    assert!(matches!(statement("while x do { x = x - 1; }").unwrap().1.stmt, Statement::While { .. }));
    match statement("{ int x = 1; x = 2; }").unwrap().1.stmt {
        Statement::Block { seq } => assert_eq!(seq.len(), 2),
        other => panic!("expected block, got {:?}", other),
    }
}

#[test]
fn test_fun_decl() {
    let (rest, f) = fun_decl("int add(int x, int y) { return x + y; }").unwrap();
    assert_eq!(rest, "");
    assert_eq!(f.name, "add");
    assert_eq!(f.params.len(), 2);
    assert_eq!(f.return_type, Type::Int);
}

#[test]
fn test_global_const_single() {
    let (rest, prog) = program("const int MAX_SIZE = 100;\nvoid main() {}").unwrap();
    assert_eq!(rest, "");
    assert_eq!(prog.constants.len(), 1);
    match &prog.constants[0].stmt {
        Statement::ConstDecl { name, ty, .. } => {
            assert_eq!(name, "MAX_SIZE");
            assert_eq!(*ty, Type::Int);
        }
        other => panic!("expected ConstDecl, got {:?}", other),
    }
}

#[test]
fn test_program_stops_at_unknown_text() {
    let (rest, prog) = program("def greet(str name) { print(name) }").unwrap();
    assert_eq!(prog.functions.len(), 0);
    assert!(rest.starts_with("def"));
}

#[test]
fn comparisons_do_not_chain() {
    let (rest, e) = expression("1 < 2 < 3").unwrap();
    assert_eq!(rest, " < 3");
    assert_eq!(e.exp, Expr::Lt(lit(1), lit(2)));
}

#[test]
fn keyword_operators_need_a_word_boundary() {
    let (rest, e) = expression("a or b").unwrap();
    assert_eq!(rest, "");
    assert!(matches!(e.exp, Expr::Or(_, _)));
    let (rest, e) = expression("a orb").unwrap();
    assert_eq!(rest, " orb");
    assert_eq!(e.exp, Expr::Ident("a".to_string()));
}

#[test]
fn parenthesised_operand_keeps_its_grouping() {
    let e = expression("(1 + 2) * 3").unwrap().1.exp;
    assert_eq!(e, Expr::Mul(Box::new(ExprD { exp: Expr::Add(lit(1), lit(2)), ty: () }), lit(3)));
}
