//! More parser tests: expressions, statements, functions, blocks, arrays
//! and constant declarations.

use mini_c::ir::ast::{Expr, Literal, Statement, Type};
use mini_c::parser::{assignment, expression, fun_decl, program, statement};

/// Runs a parser and fails unless it consumes the whole input.
fn whole<T, E>(parse: fn(&str) -> Result<(String, T), E>, input: &str) -> Result<(String, T), ()> {
    match parse(input) {
        Ok((rest, value)) if rest.is_empty() => Ok((rest, value)),
        _ => Err(()),
    }
}

#[test]
fn test_parentheses() {
    let result = expression("(1 + 2) * 3").unwrap().1.exp;
    match &result {
        Expr::Mul(l, r) => {
            match &l.exp {
                Expr::Add(a, b) => {
                    assert_eq!(a.exp, Expr::Literal(Literal::Int(1)));
                    assert_eq!(b.exp, Expr::Literal(Literal::Int(2)));
                }
                _ => panic!("expected Add"),
            }
            assert_eq!(r.exp, Expr::Literal(Literal::Int(3)));
        }
        _ => panic!("expected Mul"),
    }
}

#[test]
fn test_relational() {
    assert!(matches!(expression("a == b").unwrap().1.exp, Expr::Eq(_, _)));
    assert!(matches!(expression("x < 5").unwrap().1.exp, Expr::Lt(_, _)));
    assert!(matches!(expression("1 + 2 < 5").unwrap().1.exp, Expr::Lt(_, _)));
}

#[test]
fn test_complex_expression() {
    // a >= (pi * r * r) + epsilon — area comparison with tolerance
    let result = expression("a >= (pi * r * r) + epsilon").unwrap().1.exp;
    match &result {
        Expr::Ge(left, right) => {
            assert_eq!(left.exp, Expr::Ident("a".to_string()));
            match &right.exp {
                Expr::Add(add_left, add_right) => {
                    assert_eq!(add_right.exp, Expr::Ident("epsilon".to_string()));
                    match &add_left.exp {
                        Expr::Mul(_, _) => {} // (pi * r * r) — parenthesized multiplication
                        _ => panic!("expected Mul for (pi * r * r)"),
                    }
                }
                _ => panic!("expected Add for (pi * r * r) + epsilon"),
            }
        }
        _ => panic!("expected Ge, got {:?}", result),
    }
}

#[test]
fn test_boolean_expr() {
    assert!(matches!(
        expression("true and false").unwrap().1.exp,
        Expr::And(_, _)
    ));
    assert!(matches!(expression("!x").unwrap().1.exp, Expr::Not(_)));
    assert!(matches!(
        expression("x < 5 and y > 0").unwrap().1.exp,
        Expr::And(_, _)
    ));
}

#[test]
fn test_invalid_trailing_op() {
    assert!(whole(expression, "1 +").is_err());
}

#[test]
fn test_invalid_unbalanced_paren() {
    assert!(expression("(1 + 2").is_err());
    assert!(whole(expression, "1 + 2)").is_err());
}

#[test]
fn test_simple_assignment() {
    let result = assignment("x = 42;").unwrap().1;
    assert!(matches!(result.stmt, Statement::Assign { ref target, ref value }
        if matches!(target.exp, Expr::Ident(ref s) if s == "x") && value.exp == Expr::Literal(Literal::Int(42))));

    let result = assignment("count = 0;").unwrap().1;
    assert!(matches!(result.stmt, Statement::Assign { ref target, ref value }
        if matches!(target.exp, Expr::Ident(ref s) if s == "count") && value.exp == Expr::Literal(Literal::Int(0))));
}

#[test]
fn test_assignment_with_expression() {
    let result = assignment("sum = a + b;").unwrap().1;
    assert!(matches!(result.stmt, Statement::Assign { ref target, .. } if matches!(target.exp, Expr::Ident(ref s) if s == "sum")));
    if let Statement::Assign { value, .. } = &result.stmt {
        assert!(matches!(value.exp, Expr::Add(_, _)));
    }

    let result = assignment("flag = x < 5;").unwrap().1;
    assert!(matches!(result.stmt, Statement::Assign { ref target, .. } if matches!(target.exp, Expr::Ident(ref s) if s == "flag")));
    if let Statement::Assign { value, .. } = &result.stmt {
        assert!(matches!(value.exp, Expr::Lt(_, _)));
    }
}

#[test]
fn test_assignment_whitespace() {
    let result = assignment("x=1;").unwrap().1;
    assert!(matches!(result.stmt, Statement::Assign { ref target, ref value }
        if matches!(target.exp, Expr::Ident(ref s) if s == "x") && value.exp == Expr::Literal(Literal::Int(1))));

    let result = assignment("x = 1;").unwrap().1;
    assert!(matches!(result.stmt, Statement::Assign { ref target, ref value }
        if matches!(target.exp, Expr::Ident(ref s) if s == "x") && value.exp == Expr::Literal(Literal::Int(1))));

    let result = assignment("x  =  1;").unwrap().1;
    assert!(matches!(result.stmt, Statement::Assign { ref target, ref value }
        if matches!(target.exp, Expr::Ident(ref s) if s == "x") && value.exp == Expr::Literal(Literal::Int(1))));
}

#[test]
fn test_invalid_assignment() {
    assert!(assignment("= 1").is_err());
    assert!(assignment("x").is_err());
    assert!(assignment("1 = x").is_err());
}

#[test]
fn test_decl_statement() {
    let result = statement("int x = 42;").unwrap().1;
    assert!(matches!(result.stmt, Statement::Decl { ref name, ref ty, .. }
        if name == "x" && ty == &Type::Int));
    if let Statement::Decl { ref init, .. } = result.stmt {
        assert_eq!(init.exp, Expr::Literal(Literal::Int(42)));
    }

    let result = statement("float y = 3.14;").unwrap().1;
    assert!(matches!(result.stmt, Statement::Decl { ref name, ref ty, .. }
        if name == "y" && ty == &Type::Float));

    let result = statement("int[] arr = [1, 2, 3];").unwrap().1;
    assert!(matches!(result.stmt, Statement::Decl { ref name, ref ty, .. }
        if name == "arr" && matches!(ty, Type::Array(_))));
}

#[test]
fn test_if_without_else() {
    let result = statement("if x { y = 1; }").unwrap().1;
    assert!(matches!(
        result.stmt,
        Statement::If {
            else_branch: None,
            ..
        }
    ));
    if let Statement::If {
        ref cond, ref then_branch, ..
    } = result.stmt
    {
        assert!(matches!(cond.exp, Expr::Ident(ref s) if s == "x"));
        assert!(matches!(then_branch.stmt, Statement::Block { ref seq }
            if seq.len() == 1
            && matches!(seq[0].stmt, Statement::Assign { ref target, .. }
                if matches!(target.exp, Expr::Ident(ref s) if s == "y"))));
    }
}

#[test]
fn test_if_with_else() {
    let result = statement("if x { y = 1; } else { y = 0; }").unwrap().1;
    assert!(matches!(
        result.stmt,
        Statement::If {
            else_branch: Some(_),
            ..
        }
    ));
    if let Statement::If { ref else_branch, .. } = &result.stmt {
        let else_s = else_branch.as_ref().unwrap();
        assert!(matches!(else_s.stmt, Statement::Block { ref seq }
            if seq.len() == 1
            && matches!(seq[0].stmt, Statement::Assign { ref target, .. }
                if matches!(target.exp, Expr::Ident(ref s) if s == "y"))));
        if let Statement::Block { ref seq } = &else_s.stmt {
            if let Statement::Assign { ref value, .. } = &seq[0].stmt {
                assert_eq!(value.exp, Expr::Literal(Literal::Int(0)));
            }
        }
    }
}

#[test]
fn test_nested_if() {
    let result = statement("if a { if b { x = 1; } else { x = 2; } }").unwrap().1;
    assert!(matches!(result.stmt, Statement::If { .. }));
    if let Statement::If { ref then_branch, .. } = &result.stmt {
        assert!(matches!(then_branch.stmt, Statement::Block { ref seq }
            if seq.len() == 1 && matches!(seq[0].stmt, Statement::If { .. })));
    }
}

#[test]
fn test_if_whitespace() {
    assert!(statement("if x { y = 1; }").is_ok());
    assert!(statement("if  x  { y  =  1; }").is_ok());
}

#[test]
fn test_invalid_if() {
    assert!(statement("if x").is_err());
    assert!(statement("if x y = 1;").is_err());
}

#[test]
fn test_simple_while() {
    let result = statement("while x { y = 1; }").unwrap().1;
    assert!(matches!(result.stmt, Statement::While { .. }));
    if let Statement::While { ref cond, ref body } = &result.stmt {
        assert!(matches!(cond.exp, Expr::Ident(ref s) if s == "x"));
        assert!(matches!(body.stmt, Statement::Block { ref seq }
            if seq.len() == 1
            && matches!(seq[0].stmt, Statement::Assign { ref target, .. }
                if matches!(target.exp, Expr::Ident(ref s) if s == "y"))));
    }
}

#[test]
fn test_while_with_expression() {
    let result = statement("while i < 10 { i = i + 1; }").unwrap().1;
    assert!(matches!(result.stmt, Statement::While { .. }));
    if let Statement::While { ref cond, ref body } = &result.stmt {
        assert!(matches!(cond.exp, Expr::Lt(_, _)));
        assert!(matches!(body.stmt, Statement::Block { ref seq }
            if seq.len() == 1 && matches!(seq[0].stmt, Statement::Assign { .. })));
    }
}

#[test]
fn test_nested_while() {
    let result = statement("while a { while b { x = 1; } }").unwrap().1;
    assert!(matches!(result.stmt, Statement::While { .. }));
    if let Statement::While { ref body, .. } = &result.stmt {
        assert!(matches!(body.stmt, Statement::Block { ref seq }
            if seq.len() == 1 && matches!(seq[0].stmt, Statement::While { .. })));
    }
}

#[test]
fn test_while_whitespace() {
    assert!(statement("while x { y = 1; }").is_ok());
    assert!(statement("while  x  { y  =  1; }").is_ok());
}

#[test]
fn test_invalid_while() {
    assert!(statement("while x").is_err());
    assert!(statement("while x y = 1;").is_err());
}

#[test]
fn test_fun_decl_with_params() {
    let result = fun_decl("void foo(int x, int y) { x = x + y; }").unwrap().1;
    assert_eq!(result.name, "foo");
    assert_eq!(
        result.params.iter().map(|p| (p.name.clone(), p.ty.duplicate())).collect::<Vec<_>>(),
        vec![("x".to_string(), Type::Int), ("y".to_string(), Type::Int)]
    );
    assert!(matches!(result.body.stmt, Statement::Block { ref seq }
        if seq.len() == 1
        && matches!(seq[0].stmt, Statement::Assign { ref target, .. }
            if matches!(target.exp, Expr::Ident(ref s) if s == "x"))));
    if let Statement::Block { ref seq } = &result.body.stmt {
        if let Statement::Assign { ref value, .. } = &seq[0].stmt {
            assert!(matches!(value.exp, Expr::Add(_, _)));
        }
    }
}

#[test]
fn test_fun_decl_old_syntax_reject() {
    assert!(fun_decl("def foo(int x) void x = 1").is_err());
    assert!(fun_decl("void bar(x) x = 1").is_err()); // untyped param
}

#[test]
fn test_fun_decl_no_params() {
    let result = fun_decl("void bar() { x = 1; }").unwrap().1;
    assert_eq!(result.name, "bar");
    assert!(result.params.is_empty());
    assert!(
        matches!(result.body.stmt, Statement::Block { ref seq }
            if seq.len() == 1
            && matches!(seq[0].stmt, Statement::Assign { ref target, ref value }
                if matches!(target.exp, Expr::Ident(ref s) if s == "x")
                && value.exp == Expr::Literal(Literal::Int(1))))
    );
}

#[test]
fn test_call_as_expression() {
    let result = expression("foo(1, 2)").unwrap().1;
    assert!(
        matches!(result.exp, Expr::Call { ref name, ref args } if name == "foo" && args.len() == 2)
    );
    if let Expr::Call { ref args, .. } = result.exp {
        assert_eq!(args[0].exp, Expr::Literal(Literal::Int(1)));
        assert_eq!(args[1].exp, Expr::Literal(Literal::Int(2)));
    }
}

#[test]
fn test_call_no_args() {
    let result = expression("baz()").unwrap().1;
    assert!(
        matches!(result.exp, Expr::Call { ref name, ref args } if name == "baz" && args.is_empty())
    );
}

#[test]
fn test_call_in_expression() {
    let result = expression("foo(1) + 2").unwrap().1;
    assert!(matches!(result.exp, Expr::Add(_, _)));
    if let Expr::Add(ref left, ref right) = result.exp {
        assert!(
            matches!(left.exp, Expr::Call { ref name, ref args } if name == "foo" && args.len() == 1)
        );
        assert_eq!(right.exp, Expr::Literal(Literal::Int(2)));
    }
}

#[test]
fn test_call_as_statement() {
    let result = statement("foo(1, 2);").unwrap().1;
    assert!(
        matches!(result.stmt, Statement::Call { ref name, ref args } if name == "foo" && args.len() == 2)
    );
}

#[test]
fn test_empty_block() {
    let result = statement("{}").unwrap().1;
    assert!(matches!(result.stmt, Statement::Block { ref seq } if seq.is_empty()));
}

#[test]
fn test_block_single_statement() {
    let result = statement("{ x = 1; }").unwrap().1;
    assert!(matches!(result.stmt, Statement::Block { ref seq } if seq.len() == 1));
    if let Statement::Block { ref seq } = result.stmt {
        assert!(matches!(seq[0].stmt, Statement::Assign { ref target, .. } if matches!(target.exp, Expr::Ident(ref s) if s == "x")));
    }
}

#[test]
fn test_block_multiple_statements() {
    let result = statement("{ x = 1; y = 2; }").unwrap().1;
    assert!(matches!(result.stmt, Statement::Block { ref seq } if seq.len() == 2));
    if let Statement::Block { ref seq } = result.stmt {
        assert!(matches!(seq[0].stmt, Statement::Assign { ref target, .. } if matches!(target.exp, Expr::Ident(ref s) if s == "x")));
        assert!(matches!(seq[1].stmt, Statement::Assign { ref target, .. } if matches!(target.exp, Expr::Ident(ref s) if s == "y")));
    }
}

#[test]
fn test_block_in_function_body() {
    let result = fun_decl("void foo(int x, int y) { x = x + 1; y = y + 1; }")
        .unwrap()
        .1;
    assert!(matches!(result.body.stmt, Statement::Block { ref seq } if seq.len() == 2));
}

#[test]
fn test_block_in_if_body() {
    let result = statement("if x { a = 1; b = 2; }").unwrap().1;
    assert!(matches!(result.stmt, Statement::If { .. }));
    if let Statement::If { ref then_branch, .. } = &result.stmt {
        assert!(matches!(then_branch.stmt, Statement::Block { ref seq } if seq.len() == 2));
    }
}

#[test]
fn test_block_in_while_body() {
    let result = statement("while x { a = 1; b = 2; }").unwrap().1;
    assert!(matches!(result.stmt, Statement::While { .. }));
    if let Statement::While { ref body, .. } = &result.stmt {
        assert!(matches!(body.stmt, Statement::Block { ref seq } if seq.len() == 2));
    }
}

#[test]
fn test_array_literal() {
    let result = expression("[1, 2, 3]").unwrap().1;
    assert!(matches!(result.exp, Expr::ArrayLit(ref elems) if elems.len() == 3));
    if let Expr::ArrayLit(ref elems) = result.exp {
        assert_eq!(elems[0].exp, Expr::Literal(Literal::Int(1)));
        assert_eq!(elems[1].exp, Expr::Literal(Literal::Int(2)));
        assert_eq!(elems[2].exp, Expr::Literal(Literal::Int(3)));
    }
}

#[test]
fn test_empty_array() {
    let result = expression("[]").unwrap().1;
    assert!(matches!(result.exp, Expr::ArrayLit(ref elems) if elems.is_empty()));
}

#[test]
fn test_index_read() {
    let result = expression("arr[i]").unwrap().1;
    assert!(matches!(result.exp, Expr::Index { ref base, ref index }
        if matches!(base.exp, Expr::Ident(ref s) if s == "arr") && matches!(index.exp, Expr::Ident(ref s) if s == "i")));
}

#[test]
fn test_indexed_assignment() {
    let result = statement("arr[i] = 1;").unwrap().1;
    assert!(matches!(result.stmt, Statement::Assign { ref target, ref value }
        if matches!(target.exp, Expr::Index { .. }) && value.exp == Expr::Literal(Literal::Int(1))));
    if let Statement::Assign { ref target, .. } = result.stmt {
        if let Expr::Index { ref base, ref index } = target.exp {
            assert!(matches!(base.exp, Expr::Ident(ref s) if s == "arr"));
            assert!(matches!(index.exp, Expr::Ident(ref s) if s == "i"));
        }
    }
}

#[test]
fn test_multidimensional_indexed_assignment() {
    let result = statement("arr[i][j] = x;").unwrap().1;
    assert!(matches!(result.stmt, Statement::Assign { ref target, ref value }
        if matches!(target.exp, Expr::Index { .. }) && matches!(value.exp, Expr::Ident(ref s) if s == "x")));
    if let Statement::Assign { ref target, .. } = result.stmt {
        if let Expr::Index { ref base, ref index } = target.exp {
            assert!(matches!(index.exp, Expr::Ident(ref s) if s == "j"));
            if let Expr::Index { ref base, ref index } = base.exp {
                assert!(matches!(base.exp, Expr::Ident(ref s) if s == "arr"));
                assert!(matches!(index.exp, Expr::Ident(ref s) if s == "i"));
            }
        }
    }
}

#[test]
fn test_nested_index() {
    let result = expression("arr[i][j]").unwrap().1;
    assert!(matches!(result.exp, Expr::Index { ref base, ref index }
        if matches!(index.exp, Expr::Ident(ref s) if s == "j")));
    if let Expr::Index { ref base, .. } = result.exp {
        assert!(matches!(base.exp, Expr::Index { ref base, ref index }
            if matches!(base.exp, Expr::Ident(ref s) if s == "arr") && matches!(index.exp, Expr::Ident(ref s) if s == "i")));
    }
}

#[test]
fn test_array_in_expression() {
    let result = expression("[1, 2][0]").unwrap().1;
    assert!(matches!(result.exp, Expr::Index { ref base, ref index }
        if matches!(base.exp, Expr::ArrayLit(_)) && index.exp == Expr::Literal(Literal::Int(0))));
}

#[test]
fn test_const_decl_int() {
    let result = statement("const int MAX_SIZE = 100;");
    let (rest, stmt) = result.expect("should parse");
    assert_eq!(rest, "");
    match stmt.stmt {
        Statement::ConstDecl { name, ty, init } => {
            assert_eq!(name, "MAX_SIZE");
            assert_eq!(ty, Type::Int);
            assert_eq!(init.exp, Expr::Literal(Literal::Int(100)));
        }
        other => panic!("expected ConstDecl, got {:?}", other),
    }
}

#[test]
fn test_const_decl_float() {
    let (rest, stmt) = statement("const float PI = 3.14159;").expect("should parse");
    assert_eq!(rest, "");
    match stmt.stmt {
        Statement::ConstDecl { name, ty, .. } => {
            assert_eq!(name, "PI");
            assert_eq!(ty, Type::Float);
        }
        other => panic!("expected ConstDecl, got {:?}", other),
    }
}

#[test]
fn test_const_decl_bool() {
    let (_, stmt) = statement("const bool FLAG = true;").expect("should parse");
    match stmt.stmt {
        Statement::ConstDecl { name, ty, init } => {
            assert_eq!(name, "FLAG");
            assert_eq!(ty, Type::Bool);
            assert_eq!(init.exp, Expr::Literal(Literal::Bool(true)));
        }
        other => panic!("expected ConstDecl, got {:?}", other),
    }
}

#[test]
fn test_const_decl_str() {
    let (_, stmt) = statement(r#"const str GREETING = "hello";"#).expect("should parse");
    match stmt.stmt {
        Statement::ConstDecl { name, ty, init } => {
            assert_eq!(name, "GREETING");
            assert_eq!(ty, Type::Str);
            assert_eq!(init.exp, Expr::Literal(Literal::Str("hello".to_string())));
        }
        other => panic!("expected ConstDecl, got {:?}", other),
    }
}

#[test]
fn test_const_decl_expr_initialiser() {
    let (rest, stmt) = statement("const int DOUBLE = 2 * 21;").expect("should parse");
    assert_eq!(rest, "");
    match stmt.stmt {
        Statement::ConstDecl { name, ty, .. } => {
            assert_eq!(name, "DOUBLE");
            assert_eq!(ty, Type::Int);
        }
        other => panic!("expected ConstDecl, got {:?}", other),
    }
}

#[test]
fn test_const_decl_missing_semicolon_fails() {
    assert!(
        whole(statement, "const int X = 5").is_err(),
        "const without semicolon should not parse"
    );
}

#[test]
fn test_const_decl_missing_initialiser_fails() {
    assert!(
        whole(statement, "const int X;").is_err(),
        "const without initialiser should not parse"
    );
}

#[test]
fn test_mutable_decl_is_not_const() {
    let (_, stmt) = statement("int x = 5;").expect("should parse");
    match stmt.stmt {
        Statement::Decl { .. } => { /* correct */ }
        Statement::ConstDecl { .. } => panic!("mutable Decl must not become ConstDecl"),
        other => panic!("unexpected statement: {:?}", other),
    }
}

#[test]
fn test_global_const_multiple() {
    let src = "const int N = 10;\nconst float PI = 3.14;\nvoid main() {}";
    let (_, prog) = whole(program, src).expect("should parse");
    assert_eq!(prog.constants.len(), 2, "expected two global constants");
}

#[test]
fn test_global_const_none() {
    let (_, prog) = whole(program, "void main() {}").expect("should parse");
    assert_eq!(prog.constants.len(), 0);
}
