//! Tests of the library's own: exact code and text from the code generator,
//! the linker, the run-time environment, the interpreter's arithmetic,
//! scoping and aggregates, the standard library and the registry.
use mini_c::codegen::linker::Linker;
use mini_c::codegen::tac_code_gen::{generate_tac, sanitize, Environment};
use mini_c::codegen::{format_instruction, format_program};
use mini_c::environment::Environment as Bindings;
use mini_c::interpreter::exec_stmt::{ArithOp, FloatOp, Host, Interpreter, Relation};
use mini_c::interpreter::value::{RuntimeError, Value};
use mini_c::interpreter::{interpret, run_tests, test_summary, TestOutcome};
use mini_c::ir::ast::{Literal, Type};
use mini_c::ir::tac::{Address, Instruction, Operator};
use mini_c::parser::program;
use mini_c::semantic::type_check;
use mini_c::stdlib::io::{read_int_fn, read_string_fn};
use mini_c::stdlib::registry::{NativeEntry, NativeFn, NativeRegistry};
use mini_c::stdlib::string::{str_to_int, substr, to_lower, to_upper};

struct Recorder {
    printed: Vec<Value>,
}

impl Host for Recorder {
    fn call_native(&mut self, func: NativeFn, args: Vec<Value>) -> Result<Value, RuntimeError> {
        match func {
            NativeFn::Print => {
                self.printed.push(args.into_iter().next().unwrap_or(Value::Void));
                Ok(Value::Void)
            }
            NativeFn::Substr => substr(args),
            NativeFn::ToUpper => to_upper(args),
            NativeFn::StrToInt => str_to_int(args),
            _ => Err(RuntimeError { message: "not available".to_string() }),
        }
    }

    fn float_op(&mut self, op: FloatOp) -> Result<Value, RuntimeError> {
        let f = f64::from_bits;
        Ok(match op {
            FloatOp::Literal(t) => Value::Float(t.parse::<f64>().unwrap().to_bits()),
            FloatOp::FromInt(n) => Value::Float((n as f64).to_bits()),
            FloatOp::ToInt(x) => Value::Int(f(x) as i64),
            FloatOp::Neg(x) => Value::Float((-f(x)).to_bits()),
            FloatOp::Arith(ArithOp::Add, a, b) => Value::Float((f(a) + f(b)).to_bits()),
            FloatOp::Arith(ArithOp::Sub, a, b) => Value::Float((f(a) - f(b)).to_bits()),
            FloatOp::Arith(ArithOp::Mul, a, b) => Value::Float((f(a) * f(b)).to_bits()),
            FloatOp::Arith(ArithOp::Div, a, b) => Value::Float((f(a) / f(b)).to_bits()),
            FloatOp::Compare(Relation::Lt, a, b) => Value::Bool(f(a) < f(b)),
            FloatOp::Compare(Relation::Le, a, b) => Value::Bool(f(a) <= f(b)),
            FloatOp::Compare(Relation::Gt, a, b) => Value::Bool(f(a) > f(b)),
            FloatOp::Compare(Relation::Ge, a, b) => Value::Bool(f(a) >= f(b)),
            FloatOp::Compare(Relation::Eq, a, b) => Value::Bool(f(a) == f(b)),
            FloatOp::Compare(Relation::Ne, a, b) => Value::Bool(f(a) != f(b)),
        })
    }
}

fn checked(src: &str) -> mini_c::ir::ast::CheckedProgram {
    let (_, p) = program(src).expect("parse");
    type_check(&p).expect("type check")
}

fn printed(src: &str) -> Result<Vec<Value>, String> {
    let c = checked(src);
    let (r, host) = interpret(&c, Recorder { printed: Vec::new() }, 1_000_000);
    r.map_err(|e| e.message)?;
    Ok(host.printed)
}

// ---- code generator ----

#[test]
fn labels_and_temporaries_are_numbered_from_one() {
    let mut env = Environment::new();
    assert_eq!(env.new_label(), "Label1:");
    assert_eq!(env.new_label(), "Label2:");
    assert_eq!(env.new_temporary(), "temp1");
    assert_eq!(env.new_label(), "Label3:");
    assert_eq!(env.new_temporary(), "temp2");
}

#[test]
fn sanitize_replaces_what_is_not_a_letter_or_digit() {
    assert_eq!(sanitize("first case"), "first_case");
    assert_eq!(sanitize("a-b.c9"), "a_b_c9");
    assert_eq!(sanitize(""), "");
}

#[test]
fn generated_code_for_a_sum_is_exact() {
    let tac = generate_tac(&checked("void main() { int x = 1 + 2; }"));
    assert_eq!(format_program(&tac), "main:\n  temp1 := 1 + 2\n  x := temp1");
}

#[test]
fn generated_code_for_if_else_is_exact() {
    let tac = generate_tac(&checked("void main() { int x = 0; if x < 1 { x = 1; } else { x = 2; } }"));
    assert_eq!(
        format_program(&tac),
        "main:\n  x := 0\n  if x < 1 goto Label1:\n  goto Label2:\nLabel1::\n  x := 1\n  goto Label3:\nLabel2::\n  x := 2\nLabel3::"
    );
}

#[test]
fn generated_code_for_while_is_exact() {
    let tac = generate_tac(&checked("void main() { int i = 0; while i < 3 { i = i + 1; } }"));
    assert_eq!(
        format_program(&tac),
        "main:\n  i := 0\nLabel1::\n  if i < 3 goto Label2:\n  goto Label3:\nLabel2::\n  temp1 := i + 1\n  i := temp1\n  goto Label1:\nLabel3::"
    );
}

#[test]
fn generated_code_for_and_value_short_circuits() {
    let tac = generate_tac(&checked("void main() { bool a = true; bool b = a && false; }"));
    assert_eq!(
        format_program(&tac),
        "main:\n  a := true\n  if_false a goto Label1:\n  if_false false goto Label1:\n  temp1 := true\n  goto Label2:\nLabel1::\n  temp1 := false\nLabel2::\n  b := temp1"
    );
}

#[test]
fn generated_code_for_calls_passes_params() {
    let tac = generate_tac(&checked("int f(int a, int b) { return a; } void main() { print(f(1, 2)); }"));
    assert_eq!(
        format_program(&tac),
        "f:\n  return a\nmain:\n  param 1\n  param 2\n  temp1 := call f, 2\n  param temp1\n  call print, 1"
    );
}

#[test]
fn generated_code_for_assert_and_tests() {
    let tac = generate_tac(&checked("test \"t 1\" { assert true; }"));
    assert_eq!(
        format_program(&tac),
        "test_t_1:\n  goto Label1:\nLabel2::\n  param \"assertion failed\"\n  call assert_fail, 1\nLabel1::"
    );
}

#[test]
fn format_instruction_writes_each_form() {
    let x = || Address::Variable("x".to_string(), Type::Int);
    let t = || Address::Temporary("temp1".to_string(), Type::Int);
    let k = |n| Address::Constant(Literal::Int(n), Type::Int);
    assert_eq!(format_instruction(&Instruction::Label("L1".to_string())), "L1:");
    assert_eq!(format_instruction(&Instruction::CopyAssignment(x(), k(-3))), "  x := -3");
    assert_eq!(format_instruction(&Instruction::UnaryAssignment(Operator::Neg, t(), x())), "  temp1 := - x");
    assert_eq!(format_instruction(&Instruction::BinaryAssignment(Operator::SL, t(), x(), k(2))), "  temp1 := x << 2");
    assert_eq!(format_instruction(&Instruction::ConditionalJMPFalse(x(), "L2".to_string())), "  if_false x goto L2");
    assert_eq!(format_instruction(&Instruction::Store(x(), k(0), t())), "  x[0] := temp1");
    assert_eq!(format_instruction(&Instruction::Load(t(), x(), k(1))), "  temp1 := x[1]");
    assert_eq!(format_instruction(&Instruction::Return(None)), "  return");
    assert_eq!(
        format_instruction(&Instruction::Param(Address::Constant(Literal::Str("a\"b".to_string()), Type::Str))),
        "  param \"a\\\"b\""
    );
    assert_eq!(format_program(&vec![]), "");
    let fl = |t: &str| format_instruction(&Instruction::Param(Address::Constant(Literal::Float(t.to_string()), Type::Float)));
    assert_eq!(fl("2.50"), "  param 2.5");
    assert_eq!(fl("3.0"), "  param 3");
    assert_eq!(fl(".5"), "  param 0.5");
    assert_eq!(fl("007.25"), "  param 7.25");
    assert_eq!(fl("0.0"), "  param 0");
    assert_eq!(fl("1e3"), "  param 1e3");
}

#[test]
fn linker_knows_the_native_functions() {
    let l = Linker::new();
    assert!(l.is_extern("print"));
    assert!(l.is_extern("strToFloat"));
    assert!(!l.is_extern("main"));
    assert!(!l.is_extern("Print"));
    assert_eq!(l.extern_names().len(), 11);
    assert_eq!(l.extern_names()[0], "print");
}

// ---- run-time environment ----

#[test]
fn environment_declare_get_set_take() {
    let mut env = Bindings::new();
    env.declare("x".to_string(), Value::Int(1));
    assert_eq!(env.get("x"), Some(&Value::Int(1)));
    assert!(env.set("x", Value::Int(2)));
    assert_eq!(env.get("x"), Some(&Value::Int(2)));
    assert!(!env.set("y", Value::Int(3)));
    assert_eq!(env.get("y"), None);
    env.declare("x".to_string(), Value::Bool(true));
    assert_eq!(env.get("x"), Some(&Value::Bool(true)));
    assert_eq!(env.names().len(), 1);
    assert_eq!(env.take("x"), Some(Value::Bool(true)));
    assert_eq!(env.get("x"), Some(&Value::Void));
    assert_eq!(env.take("z"), None);
}

#[test]
fn remove_new_drops_only_names_declared_since() {
    let mut env = Bindings::new();
    env.declare("a".to_string(), Value::Int(1));
    let outer = env.names();
    env.declare("b".to_string(), Value::Int(2));
    assert!(env.set("a", Value::Int(5)));
    env.remove_new(&outer);
    assert_eq!(env.get("a"), Some(&Value::Int(5)));
    assert_eq!(env.get("b"), None);
}

// ---- interpreter ----

#[test]
fn integer_arithmetic_results() {
    assert_eq!(
        printed("void main() { print(7 / 2); print(-7 / 2); print(3 * 4 - 1); print(-(2 + 3)); }").unwrap(),
        vec![Value::Int(3), Value::Int(-3), Value::Int(11), Value::Int(-5)]
    );
}

#[test]
fn division_by_zero_is_a_runtime_error() {
    assert_eq!(printed("void main() { int z = 0; print(1 / z); }").unwrap_err(), "division by zero");
}

#[test]
fn integer_overflow_is_a_runtime_error() {
    assert_eq!(
        printed("void main() { int big = 9223372036854775807; print(big + 1); }").unwrap_err(),
        "integer overflow"
    );
}

#[test]
fn comparisons_and_logic() {
    assert_eq!(
        printed("void main() { print(1 < 2); print(2 <= 1); print(!true); print(true || false); print(\"a\" == \"a\"); }").unwrap(),
        vec![Value::Bool(true), Value::Bool(false), Value::Bool(false), Value::Bool(true), Value::Bool(true)]
    );
}

#[test]
fn mixed_arithmetic_goes_through_floats() {
    assert_eq!(printed("void main() { print(2 + 1.5); }").unwrap(), vec![Value::Float(3.5f64.to_bits())]);
}

#[test]
fn recursion_and_loops_compute() {
    let src = "int fact(int n) { if n <= 1 { return 1; } return n * fact(n - 1); } \
               void main() { int i = 0; int s = 0; while i < 5 { i = i + 1; s = s + i; } print(s); print(fact(5)); }";
    assert_eq!(printed(src).unwrap(), vec![Value::Int(15), Value::Int(120)]);
}

#[test]
fn arrays_are_read_and_written() {
    let src = "void main() { int[] a = [1, 2, 3]; a[1] = 20; print(a[1]); print(a); }";
    assert_eq!(
        printed(src).unwrap(),
        vec![Value::Int(20), Value::Array(vec![Value::Int(1), Value::Int(20), Value::Int(3)])]
    );
}

#[test]
fn nested_arrays_are_written() {
    let src = "void main() { int[] r0 = [1, 2]; int[] r1 = [3, 4]; int[][] m = [r0, r1]; m[1][0] = 9; print(m[1]); }";
    assert_eq!(printed(src).unwrap(), vec![Value::Array(vec![Value::Int(9), Value::Int(4)])]);
}

#[test]
fn index_out_of_bounds_is_reported() {
    assert!(printed("void main() { int[] a = [1]; a[3] = 2; }").unwrap_err().contains("out of bounds"));
}

#[test]
fn a_call_does_not_change_the_callers_variables() {
    let src = "void g(int x) { x = 99; } void main() { int x = 1; g(x); print(x); }";
    assert_eq!(printed(src).unwrap(), vec![Value::Int(1)]);
}

#[test]
fn block_keeps_outer_assignments_and_drops_its_names() {
    let c = checked("void main() { int x = 1; { int y = 2; x = y; } }");
    let mut machine = match Interpreter::new(&c, Recorder { printed: Vec::new() }, 1000) {
        Ok(m) => m,
        Err(_) => panic!("no constants to fail"),
    };
    let mut env = machine.globals.duplicate();
    let body = match &c.functions[0].body.stmt {
        mini_c::ir::ast::Statement::Block { seq } => seq,
        _ => panic!("block body"),
    };
    for s in body {
        assert_eq!(machine.exec_stmt(s, &mut env).unwrap(), None);
    }
    assert_eq!(env.get("x"), Some(&Value::Int(2)));
    assert_eq!(env.get("y"), None);
}

#[test]
fn the_step_budget_stops_an_endless_loop() {
    let c = checked("void main() { while true { } }");
    let (r, _) = interpret(&c, Recorder { printed: Vec::new() }, 100);
    assert_eq!(r.unwrap_err().message, "step limit reached");
}

#[test]
fn aggregates_start_with_default_values() {
    let src = "struct P { int x; bool b; } union U { int i; str s; } enum C { Red; Green; } \
               void main() { struct P p = 0; print(p.x); p.x = 4; print(p.x); union U u = 7; print(u.i); enum C c = 1; print(c); }";
    let out = printed(src).unwrap();
    assert_eq!(out[0], Value::Int(0));
    assert_eq!(out[1], Value::Int(4));
    assert_eq!(out[2], Value::Int(7));
    assert_eq!(out[3], Value::Enum { identifier: "C".to_string(), value: 1 });
}

#[test]
fn run_tests_reports_each_test() {
    let c = checked("test \"ok\" { assert 1 == 1; } test \"bad\" { assert 1 == 2; }");
    let (r, _) = run_tests(&c, Recorder { printed: Vec::new() }, 1000);
    let outs = r.unwrap();
    assert_eq!(outs.len(), 2);
    assert_eq!(outs[0].name, "ok");
    assert!(outs[0].result.is_ok());
    assert_eq!(outs[1].result.as_ref().unwrap_err().message, "assertion failed");
}

#[test]
fn global_constants_are_visible_in_functions() {
    let src = "const int N = 6; int twice() { return N * 2; } void main() { print(twice()); }";
    assert_eq!(printed(src).unwrap(), vec![Value::Int(12)]);
}

#[test]
fn missing_main_fails_at_run_time() {
    let c = checked("test \"t\" { assert true; }");
    let (r, _) = interpret(&c, Recorder { printed: Vec::new() }, 10);
    assert_eq!(r.unwrap_err().message, "no 'main' function found");
}

// ---- standard library ----

#[test]
fn read_int_parses_the_trimmed_line() {
    assert_eq!(read_int_fn(&"  42 \n".to_string()), Ok(Value::Int(42)));
    assert_eq!(read_int_fn(&"-7\n".to_string()), Ok(Value::Int(-7)));
    assert!(read_int_fn(&"x\n".to_string()).is_err());
    assert_eq!(read_int_fn(&"".to_string()).unwrap_err().message, "readString: unexpected EOF");
}

#[test]
fn read_string_trims_the_line() {
    assert_eq!(read_string_fn(&"  hi there \n".to_string()), Ok(Value::Str("hi there".to_string())));
    assert!(read_string_fn(&"".to_string()).is_err());
}

#[test]
fn case_and_number_conversions() {
    assert_eq!(to_upper(vec![Value::Str("abC".to_string())]), Ok(Value::Str("ABC".to_string())));
    assert_eq!(to_lower(vec![Value::Str("AbC".to_string())]), Ok(Value::Str("abc".to_string())));
    assert!(to_upper(vec![Value::Int(1)]).is_err());
    assert_eq!(str_to_int(vec![Value::Str(" 12 ".to_string())]), Ok(Value::Int(12)));
    assert!(str_to_int(vec![Value::Str("1x".to_string())]).is_err());
    assert!(substr(vec![Value::Str("abc".to_string())]).is_err());
}

#[test]
fn register_then_lookup_gives_the_entry() {
    let mut r = NativeRegistry::new();
    r.register("f", NativeEntry { params: vec![Type::Int], return_type: Type::Int, func: NativeFn::StrToInt });
    r.register("g", NativeEntry { params: vec![], return_type: Type::Unit, func: NativeFn::Print });
    r.register("f", NativeEntry { params: vec![], return_type: Type::Str, func: NativeFn::ToUpper });
    assert_eq!(r.iter().len(), 2);
    let e = r.lookup("f").unwrap();
    assert_eq!(e.return_type, Type::Str);
    assert_eq!(e.func, NativeFn::ToUpper);
    assert_eq!(r.lookup("g").unwrap().func, NativeFn::Print);
    assert!(r.lookup("h").is_none());
}

#[test]
fn readme_type_errors() {
    let err = |src: &str| type_check(&program(src).unwrap().1).unwrap_err().message;
    assert_eq!(err("void main() {\n  int x = \"hello\"\n}"), "declaration of x: expected Int, got Str");
    assert_eq!(
        err("int double(int n) {\n  return n * 2\n}\n\nvoid main() {\n  int result = double(\"hello\")\n}"),
        "argument 1 to double: expected Int, got Str"
    );
    assert_eq!(err("void main() {\n  int x = 10;\n  int y = x + true\n}"), "arithmetic operands must be Int or Float");
    assert_eq!(err("def greet(str name) {\n  print(name)\n}"), "program must have a main function");
}

#[test]
fn messages_carry_their_counts_and_bounds() {
    let e = substr(vec![Value::Str("ab".to_string())]).unwrap_err();
    assert_eq!(e.message, "substr expects 3 arguments, got 1");
    let e = substr(vec![Value::Str("abc".to_string()), Value::Int(1), Value::Int(5)]).unwrap_err();
    assert_eq!(e.message, "substr: range out of bounds: [1..6) for len 3");
    let e = substr(vec![Value::Str("abc".to_string()), Value::Int(-2), Value::Int(1)]).unwrap_err();
    assert_eq!(e.message, "substr: start index out of bounds: -2");
    let e = to_upper(vec![]).unwrap_err();
    assert_eq!(e.message, "toUpper expects 1 argument, got 0");
    let e = str_to_int(vec![Value::Str(" x1 ".to_string())]).unwrap_err();
    assert_eq!(e.message, "strToInt: cannot convert ' x1 ' to int");
}

#[test]
fn test_summary_counts_failures() {
    let outs = vec![
        TestOutcome { name: "a".to_string(), result: Ok(()) },
        TestOutcome { name: "b".to_string(), result: Err(RuntimeError { message: "x".to_string() }) },
    ];
    let (line, verdict) = test_summary(&outs);
    assert_eq!(line, "1 / 2 tests passed");
    assert_eq!(verdict.unwrap_err().message, "1 test(s) failed");
}

#[test]
fn instruction_text_is_pseudo_code() {
    let x = || Address::Variable("x".to_string(), Type::Int);
    let t = || Address::Temporary("t1".to_string(), Type::Int);
    let b = Address::Variable("b".to_string(), Type::Bool);
    assert_eq!(Instruction::UnaryAssignment(Operator::Neg, t(), x()).to_text(), "t1 = -x");
    assert_eq!(Instruction::ConditionalJMPFalse(b, "L2".to_string()).to_text(), "if !b goto L2");
    assert_eq!(Instruction::Param(Address::Constant(Literal::Str("hi".to_string()), Type::Str)).to_text(), "param \"hi\"");
    assert_eq!(Instruction::BinaryAssignment(Operator::Add, t(), x(), x()).to_text(), "t1 = x + x");
    assert_eq!(Instruction::Call(Some(t()), "f".to_string(), 2).to_text(), "t1 = call f, 2");
    assert_eq!(Instruction::Label("Label1:".to_string()).to_text(), "Label1:");
    assert_eq!(Instruction::Return(Some(x())).to_text(), "return x");
    assert_eq!(Address::Constant(Literal::Bool(true), Type::Bool).to_text(), "true");
    assert_eq!(Operator::GTE.to_text(), ">=");
}


#[test]
fn nested_index_errors_name_the_index_and_length() {
    let e = printed("void main() { int[][] a = [[1], [2]]; a[0][5] = 1; }").unwrap_err();
    assert_eq!(e, "array index 5 out of bounds (len 1)");
    let e = printed("void main() { int[][] a = [[1], [2]]; a[7][0] = 1; }").unwrap_err();
    assert_eq!(e, "array index 7 out of bounds (len 2)");
}

#[test]
fn block_keeps_outer_assignments_and_drops_inner_names() {
    let out = printed("void main() { int x = 1; { int y = 2; x = x + y; } print(x); }").unwrap();
    assert_eq!(out, vec![Value::Int(3)]);
}

#[test]
fn while_runs_until_its_condition_fails() {
    let out = printed("void main() { int i = 0; int s = 0; while i < 4 { s = s + i; i = i + 1; } print(s); print(i); }").unwrap();
    assert_eq!(out, vec![Value::Int(6), Value::Int(4)]);
}

#[test]
fn type_check_accepts_a_typable_program() {
    let (_, p) = program("int f(int a, int b) { return a + b; } void main() { int x = f(1, 2); }").expect("parse");
    assert!(type_check(&p).is_ok());
    let (_, p) = program("void f(int a, int a) { } void main() { }").expect("parse");
    assert!(type_check(&p).is_err());
}

#[test]
fn type_definition_fails_only_where_no_type_stands() {
    let (rest, t) = mini_c::parser::type_definition("int[] x").unwrap();
    assert_eq!(rest, " x");
    assert_eq!(t, Type::Array(Box::new(Type::Int)));
    assert!(mini_c::parser::type_definition("structx").is_err());
    assert!(mini_c::parser::type_definition("  struct   Point").is_ok());
}
