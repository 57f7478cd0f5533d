use mia::ast::{Expr, Program, Statement};
use mia::number::Number;
use mia::object::Object;
use mia::pipeline::{evaluate, parse_source, run_source, RunError};
use mia::token::{Token, TokenType};
use mia::type_checker::TypeError;
use mia::vm::VmError;

fn run(source: &str) -> Result<Option<String>, RunError> {
    run_source(source, &mut Vec::new())
}

fn output(source: &str) -> String {
    run(source).unwrap().unwrap()
}

fn ident(name: &str) -> Token {
    Token::new(TokenType::Identifier, name.to_string(), 1, 1)
}

fn num(m: i64) -> Expr {
    Expr::Literal(Object::Num(Number::new(m, 0)))
}

fn text(s: &str) -> Expr {
    Expr::Literal(Object::String(s.to_string()))
}

#[test]
fn struct_fields_come_out_in_declared_order() {
    let source = "struct P { a: Number, b: String, c: Number }\npub let main = P { c: 3, a: 1, b: 'two' };";
    assert_eq!(output(source), "{\"a\":1,\"b\":\"two\",\"c\":3}");
}

#[test]
fn array_entries_keep_source_order() {
    assert_eq!(output("pub let main = [3, 1, 2];"), "[3,1,2]");
    assert_eq!(output("pub let main = ['z', 'a', 'm', 'b'];"), "[\"z\",\"a\",\"m\",\"b\"]");
}

#[test]
fn nested_aggregates_keep_order() {
    let source = "struct In { x: Number, list: Array<Number> }\npub let main = [In { list: [5, 6], x: 1 }, In { x: 2, list: [] }];";
    assert_eq!(output(source), "[{\"x\":1,\"list\":[5,6]},{\"x\":2,\"list\":[]}]");
}

#[test]
fn empty_array_and_struct() {
    assert_eq!(output("pub let main = [];"), "[]");
    assert_eq!(output("struct E { }\npub let main = E { };"), "{}");
}

#[test]
fn inner_binding_is_seen_inside_the_block() {
    let program = Program(vec![
        Statement::Variable(false, ident("x"), Some(num(1))),
        Statement::Block(vec![
            Statement::Variable(false, ident("x"), Some(text("inner"))),
            Statement::Variable(true, ident("main"), Some(Expr::Variable(ident("x")))),
        ]),
    ]);
    match evaluate(&program, &mut Vec::new()) {
        Ok(Some(Object::String(s))) => assert_eq!(s, "inner"),
        other => panic!("unexpected {:?}", other),
    }
}

#[test]
fn outer_binding_is_back_after_the_block() {
    let program = Program(vec![
        Statement::Variable(false, ident("x"), Some(num(1))),
        Statement::Block(vec![Statement::Variable(false, ident("x"), Some(text("inner")))]),
        Statement::Variable(true, ident("main"), Some(Expr::Variable(ident("x")))),
    ]);
    match evaluate(&program, &mut Vec::new()) {
        Ok(Some(Object::Num(n))) => assert_eq!((n.mantissa, n.scale), (1, 0)),
        other => panic!("unexpected {:?}", other),
    }
}

#[test]
fn block_declaration_is_unknown_after_the_block() {
    let program = Program(vec![
        Statement::Block(vec![Statement::Variable(false, ident("y"), Some(num(2)))]),
        Statement::Variable(true, ident("main"), Some(Expr::Variable(ident("y")))),
    ]);
    match evaluate(&program, &mut Vec::new()) {
        Err(RunError::Type(TypeError::Unresolved(name))) => assert_eq!(name, "y"),
        other => panic!("unexpected {:?}", other),
    }
}

#[test]
fn number_plus_text_is_a_type_error() {
    assert!(matches!(run("pub let main = 1 + 'a';"), Err(RunError::Type(TypeError::OperandMismatch(1)))));
    assert!(matches!(run("pub let main = 'a' + 1;"), Err(RunError::Type(TypeError::OperandMismatch(1)))));
}

#[test]
fn text_times_text_is_a_type_error() {
    assert!(matches!(run("pub let main = 'a' * 'b';"), Err(RunError::Type(TypeError::OperandMismatch(_)))));
}

#[test]
fn grouping_changes_nothing() {
    assert_eq!(output("pub let main = (1 + 2);"), output("pub let main = 1 + 2;"));
    assert_eq!(output("pub let main = ((('a')));"), "\"a\"");
    assert!(matches!(run("pub let main = (1 + 'a');"), Err(RunError::Type(TypeError::OperandMismatch(_)))));
}

#[test]
fn decimal_arithmetic_is_exact() {
    assert_eq!(output("pub let main = 1.5 + 2.25;"), "3.75");
    assert_eq!(output("pub let main = 0.1 + 0.2;"), "0.3");
    assert_eq!(output("pub let main = 2 * 3.5;"), "7");
    assert_eq!(output("pub let main = 1.25 * 1.25;"), "1.5625");
}

#[test]
fn text_concatenation_keeps_left_first() {
    assert_eq!(output("pub let main = 'ab' + 'cd';"), "\"abcd\"");
    assert_eq!(output("let a = 'x';\nlet b = 'y';\npub let main = b + a;"), "\"yx\"");
}

#[test]
fn call_binds_arguments_in_declaration_order() {
    let source = "fn join(a, b): String {\n  return a + b;\n}\npub let main = join('x', 'y');";
    assert_eq!(output(source), "\"xy\"");
}

#[test]
fn call_of_a_non_function_is_an_error() {
    assert!(matches!(run("let a = 1;\npub let main = a();"), Err(RunError::Type(TypeError::NotCallable))));
}

#[test]
fn free_variable_in_function_body_is_rejected() {
    let source = "let outer = 1;\nfn f(): Number {\n  return outer;\n}\npub let main = f();";
    assert!(matches!(run(source), Err(RunError::Compile(_))));
}

#[test]
fn program_without_entry_point_has_no_result() {
    assert!(matches!(run("let x = 1;"), Ok(None)));
    assert!(matches!(run(""), Ok(None)));
}

#[test]
fn unresolved_variable_is_reported() {
    match run("pub let main = y;") {
        Err(RunError::Type(TypeError::Unresolved(name))) => assert_eq!(name, "y"),
        other => panic!("unexpected {:?}", other),
    }
}

#[test]
fn field_type_mismatch_names_both_types() {
    match run("struct S { a: String }\npub let main = S {\n a: 1 };") {
        Err(RunError::Type(TypeError::FieldTypeMismatch(line, expected, found))) => {
            assert_eq!(line, 3);
            assert_eq!(expected, "String");
            assert_eq!(found, "Num");
        },
        other => panic!("unexpected {:?}", other),
    }
}

#[test]
fn missing_field_is_reported() {
    match run("struct S { a: String, b: String }\npub let main = S { a: 'x' };") {
        Err(RunError::Type(TypeError::MissingField(name))) => assert_eq!(name, "b"),
        other => panic!("unexpected {:?}", other),
    }
}

#[test]
fn struct_literal_of_a_non_struct_is_reported() {
    assert!(matches!(run("let S = 1;\npub let main = S { };"), Err(RunError::Parse(_)) | Err(RunError::Type(_))));
}

#[test]
fn null_values_fit_nullable_fields() {
    assert_eq!(output("struct S { a: String? }\npub let main = S { a: nil };"), "{\"a\":null}");
    assert_eq!(output("struct S { a: String? }\npub let main = S { a: 'v' };"), "{\"a\":\"v\"}");
    assert_eq!(output("pub let main = [nil, nil];"), "[null,null]");
}

#[test]
fn arrays_of_mixed_types_are_rejected() {
    assert!(matches!(run("pub let main = ['a', 1];"), Err(RunError::Type(TypeError::ArrayElementMismatch))));
    assert!(matches!(run("pub let main = [nil, 'a'];"), Err(RunError::Type(TypeError::ArrayElementMismatch))));
}

#[test]
fn number_overflow_fails_at_run_time() {
    assert!(matches!(
        run("pub let main = 9223372036854775807 + 1;"),
        Err(RunError::Runtime(VmError::NumberOverflow))
    ));
}

#[test]
fn syntax_errors_are_reported() {
    assert!(matches!(run("let = 1;"), Err(RunError::Parse(_))));
    assert!(matches!(run("pub let main = [1, 2;"), Err(RunError::Parse(_))));
    assert!(matches!(run("pub fn f() {}"), Err(RunError::Parse(_))));
}

#[test]
fn declaration_without_value_is_rejected() {
    assert!(matches!(run("let x;"), Err(RunError::Type(TypeError::MissingInitializer(_)))));
}

#[test]
fn comments_and_imports_are_ignored() {
    let source = "# a comment\nimport thing from 'lib';\npub let main = 4; # trailing";
    assert_eq!(output(source), "4");
}

#[test]
fn parse_source_builds_statements() {
    let program = parse_source("let a = 1;\nstruct S { x: Number }\nfn f() { return 1; }").unwrap();
    assert_eq!(program.0.len(), 3);
    assert!(matches!(program.0[0], Statement::Variable(false, _, Some(_))));
    assert!(matches!(program.0[1], Statement::Struct(false, _, _)));
    assert!(matches!(program.0[2], Statement::Fn(false, _, _, _, _)));
}

#[test]
fn named_struct_field_takes_only_the_same_type() {
    let source = "struct In { x: Number }\nstruct Out { inner: In }\npub let main = Out { inner: In { x: 1 } };";
    assert!(matches!(run(source), Err(RunError::Type(TypeError::FieldTypeMismatch(_, _, _)))));
}

#[test]
fn run_program_renders_the_result() {
    let program = parse_source("pub let main = ['a' + 'b', 'c'];").unwrap();
    assert_eq!(mia::pipeline::run_program(&program, &mut Vec::new()).unwrap().unwrap(), "[\"ab\",\"c\"]");
}

#[test]
fn undeclared_struct_field_is_rejected() {
    match run("struct S { }\npub let main = S { x: 1 };") {
        Err(RunError::Type(TypeError::UnknownField(name))) => assert_eq!(name, "x"),
        other => panic!("unexpected {:?}", other),
    }
    match run("struct S { a: Number }\npub let main = S { a: 1, b: 2 };") {
        Err(RunError::Type(e)) => assert_eq!(e.message(), "Struct has no field 'b'."),
        other => panic!("unexpected {:?}", other),
    }
}

#[test]
fn repeated_struct_field_is_rejected() {
    match run("struct S { a: Number }\npub let main = S { a: 1, a: 2 };") {
        Err(RunError::Type(TypeError::DuplicateField(name))) => assert_eq!(name, "a"),
        other => panic!("unexpected {:?}", other),
    }
}

#[test]
fn compiler_rejects_undeclared_field_too() {
    let program = parse_source("struct S { a: Number }\npub let main = S { a: 1, z: 2 };").unwrap();
    let mut chunk = mia::object::Chunk::init(false);
    match chunk.compile(&program.0) {
        Err(mia::bytecode::CompileError::UnknownField(name)) => assert_eq!(name, "z"),
        other => panic!("unexpected {:?}", other),
    }
}

#[test]
fn compiler_names_an_unresolved_variable() {
    let program = parse_source("pub let main = nowhere;").unwrap();
    let mut chunk = mia::object::Chunk::init(false);
    match chunk.compile(&program.0) {
        Err(mia::bytecode::CompileError::UnresolvedVariable(name)) => assert_eq!(name, "nowhere"),
        other => panic!("unexpected {:?}", other),
    }
}

#[test]
fn field_type_mismatch_message() {
    match run("struct S { a: String? }\npub let main = S { a: [1] };") {
        Err(RunError::Type(e)) => {
            assert!(matches!(e, TypeError::FieldTypeMismatch(2, _, _)));
            assert_eq!(e.message(), "Expected 'String?', got 'Array<Num>'");
        }
        other => panic!("unexpected {:?}", other),
    }
}

#[test]
fn calling_a_non_function_leaves_a_diagnostic() {
    let mut chunk = mia::object::Chunk::init(false);
    chunk.constants.push(Object::Num(Number::new(5, 0)));
    chunk.code = vec![
        mia::bytecode::Opcode::Constant(0),
        mia::bytecode::Opcode::Constant(0),
        mia::bytecode::Opcode::Call,
        mia::bytecode::Opcode::Return,
    ];
    let mut notes = Vec::new();
    let r = mia::vm::execute(chunk, &mut notes);
    assert!(matches!(r, Ok(Some(Object::Num(_)))));
    assert_eq!(notes, vec!["Could not execute 5".to_string()]);
}
