use mia::ast::{Expr, Field};
use mia::bytecode::Opcode;
use mia::compiler::Compiler;
use mia::formatter::JsonFmt;
use mia::number::Number;
use mia::object::{Chunk, Object};
use mia::scanner::Scanner;
use mia::token::{Token, TokenType};
use mia::type_checker::{op_compatible, TypeChecker, TypeError};
use mia::types::{BuiltinType, FieldDeclaration, QualifiedName, Type};
use mia::vm::{execute, VmError};

fn tok(kind: TokenType, s: &str) -> Token {
    Token::new(kind, s.to_string(), 1, 1)
}

fn tokens(source: &str) -> Vec<(TokenType, String)> {
    let mut scanner = Scanner::init(source, false);
    let mut out = vec![];
    loop {
        let t = scanner.scan_token();
        let kind = t.kind;
        out.push((kind, t.lexeme));
        if kind == TokenType::Eof {
            return out;
        }
    }
}

#[test]
fn scanner_splits_a_declaration() {
    let toks = tokens("pub let main = Config { opt: 41.82 };");
    let kinds: Vec<TokenType> = toks.iter().map(|t| t.0).collect();
    assert_eq!(
        kinds,
        vec![
            TokenType::Pub,
            TokenType::Let,
            TokenType::Identifier,
            TokenType::Equal,
            TokenType::KIdentifier,
            TokenType::LeftBrace,
            TokenType::Identifier,
            TokenType::Colon,
            TokenType::Number,
            TokenType::RightBrace,
            TokenType::Semicolon,
            TokenType::Eof,
        ]
    );
    assert_eq!(toks[2].1, "main");
    assert_eq!(toks[4].1, "Config");
    assert_eq!(toks[8].1, "41.82");
}

#[test]
fn scanner_knows_keywords() {
    let toks = tokens("fn return nil import from struct for in if letter _x");
    let kinds: Vec<TokenType> = toks.iter().map(|t| t.0).collect();
    assert_eq!(
        kinds,
        vec![
            TokenType::Fn,
            TokenType::Return,
            TokenType::Nil,
            TokenType::Import,
            TokenType::From,
            TokenType::Struct,
            TokenType::For,
            TokenType::In,
            TokenType::If,
            TokenType::Identifier,
            TokenType::Identifier,
            TokenType::Eof,
        ]
    );
}

#[test]
fn scanner_skips_comments_and_counts_lines() {
    let mut scanner = Scanner::init("# first\n\n  'a b' # end", false);
    let t = scanner.scan_token();
    assert_eq!(t.kind, TokenType::String);
    assert_eq!(t.lexeme, "'a b'");
    assert_eq!(t.line, 3);
    assert_eq!(scanner.scan_token().kind, TokenType::Eof);
}

#[test]
fn scanner_reports_bad_input() {
    let mut scanner = Scanner::init("'open", false);
    let t = scanner.scan_token();
    assert_eq!(t.kind, TokenType::Error);
    assert_eq!(t.lexeme, "Unterminated string.");
    let mut scanner = Scanner::init("@", false);
    let t = scanner.scan_token();
    assert_eq!(t.kind, TokenType::Error);
    assert_eq!(t.lexeme, "Unexpected character.");
}

#[test]
fn scanner_number_stops_before_a_bare_point() {
    let toks = tokens("12.5 7.x");
    assert_eq!(toks[0], (TokenType::Number, "12.5".to_string()));
    assert_eq!(toks[1], (TokenType::Number, "7".to_string()));
    assert_eq!(toks[2], (TokenType::Dot, ".".to_string()));
    assert_eq!(toks[3], (TokenType::Identifier, "x".to_string()));
}

#[test]
fn number_literals_parse_exactly() {
    let n = Number::parse_literal("41.82").unwrap();
    assert_eq!((n.mantissa, n.scale), (4182, 2));
    let n = Number::parse_literal("007").unwrap();
    assert_eq!((n.mantissa, n.scale), (7, 0));
    assert!(Number::parse_literal("1.").is_none());
    assert!(Number::parse_literal(".5").is_none());
    assert!(Number::parse_literal("1.2.3").is_none());
    assert!(Number::parse_literal("12a").is_none());
    assert!(Number::parse_literal("").is_none());
    assert!(Number::parse_literal("99999999999999999999").is_none());
}

#[test]
fn number_sum_and_product() {
    let a = Number::new(15, 1);
    let b = Number::new(225, 2);
    let s = a.checked_add(b).unwrap();
    assert_eq!((s.mantissa, s.scale), (375, 2));
    let p = a.checked_mul(b).unwrap();
    assert_eq!((p.mantissa, p.scale), (3375, 3));
    assert!(Number::new(i64::MAX, 0).checked_add(Number::new(1, 0)).is_none());
    assert!(Number::new(i64::MAX, 0).checked_mul(Number::new(2, 0)).is_none());
}

#[test]
fn numbers_format_in_shortest_form() {
    let f = JsonFmt::new();
    assert_eq!(f.format_number(Number::new(4182, 2)), "41.82");
    assert_eq!(f.format_number(Number::new(5, 1)), "0.5");
    assert_eq!(f.format_number(Number::new(4100, 3)), "4.1");
    assert_eq!(f.format_number(Number::new(700, 2)), "7");
    assert_eq!(f.format_number(Number::new(100, 0)), "100");
    assert_eq!(f.format_number(Number::new(-25, 1)), "-2.5");
    assert_eq!(f.format_number(Number::new(0, 3)), "0");
    assert_eq!(f.format_number(Number::new(i64::MIN, 0)), "-9223372036854775808");
}

#[test]
fn values_format_as_json() {
    let f = JsonFmt::new();
    let v = Object::Struct(vec![
        (QualifiedName("a".to_string()), Object::Array(vec![Object::Nil, Object::String("s".to_string())])),
        (QualifiedName("b".to_string()), Object::Num(Number::new(1, 0))),
    ]);
    assert_eq!(f.format(&v), "{\"a\":[null,\"s\"],\"b\":1}");
    assert_eq!(f.format(&Object::Array(vec![])), "[]");
    let chunk = Chunk::init(false);
    let func = Object::Function(0, "go".to_string(), chunk, Type::Infer);
    assert_eq!(f.format(&func), "<fn go>");
}

#[test]
fn type_names_map_to_builtins() {
    assert!(matches!(Type::explicit(QualifiedName("Number".to_string())), Type::Builtin(BuiltinType::Num)));
    assert!(matches!(Type::explicit(QualifiedName("String".to_string())), Type::Builtin(BuiltinType::String)));
    assert!(matches!(Type::explicit(QualifiedName("Array".to_string())), Type::Builtin(BuiltinType::Array)));
    match Type::explicit(QualifiedName("User".to_string())) {
        Type::Explicit(q) => assert_eq!(q.0, "User"),
        _ => panic!("expected a named type"),
    }
}

#[test]
fn types_print_as_written() {
    let t = Type::Nullable(Box::new(Type::Nested(
        Box::new(Type::Builtin(BuiltinType::Array)),
        Box::new(Type::Builtin(BuiltinType::String)),
    )));
    assert_eq!(t.print(), "Array<String>?");
    let s = Type::Struct(vec![
        FieldDeclaration(QualifiedName("a".to_string()), Type::Builtin(BuiltinType::Num)),
        FieldDeclaration(QualifiedName("b".to_string()), Type::Infer),
    ]);
    assert_eq!(s.print(), "(a:Num,b:_,)");
    assert_eq!(Type::Fn(Box::new(Type::Builtin(BuiltinType::Unit))).print(), "(): Unit");
    assert_eq!(BuiltinType::Array.print(), "Array");
}

#[test]
fn compatibility_of_types() {
    let num = Type::Builtin(BuiltinType::Num);
    let text = Type::Builtin(BuiltinType::String);
    let opt_num = Type::Nullable(Box::new(Type::Builtin(BuiltinType::Num)));
    assert!(num.can_be_inferred_from(&Type::Builtin(BuiltinType::Num)));
    assert!(!num.can_be_inferred_from(&text));
    assert!(opt_num.can_be_inferred_from(&num));
    assert!(opt_num.can_be_inferred_from(&Type::Nullable(Box::new(Type::Infer))));
    assert!(!num.can_be_inferred_from(&opt_num));
    assert!(Type::Infer.can_be_inferred_from(&text));
    assert!(text.can_be_inferred_from(&Type::Infer));
    let arr = |t: Type| Type::Nested(Box::new(Type::Builtin(BuiltinType::Array)), Box::new(t));
    assert!(arr(Type::Nullable(Box::new(Type::Builtin(BuiltinType::Num)))).can_be_inferred_from(&arr(num)));
    assert!(!arr(Type::Builtin(BuiltinType::Num)).can_be_inferred_from(&arr(text)));
    assert!(!Type::Explicit(QualifiedName("A".to_string())).can_be_inferred_from(&Type::Explicit(QualifiedName("B".to_string()))));
}

#[test]
fn operators_take_their_operand_types() {
    let num = Type::Builtin(BuiltinType::Num);
    let text = Type::Builtin(BuiltinType::String);
    assert!(op_compatible(&tok(TokenType::Plus, "+"), &num, &num));
    assert!(op_compatible(&tok(TokenType::Plus, "+"), &text, &text));
    assert!(!op_compatible(&tok(TokenType::Plus, "+"), &num, &text));
    assert!(!op_compatible(&tok(TokenType::Star, "*"), &text, &text));
    assert!(op_compatible(&tok(TokenType::Slash, "/"), &num, &num));
    assert!(!op_compatible(&tok(TokenType::Equal, "="), &num, &num));
}

#[test]
fn checker_rejects_number_plus_text() {
    let checker = TypeChecker::init(false);
    let e = Expr::Binary(
        Box::new(Expr::Literal(Object::Num(Number::new(1, 0)))),
        Token::new(TokenType::Plus, "+".to_string(), 4, 1),
        Box::new(Expr::Literal(Object::String("a".to_string()))),
    );
    assert!(matches!(checker.check_expression(&e), Err(TypeError::OperandMismatch(4))));
    let g = Expr::Grouping(Box::new(Expr::Literal(Object::String("a".to_string()))));
    assert!(matches!(checker.check_expression(&g), Ok(Type::Builtin(BuiltinType::String))));
}

#[test]
fn newest_local_wins_and_blocks_forget_theirs() {
    let mut c = Compiler::init(false);
    let x = tok(TokenType::Identifier, "x");
    let y = tok(TokenType::Identifier, "y");
    assert_eq!(c.add_variable(&x), 0);
    assert_eq!(c.resolve_variable(&x), Some(0));
    c.begin_scope();
    assert_eq!(c.add_variable(&y), 1);
    assert_eq!(c.add_variable(&x), 2);
    assert_eq!(c.resolve_variable(&x), Some(2));
    c.end_scope();
    assert_eq!(c.resolve_variable(&x), Some(0));
    assert_eq!(c.resolve_variable(&y), None);
}

#[test]
fn machine_builds_struct_in_declared_order() {
    let mut chunk = Chunk::init(false);
    chunk.constants.push(Object::Num(Number::new(2, 0)));
    chunk.constants.push(Object::String("b".to_string()));
    chunk.constants.push(Object::Num(Number::new(1, 0)));
    chunk.constants.push(Object::String("a".to_string()));
    chunk.code = vec![
        Opcode::Constant(0),
        Opcode::Constant(1),
        Opcode::Constant(2),
        Opcode::Constant(3),
        Opcode::Struct(2),
        Opcode::Return,
    ];
    let v = execute(chunk, &mut Vec::new()).unwrap().unwrap();
    assert_eq!(JsonFmt::new().format(&v), "{\"a\":1,\"b\":2}");
}

#[test]
fn machine_builds_array_in_source_order() {
    let mut chunk = Chunk::init(false);
    chunk.constants.push(Object::Num(Number::new(3, 0)));
    chunk.constants.push(Object::Num(Number::new(2, 0)));
    chunk.constants.push(Object::Num(Number::new(1, 0)));
    chunk.code = vec![Opcode::Constant(0), Opcode::Constant(1), Opcode::Constant(2), Opcode::Array(3), Opcode::Return];
    let v = execute(chunk, &mut Vec::new()).unwrap().unwrap();
    assert_eq!(JsonFmt::new().format(&v), "[1,2,3]");
}

#[test]
fn machine_reports_broken_code() {
    let mut chunk = Chunk::init(false);
    chunk.code = vec![Opcode::Pop];
    assert!(matches!(execute(chunk, &mut Vec::new()), Err(VmError::StackUnderflow)));
    let mut chunk = Chunk::init(false);
    chunk.code = vec![Opcode::Load(3), Opcode::Return];
    assert!(matches!(execute(chunk, &mut Vec::new()), Err(VmError::BadSlot)));
    let mut chunk = Chunk::init(false);
    chunk.code = vec![Opcode::Constant(0)];
    assert!(matches!(execute(chunk, &mut Vec::new()), Err(VmError::BadConstant)));
    let mut chunk = Chunk::init(false);
    chunk.constants.push(Object::Num(Number::new(1, 0)));
    chunk.code = vec![Opcode::Constant(0), Opcode::Constant(0), Opcode::Struct(1)];
    assert!(matches!(execute(chunk, &mut Vec::new()), Err(VmError::BadOperands)));
}

#[test]
fn machine_store_past_the_end_leaves_unset_slots() {
    let mut chunk = Chunk::init(false);
    chunk.constants.push(Object::Num(Number::new(9, 0)));
    chunk.code = vec![Opcode::Constant(0), Opcode::Store(2), Opcode::Load(0), Opcode::Return];
    assert!(matches!(execute(chunk, &mut Vec::new()), Err(VmError::BadSlot)));
    let mut chunk = Chunk::init(false);
    chunk.constants.push(Object::Num(Number::new(9, 0)));
    chunk.code = vec![Opcode::Constant(0), Opcode::Store(2), Opcode::Load(2), Opcode::Return];
    match execute(chunk, &mut Vec::new()) {
        Ok(Some(Object::Num(n))) => assert_eq!(n.mantissa, 9),
        other => panic!("unexpected {:?}", other),
    }
}

#[test]
fn machine_call_of_non_function_is_skipped() {
    let mut chunk = Chunk::init(false);
    chunk.constants.push(Object::Num(Number::new(5, 0)));
    chunk.code = vec![Opcode::Constant(0), Opcode::Constant(0), Opcode::Call, Opcode::Return];
    match execute(chunk, &mut Vec::new()) {
        Ok(Some(Object::Num(n))) => assert_eq!(n.mantissa, 5),
        other => panic!("unexpected {:?}", other),
    }
}

#[test]
fn checker_resolves_struct_literal_fields() {
    let mut checker = TypeChecker::init(false);
    let decl = mia::ast::Statement::Struct(
        false,
        tok(TokenType::KIdentifier, "P"),
        vec![FieldDeclaration(QualifiedName("a".to_string()), Type::Builtin(BuiltinType::Num))],
    );
    assert!(checker.check_statement(&decl).is_ok());
    let lit = Expr::Struct(
        tok(TokenType::KIdentifier, "P"),
        vec![Field(tok(TokenType::Identifier, "a"), Expr::Literal(Object::Num(Number::new(1, 0))))],
    );
    assert!(matches!(checker.check_expression(&lit), Ok(Type::Struct(_))));
}

#[test]
fn text_of_copies_a_range() {
    let chars = vec!['a', 'b', 'c', 'd'];
    assert_eq!(mia::scanner::text_of(&chars, 1, 3), "bc");
    assert_eq!(mia::scanner::text_of(&chars, 2, 2), "");
}

#[test]
fn frame_and_machine_run_a_chunk() {
    let mut chunk = Chunk::init(false);
    chunk.constants.push(Object::String("left".to_string()));
    chunk.constants.push(Object::String("right".to_string()));
    chunk.code = vec![Opcode::Constant(1), Opcode::Constant(0), Opcode::Add, Opcode::Return];
    let mut vm = mia::vm::VM::init(chunk, false);
    match vm.run() {
        Ok(Some(Object::String(s))) => assert_eq!(s, "leftright"),
        other => panic!("unexpected {:?}", other),
    }
    let mut chunk = Chunk::init(false);
    chunk.code = vec![Opcode::Nil];
    let mut frame = mia::vm::Frame::init(chunk, false);
    assert!(matches!(frame.run(), Err(VmError::NoReturn)));
}

#[test]
fn empty_scope_finds_nothing() {
    let scope = mia::type_checker::Scope::new();
    assert!(scope.find(&tok(TokenType::Identifier, "x")).is_none());
}

#[test]
fn compiled_chunk_holds_reversed_operands() {
    let program = mia::pipeline::parse_source("pub let main = [1, 2];").unwrap();
    let mut chunk = Chunk::init(false);
    chunk.compile(&program.0).unwrap();
    assert_eq!(chunk.code, vec![Opcode::Constant(0), Opcode::Constant(1), Opcode::Array(2), Opcode::Return]);
    match (&chunk.constants[0], &chunk.constants[1]) {
        (Object::Num(a), Object::Num(b)) => assert_eq!((a.mantissa, b.mantissa), (2, 1)),
        _ => panic!("expected numbers"),
    }
}

#[test]
fn scanner_skips_unicode_white_space() {
    let toks = tokens("\u{a0}x\u{3000}\ty");
    assert_eq!(toks[0], (TokenType::Identifier, "x".to_string()));
    assert_eq!(toks[1], (TokenType::Identifier, "y".to_string()));
    assert_eq!(toks[2].0, TokenType::Eof);
}

#[test]
fn scanner_reports_the_line_after_blanks_and_comments() {
    let mut scanner = Scanner::init("  # c\n'ab' x", false);
    let t = scanner.scan_token();
    assert_eq!(t.kind, TokenType::String);
    assert_eq!(t.lexeme, "'ab'");
    assert_eq!(t.line, 2);
    let t = scanner.scan_token();
    assert_eq!(t.kind, TokenType::Identifier);
    assert_eq!(t.lexeme, "x");
}

#[test]
fn struct_named_and_function_types_take_only_themselves() {
    let f = Type::Fn(Box::new(Type::Builtin(BuiltinType::Num)));
    assert!(!f.can_be_inferred_from(&Type::Infer));
    assert!(f.can_be_inferred_from(&Type::Fn(Box::new(Type::Builtin(BuiltinType::Num)))));
    let e = Type::Explicit(QualifiedName("User".to_string()));
    assert!(!e.can_be_inferred_from(&Type::Infer));
    assert!(e.can_be_inferred_from(&Type::Explicit(QualifiedName("User".to_string()))));
    let s = Type::Struct(vec![FieldDeclaration(QualifiedName("a".to_string()), Type::Infer)]);
    assert!(!s.can_be_inferred_from(&Type::Infer));
    let opt_user = Type::Nullable(Box::new(Type::Explicit(QualifiedName("User".to_string()))));
    assert!(!opt_user.can_be_inferred_from(&Type::Nullable(Box::new(Type::Infer))));
    let opt_text = Type::Nullable(Box::new(Type::Builtin(BuiltinType::String)));
    assert!(opt_text.can_be_inferred_from(&Type::Nullable(Box::new(Type::Infer))));
}
