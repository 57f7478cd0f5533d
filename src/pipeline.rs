//! The stages in order: scan and parse, check, compile, run, format.
use vstd::prelude::*;
use crate::ast::Program;
use crate::ast::Statement;
use crate::bytecode::{
    added_code, emit_expr, emit_stmt, emit_stmts, entry_point_name, expr_value, lemma_expr_code_pushes_value,
    with_op, CodeGen, CompileError, Opcode,
};
use crate::compiler::{decl_names, strings_view};
use crate::formatter::{value_text, JsonFmt};
use crate::object::{Chunk, Object, ObjectView};
use crate::parser::{ParseError, Parser};
use crate::scanner::Scanner;
use crate::type_checker::{stmts_check, TypeChecker, TypeError, TypeErrorKind};
use crate::types::TypeView;
use crate::vm::{
    execute, lemma_run_ops_append, run_notes, lemma_run_single, program_agrees, program_result, run_ops, Outcome,
    VmError, MAX_CALL_DEPTH,
};

verus! {

/// The first failure of a run, by stage.
#[derive(Debug)]
pub enum RunError {
    Parse(ParseError),
    Type(TypeError),
    Compile(CompileError),
    Runtime(VmError),
}

/// The checker's scope before the first statement: one empty frame.
pub open spec fn initial_frames() -> Seq<Seq<(Seq<char>, TypeView)>> {
    seq![Seq::empty()]
}

/// The code generator's state before the first statement.
pub open spec fn initial_gen() -> CodeGen {
    CodeGen {
        code: Seq::empty(),
        consts: Seq::empty(),
        names: Seq::empty(),
        structs: Seq::empty(),
        depth: 0,
    }
}

/// A program of struct declarations followed by `pub let main = e;`.
pub open spec fn decls_then_main(body: Seq<Statement>) -> bool {
    &&& body.len() >= 1
    &&& forall|i: int| 0 <= i < body.len() - 1 ==> #[trigger] body[i] is Struct
    &&& body.last() is Variable
    &&& body.last()->Variable_0
    &&& body.last()->Variable_1.lexeme@ == entry_point_name()
    &&& body.last()->Variable_2 is Some
}

/// The structs that the first `k` statements declare.
pub open spec fn structs_declared(body: Seq<Statement>, k: nat) -> Seq<(Seq<char>, Seq<Seq<char>>)>
    decreases k,
{
    if k == 0 {
        Seq::empty()
    } else {
        structs_declared(body, (k - 1) as nat).push(
            (body[k - 1]->Struct_1.lexeme@, decl_names(body[k - 1]->Struct_2@)),
        )
    }
}

/// The code generator's state after the first `k` statements, all declarations.
pub open spec fn gen_after_decls(body: Seq<Statement>, k: nat) -> CodeGen {
    CodeGen {
        code: Seq::empty(),
        consts: Seq::empty(),
        names: Seq::empty(),
        structs: structs_declared(body, k),
        depth: 0,
    }
}

proof fn lemma_decls_emit(body: Seq<Statement>, k: nat)
    requires
        decls_then_main(body),
        k <= body.len() - 1,
    ensures
        emit_stmts(body, 0, initial_gen()) == emit_stmts(body, k, gen_after_decls(body, k)),
    decreases k,
{
    if k > 0 {
        lemma_decls_emit(body, (k - 1) as nat);
        assert(body[k - 1] is Struct);
        assert(emit_stmt(body[k - 1], gen_after_decls(body, (k - 1) as nat)) == Some(
            gen_after_decls(body, k),
        ));
    } else {
        assert(gen_after_decls(body, 0) == initial_gen());
    }
}

/// The entry point's value is the program's result: for a program of struct
/// declarations followed by `pub let main = e;` where `e` has a value, the compiled
/// program returns exactly that value. With `lemma_struct_literal_round_trip` and the
/// definition of `expr_value`, a struct literal's fields come out in declared order
/// and an array literal's entries in source order.
pub proof fn lemma_entry_point_result(body: Seq<Statement>)
    requires
        decls_then_main(body),
        emit_stmts(body, 0, initial_gen()) is Some,
        expr_value(
            body.last()->Variable_2->Some_0,
            Seq::empty(),
            structs_declared(body, (body.len() - 1) as nat),
            Seq::empty(),
        ) is Some,
    ensures
        ({
            let h = emit_stmts(body, 0, initial_gen())->Some_0;
            program_result(run_ops(h.code, h.consts, Seq::empty(), Seq::empty(), MAX_CALL_DEPTH as nat))
                == Ok::<Option<ObjectView>, VmError>(
                Some(
                    expr_value(
                        body.last()->Variable_2->Some_0,
                        Seq::empty(),
                        structs_declared(body, (body.len() - 1) as nat),
                        Seq::empty(),
                    )->Some_0,
                ),
            )
        }),
{
    let n = (body.len() - 1) as nat;
    lemma_decls_emit(body, n);
    let g = gen_after_decls(body, n);
    let e = body.last()->Variable_2->Some_0;
    let g2 = emit_expr(e, g)->Some_0;
    let h = with_op(g2, Opcode::Return);
    assert(body[n as int] == body.last());
    assert(emit_stmt(body[n as int], g) == Some(h));
    assert(emit_stmts(body, n + 1, h) == Some(h));
    let v = expr_value(e, g.names, g.structs, Seq::<Option<ObjectView>>::empty())->Some_0;
    assert(g2.consts.subrange(0, g2.consts.len() as int) =~= g2.consts);
    lemma_expr_code_pushes_value(e, g, Seq::empty(), h.consts, MAX_CALL_DEPTH as nat);
    let c = added_code(g, g2);
    assert(g2.code =~= c);
    assert(h.code =~= c + seq![Opcode::Return]);
    lemma_run_ops_append(c, seq![Opcode::Return], h.consts, Seq::empty(), Seq::empty(), MAX_CALL_DEPTH as nat);
    assert(run_ops(c, h.consts, Seq::empty(), Seq::<ObjectView>::empty(), MAX_CALL_DEPTH as nat)
        == Outcome::Running(Seq::empty(), Seq::<ObjectView>::empty().push(v)));
    lemma_run_single(Opcode::Return, h.consts, Seq::empty(), Seq::<ObjectView>::empty().push(v), MAX_CALL_DEPTH as nat);
}

/// The diagnostics that running `program` appends: those of the run when the program
/// checks and compiles, none otherwise.
pub open spec fn notes_of_run(program: Program, before: Seq<String>, after: Seq<String>) -> bool {
    if stmts_check(program.0@, 0, initial_frames()) is Ok && emit_stmts(program.0@, 0, initial_gen())
        is Some {
        let g = emit_stmts(program.0@, 0, initial_gen())->Some_0;
        strings_view(after) == strings_view(before) + run_notes(
            g.code,
            g.consts,
            Seq::empty(),
            Seq::empty(),
            MAX_CALL_DEPTH as nat,
        )
    } else {
        after == before
    }
}

/// `r` is what running `program` and rendering its result gives.
pub open spec fn rendered(program: Program, r: Result<Option<String>, RunError>) -> bool {
    &&& stmts_check(program.0@, 0, initial_frames()) is Err <==> (r is Err && r->Err_0 is Type)
    &&& stmts_check(program.0@, 0, initial_frames()) is Ok ==> (emit_stmts(
        program.0@,
        0,
        initial_gen(),
    ) is None <==> (r is Err && r->Err_0 is Compile))
    &&& stmts_check(program.0@, 0, initial_frames()) is Ok && emit_stmts(program.0@, 0, initial_gen())
        is Some ==> {
        let g = emit_stmts(program.0@, 0, initial_gen())->Some_0;
        let s = program_result(
            run_ops(g.code, g.consts, Seq::empty(), Seq::empty(), MAX_CALL_DEPTH as nat),
        );
        match r {
            Ok(Some(text)) => s is Ok && s->Ok_0 is Some && text@ == value_text(s->Ok_0->Some_0),
            Ok(None) => s == Ok::<Option<ObjectView>, VmError>(None),
            Err(RunError::Runtime(e)) => s == Err::<Option<ObjectView>, VmError>(e),
            Err(_) => false,
        }
    }
}

/// Scans and parses a source text.
pub fn parse_source(source: &str) -> (r: Result<Program, ParseError>)
    requires
        source@.len() < usize::MAX,
{
    let mut scanner = Scanner::init(source, false);
    let current = scanner.scan_token();
    let mut parser = Parser::init(scanner, false, current);
    parser.parse()
}

/// Checks, compiles and runs a program; its result is the value that the exported
/// entry point returns, or nothing when there is none.
pub fn evaluate(program: &Program, notes: &mut Vec<String>) -> (r: Result<Option<Object>, RunError>)
    ensures
        notes_of_run(*program, old(notes)@, final(notes)@),
        stmts_check(program.0@, 0, initial_frames()) is Err <==> (r is Err && r->Err_0 is Type),
        r is Err && r->Err_0 is Type ==> stmts_check(program.0@, 0, initial_frames()) == Err::<
            Seq<Seq<(Seq<char>, TypeView)>>,
            TypeErrorKind,
        >(r->Err_0->Type_0.kind()),
        stmts_check(program.0@, 0, initial_frames()) is Ok ==> (emit_stmts(
            program.0@,
            0,
            initial_gen(),
        ) is None <==> (r is Err && r->Err_0 is Compile)),
        stmts_check(program.0@, 0, initial_frames()) is Ok && emit_stmts(program.0@, 0, initial_gen())
            is Some ==> {
            let g = emit_stmts(program.0@, 0, initial_gen())->Some_0;
            let s = program_result(
                run_ops(g.code, g.consts, Seq::empty(), Seq::empty(), MAX_CALL_DEPTH as nat),
            );
            match r {
                Ok(v) => program_agrees(Ok(v), s),
                Err(RunError::Runtime(e)) => s == Err::<Option<ObjectView>, VmError>(e),
                Err(_) => false,
            }
        },
{
    let mut checker = TypeChecker::init(false);
    match checker.check(program) {
        Ok(()) => {},
        Err(e) => return Err(RunError::Type(e)),
    }
    let mut main = Chunk::init(false);
    match main.compile(&program.0) {
        Ok(()) => {},
        Err(e) => return Err(RunError::Compile(e)),
    }
    match execute(main, notes) {
        Ok(v) => Ok(v),
        Err(e) => Err(RunError::Runtime(e)),
    }
}

/// Runs a program and renders its result as text.
pub fn run_program(program: &Program, notes: &mut Vec<String>) -> (r: Result<Option<String>, RunError>)
    ensures
        rendered(*program, r),
        notes_of_run(*program, old(notes)@, final(notes)@),
{
    match evaluate(program, notes)? {
        Some(v) => {
            let formatter = JsonFmt::new();
            Ok(Some(formatter.format(&v)))
        },
        None => Ok(None),
    }
}

/// Parses a source text, then runs it as `run_program` does.
pub fn run_source(source: &str, notes: &mut Vec<String>) -> (r: Result<Option<String>, RunError>)
    requires
        source@.len() < usize::MAX,
    ensures
        (r is Err && r->Err_0 is Parse && final(notes)@ == old(notes)@) || exists|p: Program|
            rendered(p, r) && notes_of_run(p, old(notes)@, final(notes)@),
{
    let program = match parse_source(source) {
        Ok(p) => p,
        Err(e) => return Err(RunError::Parse(e)),
    };
    let r = run_program(&program, notes);
    assert(rendered(program, r) && notes_of_run(program, old(notes)@, notes@));
    r
}

} // verus!
