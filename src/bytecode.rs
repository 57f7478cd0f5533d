//! The instruction set of the virtual machine, and the code generator that emits it.
use vstd::prelude::*;
use crate::ast::{field_position, find_undeclared, first_field, undeclared_field, Expr, Field, Statement};
use crate::compiler::{
    decl_names, kept_after_block, lemma_kept_after_block, resolve, struct_field_names, Compiler,
};
use crate::object::{lemma_objects_view_push, objects_view, Chunk, ChunkView, Object, ObjectView};
use crate::token::{Token, TokenType};

verus! {

/// One instruction. Operands are slots, constant-pool indices or counts.
#[derive(Clone, Copy, Debug, PartialEq, Eq, Structural)]
pub enum Opcode {
    /// Drops the top of the stack.
    Pop,
    /// Pushes the null value.
    Nil,
    /// From the locals to the stack.
    Load(u8),
    /// From the stack to the locals.
    Store(u8),
    /// Pushes an entry of the constant pool.
    Constant(u32),
    /// Pops that many (name, value) pairs and pushes a struct of them.
    Struct(u32),
    /// Pops that many values and pushes an array of them.
    Array(u32),
    /// Pops the callee, then as many arguments as it takes, and pushes what the call
    /// returns. The arguments were pushed in source order and bind to the parameters
    /// in that order: the first argument to the first parameter. Calling a value that
    /// is not a function only drops it.
    Call,
    Add,
    Multiply,
    Return,
}

/// Why code generation stopped.
#[derive(Debug)]
pub enum CompileError {
    /// A variable that no declaration before it introduces.
    UnresolvedVariable(String),
    /// A struct literal of a struct that was not declared.
    UnknownStruct(String),
    /// A declared field missing from a struct literal.
    MissingField(String),
    /// A field of a struct literal that the struct does not declare.
    UnknownField(String),
    /// An operator without an instruction; the operator's line.
    UnsupportedOperator(usize),
    /// More locals than a slot operand can address.
    TooManyLocals,
    /// More constants than a constant operand can address.
    TooManyConstants,
    /// Blocks nested deeper than the table can count.
    TooDeep,
}

/// The state of code generation for one chunk: instructions and constants so far,
/// the names of the locals by slot, the declared structs, and the block depth.
pub struct CodeGen {
    pub code: Seq<Opcode>,
    pub consts: Seq<ObjectView>,
    pub names: Seq<Seq<char>>,
    pub structs: Seq<(Seq<char>, Seq<Seq<char>>)>,
    pub depth: nat,
}

/// Number of local slots an instruction can address.
pub const SLOT_COUNT: usize = 256;

pub open spec fn with_op(g: CodeGen, op: Opcode) -> CodeGen {
    CodeGen { code: g.code.push(op), ..g }
}

/// Adds `v` to the constant pool and pushes it.
pub open spec fn push_const(g: CodeGen, v: ObjectView) -> Option<CodeGen> {
    if g.consts.len() > u32::MAX {
        None
    } else {
        Some(
            CodeGen {
                code: g.code.push(Opcode::Constant(g.consts.len() as u32)),
                consts: g.consts.push(v),
                ..g
            },
        )
    }
}

/// Names of a function's parameters, which take the first slots of its body.
pub open spec fn token_names(t: Seq<Token>) -> Seq<Seq<char>> {
    Seq::new(t.len(), |i: int| t[i].lexeme@)
}

/// Code for an expression: it leaves the expression's value on the stack.
pub open spec fn emit_expr(e: Expr, g: CodeGen) -> Option<CodeGen>
    decreases e, 0nat,
{
    match e {
        Expr::Call(target, args) => match emit_args(args@, 0, g) {
            Some(g1) => match emit_expr(*target, g1) {
                Some(g2) => Some(with_op(g2, Opcode::Call)),
                None => None,
            },
            None => None,
        },
        Expr::Binary(left, op, right) => match emit_expr(*right, g) {
            Some(g1) => match emit_expr(*left, g1) {
                Some(g2) => match op.kind {
                    TokenType::Plus => Some(with_op(g2, Opcode::Add)),
                    TokenType::Star => Some(with_op(g2, Opcode::Multiply)),
                    _ => None,
                },
                None => None,
            },
            None => None,
        },
        Expr::Struct(name, fields) => match struct_field_names(g.structs, name.lexeme@) {
            Some(d) => if d.len() > u32::MAX || undeclared_field(d, fields@, 0) is Some {
                None
            } else {
                match emit_fields(d, d.len(), fields@, g) {
                    Some(g1) => Some(with_op(g1, Opcode::Struct(d.len() as u32))),
                    None => None,
                }
            },
            None => None,
        },
        Expr::Grouping(inner) => emit_expr(*inner, g),
        Expr::Array(entries) => if entries@.len() > u32::MAX {
            None
        } else {
            match emit_entries(entries@, entries@.len(), g) {
                Some(g1) => Some(with_op(g1, Opcode::Array(entries@.len() as u32))),
                None => None,
            }
        },
        Expr::Literal(o) => push_const(g, o@),
        Expr::Variable(name) => match resolve(g.names, name.lexeme@) {
            Some(slot) => if slot < SLOT_COUNT {
                Some(with_op(g, Opcode::Load(slot as u8)))
            } else {
                None
            },
            None => None,
        },
    }
}

/// Code for call arguments `args[i..]`, in source order.
pub open spec fn emit_args(args: Seq<Expr>, i: nat, g: CodeGen) -> Option<CodeGen>
    decreases args, args.len() - i,
{
    if i >= args.len() {
        Some(g)
    } else {
        match emit_expr(args[i as int], g) {
            Some(g1) => emit_args(args, i + 1, g1),
            None => None,
        }
    }
}

/// Code for array entries `entries[..k]`, the last one first, so that popping
/// them gives source order.
pub open spec fn emit_entries(entries: Seq<Expr>, k: nat, g: CodeGen) -> Option<CodeGen>
    decreases entries, k,
{
    if k == 0 {
        Some(g)
    } else if k > entries.len() {
        None
    } else {
        match emit_expr(entries[k - 1], g) {
            Some(g1) => emit_entries(entries, (k - 1) as nat, g1),
            None => None,
        }
    }
}

/// Code for the declared fields `declared[..k]` of a struct literal, the last one
/// first: each field's value, then its name.
pub open spec fn emit_fields(
    declared: Seq<Seq<char>>,
    k: nat,
    fields: Seq<Field>,
    g: CodeGen,
) -> Option<CodeGen>
    decreases fields, k,
{
    if k == 0 {
        Some(g)
    } else {
        match first_field(fields, declared[k - 1], 0) {
            Some(i) => if i < fields.len() {
                match emit_expr(fields[i as int].1, g) {
                    Some(g1) => match push_const(g1, ObjectView::Text(declared[k - 1])) {
                        Some(g2) => emit_fields(declared, (k - 1) as nat, fields, g2),
                        None => None,
                    },
                    None => None,
                }
            } else {
                None
            },
            None => None,
        }
    }
}

/// The name of the exported declaration whose value the program returns.
pub open spec fn entry_point_name() -> Seq<char> {
    "main"@
}

/// Code for a statement.
pub open spec fn emit_stmt(s: Statement, g: CodeGen) -> Option<CodeGen>
    decreases s, 0nat,
{
    match s {
        Statement::Variable(exported, name, init) => {
            let value = match init {
                Some(e) => emit_expr(e, g),
                None => Some(with_op(g, Opcode::Nil)),
            };
            match value {
                Some(g1) => if exported && name.lexeme@ == entry_point_name() {
                    Some(with_op(g1, Opcode::Return))
                } else if g1.names.len() < SLOT_COUNT {
                    Some(
                        CodeGen {
                            code: g1.code.push(Opcode::Store(g1.names.len() as u8)),
                            names: g1.names.push(name.lexeme@),
                            ..g1
                        },
                    )
                } else {
                    None
                },
                None => None,
            }
        },
        Statement::Return(e) => match emit_expr(e, g) {
            Some(g1) => Some(with_op(g1, Opcode::Return)),
            None => None,
        },
        Statement::Expr(e) => match emit_expr(e, g) {
            Some(g1) => Some(with_op(g1, Opcode::Pop)),
            None => None,
        },
        Statement::Struct(_, name, decls) => Some(
            CodeGen { structs: g.structs.push((name.lexeme@, decl_names(decls@))), ..g },
        ),
        Statement::Fn(_, name, params, ret, body) => if params.len() >= SLOT_COUNT || g.names.len()
            >= SLOT_COUNT {
            None
        } else {
            let start = CodeGen {
                code: Seq::empty(),
                consts: Seq::empty(),
                names: token_names(params@),
                structs: g.structs,
                depth: 0,
            };
            match emit_stmts(body@, 0, start) {
                Some(b) => {
                    let f = ObjectView::Function(
                        params.len() as nat,
                        name.lexeme@,
                        ChunkView { code: b.code, constants: b.consts },
                        ret@,
                    );
                    match push_const(g, f) {
                        Some(g1) => Some(
                            CodeGen {
                                code: g1.code.push(Opcode::Store(g.names.len() as u8)),
                                names: g1.names.push(name.lexeme@),
                                ..g1
                            },
                        ),
                        None => None,
                    }
                },
                None => None,
            }
        },
        Statement::Block(body) => if g.depth >= usize::MAX {
            None
        } else {
            match emit_stmts(body@, 0, CodeGen { depth: g.depth + 1, ..g }) {
                Some(g1) => Some(CodeGen { names: g.names, depth: g.depth, ..g1 }),
                None => None,
            }
        },
        Statement::Import(_, _) | Statement::For(_, _, _) => Some(g),
    }
}

/// Code for `body[i..]`, statement after statement.
pub open spec fn emit_stmts(body: Seq<Statement>, i: nat, g: CodeGen) -> Option<CodeGen>
    decreases body, body.len() - i,
{
    if i >= body.len() {
        Some(g)
    } else {
        match emit_stmt(body[i as int], g) {
            Some(g1) => emit_stmts(body, i + 1, g1),
            None => None,
        }
    }
}

/// A block's locals end with it: after the block the slot table is the one from
/// before, so every name resolves to the slot it had before the block.
pub proof fn lemma_block_restores_slots(body: Vec<Statement>, g: CodeGen)
    requires
        emit_stmt(Statement::Block(body), g) is Some,
    ensures
        emit_stmt(Statement::Block(body), g)->Some_0.names == g.names,
        forall|name: Seq<char>|
            resolve(emit_stmt(Statement::Block(body), g)->Some_0.names, name) == #[trigger] resolve(
                g.names,
                name,
            ),
{
}

/// Compiling a function declaration adds only the function's own name to the
/// enclosing table: its parameters and body live in the function's own chunk, so
/// every other name resolves to the slot it had before.
pub proof fn lemma_function_keeps_outer_slots(
    exported: bool,
    name: crate::token::Token,
    params: Vec<crate::token::Token>,
    ret: crate::types::Type,
    body: Vec<Statement>,
    g: CodeGen,
    other: Seq<char>,
)
    requires
        emit_stmt(Statement::Fn(exported, name, params, ret, body), g) is Some,
        other != name.lexeme@,
    ensures
        emit_stmt(Statement::Fn(exported, name, params, ret, body), g)->Some_0.names == g.names.push(
            name.lexeme@,
        ),
        resolve(emit_stmt(Statement::Fn(exported, name, params, ret, body), g)->Some_0.names, other)
            == resolve(g.names, other),
{
    assert(g.names.push(name.lexeme@).drop_last() =~= g.names);
}

/// Parentheses change nothing: a grouped expression has the type of the expression
/// inside, compiles to the same instructions and constants, and has the same value.
pub proof fn lemma_grouping_transparent(
    e: Expr,
    frames: Seq<Seq<(Seq<char>, crate::types::TypeView)>>,
    g: CodeGen,
    locals: Seq<Option<ObjectView>>,
)
    ensures
        crate::type_checker::expr_type(Expr::Grouping(Box::new(e)), frames)
            == crate::type_checker::expr_type(e, frames),
        emit_expr(Expr::Grouping(Box::new(e)), g) == emit_expr(e, g),
        expr_value(Expr::Grouping(Box::new(e)), g.names, g.structs, locals) == expr_value(
            e,
            g.names,
            g.structs,
            locals,
        ),
{
}

/// `h` continues `g`: the same tables, with instructions and constants appended.
pub open spec fn appends_to(g: CodeGen, h: CodeGen) -> bool {
    &&& h.code.len() >= g.code.len()
    &&& h.code.subrange(0, g.code.len() as int) == g.code
    &&& h.consts.len() >= g.consts.len()
    &&& h.consts.subrange(0, g.consts.len() as int) == g.consts
    &&& h.names == g.names
    &&& h.structs == g.structs
    &&& h.depth == g.depth
}

proof fn lemma_appends_to_trans(a: CodeGen, b: CodeGen, c: CodeGen)
    requires
        appends_to(a, b),
        appends_to(b, c),
    ensures
        appends_to(a, c),
{
    assert(c.code.subrange(0, a.code.len() as int) =~= c.code.subrange(0, b.code.len() as int).subrange(
        0,
        a.code.len() as int,
    ));
    assert(c.consts.subrange(0, a.consts.len() as int) =~= c.consts.subrange(
        0,
        b.consts.len() as int,
    ).subrange(0, a.consts.len() as int));
}

proof fn lemma_appends_to_refl(g: CodeGen)
    ensures
        appends_to(g, g),
{
    assert(g.code.subrange(0, g.code.len() as int) =~= g.code);
    assert(g.consts.subrange(0, g.consts.len() as int) =~= g.consts);
}

proof fn lemma_with_op_appends(g: CodeGen, op: Opcode)
    ensures
        appends_to(g, with_op(g, op)),
{
    assert(with_op(g, op).code.subrange(0, g.code.len() as int) =~= g.code);
    assert(g.consts.subrange(0, g.consts.len() as int) =~= g.consts);
}

proof fn lemma_push_const_appends(g: CodeGen, v: ObjectView)
    requires
        push_const(g, v) is Some,
    ensures
        appends_to(g, push_const(g, v)->Some_0),
{
    let h = push_const(g, v)->Some_0;
    assert(h.code.subrange(0, g.code.len() as int) =~= g.code);
    assert(h.consts.subrange(0, g.consts.len() as int) =~= g.consts);
}

/// Code generation for an expression only appends.
pub proof fn lemma_emit_expr_appends(e: Expr, g: CodeGen)
    requires
        emit_expr(e, g) is Some,
    ensures
        appends_to(g, emit_expr(e, g)->Some_0),
    decreases e, 0nat,
{
    match e {
        Expr::Call(target, args) => {
            let g1 = emit_args(args@, 0, g)->Some_0;
            lemma_emit_args_appends(args@, 0, g);
            let g2 = emit_expr(*target, g1)->Some_0;
            lemma_emit_expr_appends(*target, g1);
            lemma_with_op_appends(g2, Opcode::Call);
            lemma_appends_to_trans(g, g1, g2);
            lemma_appends_to_trans(g, g2, with_op(g2, Opcode::Call));
        },
        Expr::Binary(left, op, right) => {
            let g1 = emit_expr(*right, g)->Some_0;
            lemma_emit_expr_appends(*right, g);
            let g2 = emit_expr(*left, g1)->Some_0;
            lemma_emit_expr_appends(*left, g1);
            lemma_appends_to_trans(g, g1, g2);
            lemma_with_op_appends(g2, Opcode::Add);
            lemma_with_op_appends(g2, Opcode::Multiply);
            lemma_appends_to_trans(g, g2, with_op(g2, Opcode::Add));
            lemma_appends_to_trans(g, g2, with_op(g2, Opcode::Multiply));
        },
        Expr::Struct(name, fields) => {
            let d = struct_field_names(g.structs, name.lexeme@)->Some_0;
            lemma_emit_fields_appends(d, d.len(), fields@, g);
            let g1 = emit_fields(d, d.len(), fields@, g)->Some_0;
            lemma_with_op_appends(g1, Opcode::Struct(d.len() as u32));
            lemma_appends_to_trans(g, g1, with_op(g1, Opcode::Struct(d.len() as u32)));
        },
        Expr::Grouping(inner) => {
            lemma_emit_expr_appends(*inner, g);
        },
        Expr::Array(entries) => {
            lemma_emit_entries_appends(entries@, entries@.len(), g);
            let g1 = emit_entries(entries@, entries@.len(), g)->Some_0;
            lemma_with_op_appends(g1, Opcode::Array(entries@.len() as u32));
            lemma_appends_to_trans(g, g1, with_op(g1, Opcode::Array(entries@.len() as u32)));
        },
        Expr::Literal(o) => {
            lemma_push_const_appends(g, o@);
        },
        Expr::Variable(name) => {
            let slot = resolve(g.names, name.lexeme@)->Some_0;
            lemma_with_op_appends(g, Opcode::Load(slot as u8));
        },
    }
}

proof fn lemma_emit_args_appends(args: Seq<Expr>, i: nat, g: CodeGen)
    requires
        emit_args(args, i, g) is Some,
    ensures
        appends_to(g, emit_args(args, i, g)->Some_0),
    decreases args, args.len() - i,
{
    if i >= args.len() {
        lemma_appends_to_refl(g);
    } else {
        let g1 = emit_expr(args[i as int], g)->Some_0;
        lemma_emit_expr_appends(args[i as int], g);
        lemma_emit_args_appends(args, i + 1, g1);
        lemma_appends_to_trans(g, g1, emit_args(args, i + 1, g1)->Some_0);
    }
}

proof fn lemma_emit_entries_appends(entries: Seq<Expr>, k: nat, g: CodeGen)
    requires
        emit_entries(entries, k, g) is Some,
    ensures
        appends_to(g, emit_entries(entries, k, g)->Some_0),
    decreases entries, k,
{
    if k == 0 {
        lemma_appends_to_refl(g);
    } else {
        let g1 = emit_expr(entries[k - 1], g)->Some_0;
        lemma_emit_expr_appends(entries[k - 1], g);
        lemma_emit_entries_appends(entries, (k - 1) as nat, g1);
        lemma_appends_to_trans(g, g1, emit_entries(entries, (k - 1) as nat, g1)->Some_0);
    }
}

proof fn lemma_emit_fields_appends(declared: Seq<Seq<char>>, k: nat, fields: Seq<Field>, g: CodeGen)
    requires
        emit_fields(declared, k, fields, g) is Some,
    ensures
        appends_to(g, emit_fields(declared, k, fields, g)->Some_0),
    decreases fields, k,
{
    if k == 0 {
        lemma_appends_to_refl(g);
    } else {
        let i = first_field(fields, declared[k - 1], 0)->Some_0;
        let g1 = emit_expr(fields[i as int].1, g)->Some_0;
        lemma_emit_expr_appends(fields[i as int].1, g);
        let g2 = push_const(g1, ObjectView::Text(declared[k - 1]))->Some_0;
        lemma_push_const_appends(g1, ObjectView::Text(declared[k - 1]));
        lemma_emit_fields_appends(declared, (k - 1) as nat, fields, g2);
        lemma_appends_to_trans(g, g1, g2);
        lemma_appends_to_trans(g, g2, emit_fields(declared, (k - 1) as nat, fields, g2)->Some_0);
    }
}

/// The instructions `h` added after `g`.
pub open spec fn added_code(g: CodeGen, h: CodeGen) -> Seq<Opcode> {
    h.code.subrange(g.code.len() as int, h.code.len() as int)
}

/// The code of each of `entries[..k]`, by entry, as the generator emits them from `g`
/// on, the last entry first.
pub open spec fn entry_codes(entries: Seq<Expr>, k: nat, g: CodeGen) -> Seq<Seq<Opcode>>
    decreases k,
{
    if k == 0 || k > entries.len() {
        Seq::empty()
    } else {
        match emit_expr(entries[k - 1], g) {
            Some(g1) => entry_codes(entries, (k - 1) as nat, g1).push(added_code(g, g1)),
            None => Seq::empty(),
        }
    }
}

proof fn lemma_rev_concat_prefix(codes: Seq<Seq<Opcode>>, x: Seq<Opcode>, k: nat)
    requires
        k <= codes.len(),
    ensures
        crate::vm::rev_concat(codes.push(x), k) == crate::vm::rev_concat(codes, k),
    decreases k,
{
    if k > 0 {
        lemma_rev_concat_prefix(codes, x, (k - 1) as nat);
    }
}

proof fn lemma_emit_entries_layout(entries: Seq<Expr>, k: nat, g: CodeGen)
    requires
        k <= entries.len(),
        emit_entries(entries, k, g) is Some,
    ensures
        entry_codes(entries, k, g).len() == k,
        emit_entries(entries, k, g)->Some_0.code == g.code + crate::vm::rev_concat(
            entry_codes(entries, k, g),
            k,
        ),
    decreases k,
{
    if k == 0 {
        assert(g.code + crate::vm::rev_concat(Seq::<Seq<Opcode>>::empty(), 0) =~= g.code);
    } else {
        let g1 = emit_expr(entries[k - 1], g)->Some_0;
        lemma_emit_expr_appends(entries[k - 1], g);
        lemma_emit_entries_layout(entries, (k - 1) as nat, g1);
        let rest = entry_codes(entries, (k - 1) as nat, g1);
        let p = added_code(g, g1);
        lemma_rev_concat_prefix(rest, p, (k - 1) as nat);
        assert(rest.push(p)[k - 1] == p);
        assert(g1.code =~= g.code + p);
        assert(g.code + (p + crate::vm::rev_concat(rest, (k - 1) as nat)) =~= g1.code
            + crate::vm::rev_concat(rest, (k - 1) as nat));
    }
}

/// An array literal compiles to its entries' own code, last entry first, then
/// `Array(n)`: the layout whose run keeps source order.
pub proof fn lemma_array_literal_layout(entries: Vec<Expr>, g: CodeGen)
    requires
        emit_expr(Expr::Array(entries), g) is Some,
    ensures
        added_code(g, emit_expr(Expr::Array(entries), g)->Some_0) == crate::vm::array_layout(
            entry_codes(entries@, entries@.len(), g),
        ),
{
    let n = entries@.len();
    lemma_emit_entries_layout(entries@, n, g);
    let g1 = emit_entries(entries@, n, g)->Some_0;
    let codes = entry_codes(entries@, n, g);
    let h = with_op(g1, Opcode::Array(n as u32));
    assert(added_code(g, h) =~= crate::vm::array_layout(codes));
}

/// For each of the declared fields `declared[..k]`, the code of its value as the
/// generator emits it from `g` on, the last field first.
pub open spec fn field_codes(declared: Seq<Seq<char>>, k: nat, fields: Seq<Field>, g: CodeGen) -> Seq<
    Seq<Opcode>,
>
    decreases k,
{
    if k == 0 || k > declared.len() {
        Seq::empty()
    } else {
        match first_field(fields, declared[k - 1], 0) {
            Some(i) => if i < fields.len() {
                match emit_expr(fields[i as int].1, g) {
                    Some(g1) => match push_const(g1, ObjectView::Text(declared[k - 1])) {
                        Some(g2) => field_codes(declared, (k - 1) as nat, fields, g2).push(
                            added_code(g, g1),
                        ),
                        None => Seq::empty(),
                    },
                    None => Seq::empty(),
                }
            } else {
                Seq::empty()
            },
            None => Seq::empty(),
        }
    }
}

/// For each of the declared fields `declared[..k]`, the constant that holds its name.
pub open spec fn name_slots(declared: Seq<Seq<char>>, k: nat, fields: Seq<Field>, g: CodeGen) -> Seq<u32>
    decreases k,
{
    if k == 0 || k > declared.len() {
        Seq::empty()
    } else {
        match first_field(fields, declared[k - 1], 0) {
            Some(i) => if i < fields.len() {
                match emit_expr(fields[i as int].1, g) {
                    Some(g1) => match push_const(g1, ObjectView::Text(declared[k - 1])) {
                        Some(g2) => name_slots(declared, (k - 1) as nat, fields, g2).push(
                            g1.consts.len() as u32,
                        ),
                        None => Seq::empty(),
                    },
                    None => Seq::empty(),
                }
            } else {
                Seq::empty()
            },
            None => Seq::empty(),
        }
    }
}

proof fn lemma_rev_fields_prefix(codes: Seq<Seq<Opcode>>, at: Seq<u32>, x: Seq<Opcode>, y: u32, k: nat)
    requires
        k <= codes.len(),
        k <= at.len(),
    ensures
        crate::vm::rev_fields(codes.push(x), at.push(y), k) == crate::vm::rev_fields(codes, at, k),
    decreases k,
{
    if k > 0 {
        lemma_rev_fields_prefix(codes, at, x, y, (k - 1) as nat);
    }
}

proof fn lemma_emit_fields_layout(declared: Seq<Seq<char>>, k: nat, fields: Seq<Field>, g: CodeGen)
    requires
        k <= declared.len(),
        emit_fields(declared, k, fields, g) is Some,
    ensures
        field_codes(declared, k, fields, g).len() == k,
        name_slots(declared, k, fields, g).len() == k,
        emit_fields(declared, k, fields, g)->Some_0.code == g.code + crate::vm::rev_fields(
            field_codes(declared, k, fields, g),
            name_slots(declared, k, fields, g),
            k,
        ),
        forall|j: int|
            0 <= j < k ==> (#[trigger] name_slots(declared, k, fields, g)[j] as int) < emit_fields(
                declared,
                k,
                fields,
                g,
            )->Some_0.consts.len() && emit_fields(declared, k, fields, g)->Some_0.consts[name_slots(
                declared,
                k,
                fields,
                g,
            )[j] as int] == ObjectView::Text(declared[j]),
    decreases k,
{
    if k == 0 {
        assert(g.code + crate::vm::rev_fields(Seq::<Seq<Opcode>>::empty(), Seq::<u32>::empty(), 0)
            =~= g.code);
    } else {
        let i = first_field(fields, declared[k - 1], 0)->Some_0;
        let g1 = emit_expr(fields[i as int].1, g)->Some_0;
        lemma_emit_expr_appends(fields[i as int].1, g);
        let g2 = push_const(g1, ObjectView::Text(declared[k - 1]))->Some_0;
        lemma_emit_fields_layout(declared, (k - 1) as nat, fields, g2);
        lemma_emit_fields_appends(declared, (k - 1) as nat, fields, g2);
        let fin = emit_fields(declared, (k - 1) as nat, fields, g2)->Some_0;
        let rest = field_codes(declared, (k - 1) as nat, fields, g2);
        let rest_at = name_slots(declared, (k - 1) as nat, fields, g2);
        let p = added_code(g, g1);
        let at = g1.consts.len() as u32;
        lemma_rev_fields_prefix(rest, rest_at, p, at, (k - 1) as nat);
        assert(rest.push(p)[k - 1] == p);
        assert(rest_at.push(at)[k - 1] == at);
        assert(g1.code =~= g.code + p);
        assert(g.code + (p + seq![Opcode::Constant(at)] + crate::vm::rev_fields(rest, rest_at, (k - 1) as nat))
            =~= g2.code + crate::vm::rev_fields(rest, rest_at, (k - 1) as nat));
        assert(fin.consts[at as int] == fin.consts.subrange(0, g2.consts.len() as int)[at as int]);
        assert forall|j: int|
            0 <= j < k implies (#[trigger] rest_at.push(at)[j] as int) < fin.consts.len()
                && fin.consts[rest_at.push(at)[j] as int] == ObjectView::Text(declared[j]) by {
            if j < k - 1 {
                assert(rest_at.push(at)[j] == rest_at[j]);
            }
        }
    }
}

/// A struct literal compiles to, for each declared field from the last, the code of
/// its value and a constant holding its name, then `Struct(n)`: the layout whose run
/// keeps the declared order.
pub proof fn lemma_struct_literal_layout(name: crate::token::Token, fields: Vec<Field>, g: CodeGen)
    requires
        emit_expr(Expr::Struct(name, fields), g) is Some,
    ensures
        ({
            let d = struct_field_names(g.structs, name.lexeme@)->Some_0;
            let h = emit_expr(Expr::Struct(name, fields), g)->Some_0;
            &&& added_code(g, h) == crate::vm::struct_layout(
                field_codes(d, d.len(), fields@, g),
                name_slots(d, d.len(), fields@, g),
            )
            &&& forall|j: int|
                0 <= j < d.len() ==> (#[trigger] name_slots(d, d.len(), fields@, g)[j] as int)
                    < h.consts.len() && h.consts[name_slots(d, d.len(), fields@, g)[j] as int]
                    == ObjectView::Text(d[j])
        }),
{
    let d = struct_field_names(g.structs, name.lexeme@)->Some_0;
    let n = d.len();
    lemma_emit_fields_layout(d, n, fields@, g);
    let g1 = emit_fields(d, n, fields@, g)->Some_0;
    let h = with_op(g1, Opcode::Struct(n as u32));
    assert(added_code(g, h) =~= crate::vm::struct_layout(
        field_codes(d, n, fields@, g),
        name_slots(d, n, fields@, g),
    ));
}

/// The value of a call-free expression, given the locals' names and values and the
/// declared structs; `None` where it has none (a call, an unknown name, operands the
/// operator does not take).
pub open spec fn expr_value(
    e: Expr,
    names: Seq<Seq<char>>,
    structs: Seq<(Seq<char>, Seq<Seq<char>>)>,
    locals: Seq<Option<ObjectView>>,
) -> Option<ObjectView>
    decreases e, 0nat,
{
    match e {
        Expr::Literal(o) => Some(o@),
        Expr::Grouping(inner) => expr_value(*inner, names, structs, locals),
        Expr::Variable(name) => match resolve(names, name.lexeme@) {
            Some(slot) => if slot < locals.len() {
                locals[slot as int]
            } else {
                None
            },
            None => None,
        },
        Expr::Binary(left, op, right) => match (
            expr_value(*left, names, structs, locals),
            expr_value(*right, names, structs, locals),
        ) {
            (Some(a), Some(b)) => match op.kind {
                TokenType::Plus => match crate::vm::add_values(a, b) {
                    Ok(v) => Some(v),
                    Err(_) => None,
                },
                TokenType::Star => match crate::vm::mul_values(a, b) {
                    Ok(v) => Some(v),
                    Err(_) => None,
                },
                _ => None,
            },
            _ => None,
        },
        Expr::Array(entries) => match entries_values(entries@, entries@.len(), names, structs, locals) {
            Some(vs) => Some(ObjectView::Array(vs)),
            None => None,
        },
        Expr::Struct(name, fields) => match struct_field_names(structs, name.lexeme@) {
            Some(d) => match field_values(d, d.len(), fields@, names, structs, locals) {
                Some(vs) => Some(ObjectView::Struct(crate::vm::zip_fields(d, vs, d.len()))),
                None => None,
            },
            None => None,
        },
        Expr::Call(_, _) => None,
    }
}

/// The values of `entries[..k]`, in order.
pub open spec fn entries_values(
    entries: Seq<Expr>,
    k: nat,
    names: Seq<Seq<char>>,
    structs: Seq<(Seq<char>, Seq<Seq<char>>)>,
    locals: Seq<Option<ObjectView>>,
) -> Option<Seq<ObjectView>>
    decreases entries, k,
{
    if k == 0 || k > entries.len() {
        if k == 0 {
            Some(Seq::empty())
        } else {
            None
        }
    } else {
        match (
            entries_values(entries, (k - 1) as nat, names, structs, locals),
            expr_value(entries[k - 1], names, structs, locals),
        ) {
            (Some(vs), Some(v)) => Some(vs.push(v)),
            _ => None,
        }
    }
}

/// The values of the declared fields `declared[..k]` of a struct literal, in order.
pub open spec fn field_values(
    declared: Seq<Seq<char>>,
    k: nat,
    fields: Seq<Field>,
    names: Seq<Seq<char>>,
    structs: Seq<(Seq<char>, Seq<Seq<char>>)>,
    locals: Seq<Option<ObjectView>>,
) -> Option<Seq<ObjectView>>
    decreases fields, k,
{
    if k == 0 || k > declared.len() {
        if k == 0 {
            Some(Seq::empty())
        } else {
            None
        }
    } else {
        match first_field(fields, declared[k - 1], 0) {
            Some(i) => if i < fields.len() {
                match (
                    field_values(declared, (k - 1) as nat, fields, names, structs, locals),
                    expr_value(fields[i as int].1, names, structs, locals),
                ) {
                    (Some(vs), Some(v)) => Some(vs.push(v)),
                    _ => None,
                }
            } else {
                None
            },
            None => None,
        }
    }
}

/// `consts` begins with `base`.
pub open spec fn extends_pool(consts: Seq<ObjectView>, base: Seq<ObjectView>) -> bool {
    consts.len() >= base.len() && consts.subrange(0, base.len() as int) == base
}

proof fn lemma_extends_pool_trans(c: Seq<ObjectView>, b: Seq<ObjectView>, a: Seq<ObjectView>)
    requires
        extends_pool(c, b),
        extends_pool(b, a),
    ensures
        extends_pool(c, a),
{
    assert(c.subrange(0, a.len() as int) =~= c.subrange(0, b.len() as int).subrange(0, a.len() as int));
}

/// Compiled code computes values: when a call-free expression has a value, its
/// code, run with any constant pool that begins with the one compiled, pushes that
/// value and leaves the locals alone.
pub proof fn lemma_expr_code_pushes_value(
    e: Expr,
    g: CodeGen,
    locals: Seq<Option<ObjectView>>,
    consts: Seq<ObjectView>,
    depth: nat,
)
    requires
        emit_expr(e, g) is Some,
        expr_value(e, g.names, g.structs, locals) is Some,
        extends_pool(consts, emit_expr(e, g)->Some_0.consts),
    ensures
        crate::vm::pushes(
            added_code(g, emit_expr(e, g)->Some_0),
            consts,
            locals,
            expr_value(e, g.names, g.structs, locals)->Some_0,
            depth,
        ),
    decreases e, 0nat,
{
    let h = emit_expr(e, g)->Some_0;
    let v = expr_value(e, g.names, g.structs, locals)->Some_0;
    lemma_emit_expr_appends(e, g);
    match e {
        Expr::Literal(o) => {
            let n = g.consts.len();
            assert(added_code(g, h) =~= seq![Opcode::Constant(n as u32)]);
            assert(consts[n as int] == consts.subrange(0, h.consts.len() as int)[n as int]);
            assert forall|stack: Seq<ObjectView>|
                #[trigger] crate::vm::run_ops(added_code(g, h), consts, locals, stack, depth)
                    == crate::vm::Outcome::Running(locals, stack.push(v)) by {
                crate::vm::lemma_run_single(Opcode::Constant(n as u32), consts, locals, stack, depth);
            }
        },
        Expr::Grouping(inner) => {
            lemma_expr_code_pushes_value(*inner, g, locals, consts, depth);
        },
        Expr::Variable(name) => {
            let slot = resolve(g.names, name.lexeme@)->Some_0;
            assert(added_code(g, h) =~= seq![Opcode::Load(slot as u8)]);
            assert forall|stack: Seq<ObjectView>|
                #[trigger] crate::vm::run_ops(added_code(g, h), consts, locals, stack, depth)
                    == crate::vm::Outcome::Running(locals, stack.push(v)) by {
                crate::vm::lemma_run_single(Opcode::Load(slot as u8), consts, locals, stack, depth);
            }
        },
        Expr::Binary(left, op, right) => {
            let g1 = emit_expr(*right, g)->Some_0;
            lemma_emit_expr_appends(*right, g);
            let g2 = emit_expr(*left, g1)->Some_0;
            lemma_emit_expr_appends(*left, g1);
            let a = expr_value(*left, g.names, g.structs, locals)->Some_0;
            let b = expr_value(*right, g.names, g.structs, locals)->Some_0;
            let opc = if op.kind == TokenType::Plus { Opcode::Add } else { Opcode::Multiply };
            assert(h == with_op(g2, opc));
            assert(h.consts == g2.consts);
            lemma_extends_pool_trans(consts, g2.consts, g1.consts);
            lemma_expr_code_pushes_value(*right, g, locals, consts, depth);
            lemma_expr_code_pushes_value(*left, g1, locals, consts, depth);
            let cr = added_code(g, g1);
            let cl = added_code(g1, g2);
            assert(added_code(g, h) =~= cr + (cl + seq![opc]));
            assert forall|stack: Seq<ObjectView>|
                #[trigger] crate::vm::run_ops(added_code(g, h), consts, locals, stack, depth)
                    == crate::vm::Outcome::Running(locals, stack.push(v)) by {
                crate::vm::lemma_run_ops_append(cr, cl + seq![opc], consts, locals, stack, depth);
                assert(crate::vm::run_ops(cr, consts, locals, stack, depth) == crate::vm::Outcome::Running(locals, stack.push(b)));
                let s1 = stack.push(b);
                crate::vm::lemma_run_ops_append(cl, seq![opc], consts, locals, s1, depth);
                assert(crate::vm::run_ops(cl, consts, locals, s1, depth) == crate::vm::Outcome::Running(locals, s1.push(a)));
                let s2 = s1.push(a);
                crate::vm::lemma_run_single(opc, consts, locals, s2, depth);
                assert(s2.subrange(0, s2.len() - 2) =~= stack);
            }
        },
        Expr::Array(entries) => {
            let n = entries@.len();
            let vs = entries_values(entries@, n, g.names, g.structs, locals)->Some_0;
            lemma_emit_entries_layout(entries@, n, g);
            lemma_array_literal_layout(entries, g);
            let g1 = emit_entries(entries@, n, g)->Some_0;
            assert(h.consts == g1.consts);
            lemma_entries_code_push_values(entries@, n, g, locals, consts, depth);
            crate::vm::lemma_array_order(entry_codes(entries@, n, g), vs, consts, locals, depth);
        },
        Expr::Struct(name, fields) => {
            let d = struct_field_names(g.structs, name.lexeme@)->Some_0;
            let vs = field_values(d, d.len(), fields@, g.names, g.structs, locals)->Some_0;
            lemma_emit_fields_layout(d, d.len(), fields@, g);
            lemma_struct_literal_layout(name, fields, g);
            let g1 = emit_fields(d, d.len(), fields@, g)->Some_0;
            assert(h.consts == g1.consts);
            lemma_fields_code_push_values(d, d.len(), fields@, g, locals, consts, depth);
            let at = name_slots(d, d.len(), fields@, g);
            assert forall|j: int| 0 <= j < d.len() implies (#[trigger] at[j] as int) < consts.len()
                && consts[at[j] as int] == ObjectView::Text(d[j]) by {
                assert(consts[at[j] as int] == consts.subrange(0, h.consts.len() as int)[at[j] as int]);
            }
            crate::vm::lemma_struct_order(field_codes(d, d.len(), fields@, g), at, d, vs, consts, locals, depth);
        },
        Expr::Call(_, _) => {},
    }
}

proof fn lemma_entries_code_push_values(
    entries: Seq<Expr>,
    k: nat,
    g: CodeGen,
    locals: Seq<Option<ObjectView>>,
    consts: Seq<ObjectView>,
    depth: nat,
)
    requires
        k <= entries.len(),
        emit_entries(entries, k, g) is Some,
        entries_values(entries, k, g.names, g.structs, locals) is Some,
        extends_pool(consts, emit_entries(entries, k, g)->Some_0.consts),
    ensures
        entries_values(entries, k, g.names, g.structs, locals)->Some_0.len() == k,
        entry_codes(entries, k, g).len() == k,
        forall|j: int|
            0 <= j < k ==> crate::vm::pushes(
                #[trigger] entry_codes(entries, k, g)[j],
                consts,
                locals,
                entries_values(entries, k, g.names, g.structs, locals)->Some_0[j],
                depth,
            ),
    decreases entries, k,
{
    lemma_emit_entries_layout(entries, k, g);
    if k > 0 {
        let g1 = emit_expr(entries[k - 1], g)->Some_0;
        lemma_emit_expr_appends(entries[k - 1], g);
        lemma_emit_entries_appends(entries, (k - 1) as nat, g1);
        let fin = emit_entries(entries, (k - 1) as nat, g1)->Some_0;
        lemma_extends_pool_trans(consts, fin.consts, g1.consts);
        lemma_expr_code_pushes_value(entries[k - 1], g, locals, consts, depth);
        lemma_entries_code_push_values(entries, (k - 1) as nat, g1, locals, consts, depth);
        let rest = entry_codes(entries, (k - 1) as nat, g1);
        let vs = entries_values(entries, (k - 1) as nat, g.names, g.structs, locals)->Some_0;
        assert forall|j: int| 0 <= j < k implies crate::vm::pushes(
            #[trigger] entry_codes(entries, k, g)[j],
            consts,
            locals,
            entries_values(entries, k, g.names, g.structs, locals)->Some_0[j],
            depth,
        ) by {
            if j < k - 1 {
                assert(entry_codes(entries, k, g)[j] == rest[j]);
            }
        }
    }
}

proof fn lemma_fields_code_push_values(
    declared: Seq<Seq<char>>,
    k: nat,
    fields: Seq<Field>,
    g: CodeGen,
    locals: Seq<Option<ObjectView>>,
    consts: Seq<ObjectView>,
    depth: nat,
)
    requires
        k <= declared.len(),
        emit_fields(declared, k, fields, g) is Some,
        field_values(declared, k, fields, g.names, g.structs, locals) is Some,
        extends_pool(consts, emit_fields(declared, k, fields, g)->Some_0.consts),
    ensures
        field_values(declared, k, fields, g.names, g.structs, locals)->Some_0.len() == k,
        field_codes(declared, k, fields, g).len() == k,
        forall|j: int|
            0 <= j < k ==> crate::vm::pushes(
                #[trigger] field_codes(declared, k, fields, g)[j],
                consts,
                locals,
                field_values(declared, k, fields, g.names, g.structs, locals)->Some_0[j],
                depth,
            ),
    decreases fields, k,
{
    lemma_emit_fields_layout(declared, k, fields, g);
    if k > 0 {
        let i = first_field(fields, declared[k - 1], 0)->Some_0;
        let g1 = emit_expr(fields[i as int].1, g)->Some_0;
        lemma_emit_expr_appends(fields[i as int].1, g);
        let g2 = push_const(g1, ObjectView::Text(declared[k - 1]))->Some_0;
        lemma_push_const_appends(g1, ObjectView::Text(declared[k - 1]));
        lemma_emit_fields_appends(declared, (k - 1) as nat, fields, g2);
        let fin = emit_fields(declared, (k - 1) as nat, fields, g2)->Some_0;
        lemma_extends_pool_trans(consts, fin.consts, g2.consts);
        lemma_extends_pool_trans(consts, g2.consts, g1.consts);
        lemma_expr_code_pushes_value(fields[i as int].1, g, locals, consts, depth);
        lemma_fields_code_push_values(declared, (k - 1) as nat, fields, g2, locals, consts, depth);
        let rest = field_codes(declared, (k - 1) as nat, fields, g2);
        assert forall|j: int| 0 <= j < k implies crate::vm::pushes(
            #[trigger] field_codes(declared, k, fields, g)[j],
            consts,
            locals,
            field_values(declared, k, fields, g.names, g.structs, locals)->Some_0[j],
            depth,
        ) by {
            if j < k - 1 {
                assert(field_codes(declared, k, fields, g)[j] == rest[j]);
            }
        }
    }
}

/// Round trip of array order: the compiled array literal, run, pushes an array
/// whose entries are the values of the literal's entries in source order, although
/// the code pushes them last to first.
pub proof fn lemma_array_literal_round_trip(
    entries: Vec<Expr>,
    g: CodeGen,
    locals: Seq<Option<ObjectView>>,
    consts: Seq<ObjectView>,
    depth: nat,
)
    requires
        emit_expr(Expr::Array(entries), g) is Some,
        entries_values(entries@, entries@.len(), g.names, g.structs, locals) is Some,
        extends_pool(consts, emit_expr(Expr::Array(entries), g)->Some_0.consts),
    ensures
        ({
            let vs = entries_values(entries@, entries@.len(), g.names, g.structs, locals)->Some_0;
            &&& vs.len() == entries@.len()
            &&& forall|j: int|
                0 <= j < vs.len() ==> Some(#[trigger] vs[j]) == expr_value(
                    entries@[j],
                    g.names,
                    g.structs,
                    locals,
                )
            &&& crate::vm::pushes(
                added_code(g, emit_expr(Expr::Array(entries), g)->Some_0),
                consts,
                locals,
                ObjectView::Array(vs),
                depth,
            )
        }),
{
    lemma_expr_code_pushes_value(Expr::Array(entries), g, locals, consts, depth);
    lemma_entries_values_pointwise(entries@, entries@.len(), g.names, g.structs, locals);
}

proof fn lemma_entries_values_pointwise(
    entries: Seq<Expr>,
    k: nat,
    names: Seq<Seq<char>>,
    structs: Seq<(Seq<char>, Seq<Seq<char>>)>,
    locals: Seq<Option<ObjectView>>,
)
    requires
        entries_values(entries, k, names, structs, locals) is Some,
    ensures
        entries_values(entries, k, names, structs, locals)->Some_0.len() == k,
        forall|j: int|
            0 <= j < k ==> Some(#[trigger] entries_values(entries, k, names, structs, locals)->Some_0[j])
                == expr_value(entries[j], names, structs, locals),
    decreases k,
{
    if k > 0 {
        lemma_entries_values_pointwise(entries, (k - 1) as nat, names, structs, locals);
    }
}

/// Round trip of struct field order: the compiled struct literal, run, pushes a
/// struct whose fields are the struct's declared names, in declared order, each with
/// the value the literal gives it, whatever order the literal writes them in and
/// although the code pushes them last to first.
pub proof fn lemma_struct_literal_round_trip(
    name: crate::token::Token,
    fields: Vec<Field>,
    g: CodeGen,
    locals: Seq<Option<ObjectView>>,
    consts: Seq<ObjectView>,
    depth: nat,
)
    requires
        emit_expr(Expr::Struct(name, fields), g) is Some,
        expr_value(Expr::Struct(name, fields), g.names, g.structs, locals) is Some,
        extends_pool(consts, emit_expr(Expr::Struct(name, fields), g)->Some_0.consts),
    ensures
        ({
            let d = struct_field_names(g.structs, name.lexeme@)->Some_0;
            let vs = field_values(d, d.len(), fields@, g.names, g.structs, locals)->Some_0;
            &&& vs.len() == d.len()
            &&& crate::vm::pushes(
                added_code(g, emit_expr(Expr::Struct(name, fields), g)->Some_0),
                consts,
                locals,
                ObjectView::Struct(crate::vm::zip_fields(d, vs, d.len())),
                depth,
            )
            &&& forall|j: int|
                0 <= j < d.len() ==> (#[trigger] crate::vm::zip_fields(d, vs, d.len())[j]).0 == d[j]
        }),
{
    let d = struct_field_names(g.structs, name.lexeme@)->Some_0;
    lemma_expr_code_pushes_value(Expr::Struct(name, fields), g, locals, consts, depth);
    lemma_field_values_len(d, d.len(), fields@, g.names, g.structs, locals);
}

proof fn lemma_field_values_len(
    declared: Seq<Seq<char>>,
    k: nat,
    fields: Seq<Field>,
    names: Seq<Seq<char>>,
    structs: Seq<(Seq<char>, Seq<Seq<char>>)>,
    locals: Seq<Option<ObjectView>>,
)
    requires
        field_values(declared, k, fields, names, structs, locals) is Some,
    ensures
        field_values(declared, k, fields, names, structs, locals)->Some_0.len() == k,
    decreases k,
{
    if k > 0 {
        lemma_field_values_len(declared, (k - 1) as nat, fields, names, structs, locals);
    }
}

/// `new` holds the locals of `old`, then only locals of the current block.
pub open spec fn extends_in_block(old: Compiler, new: Compiler) -> bool {
    &&& new.wf()
    &&& new.depth() == old.depth()
    &&& new.names().len() >= old.names().len()
    &&& new.names().subrange(0, old.names().len() as int) == old.names()
    &&& new.depths().subrange(0, old.depths().len() as int) == old.depths()
    &&& forall|i: int|
        old.depths().len() <= i < new.depths().len() ==> #[trigger] new.depths()[i] == old.depth()
}

proof fn lemma_extends_in_block_refl(c: Compiler)
    requires
        c.wf(),
    ensures
        extends_in_block(c, c),
{
    assert(c.names().subrange(0, c.names().len() as int) =~= c.names());
    assert(c.depths().subrange(0, c.depths().len() as int) =~= c.depths());
}

proof fn lemma_extends_same(c: Compiler, d: Compiler)
    requires
        d.wf(),
        d.names() == c.names(),
        d.depths() == c.depths(),
        d.depth() == c.depth(),
    ensures
        extends_in_block(c, d),
{
    assert(d.names().subrange(0, c.names().len() as int) =~= c.names());
    assert(d.depths().subrange(0, c.depths().len() as int) =~= c.depths());
}

proof fn lemma_extends_push(c: Compiler, d: Compiler, name: Seq<char>)
    requires
        d.wf(),
        d.names() == c.names().push(name),
        d.depths() == c.depths().push(c.depth()),
        d.depth() == c.depth(),
    ensures
        extends_in_block(c, d),
{
    assert(d.names().subrange(0, c.names().len() as int) =~= c.names());
    assert(d.depths().subrange(0, c.depths().len() as int) =~= c.depths());
}


impl Chunk {
    /// The chunk's code generation state.
    pub open spec fn gen(&self) -> CodeGen {
        CodeGen {
            code: self.code@,
            consts: objects_view(self.constants@),
            names: self.compiler.names(),
            structs: self.compiler.structs(),
            depth: self.compiler.depth(),
        }
    }

    pub fn init(debug: bool) -> (r: Chunk)
        ensures
            r.gen() == (CodeGen {
                code: Seq::empty(),
                consts: Seq::empty(),
                names: Seq::empty(),
                structs: Seq::empty(),
                depth: 0,
            }),
            r.compiler.wf(),
    {
        let r = Chunk { compiler: Compiler::init(debug), code: Vec::new(), constants: Vec::new(), debug };
        assert(objects_view(r.constants@) =~= Seq::<ObjectView>::empty());
        r
    }

    /// An empty chunk for a function body: no locals, the same structs.
    fn enclosed_chunk(&self) -> (r: Chunk)
        ensures
            r.gen() == (CodeGen {
                code: Seq::empty(),
                consts: Seq::empty(),
                names: Seq::empty(),
                structs: self.compiler.structs(),
                depth: 0,
            }),
            r.compiler.wf(),
    {
        let r = Chunk { compiler: self.compiler.enclosed(), code: Vec::new(), constants: Vec::new(), debug: self.debug };
        assert(objects_view(r.constants@) =~= Seq::<ObjectView>::empty());
        r
    }

    /// Adds `value` to the constant pool and emits the instruction that pushes it.
    fn push_constant(&mut self, value: Object) -> (r: Result<(), CompileError>)
        ensures
            r is Ok == push_const(old(self).gen(), value@) is Some,
            r is Ok ==> final(self).gen() == push_const(old(self).gen(), value@)->Some_0,
            r is Err ==> final(self).gen() == old(self).gen(),
            final(self).compiler == old(self).compiler,
    {
        if self.constants.len() > u32::MAX as usize {
            return Err(CompileError::TooManyConstants);
        }
        let index = self.constants.len() as u32;
        proof {
            lemma_objects_view_push(self.constants@, value);
        }
        self.constants.push(value);
        self.code.push(Opcode::Constant(index));
        Ok(())
    }

    /// Compiles the statements of `body` in order.
    pub fn compile(&mut self, body: &Vec<Statement>) -> (r: Result<(), CompileError>)
        requires
            old(self).compiler.wf(),
        ensures
            r is Ok == emit_stmts(body@, 0, old(self).gen()) is Some,
            r is Ok ==> final(self).gen() == emit_stmts(body@, 0, old(self).gen())->Some_0,
            r is Ok ==> extends_in_block(old(self).compiler, final(self).compiler),
        decreases body,
    {
        let mut i: usize = 0;
        proof {
            lemma_extends_in_block_refl(self.compiler);
        }
        while i < body.len()
            invariant
                i <= body@.len(),
                old(self).compiler.wf(),
                extends_in_block(old(self).compiler, self.compiler),
                emit_stmts(body@, 0, old(self).gen()) == emit_stmts(body@, i as nat, self.gen()),
            decreases body@.len() - i,
        {
            let ghost before = self.compiler;
            proof {
                assert(decreases_to!(*body => body@));
                assert(decreases_to!(body@ => body@[i as int]));
            }
            self.statement(&body[i])?;
            proof {
                assert(self.compiler.names().subrange(0, old(self).compiler.names().len() as int)
                    =~= self.compiler.names().subrange(0, before.names().len() as int).subrange(
                    0,
                    old(self).compiler.names().len() as int,
                ));
                assert(self.compiler.depths().subrange(0, old(self).compiler.depths().len() as int)
                    =~= self.compiler.depths().subrange(0, before.depths().len() as int).subrange(
                    0,
                    old(self).compiler.depths().len() as int,
                ));
                assert forall|j: int|
                    old(self).compiler.depths().len() <= j < self.compiler.depths().len() implies #[trigger] self.compiler.depths()[j]
                        == old(self).compiler.depth() by {
                    if j < before.depths().len() {
                        assert(self.compiler.depths()[j] == self.compiler.depths().subrange(0, before.depths().len() as int)[j]);
                    }
                }
            }
            i = i + 1;
        }
        Ok(())
    }

    /// Emits the code of one statement.
    pub fn statement(&mut self, stmt: &Statement) -> (r: Result<(), CompileError>)
        requires
            old(self).compiler.wf(),
        ensures
            r is Ok == emit_stmt(*stmt, old(self).gen()) is Some,
            r is Ok ==> final(self).gen() == emit_stmt(*stmt, old(self).gen())->Some_0,
            r is Ok ==> extends_in_block(old(self).compiler, final(self).compiler),
        decreases stmt,
    {
        let ghost g0 = self.gen();
        match stmt {
            Statement::Variable(exported, name, opt_val) => {
                match opt_val {
                    Some(val) => self.expression(val)?,
                    None => self.code.push(Opcode::Nil),
                }
                let main = String::from_str("main");
                proof {
                    reveal_strlit("main");
                }
                if *exported && name.lexeme == main {
                    self.code.push(Opcode::Return);
                } else {
                    if self.compiler.local_count() >= SLOT_COUNT {
                        return Err(CompileError::TooManyLocals);
                    }
                    let ghost before = self.compiler;
                    let i = self.compiler.add_variable(name);
                    proof {
                        lemma_extends_push(before, self.compiler, name.lexeme@);
                    }
                    self.code.push(Opcode::Store(i as u8));
                }
                proof {
                    if self.compiler.names() == old(self).compiler.names() {
                        lemma_extends_same(old(self).compiler, self.compiler);
                    }
                }
                Ok(())
            },
            Statement::Return(expr) => {
                self.expression(expr)?;
                self.code.push(Opcode::Return);
                proof {
                    lemma_extends_same(old(self).compiler, self.compiler);
                }
                Ok(())
            },
            Statement::Expr(expr) => {
                self.expression(expr)?;
                self.code.push(Opcode::Pop);
                proof {
                    lemma_extends_same(old(self).compiler, self.compiler);
                }
                Ok(())
            },
            Statement::Struct(_, name, fields) => {
                self.compiler.declare_struct(name, fields);
                proof {
                    lemma_extends_same(old(self).compiler, self.compiler);
                }
                Ok(())
            },
            Statement::Import(_, _) => {
                proof {
                    lemma_extends_same(old(self).compiler, self.compiler);
                }
                Ok(())
            },
            Statement::For(_, _, _) => {
                proof {
                    lemma_extends_same(old(self).compiler, self.compiler);
                }
                Ok(())
            },
            Statement::Fn(_, name, args, ret_ty, body) => {
                if args.len() >= SLOT_COUNT || self.compiler.local_count() >= SLOT_COUNT {
                    return Err(CompileError::TooManyLocals);
                }
                let mut fn_chunk = self.enclosed_chunk();
                let mut k: usize = 0;
                assert(token_names(args@).subrange(0, 0) =~= Seq::<Seq<char>>::empty());
                while k < args.len()
                    invariant
                        k <= args@.len(),
                        args@.len() < SLOT_COUNT,
                        fn_chunk.compiler.wf(),
                        fn_chunk.gen() == (CodeGen {
                            code: Seq::empty(),
                            consts: Seq::empty(),
                            names: token_names(args@).subrange(0, k as int),
                            structs: self.compiler.structs(),
                            depth: 0,
                        }),
                    decreases args@.len() - k,
                {
                    fn_chunk.compiler.add_variable(&args[k]);
                    assert(token_names(args@).subrange(0, k + 1) =~= token_names(args@).subrange(
                        0,
                        k as int,
                    ).push(args@[k as int].lexeme@));
                    k = k + 1;
                }
                assert(token_names(args@).subrange(0, args@.len() as int) =~= token_names(args@));
                proof {
                    assert(decreases_to!(*stmt => stmt->Fn_4));
                }
                fn_chunk.compile(body)?;
                let slot = self.compiler.local_count();
                let f = Object::Function(
                    args.len() as u8,
                    name.lexeme.clone(),
                    fn_chunk,
                    ret_ty.deep_clone(),
                );
                self.push_constant(f)?;
                let ghost before = self.compiler;
                let i = self.compiler.add_variable(name);
                proof {
                    lemma_extends_push(before, self.compiler, name.lexeme@);
                }
                self.code.push(Opcode::Store(i as u8));
                Ok(())
            },
            Statement::Block(body) => {
                if self.compiler.scope_depth() >= usize::MAX {
                    return Err(CompileError::TooDeep);
                }
                let ghost c0 = self.compiler;
                self.compiler.begin_scope();
                let ghost c1 = self.compiler;
                proof {
                    lemma_extends_in_block_refl(c1);
                }
                let mut i: usize = 0;
                while i < body.len()
                    invariant
                        *stmt == Statement::Block(*body),
                        i <= body@.len(),
                        c1.wf(),
                        c1.names() == c0.names(),
                        c1.depths() == c0.depths(),
                        c1.depth() == c0.depth() + 1,
                        g0 == old(self).gen(),
                        c0 == old(self).compiler,
                        c0.wf(),
                        g0.depth < usize::MAX,
                        emit_stmt(*stmt, g0) == match emit_stmts(body@, 0, CodeGen { depth: g0.depth + 1, ..g0 }) {
                            Some(g1) => Some(CodeGen { names: g0.names, depth: g0.depth, ..g1 }),
                            None => None,
                        },
                        extends_in_block(c1, self.compiler),
                        emit_stmts(body@, 0, CodeGen { depth: g0.depth + 1, ..g0 }) == emit_stmts(
                            body@,
                            i as nat,
                            self.gen(),
                        ),
                    decreases body@.len() - i,
                {
                    proof {
                        assert(decreases_to!(*stmt => stmt->Block_0));
                        assert(decreases_to!(*body => body@));
                        assert(decreases_to!(body@ => body@[i as int]));
                    }
                    let ghost before = self.compiler;
                    self.statement(&body[i])?;
                    proof {
                        assert(self.compiler.names().subrange(0, c1.names().len() as int)
                            =~= self.compiler.names().subrange(0, before.names().len() as int).subrange(
                            0,
                            c1.names().len() as int,
                        ));
                        assert(self.compiler.depths().subrange(0, c1.depths().len() as int)
                            =~= self.compiler.depths().subrange(0, before.depths().len() as int).subrange(
                            0,
                            c1.depths().len() as int,
                        ));
                        assert forall|j: int|
                            c1.depths().len() <= j < self.compiler.depths().len() implies #[trigger] self.compiler.depths()[j]
                                == c1.depth() by {
                            if j < before.depths().len() {
                                assert(self.compiler.depths()[j] == self.compiler.depths().subrange(0, before.depths().len() as int)[j]);
                            }
                        }
                    }
                    i = i + 1;
                }
                proof {
                    let n = c0.depths().len() as int;
                    let ds = self.compiler.depths();
                    assert(ds =~= ds.subrange(0, n) + ds.subrange(n, ds.len() as int));
                    lemma_kept_after_block(ds.subrange(0, n), ds.subrange(n, ds.len() as int), c0.depth());
                }
                self.compiler.end_scope();
                proof {
                    assert(self.compiler.names() =~= c0.names());
                    assert(self.compiler.depths() =~= c0.depths());
                    lemma_extends_same(old(self).compiler, self.compiler);
                }
                Ok(())
            },
        }
    }

    /// Emits the code of one expression.
    pub fn expression(&mut self, expr: &Expr) -> (r: Result<(), CompileError>)
        requires
            old(self).compiler.wf(),
        ensures
            r is Ok == emit_expr(*expr, old(self).gen()) is Some,
            r is Ok ==> final(self).gen() == emit_expr(*expr, old(self).gen())->Some_0,
            final(self).compiler == old(self).compiler,
            expr is Variable && resolve(old(self).gen().names, expr->Variable_0.lexeme@) is None ==> r
                is Err && r->Err_0 is UnresolvedVariable && r->Err_0->UnresolvedVariable_0@
                == expr->Variable_0.lexeme@,
        decreases expr,
    {
        match expr {
            Expr::Call(target, args) => {
                let mut i: usize = 0;
                while i < args.len()
                    invariant
                        *expr == Expr::Call(*target, *args),
                        i <= args@.len(),
                        self.compiler == old(self).compiler,
                        self.compiler.wf(),
                        emit_args(args@, 0, old(self).gen()) == emit_args(args@, i as nat, self.gen()),
                    decreases args@.len() - i,
                {
                    proof {
                        assert(decreases_to!(*expr => expr->Call_1));
                        assert(decreases_to!(*args => args@));
                        assert(decreases_to!(args@ => args@[i as int]));
                    }
                    self.expression(&args[i])?;
                    i = i + 1;
                }
                self.expression(target)?;
                self.code.push(Opcode::Call);
                Ok(())
            },
            Expr::Binary(left, op, right) => {
                self.expression(right)?;
                self.expression(left)?;
                match op.kind {
                    TokenType::Plus => self.code.push(Opcode::Add),
                    TokenType::Star => self.code.push(Opcode::Multiply),
                    _ => return Err(CompileError::UnsupportedOperator(op.line)),
                }
                Ok(())
            },
            Expr::Struct(name, fields) => {
                let declared = match self.compiler.struct_fields(name) {
                    Some(d) => d,
                    None => return Err(CompileError::UnknownStruct(name.lexeme.clone())),
                };
                if declared.len() > u32::MAX as usize {
                    return Err(CompileError::TooManyConstants);
                }
                match find_undeclared(fields, &declared) {
                    Some(i) => return Err(CompileError::UnknownField(fields[i].0.lexeme.clone())),
                    None => {},
                }
                let ghost d = crate::compiler::strings_view(declared@);
                let mut k: usize = declared.len();
                assert(emit_expr(*expr, old(self).gen()) == match emit_fields(d, d.len(), fields@, old(self).gen()) {
                    Some(g1) => Some(with_op(g1, Opcode::Struct(d.len() as u32))),
                    None => None,
                });
                while k > 0
                    invariant
                        *expr == Expr::Struct(*name, *fields),
                        k <= declared@.len(),
                        d == crate::compiler::strings_view(declared@),
                        d.len() <= u32::MAX,
                        emit_expr(*expr, old(self).gen()) == match emit_fields(d, d.len(), fields@, old(self).gen()) {
                            Some(g1) => Some(with_op(g1, Opcode::Struct(d.len() as u32))),
                            None => None,
                        },
                        self.compiler == old(self).compiler,
                        self.compiler.wf(),
                        emit_fields(d, d.len(), fields@, old(self).gen()) == emit_fields(
                            d,
                            k as nat,
                            fields@,
                            self.gen(),
                        ),
                    decreases k,
                {
                    let i = match field_position(fields, &declared[k - 1]) {
                        Some(i) => i,
                        None => return Err(CompileError::MissingField(declared[k - 1].clone())),
                    };
                    proof {
                        assert(decreases_to!(*expr => expr->Struct_1));
                        assert(decreases_to!(*fields => fields@));
                        assert(decreases_to!(fields@ => fields@[i as int]));
                    }
                    self.expression(&fields[i].1)?;
                    self.push_constant(Object::String(declared[k - 1].clone()))?;
                    k = k - 1;
                }
                self.code.push(Opcode::Struct(declared.len() as u32));
                Ok(())
            },
            Expr::Grouping(inner) => self.expression(inner),
            Expr::Array(values) => {
                if values.len() > u32::MAX as usize {
                    return Err(CompileError::TooManyConstants);
                }
                let mut k: usize = values.len();
                while k > 0
                    invariant
                        *expr == Expr::Array(*values),
                        k <= values@.len(),
                        self.compiler == old(self).compiler,
                        self.compiler.wf(),
                        emit_entries(values@, values@.len(), old(self).gen()) == emit_entries(
                            values@,
                            k as nat,
                            self.gen(),
                        ),
                    decreases k,
                {
                    proof {
                        assert(decreases_to!(*expr => expr->Array_0));
                        assert(decreases_to!(*values => values@));
                        assert(decreases_to!(values@ => values@[k - 1]));
                    }
                    self.expression(&values[k - 1])?;
                    k = k - 1;
                }
                self.code.push(Opcode::Array(values.len() as u32));
                Ok(())
            },
            Expr::Literal(lit) => self.push_constant(lit.deep_clone()),
            Expr::Variable(name) => {
                match self.compiler.resolve_variable(name) {
                    Some(i) => {
                        if i >= SLOT_COUNT {
                            return Err(CompileError::TooManyLocals);
                        }
                        self.code.push(Opcode::Load(i as u8));
                        Ok(())
                    },
                    None => Err(CompileError::UnresolvedVariable(name.lexeme.clone())),
                }
            },
        }
    }
}

} // verus!
