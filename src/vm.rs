//! The stack machine that runs compiled chunks.
use vstd::prelude::*;
use crate::bytecode::Opcode;
use crate::number::{product, sum};
use crate::object::{
    fields_view, lemma_objects_view_index, lemma_objects_view_push, lemma_objects_view_subrange,
    lemma_objects_view_update, objects_view, Chunk, ChunkView, Object, ObjectView,
};
use crate::types::QualifiedName;
use crate::formatter::{value_text, JsonFmt};

verus! {

/// Why a run stopped without a result.
#[derive(Clone, Copy, Debug, PartialEq, Eq, Structural)]
pub enum VmError {
    /// An instruction needed more values than the stack held.
    StackUnderflow,
    /// A load from a slot that was never written.
    BadSlot,
    /// A constant index past the pool.
    BadConstant,
    /// Operands of the wrong kind: a struct field name that is not text, or
    /// operands that the operator does not take.
    BadOperands,
    /// A sum or product too large for a number.
    NumberOverflow,
    /// A chunk that ended without `Return`.
    NoReturn,
    /// Calls nested deeper than allowed.
    CallDepth,
}

/// How far a run went.
pub enum Outcome {
    /// Still running, with these local slots and this stack.
    Running(Seq<Option<ObjectView>>, Seq<ObjectView>),
    /// Returned this value.
    Done(ObjectView),
    Failed(VmError),
}

/// Calls may nest this deep.
pub const MAX_CALL_DEPTH: usize = 256;

/// The local slots after storing `v` in slot `i`: past the end, the slots in between
/// are added unset.
pub open spec fn store_slot(locals: Seq<Option<ObjectView>>, i: nat, v: ObjectView) -> Seq<
    Option<ObjectView>,
> {
    if i < locals.len() {
        locals.update(i as int, Some(v))
    } else {
        locals + Seq::new((i - locals.len()) as nat, |k: int| None::<ObjectView>) + seq![Some(v)]
    }
}

/// Local slots holding `args`, in order.
pub open spec fn slots_of(args: Seq<ObjectView>) -> Seq<Option<ObjectView>> {
    Seq::new(args.len(), |i: int| Some(args[i]))
}

/// Pops `n` (name, value) pairs, the name on top: the fields in popping order and
/// the stack left.
pub open spec fn pop_fields(stack: Seq<ObjectView>, n: nat) -> Result<
    (Seq<(Seq<char>, ObjectView)>, Seq<ObjectView>),
    VmError,
>
    decreases n,
{
    if n == 0 {
        Ok((Seq::empty(), stack))
    } else if stack.len() < 2 {
        Err(VmError::StackUnderflow)
    } else {
        match stack.last() {
            ObjectView::Text(name) => match pop_fields(stack.subrange(0, stack.len() - 2), (n - 1) as nat) {
                Ok((f, rest)) => Ok((seq![(name, stack[stack.len() - 2])] + f, rest)),
                Err(e) => Err(e),
            },
            _ => Err(VmError::BadOperands),
        }
    }
}

/// The top `n` values of the stack in popping order.
pub open spec fn popped(stack: Seq<ObjectView>, n: nat) -> Seq<ObjectView> {
    Seq::new(n, |k: int| stack[stack.len() - 1 - k])
}

/// `left + right`: numbers add, texts concatenate, left first.
pub open spec fn add_values(left: ObjectView, right: ObjectView) -> Result<ObjectView, VmError> {
    match (left, right) {
        (ObjectView::Num(a), ObjectView::Num(b)) => match sum(a, b) {
            Some(c) => Ok(ObjectView::Num(c)),
            None => Err(VmError::NumberOverflow),
        },
        (ObjectView::Text(a), ObjectView::Text(b)) => Ok(ObjectView::Text(a + b)),
        _ => Err(VmError::BadOperands),
    }
}

/// `left * right` on numbers.
pub open spec fn mul_values(left: ObjectView, right: ObjectView) -> Result<ObjectView, VmError> {
    match (left, right) {
        (ObjectView::Num(a), ObjectView::Num(b)) => match product(a, b) {
            Some(c) => Ok(ObjectView::Num(c)),
            None => Err(VmError::NumberOverflow),
        },
        _ => Err(VmError::BadOperands),
    }
}

/// What one instruction does, with `depth` more calls allowed.
pub open spec fn step(
    op: Opcode,
    consts: Seq<ObjectView>,
    locals: Seq<Option<ObjectView>>,
    stack: Seq<ObjectView>,
    depth: nat,
) -> Outcome
    decreases depth, 0nat,
{
    let len = stack.len();
    match op {
        Opcode::Pop => if len == 0 {
            Outcome::Failed(VmError::StackUnderflow)
        } else {
            Outcome::Running(locals, stack.drop_last())
        },
        Opcode::Nil => Outcome::Running(locals, stack.push(ObjectView::Nil)),
        Opcode::Load(i) => if (i as nat) < locals.len() && locals[i as int] is Some {
            Outcome::Running(locals, stack.push(locals[i as int]->Some_0))
        } else {
            Outcome::Failed(VmError::BadSlot)
        },
        Opcode::Store(i) => if len == 0 {
            Outcome::Failed(VmError::StackUnderflow)
        } else {
            Outcome::Running(store_slot(locals, i as nat, stack.last()), stack.drop_last())
        },
        Opcode::Constant(i) => if (i as nat) < consts.len() {
            Outcome::Running(locals, stack.push(consts[i as int]))
        } else {
            Outcome::Failed(VmError::BadConstant)
        },
        Opcode::Struct(n) => match pop_fields(stack, n as nat) {
            Ok((f, rest)) => Outcome::Running(locals, rest.push(ObjectView::Struct(f))),
            Err(e) => Outcome::Failed(e),
        },
        Opcode::Array(n) => if len < n {
            Outcome::Failed(VmError::StackUnderflow)
        } else {
            Outcome::Running(
                locals,
                stack.subrange(0, len - n).push(ObjectView::Array(popped(stack, n as nat))),
            )
        },
        Opcode::Call => if len == 0 {
            Outcome::Failed(VmError::StackUnderflow)
        } else {
            let rest = stack.drop_last();
            match stack.last() {
                ObjectView::Function(arity, _, chunk, _) => if rest.len() < arity {
                    Outcome::Failed(VmError::StackUnderflow)
                } else if depth == 0 {
                    Outcome::Failed(VmError::CallDepth)
                } else {
                    let split = rest.len() - arity;
                    match run_frame(chunk, rest.subrange(split, rest.len() as int), (depth - 1) as nat) {
                        Ok(v) => Outcome::Running(locals, rest.subrange(0, split).push(v)),
                        Err(e) => Outcome::Failed(e),
                    }
                },
                _ => Outcome::Running(locals, rest),
            }
        },
        Opcode::Add => if len < 2 {
            Outcome::Failed(VmError::StackUnderflow)
        } else {
            match add_values(stack[len - 1], stack[len - 2]) {
                Ok(v) => Outcome::Running(locals, stack.subrange(0, len - 2).push(v)),
                Err(e) => Outcome::Failed(e),
            }
        },
        Opcode::Multiply => if len < 2 {
            Outcome::Failed(VmError::StackUnderflow)
        } else {
            match mul_values(stack[len - 1], stack[len - 2]) {
                Ok(v) => Outcome::Running(locals, stack.subrange(0, len - 2).push(v)),
                Err(e) => Outcome::Failed(e),
            }
        },
        Opcode::Return => if len == 0 {
            Outcome::Failed(VmError::StackUnderflow)
        } else {
            Outcome::Done(stack[0])
        },
    }
}

/// Runs the instructions `ops` in order until one returns or fails.
pub open spec fn run_ops(
    ops: Seq<Opcode>,
    consts: Seq<ObjectView>,
    locals: Seq<Option<ObjectView>>,
    stack: Seq<ObjectView>,
    depth: nat,
) -> Outcome
    decreases depth, ops.len() + 1,
{
    if ops.len() == 0 {
        Outcome::Running(locals, stack)
    } else {
        match step(ops[0], consts, locals, stack, depth) {
            Outcome::Running(l, s) => run_ops(ops.drop_first(), consts, l, s, depth),
            other => other,
        }
    }
}

/// The result of a frame's run: a chunk that ends without returning fails.
pub open spec fn frame_result(o: Outcome) -> Result<ObjectView, VmError> {
    match o {
        Outcome::Done(v) => Ok(v),
        Outcome::Failed(e) => Err(e),
        Outcome::Running(_, _) => Err(VmError::NoReturn),
    }
}

/// The result of a whole program: the value its entry point returned, nothing
/// when it ended without one, or the failure.
pub open spec fn program_result(o: Outcome) -> Result<Option<ObjectView>, VmError> {
    match o {
        Outcome::Done(v) => Ok(Some(v)),
        Outcome::Failed(e) => Err(e),
        Outcome::Running(_, _) => Ok(None),
    }
}

/// Runs a chunk in a fresh frame whose locals are `args`.
pub open spec fn run_frame(chunk: ChunkView, args: Seq<ObjectView>, depth: nat) -> Result<
    ObjectView,
    VmError,
>
    decreases depth, chunk.code.len() + 2,
{
    frame_result(run_ops(chunk.code, chunk.constants, slots_of(args), Seq::empty(), depth))
}

/// Running `a` then `b` is running `a`, then, if it is still running, `b`.
pub proof fn lemma_run_ops_append(
    a: Seq<Opcode>,
    b: Seq<Opcode>,
    consts: Seq<ObjectView>,
    locals: Seq<Option<ObjectView>>,
    stack: Seq<ObjectView>,
    depth: nat,
)
    ensures
        run_ops(a + b, consts, locals, stack, depth) == match run_ops(a, consts, locals, stack, depth) {
            Outcome::Running(l, s) => run_ops(b, consts, l, s, depth),
            other => other,
        },
    decreases a.len(),
{
    if a.len() == 0 {
        assert(a + b =~= b);
    } else {
        assert((a + b)[0] == a[0]);
        assert((a + b).drop_first() =~= a.drop_first() + b);
        if let Outcome::Running(l, s) = step(a[0], consts, locals, stack, depth) {
            lemma_run_ops_append(a.drop_first(), b, consts, l, s, depth);
        }
    }
}

/// Running a single instruction is one step.
pub proof fn lemma_run_single(
    op: Opcode,
    consts: Seq<ObjectView>,
    locals: Seq<Option<ObjectView>>,
    stack: Seq<ObjectView>,
    depth: nat,
)
    ensures
        run_ops(seq![op], consts, locals, stack, depth) == step(op, consts, locals, stack, depth),
{
    let ops = seq![op];
    assert(ops.drop_first() =~= Seq::<Opcode>::empty());
    if let Outcome::Running(l, s) = step(op, consts, locals, stack, depth) {
        assert(run_ops(Seq::<Opcode>::empty(), consts, l, s, depth) == Outcome::Running(l, s));
    }
}

/// `Constant(k)` pushes entry `k` of the pool: with `lemma_array_order` and
/// `lemma_struct_order`, constants laid out last to first come out first to last.
pub proof fn lemma_constant_pushes(k: u32, consts: Seq<ObjectView>, locals: Seq<Option<ObjectView>>, depth: nat)
    requires
        (k as int) < consts.len(),
    ensures
        pushes(seq![Opcode::Constant(k)], consts, locals, consts[k as int], depth),
{
    assert forall|stack: Seq<ObjectView>|
        #[trigger] run_ops(seq![Opcode::Constant(k)], consts, locals, stack, depth) == Outcome::Running(
            locals,
            stack.push(consts[k as int]),
        ) by {
        lemma_run_single(Opcode::Constant(k), consts, locals, stack, depth);
    }
}

/// A chunk that pushes constants `ks[n-1]`, ..., `ks[0]` and then builds an array of
/// `n` values pushes the array of those constants in the order `ks[0]`, ..., `ks[n-1]`.
pub proof fn lemma_constant_array(
    ks: Seq<u32>,
    consts: Seq<ObjectView>,
    locals: Seq<Option<ObjectView>>,
    depth: nat,
)
    requires
        ks.len() <= u32::MAX,
        forall|i: int| 0 <= i < ks.len() ==> (#[trigger] ks[i] as int) < consts.len(),
    ensures
        pushes(
            array_layout(Seq::new(ks.len(), |i: int| seq![Opcode::Constant(ks[i])])),
            consts,
            locals,
            ObjectView::Array(Seq::new(ks.len(), |i: int| consts[ks[i] as int])),
            depth,
        ),
{
    let codes = Seq::new(ks.len(), |i: int| seq![Opcode::Constant(ks[i])]);
    let vals = Seq::new(ks.len(), |i: int| consts[ks[i] as int]);
    assert forall|j: int| 0 <= j < codes.len() implies pushes(#[trigger] codes[j], consts, locals, vals[j], depth) by {
        lemma_constant_pushes(ks[j], consts, locals, depth);
    }
    lemma_array_order(codes, vals, consts, locals, depth);
}

/// A chunk that pushes, for `i` from `n-1` down to `0`, constant `vs[i]` then constant
/// `ms[i]` holding the text `names[i]`, and then builds a struct of `n` fields, pushes
/// the struct whose field `i` is `names[i]` with constant `vs[i]`.
pub proof fn lemma_constant_struct(
    vs: Seq<u32>,
    ms: Seq<u32>,
    names: Seq<Seq<char>>,
    consts: Seq<ObjectView>,
    locals: Seq<Option<ObjectView>>,
    depth: nat,
)
    requires
        vs.len() == ms.len() == names.len() <= u32::MAX,
        forall|i: int| 0 <= i < vs.len() ==> (#[trigger] vs[i] as int) < consts.len(),
        forall|i: int|
            0 <= i < ms.len() ==> (#[trigger] ms[i] as int) < consts.len() && consts[ms[i] as int]
                == ObjectView::Text(names[i]),
    ensures
        pushes(
            struct_layout(Seq::new(vs.len(), |i: int| seq![Opcode::Constant(vs[i])]), ms),
            consts,
            locals,
            ObjectView::Struct(
                zip_fields(names, Seq::new(vs.len(), |i: int| consts[vs[i] as int]), names.len()),
            ),
            depth,
        ),
{
    let codes = Seq::new(vs.len(), |i: int| seq![Opcode::Constant(vs[i])]);
    let vals = Seq::new(vs.len(), |i: int| consts[vs[i] as int]);
    assert forall|j: int| 0 <= j < codes.len() implies pushes(#[trigger] codes[j], consts, locals, vals[j], depth) by {
        lemma_constant_pushes(vs[j], consts, locals, depth);
    }
    lemma_struct_order(codes, ms, names, vals, consts, locals, depth);
}

/// Running `code` on any stack keeps the locals and pushes `v`.
pub open spec fn pushes(
    code: Seq<Opcode>,
    consts: Seq<ObjectView>,
    locals: Seq<Option<ObjectView>>,
    v: ObjectView,
    depth: nat,
) -> bool {
    forall|stack: Seq<ObjectView>|
        #[trigger] run_ops(code, consts, locals, stack, depth) == Outcome::Running(locals, stack.push(v))
}

/// The codes `codes[..k]` laid out last to first.
pub open spec fn rev_concat(codes: Seq<Seq<Opcode>>, k: nat) -> Seq<Opcode>
    decreases k,
{
    if k == 0 {
        Seq::empty()
    } else {
        codes[k - 1] + rev_concat(codes, (k - 1) as nat)
    }
}

/// `vals[..k]` last to first.
pub open spec fn rev_prefix(vals: Seq<ObjectView>, k: nat) -> Seq<ObjectView> {
    Seq::new(k, |i: int| vals[k - 1 - i])
}

/// The code of an array literal: its entries' code last to first, then `Array(n)`.
pub open spec fn array_layout(codes: Seq<Seq<Opcode>>) -> Seq<Opcode> {
    rev_concat(codes, codes.len()).push(Opcode::Array(codes.len() as u32))
}

/// For each field, its value's code then the instruction that pushes its name,
/// the last field first.
pub open spec fn rev_fields(codes: Seq<Seq<Opcode>>, names_at: Seq<u32>, k: nat) -> Seq<Opcode>
    decreases k,
{
    if k == 0 {
        Seq::empty()
    } else {
        codes[k - 1] + seq![Opcode::Constant(names_at[k - 1])] + rev_fields(codes, names_at, (k - 1) as nat)
    }
}

/// The code of a struct literal: its fields as above, then `Struct(n)`.
pub open spec fn struct_layout(codes: Seq<Seq<Opcode>>, names_at: Seq<u32>) -> Seq<Opcode> {
    rev_fields(codes, names_at, codes.len()).push(Opcode::Struct(codes.len() as u32))
}

/// What the field code leaves on the stack: value and name pairs, the last field
/// deepest.
pub open spec fn field_pairs(names: Seq<Seq<char>>, vals: Seq<ObjectView>, k: nat) -> Seq<ObjectView> {
    Seq::new(
        2 * k,
        |i: int|
            if i % 2 == 0 {
                vals[k - 1 - i / 2]
            } else {
                ObjectView::Text(names[k - 1 - i / 2])
            },
    )
}

pub open spec fn zip_fields(names: Seq<Seq<char>>, vals: Seq<ObjectView>, k: nat) -> Seq<
    (Seq<char>, ObjectView),
> {
    Seq::new(k, |i: int| (names[i], vals[i]))
}

proof fn lemma_rev_concat_runs(
    codes: Seq<Seq<Opcode>>,
    vals: Seq<ObjectView>,
    k: nat,
    consts: Seq<ObjectView>,
    locals: Seq<Option<ObjectView>>,
    depth: nat,
    stack: Seq<ObjectView>,
)
    requires
        k <= codes.len() == vals.len(),
        forall|j: int| 0 <= j < codes.len() ==> pushes(#[trigger] codes[j], consts, locals, vals[j], depth),
    ensures
        run_ops(rev_concat(codes, k), consts, locals, stack, depth) == Outcome::Running(
            locals,
            stack + rev_prefix(vals, k),
        ),
    decreases k,
{
    if k == 0 {
        assert(stack + rev_prefix(vals, 0) =~= stack);
    } else {
        let c = codes[k - 1];
        lemma_run_ops_append(c, rev_concat(codes, (k - 1) as nat), consts, locals, stack, depth);
        assert(pushes(codes[k - 1], consts, locals, vals[k - 1], depth));
        assert(run_ops(c, consts, locals, stack, depth) == Outcome::Running(locals, stack.push(vals[k - 1])));
        lemma_rev_concat_runs(codes, vals, (k - 1) as nat, consts, locals, depth, stack.push(vals[k - 1]));
        assert(stack.push(vals[k - 1]) + rev_prefix(vals, (k - 1) as nat) =~= stack + rev_prefix(vals, k));
    }
}

/// Array entries keep their source order through the reversed encoding: when each
/// entry's code pushes its value, the array literal's code pushes the array of the
/// values in order.
pub proof fn lemma_array_order(
    codes: Seq<Seq<Opcode>>,
    vals: Seq<ObjectView>,
    consts: Seq<ObjectView>,
    locals: Seq<Option<ObjectView>>,
    depth: nat,
)
    requires
        codes.len() == vals.len() <= u32::MAX,
        forall|j: int| 0 <= j < codes.len() ==> pushes(#[trigger] codes[j], consts, locals, vals[j], depth),
    ensures
        pushes(array_layout(codes), consts, locals, ObjectView::Array(vals), depth),
{
    let n = codes.len();
    assert forall|stack: Seq<ObjectView>|
        #[trigger] run_ops(array_layout(codes), consts, locals, stack, depth) == Outcome::Running(
            locals,
            stack.push(ObjectView::Array(vals)),
        ) by {
        lemma_rev_concat_runs(codes, vals, n, consts, locals, depth, stack);
        let mid = stack + rev_prefix(vals, n);
        lemma_run_ops_append(rev_concat(codes, n), seq![Opcode::Array(n as u32)], consts, locals, stack, depth);
        assert(rev_concat(codes, n).push(Opcode::Array(n as u32)) =~= rev_concat(codes, n) + seq![
            Opcode::Array(n as u32),
        ]);
        assert(popped(mid, n) =~= vals);
        assert(mid.subrange(0, mid.len() - n) =~= stack);
        lemma_run_single(Opcode::Array(n as u32), consts, locals, mid, depth);
    }
}

proof fn lemma_rev_fields_runs(
    codes: Seq<Seq<Opcode>>,
    names_at: Seq<u32>,
    names: Seq<Seq<char>>,
    vals: Seq<ObjectView>,
    k: nat,
    consts: Seq<ObjectView>,
    locals: Seq<Option<ObjectView>>,
    depth: nat,
    stack: Seq<ObjectView>,
)
    requires
        k <= codes.len(),
        codes.len() == vals.len() == names.len() == names_at.len(),
        forall|j: int| 0 <= j < codes.len() ==> pushes(#[trigger] codes[j], consts, locals, vals[j], depth),
        forall|j: int|
            0 <= j < codes.len() ==> (#[trigger] names_at[j] as int) < consts.len() && consts[names_at[j] as int]
                == ObjectView::Text(names[j]),
    ensures
        run_ops(rev_fields(codes, names_at, k), consts, locals, stack, depth) == Outcome::Running(
            locals,
            stack + field_pairs(names, vals, k),
        ),
    decreases k,
{
    if k == 0 {
        assert(stack + field_pairs(names, vals, 0) =~= stack);
    } else {
        let c = codes[k - 1];
        let name_op = seq![Opcode::Constant(names_at[k - 1])];
        let rest = rev_fields(codes, names_at, (k - 1) as nat);
        assert(c + name_op + rest =~= c + (name_op + rest));
        lemma_run_ops_append(c, name_op + rest, consts, locals, stack, depth);
        assert(pushes(codes[k - 1], consts, locals, vals[k - 1], depth));
        let s1 = stack.push(vals[k - 1]);
        assert(run_ops(c, consts, locals, stack, depth) == Outcome::Running(locals, s1));
        lemma_run_ops_append(name_op, rest, consts, locals, s1, depth);
        assert((names_at[k - 1] as int) < consts.len());
        let s2 = s1.push(ObjectView::Text(names[k - 1]));
        lemma_run_single(Opcode::Constant(names_at[k - 1]), consts, locals, s1, depth);
        assert(run_ops(name_op, consts, locals, s1, depth) == Outcome::Running(locals, s2));
        lemma_rev_fields_runs(codes, names_at, names, vals, (k - 1) as nat, consts, locals, depth, s2);
        assert(s2 + field_pairs(names, vals, (k - 1) as nat) =~= stack + field_pairs(names, vals, k));
    }
}

proof fn lemma_pop_field_pairs(
    names: Seq<Seq<char>>,
    vals: Seq<ObjectView>,
    k: nat,
    stack: Seq<ObjectView>,
)
    requires
        k <= names.len(),
        k <= vals.len(),
    ensures
        pop_fields(stack + field_pairs(names, vals, k), k) == Ok::<
            (Seq<(Seq<char>, ObjectView)>, Seq<ObjectView>),
            VmError,
        >((zip_fields(names, vals, k), stack)),
    decreases k,
{
    let all = stack + field_pairs(names, vals, k);
    if k == 0 {
        assert(all =~= stack);
        assert(zip_fields(names, vals, 0) =~= Seq::<(Seq<char>, ObjectView)>::empty());
    } else {
        let n1 = names.drop_first();
        let v1 = vals.drop_first();
        assert(all.last() == ObjectView::Text(names[0]));
        assert(all[all.len() - 2] == vals[0]);
        assert(all.subrange(0, all.len() - 2) =~= stack + field_pairs(n1, v1, (k - 1) as nat));
        lemma_pop_field_pairs(n1, v1, (k - 1) as nat, stack);
        assert(seq![(names[0], vals[0])] + zip_fields(n1, v1, (k - 1) as nat) =~= zip_fields(names, vals, k));
    }
}

/// Struct fields keep their declared order through the reversed encoding: when each
/// field's code pushes its value and the name constants hold the field names, the
/// struct literal's code pushes a struct whose fields are in declared order.
pub proof fn lemma_struct_order(
    codes: Seq<Seq<Opcode>>,
    names_at: Seq<u32>,
    names: Seq<Seq<char>>,
    vals: Seq<ObjectView>,
    consts: Seq<ObjectView>,
    locals: Seq<Option<ObjectView>>,
    depth: nat,
)
    requires
        codes.len() == vals.len() == names.len() == names_at.len() <= u32::MAX,
        forall|j: int| 0 <= j < codes.len() ==> pushes(#[trigger] codes[j], consts, locals, vals[j], depth),
        forall|j: int|
            0 <= j < codes.len() ==> (#[trigger] names_at[j] as int) < consts.len() && consts[names_at[j] as int]
                == ObjectView::Text(names[j]),
    ensures
        pushes(
            struct_layout(codes, names_at),
            consts,
            locals,
            ObjectView::Struct(zip_fields(names, vals, names.len())),
            depth,
        ),
{
    let n = codes.len();
    assert forall|stack: Seq<ObjectView>|
        #[trigger] run_ops(struct_layout(codes, names_at), consts, locals, stack, depth)
            == Outcome::Running(locals, stack.push(ObjectView::Struct(zip_fields(names, vals, n)))) by {
        lemma_rev_fields_runs(codes, names_at, names, vals, n, consts, locals, depth, stack);
        lemma_run_ops_append(rev_fields(codes, names_at, n), seq![Opcode::Struct(n as u32)], consts, locals, stack, depth);
        assert(rev_fields(codes, names_at, n).push(Opcode::Struct(n as u32)) =~= rev_fields(codes, names_at, n) + seq![
            Opcode::Struct(n as u32),
        ]);
        lemma_pop_field_pairs(names, vals, n, stack);
        lemma_run_single(
            Opcode::Struct(n as u32),
            consts,
            locals,
            stack + field_pairs(names, vals, n),
            depth,
        );
    }
}

/// The diagnostics one instruction records: a call of a value that is not a function
/// records one, and a call of a function records those of the function's run.
pub open spec fn step_notes(
    op: Opcode,
    consts: Seq<ObjectView>,
    locals: Seq<Option<ObjectView>>,
    stack: Seq<ObjectView>,
    depth: nat,
) -> Seq<Seq<char>>
    decreases depth, 0nat,
{
    match op {
        Opcode::Call => if stack.len() == 0 {
            Seq::empty()
        } else {
            let rest = stack.drop_last();
            match stack.last() {
                ObjectView::Function(arity, _, chunk, _) => if rest.len() < arity || depth == 0 {
                    Seq::empty()
                } else {
                    frame_notes(
                        chunk,
                        rest.subrange(rest.len() - arity, rest.len() as int),
                        (depth - 1) as nat,
                    )
                },
                _ => seq![uncallable_note(stack.last())],
            }
        },
        _ => Seq::empty(),
    }
}

/// The diagnostics that running `ops` records, in order.
pub open spec fn run_notes(
    ops: Seq<Opcode>,
    consts: Seq<ObjectView>,
    locals: Seq<Option<ObjectView>>,
    stack: Seq<ObjectView>,
    depth: nat,
) -> Seq<Seq<char>>
    decreases depth, ops.len() + 1,
{
    if ops.len() == 0 {
        Seq::empty()
    } else {
        step_notes(ops[0], consts, locals, stack, depth) + match step(ops[0], consts, locals, stack, depth) {
            Outcome::Running(l, s) => run_notes(ops.drop_first(), consts, l, s, depth),
            _ => Seq::empty(),
        }
    }
}

/// The diagnostics that running a chunk in a fresh frame records.
pub open spec fn frame_notes(chunk: ChunkView, args: Seq<ObjectView>, depth: nat) -> Seq<Seq<char>>
    decreases depth, chunk.code.len() + 2,
{
    run_notes(chunk.code, chunk.constants, slots_of(args), Seq::empty(), depth)
}

/// The outcome of a whole program agrees with its specification.
pub open spec fn program_agrees(
    r: Result<Option<Object>, VmError>,
    s: Result<Option<ObjectView>, VmError>,
) -> bool {
    match r {
        Ok(Some(v)) => s == Ok::<Option<ObjectView>, VmError>(Some(v@)),
        Ok(None) => s == Ok::<Option<ObjectView>, VmError>(None),
        Err(e) => s == Err::<Option<ObjectView>, VmError>(e),
    }
}

/// The outcome of a run agrees with its specification.
pub open spec fn run_agrees(r: Result<Object, VmError>, s: Result<ObjectView, VmError>) -> bool {
    match r {
        Ok(v) => s == Ok::<ObjectView, VmError>(v@),
        Err(e) => s == Err::<ObjectView, VmError>(e),
    }
}

pub open spec fn slots_view(s: Seq<Option<Object>>) -> Seq<Option<ObjectView>> {
    Seq::new(
        s.len(),
        |i: int|
            match s[i] {
                Some(o) => Some(o@),
                None => None,
            },
    )
}

proof fn lemma_slots_view_push(s: Seq<Option<Object>>, x: Option<Object>)
    ensures
        slots_view(s.push(x)) == slots_view(s).push(
            match x {
                Some(o) => Some(o@),
                None => None,
            },
        ),
{
    assert(slots_view(s.push(x)) =~= slots_view(s).push(
        match x {
            Some(o) => Some(o@),
            None => None,
        },
    ));
}

proof fn lemma_slots_view_update(s: Seq<Option<Object>>, i: int, o: Object)
    requires
        0 <= i < s.len(),
    ensures
        slots_view(s.update(i, Some(o))) == slots_view(s).update(i, Some(o@)),
{
    assert(slots_view(s.update(i, Some(o))) =~= slots_view(s).update(i, Some(o@)));
}

/// Local slots holding `args`, in order.
fn into_slots(args: Vec<Object>) -> (r: Vec<Option<Object>>)
    ensures
        slots_view(r@) == slots_of(objects_view(args@)),
{
    let mut slots: Vec<Option<Object>> = Vec::new();
    let mut i: usize = 0;
    while i < args.len()
        invariant
            i <= args@.len(),
            slots_view(slots@) == slots_of(objects_view(args@)).subrange(0, i as int),
        decreases args@.len() - i,
    {
        proof {
            lemma_objects_view_index(args@, i as int);
        }
        let v = args[i].deep_clone();
        proof {
            lemma_slots_view_push(slots@, Some(v));
        }
        slots.push(Some(v));
        assert(slots_view(slots@) =~= slots_of(objects_view(args@)).subrange(0, i + 1));
        i = i + 1;
    }
    assert(slots_of(objects_view(args@)).subrange(0, args@.len() as int) =~= slots_of(objects_view(args@)));
    slots
}

/// The diagnostic for a call of `v`, which is not a function.
pub open spec fn uncallable_note(v: ObjectView) -> Seq<char> {
    "Could not execute "@ + value_text(v)
}

/// An activation record: a chunk, the next instruction, locals and operand stack.
pub struct Frame {
    chunk: Chunk,
    ip: usize,
    locals: Vec<Option<Object>>,
    stack: Vec<Object>,
    name: String,
    notes: Vec<String>,
    debug: bool,
}

impl Frame {
    pub closed spec fn code(&self) -> Seq<Opcode> {
        self.chunk.code@
    }

    pub closed spec fn constants(&self) -> Seq<ObjectView> {
        objects_view(self.chunk.constants@)
    }

    pub closed spec fn ip(&self) -> nat {
        self.ip as nat
    }

    pub closed spec fn locals(&self) -> Seq<Option<ObjectView>> {
        slots_view(self.locals@)
    }

    pub closed spec fn stack(&self) -> Seq<ObjectView> {
        objects_view(self.stack@)
    }

    /// Diagnostics so far: one for each call of a value that is not a function.
    pub closed spec fn notes(&self) -> Seq<Seq<char>> {
        crate::compiler::strings_view(self.notes@)
    }

    /// The diagnostics recorded so far.
    pub fn diagnostics(&self) -> (r: Vec<String>)
        ensures
            crate::compiler::strings_view(r@) == self.notes(),
    {
        let mut out: Vec<String> = Vec::new();
        let mut i: usize = 0;
        while i < self.notes.len()
            invariant
                i <= self.notes@.len(),
                out@.len() == i,
                crate::compiler::strings_view(out@) == self.notes().subrange(0, i as int),
            decreases self.notes@.len() - i,
        {
            out.push(self.notes[i].clone());
            assert(crate::compiler::strings_view(out@) =~= self.notes().subrange(0, i + 1));
            i = i + 1;
        }
        assert(self.notes().subrange(0, self.notes@.len() as int) =~= self.notes());
        out
    }

    /// The instructions not yet run.
    pub open spec fn remaining(&self) -> Seq<Opcode> {
        self.code().subrange(self.ip() as int, self.code().len() as int)
    }

    /// A frame that runs `chunk` from its first instruction, with no locals.
    pub fn init(chunk: Chunk, debug: bool) -> (r: Frame)
        ensures
            r.code() == chunk@.code,
            r.constants() == chunk@.constants,
            r.ip() == 0,
            r.locals() == Seq::<Option<ObjectView>>::empty(),
            r.stack() == Seq::<ObjectView>::empty(),
            r.notes() == Seq::<Seq<char>>::empty(),
    {
        let r = Frame {
            chunk,
            ip: 0,
            locals: Vec::new(),
            stack: Vec::new(),
            name: String::from_str("main"),
            notes: Vec::new(),
            debug,
        };
        assert(slots_view(r.locals@) =~= Seq::<Option<ObjectView>>::empty());
        assert(r.notes() =~= Seq::<Seq<char>>::empty());
        assert(objects_view(r.stack@) =~= Seq::<ObjectView>::empty());
        r
    }

    fn pop(&mut self) -> (r: Option<Object>)
        ensures
            final(self).chunk == old(self).chunk,
            final(self).ip == old(self).ip,
            final(self).locals == old(self).locals,
            final(self).notes == old(self).notes,
            old(self).stack().len() == 0 ==> r is None && final(self).stack() == old(self).stack(),
            old(self).stack().len() > 0 ==> r is Some && r->Some_0@ == old(self).stack().last()
                && final(self).stack() == old(self).stack().drop_last(),
    {
        let r = self.stack.pop();
        proof {
            if old(self).stack@.len() > 0 {
                lemma_objects_view_subrange(old(self).stack@, 0, old(self).stack@.len() - 1);
                lemma_objects_view_index(old(self).stack@, old(self).stack@.len() - 1);
            }
        }
        r
    }

    fn push(&mut self, v: Object)
        ensures
            final(self).chunk == old(self).chunk,
            final(self).ip == old(self).ip,
            final(self).locals == old(self).locals,
            final(self).notes == old(self).notes,
            final(self).stack() == old(self).stack().push(v@),
    {
        proof {
            lemma_objects_view_push(self.stack@, v);
        }
        self.stack.push(v);
    }

    /// Runs the rest of the chunk.
    pub fn run(&mut self) -> (r: Result<Object, VmError>)
        requires
            old(self).ip() <= old(self).code().len(),
        ensures
            run_agrees(
                r,
                frame_result(
                    run_ops(
                        old(self).remaining(),
                        old(self).constants(),
                        old(self).locals(),
                        old(self).stack(),
                        MAX_CALL_DEPTH as nat,
                    ),
                ),
            ),
            final(self).notes() == old(self).notes() + run_notes(
                old(self).remaining(),
                old(self).constants(),
                old(self).locals(),
                old(self).stack(),
                MAX_CALL_DEPTH as nat,
            ),
    {
        match self.execute(MAX_CALL_DEPTH) {
            Ok(Some(v)) => Ok(v),
            Ok(None) => Err(VmError::NoReturn),
            Err(e) => Err(e),
        }
    }

    /// Runs the rest of the chunk as a whole program: `Ok(None)` when it ends
    /// without returning.
    pub fn run_to_end(&mut self) -> (r: Result<Option<Object>, VmError>)
        requires
            old(self).ip() <= old(self).code().len(),
        ensures
            program_agrees(
                r,
                program_result(
                    run_ops(
                        old(self).remaining(),
                        old(self).constants(),
                        old(self).locals(),
                        old(self).stack(),
                        MAX_CALL_DEPTH as nat,
                    ),
                ),
            ),
            final(self).notes() == old(self).notes() + run_notes(
                old(self).remaining(),
                old(self).constants(),
                old(self).locals(),
                old(self).stack(),
                MAX_CALL_DEPTH as nat,
            ),
    {
        self.execute(MAX_CALL_DEPTH)
    }

    /// Runs the rest of the chunk with `depth` more nested calls allowed.
    fn execute(&mut self, depth: usize) -> (r: Result<Option<Object>, VmError>)
        requires
            old(self).ip() <= old(self).code().len(),
        ensures
            program_agrees(
                r,
                program_result(
                    run_ops(
                        old(self).remaining(),
                        old(self).constants(),
                        old(self).locals(),
                        old(self).stack(),
                        depth as nat,
                    ),
                ),
            ),
            final(self).notes() == old(self).notes() + run_notes(
                old(self).remaining(),
                old(self).constants(),
                old(self).locals(),
                old(self).stack(),
                depth as nat,
            ),
        decreases depth, 1nat,
    {
        let ghost goal = run_ops(
            self.remaining(),
            self.constants(),
            self.locals(),
            self.stack(),
            depth as nat,
        );
        let ghost all_notes = old(self).notes() + run_notes(
            old(self).remaining(),
            old(self).constants(),
            old(self).locals(),
            old(self).stack(),
            depth as nat,
        );
        assert(all_notes == self.notes() + run_notes(
            self.remaining(),
            self.constants(),
            self.locals(),
            self.stack(),
            depth as nat,
        ));
        while self.ip < self.chunk.code.len()
            invariant
                self.ip() <= self.code().len(),
                all_notes == old(self).notes() + run_notes(
                    old(self).remaining(),
                    old(self).constants(),
                    old(self).locals(),
                    old(self).stack(),
                    depth as nat,
                ),
                all_notes == self.notes() + run_notes(
                    self.remaining(),
                    self.constants(),
                    self.locals(),
                    self.stack(),
                    depth as nat,
                ),
                self.code() == old(self).code(),
                self.constants() == old(self).constants(),
                goal == run_ops(self.remaining(), self.constants(), self.locals(), self.stack(), depth as nat),
                goal == run_ops(
                    old(self).remaining(),
                    old(self).constants(),
                    old(self).locals(),
                    old(self).stack(),
                    depth as nat,
                ),
            decreases self.code().len() - self.ip(),
        {
            let op = self.chunk.code[self.ip];
            let ghost rem = self.remaining();
            let ghost c = self.constants();
            let ghost l = self.locals();
            let ghost s = self.stack();
            assert(rem[0] == op);
            assert(run_ops(rem, c, l, s, depth as nat) == match step(rem[0], c, l, s, depth as nat) {
                Outcome::Running(l2, s2) => run_ops(rem.drop_first(), c, l2, s2, depth as nat),
                other => other,
            });
            assert(rem.drop_first() =~= self.code().subrange((self.ip() + 1) as int, self.code().len() as int));
            self.ip = self.ip + 1;
            let ghost before = self.notes();
            let ghost sn = step_notes(op, c, l, s, depth as nat);
            assert(run_notes(rem, c, l, s, depth as nat) == sn + match step(op, c, l, s, depth as nat) {
                Outcome::Running(l2, s2) => run_notes(rem.drop_first(), c, l2, s2, depth as nat),
                _ => Seq::empty(),
            });
            let r = self.exec_op(op, depth);
            match r {
                Ok(None) => {
                    assert(all_notes =~= self.notes() + run_notes(
                        self.remaining(),
                        self.constants(),
                        self.locals(),
                        self.stack(),
                        depth as nat,
                    ));
                },
                Ok(Some(v)) => {
                    assert(all_notes =~= self.notes());
                    assert(self.notes() + Seq::<Seq<char>>::empty() =~= self.notes());
                    return Ok(Some(v));
                },
                Err(e) => {
                    assert(all_notes =~= self.notes());
                    assert(self.notes() + Seq::<Seq<char>>::empty() =~= self.notes());
                    return Err(e);
                },
            }
        }
        assert(self.remaining() =~= Seq::<Opcode>::empty());
        assert(all_notes =~= self.notes());
        Ok(None)
    }

    /// Runs one instruction: `Ok(None)` to go on, `Ok(Some(v))` when it returns `v`.
    #[verifier::rlimit(40)]
    fn exec_op(&mut self, op: Opcode, depth: usize) -> (r: Result<Option<Object>, VmError>)
        ensures
            final(self).chunk == old(self).chunk,
            final(self).ip == old(self).ip,
            match step(op, old(self).constants(), old(self).locals(), old(self).stack(), depth as nat) {
                Outcome::Running(l, s) => r == Ok::<Option<Object>, VmError>(None) && final(self).locals() == l
                    && final(self).stack() == s,
                Outcome::Done(v) => r is Ok && r->Ok_0 is Some && r->Ok_0->Some_0@ == v,
                Outcome::Failed(e) => r == Err::<Option<Object>, VmError>(e),
            },
            final(self).notes() == old(self).notes() + step_notes(
                op,
                old(self).constants(),
                old(self).locals(),
                old(self).stack(),
                depth as nat,
            ),
        decreases depth, 0nat,
    {
        proof {
            assert(self.notes() + Seq::<Seq<char>>::empty() =~= self.notes());
        }
        match op {
            Opcode::Pop => {
                match self.pop() {
                    Some(_) => Ok(None),
                    None => Err(VmError::StackUnderflow),
                }
            },
            Opcode::Nil => {
                self.push(Object::Nil);
                Ok(None)
            },
            Opcode::Load(i) => {
                if i as usize >= self.locals.len() {
                    return Err(VmError::BadSlot);
                }
                let val = match &self.locals[i as usize] {
                    Some(v) => v.deep_clone(),
                    None => return Err(VmError::BadSlot),
                };
                self.push(val);
                Ok(None)
            },
            Opcode::Store(i) => {
                let top = match self.pop() {
                    Some(t) => t,
                    None => return Err(VmError::StackUnderflow),
                };
                let ghost l0 = self.locals();
                let ghost tv = top@;
                let ghost s_after = self.stack();
                let slot = i as usize;
                if slot < self.locals.len() {
                    proof {
                        lemma_slots_view_update(self.locals@, slot as int, top);
                    }
                    self.locals[slot] = Some(top);
                    assert(self.locals() =~= store_slot(l0, slot as nat, tv));
                } else {
                    let ghost start = self.locals@.len();
                    while self.locals.len() < slot
                        invariant
                            self.chunk == old(self).chunk,
                            self.notes == old(self).notes,
                            old(self).notes() + Seq::<Seq<char>>::empty() == old(self).notes(),
                            self.ip == old(self).ip,
                            self.stack() == s_after,
                            start <= self.locals@.len() <= slot,
                            self.locals() == l0 + Seq::new(
                                (self.locals@.len() - start) as nat,
                                |k: int| None::<ObjectView>,
                            ),
                            l0.len() == start,
                        decreases slot - self.locals@.len(),
                    {
                        proof {
                            lemma_slots_view_push(self.locals@, None);
                        }
                        self.locals.push(None);
                        assert(self.locals() =~= l0 + Seq::new(
                            (self.locals@.len() - start) as nat,
                            |k: int| None::<ObjectView>,
                        ));
                    }
                    proof {
                        lemma_slots_view_push(self.locals@, Some(top));
                    }
                    self.locals.push(Some(top));
                    assert(self.locals() =~= store_slot(l0, slot as nat, tv));
                }
                Ok(None)
            },
            Opcode::Constant(i) => {
                if i as usize >= self.chunk.constants.len() {
                    return Err(VmError::BadConstant);
                }
                proof {
                    lemma_objects_view_index(self.chunk.constants@, i as int);
                }
                let val = self.chunk.constants[i as usize].deep_clone();
                self.push(val);
                Ok(None)
            },
            Opcode::Struct(s) => {
                let ghost s0 = self.stack();
                let mut fields: Vec<(QualifiedName, Object)> = Vec::new();
                let mut j: u32 = 0;
                assert(fields_view(fields@) =~= Seq::<(Seq<char>, ObjectView)>::empty());
                while j < s
                    invariant
                        j <= s,
                        op == Opcode::Struct(s),
                        s0 == old(self).stack(),
                        self.chunk == old(self).chunk,
                        self.notes == old(self).notes,
                        old(self).notes() + Seq::<Seq<char>>::empty() == old(self).notes(),
                        self.ip == old(self).ip,
                        self.locals == old(self).locals,
                        pop_fields(s0, s as nat) == match pop_fields(self.stack(), (s - j) as nat) {
                            Ok((f, rest)) => Ok((fields_view(fields@) + f, rest)),
                            Err(e) => Err(e),
                        },
                    decreases s - j,
                {
                    let ghost st = self.stack();
                    if self.stack.len() < 2 {
                        assert(pop_fields(st, (s - j) as nat) == Err::<
                            (Seq<(Seq<char>, ObjectView)>, Seq<ObjectView>),
                            VmError,
                        >(VmError::StackUnderflow));
                        return Err(VmError::StackUnderflow);
                    }
                    let field = match self.pop() {
                        Some(f) => f,
                        None => return Err(VmError::StackUnderflow),
                    };
                    let name = match field {
                        Object::String(n) => n,
                        _ => {
                            assert(!(st.last() is Text));
                            assert(pop_fields(st, (s - j) as nat) == Err::<
                                (Seq<(Seq<char>, ObjectView)>, Seq<ObjectView>),
                                VmError,
                            >(VmError::BadOperands));
                            return Err(VmError::BadOperands);
                        },
                    };
                    let val = match self.pop() {
                        Some(v) => v,
                        None => return Err(VmError::StackUnderflow),
                    };
                    let ghost fv = fields_view(fields@);
                    fields.push((QualifiedName(name), val));
                    proof {
                        assert(fields_view(fields@) =~= fv.push((name@, val@)));
                        assert(st.subrange(0, st.len() - 2) =~= self.stack());
                        match pop_fields(self.stack(), (s - j - 1) as nat) {
                            Ok((f, rest)) => {
                                assert(fv + (seq![(name@, val@)] + f) =~= fields_view(fields@) + f);
                            },
                            Err(e) => {},
                        }
                    }
                    j = j + 1;
                }
                assert(fields_view(fields@) + Seq::<(Seq<char>, ObjectView)>::empty() =~= fields_view(fields@));
                self.push(Object::Struct(fields));
                Ok(None)
            },
            Opcode::Array(s) => {
                let ghost s0 = self.stack();
                if (s as usize) > self.stack.len() {
                    return Err(VmError::StackUnderflow);
                }
                let mut arr: Vec<Object> = Vec::new();
                let mut j: u32 = 0;
                while j < s
                    invariant
                        j <= s,
                        s <= s0.len(),
                        self.chunk == old(self).chunk,
                        self.notes == old(self).notes,
                        old(self).notes() + Seq::<Seq<char>>::empty() == old(self).notes(),
                        self.ip == old(self).ip,
                        self.locals == old(self).locals,
                        self.stack() == s0.subrange(0, s0.len() - j),
                        objects_view(arr@) == popped(s0, j as nat),
                    decreases s - j,
                {
                    let v = match self.pop() {
                        Some(v) => v,
                        None => return Err(VmError::StackUnderflow),
                    };
                    proof {
                        lemma_objects_view_push(arr@, v);
                    }
                    arr.push(v);
                    assert(objects_view(arr@) =~= popped(s0, (j + 1) as nat));
                    assert(self.stack() =~= s0.subrange(0, s0.len() - (j + 1)));
                    j = j + 1;
                }
                self.push(Object::Array(arr));
                Ok(None)
            },
            Opcode::Call => {
                let ghost st = self.stack();
                let fun = match self.pop() {
                    Some(f) => f,
                    None => return Err(VmError::StackUnderflow),
                };
                match fun {
                    Object::Function(arity, name, chunk, _) => {
                        if (arity as usize) > self.stack.len() {
                            return Err(VmError::StackUnderflow);
                        }
                        if depth == 0 {
                            return Err(VmError::CallDepth);
                        }
                        let split = self.stack.len() - arity as usize;
                        let ghost rest = self.stack@;
                        let args = self.stack.split_off(split);
                        proof {
                            lemma_objects_view_subrange(rest, split as int, rest.len() as int);
                            lemma_objects_view_subrange(rest, 0, split as int);
                        }
                        let slots = into_slots(args);
                        let mut frame = Frame {
                            chunk,
                            ip: 0,
                            locals: slots,
                            stack: Vec::new(),
                            name,
                            notes: Vec::new(),
                            debug: self.debug,
                        };
                        assert(objects_view(frame.stack@) =~= Seq::<ObjectView>::empty());
                        assert(frame.remaining() =~= frame.code());
                        let ghost f0 = frame;
                        let result = frame.execute(depth - 1);
                        let ghost fnotes = frame.notes();
                        assert(Seq::<Seq<char>>::empty() + run_notes(
                            f0.remaining(),
                            f0.constants(),
                            f0.locals(),
                            f0.stack(),
                            (depth - 1) as nat,
                        ) =~= fnotes);
                        let ghost before = self.notes@;
                        let ghost fv = frame.notes@;
                        self.notes.append(&mut frame.notes);
                        assert(self.notes@ == before + fv);
                        assert(self.notes() =~= crate::compiler::strings_view(before) + fnotes);
                        match result {
                            Ok(Some(v)) => {
                                self.push(v);
                                Ok(None)
                            },
                            Ok(None) => Err(VmError::NoReturn),
                            Err(e) => Err(e),
                        }
                    },
                    _ => {
                        let mut note = String::from_str("Could not execute ");
                        let text = JsonFmt::new().format(&fun);
                        note.append(text.as_str());
                        self.notes.push(note);
                        assert(self.notes@.subrange(0, self.notes@.len() - 1) =~= old(self).notes@);
                        assert(self.notes() =~= old(self).notes().push(uncallable_note(old(self).stack().last())));
                        assert(self.notes().subrange(0, old(self).notes().len() as int) =~= old(self).notes());
                        Ok(None)
                    },
                }
            },
            Opcode::Add => {
                let ghost st = self.stack();
                let left = match self.pop() {
                    Some(v) => v,
                    None => return Err(VmError::StackUnderflow),
                };
                let right = match self.pop() {
                    Some(v) => v,
                    None => return Err(VmError::StackUnderflow),
                };
                assert(st.subrange(0, st.len() - 2) =~= self.stack());
                let v = match (left, right) {
                    (Object::Num(a), Object::Num(b)) => match a.checked_add(b) {
                        Some(c) => Object::Num(c),
                        None => return Err(VmError::NumberOverflow),
                    },
                    (Object::String(a), Object::String(b)) => Object::String(a.concat(b.as_str())),
                    _ => return Err(VmError::BadOperands),
                };
                self.push(v);
                Ok(None)
            },
            Opcode::Multiply => {
                let ghost st = self.stack();
                let left = match self.pop() {
                    Some(v) => v,
                    None => return Err(VmError::StackUnderflow),
                };
                let right = match self.pop() {
                    Some(v) => v,
                    None => return Err(VmError::StackUnderflow),
                };
                assert(st.subrange(0, st.len() - 2) =~= self.stack());
                let v = match (left, right) {
                    (Object::Num(a), Object::Num(b)) => match a.checked_mul(b) {
                        Some(c) => Object::Num(c),
                        None => return Err(VmError::NumberOverflow),
                    },
                    _ => return Err(VmError::BadOperands),
                };
                self.push(v);
                Ok(None)
            },
            Opcode::Return => {
                if self.stack.len() == 0 {
                    return Err(VmError::StackUnderflow);
                }
                proof {
                    lemma_objects_view_index(self.stack@, 0);
                }
                Ok(Some(self.stack[0].deep_clone()))
            },
        }
    }
}

/// The machine: a stack of frames, the last one current.
pub struct VM {
    frames: Vec<Frame>,
}

impl VM {
    /// The frames, outermost first.
    pub closed spec fn frames(&self) -> Seq<Frame> {
        self.frames@
    }

    /// A machine about to run `chunk` as the program.
    pub fn init(chunk: Chunk, debug: bool) -> (r: VM)
        ensures
            r.frames().len() == 1,
            r.frames()[0].code() == chunk@.code,
            r.frames()[0].constants() == chunk@.constants,
            r.frames()[0].ip() == 0,
            r.frames()[0].locals() == Seq::<Option<ObjectView>>::empty(),
            r.frames()[0].stack() == Seq::<ObjectView>::empty(),
            r.frames()[0].notes() == Seq::<Seq<char>>::empty(),
    {
        VM { frames: vec![Frame::init(chunk, debug)] }
    }

    /// Diagnostics of the run so far, from the outermost frame.
    pub fn diagnostics(&self) -> (r: Vec<String>)
        ensures
            self.frames().len() > 0 ==> crate::compiler::strings_view(r@) == self.frames()[0].notes(),
    {
        if self.frames.len() > 0 {
            self.frames[0].diagnostics()
        } else {
            Vec::new()
        }
    }

    /// Runs the program to its result: nothing when it ends without returning.
    pub fn run(&mut self) -> (r: Result<Option<Object>, VmError>)
        requires
            old(self).frames().len() == 1,
            old(self).frames()[0].ip() == 0,
            old(self).frames()[0].locals() == Seq::<Option<ObjectView>>::empty(),
            old(self).frames()[0].stack() == Seq::<ObjectView>::empty(),
        ensures
            program_agrees(
                r,
                program_result(
                    run_ops(
                        old(self).frames()[0].code(),
                        old(self).frames()[0].constants(),
                        Seq::empty(),
                        Seq::empty(),
                        MAX_CALL_DEPTH as nat,
                    ),
                ),
            ),
            final(self).frames().len() == 1,
            final(self).frames()[0].notes() == old(self).frames()[0].notes() + run_notes(
                old(self).frames()[0].code(),
                old(self).frames()[0].constants(),
                Seq::empty(),
                Seq::empty(),
                MAX_CALL_DEPTH as nat,
            ),
    {
        let last = self.frames.len() - 1;
        let ghost f0 = self.frames@[0];
        assert(f0.remaining() =~= f0.code());
        self.frames[last].run_to_end()
    }
}

/// Runs a compiled program: its top-level chunk, with no locals. Diagnostics of the
/// run (calls of values that are not functions) are appended to `notes`.
pub fn execute(chunk: Chunk, notes: &mut Vec<String>) -> (r: Result<Option<Object>, VmError>)
    ensures
        program_agrees(
            r,
            program_result(
                run_ops(chunk@.code, chunk@.constants, Seq::empty(), Seq::empty(), MAX_CALL_DEPTH as nat),
            ),
        ),
        crate::compiler::strings_view(final(notes)@) == crate::compiler::strings_view(old(notes)@)
            + run_notes(chunk@.code, chunk@.constants, Seq::empty(), Seq::empty(), MAX_CALL_DEPTH as nat),
{
    let mut vm = VM::init(chunk, false);
    let r = vm.run();
    let mut found = vm.diagnostics();
    let ghost before = notes@;
    let ghost fv = found@;
    notes.append(&mut found);
    assert(notes@ == before + fv);
    assert(crate::compiler::strings_view(notes@) =~= crate::compiler::strings_view(before)
        + crate::compiler::strings_view(fv));
    assert(Seq::<Seq<char>>::empty() + run_notes(chunk@.code, chunk@.constants, Seq::empty(), Seq::empty(), MAX_CALL_DEPTH as nat)
        =~= run_notes(chunk@.code, chunk@.constants, Seq::empty(), Seq::empty(), MAX_CALL_DEPTH as nat));
    r
}

} // verus!
