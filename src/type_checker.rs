//! Static checking: assigns a type to every expression, in a chain of lexical scopes,
//! and stops at the first violation.
use vstd::prelude::*;
use crate::ast::{field_position, first_field, name_listed, Expr, Field, Program, Statement};
use crate::number::Number;
use crate::object::{object_view, Object, ObjectView};
use crate::token::{Token, TokenType};
use crate::types::{
    decls_view, inferable, type_text, BuiltinType, FieldDeclaration, Type, TypeView,
};

verus! {

/// Mathematical model of a `TypeError`: what went wrong, with its details.
pub enum TypeErrorKind {
    Unresolved(Seq<char>),
    NotCallable,
    OperandMismatch(nat),
    ArrayElementMismatch,
    MissingField(Seq<char>),
    FieldTypeMismatch(nat, Seq<char>, Seq<char>),
    NotAStruct(Seq<char>),
    InvalidLiteral,
    MissingInitializer(Seq<char>),
    UnknownField(Seq<char>),
    DuplicateField(Seq<char>),
}

/// The first violation found by the checker.
#[derive(Debug)]
pub enum TypeError {
    /// A name that no enclosing scope declares.
    Unresolved(String),
    /// A call of something that is not a function.
    NotCallable,
    /// Operands that the operator does not take; the operator's line.
    OperandMismatch(usize),
    /// An array literal whose entries have different types.
    ArrayElementMismatch,
    /// A declared field missing from a struct literal.
    MissingField(String),
    /// Line, declared type and found type of a struct literal's field.
    FieldTypeMismatch(usize, String, String),
    /// A struct literal whose name is not a struct.
    NotAStruct(String),
    /// A literal value that the parser never produces.
    InvalidLiteral,
    /// A variable declared without an initial value.
    MissingInitializer(String),
    /// A field of a struct literal that the struct does not declare.
    UnknownField(String),
    /// A field written twice in one struct literal.
    DuplicateField(String),
}

impl TypeError {
    pub open spec fn kind(&self) -> TypeErrorKind {
        match self {
            TypeError::Unresolved(n) => TypeErrorKind::Unresolved(n@),
            TypeError::NotCallable => TypeErrorKind::NotCallable,
            TypeError::OperandMismatch(l) => TypeErrorKind::OperandMismatch(*l as nat),
            TypeError::ArrayElementMismatch => TypeErrorKind::ArrayElementMismatch,
            TypeError::MissingField(n) => TypeErrorKind::MissingField(n@),
            TypeError::FieldTypeMismatch(l, e, f) => TypeErrorKind::FieldTypeMismatch(*l as nat, e@, f@),
            TypeError::NotAStruct(n) => TypeErrorKind::NotAStruct(n@),
            TypeError::InvalidLiteral => TypeErrorKind::InvalidLiteral,
            TypeError::MissingInitializer(n) => TypeErrorKind::MissingInitializer(n@),
            TypeError::UnknownField(n) => TypeErrorKind::UnknownField(n@),
            TypeError::DuplicateField(n) => TypeErrorKind::DuplicateField(n@),
        }
    }

    /// The diagnostic for the error; where it has a line, the line is not part of it.
    pub fn message(&self) -> (r: String)
        ensures
            r@ == error_text(self.kind()),
    {
        match self {
            TypeError::Unresolved(n) => quoted("Variable '", n, "' not found."),
            TypeError::NotCallable => String::from_str("Only functions can be called."),
            TypeError::OperandMismatch(_) => String::from_str("Operands do not fit the operator."),
            TypeError::ArrayElementMismatch => String::from_str("Literal array can only have a single type"),
            TypeError::MissingField(n) => quoted("Missing field '", n, "' in struct literal."),
            TypeError::FieldTypeMismatch(_, e, f) => {
                let mut r = quoted("Expected '", e, "', got '");
                r.append(f.as_str());
                r.append("'");
                r
            },
            TypeError::NotAStruct(n) => quoted("Could not find structure declaration for '", n, "'."),
            TypeError::InvalidLiteral => String::from_str("Invalid literal value."),
            TypeError::MissingInitializer(n) => quoted("Variable '", n, "' is declared without a value."),
            TypeError::UnknownField(n) => quoted("Struct has no field '", n, "'."),
            TypeError::DuplicateField(n) => quoted("Field '", n, "' is written twice."),
        }
    }
}

fn quoted(before: &str, name: &String, after: &str) -> (r: String)
    ensures
        r@ == before@ + name@ + after@,
{
    let mut r = String::from_str(before);
    r.append(name.as_str());
    r.append(after);
    r
}

/// The diagnostic for a type error, without its line.
pub open spec fn error_text(k: TypeErrorKind) -> Seq<char> {
    match k {
        TypeErrorKind::Unresolved(n) => "Variable '"@ + n + "' not found."@,
        TypeErrorKind::NotCallable => "Only functions can be called."@,
        TypeErrorKind::OperandMismatch(_) => "Operands do not fit the operator."@,
        TypeErrorKind::ArrayElementMismatch => "Literal array can only have a single type"@,
        TypeErrorKind::MissingField(n) => "Missing field '"@ + n + "' in struct literal."@,
        TypeErrorKind::FieldTypeMismatch(_, e, f) => "Expected '"@ + e + "', got '"@ + f + "'"@,
        TypeErrorKind::NotAStruct(n) => "Could not find structure declaration for '"@ + n + "'."@,
        TypeErrorKind::InvalidLiteral => "Invalid literal value."@,
        TypeErrorKind::MissingInitializer(n) => "Variable '"@ + n + "' is declared without a value."@,
        TypeErrorKind::UnknownField(n) => "Struct has no field '"@ + n + "'."@,
        TypeErrorKind::DuplicateField(n) => "Field '"@ + n + "' is written twice."@,
    }
}

/// The newest binding of `name` in one scope frame.
pub open spec fn find_in_frame(f: Seq<(Seq<char>, TypeView)>, name: Seq<char>) -> Option<
    TypeView,
>
    decreases f.len(),
{
    if f.len() == 0 {
        None
    } else if f.last().0 == name {
        Some(f.last().1)
    } else {
        find_in_frame(f.drop_last(), name)
    }
}

/// Scope lookup: the innermost frame (the last one) first, then outwards.
pub open spec fn lookup(frames: Seq<Seq<(Seq<char>, TypeView)>>, name: Seq<char>) -> Option<
    TypeView,
>
    decreases frames.len(),
{
    if frames.len() == 0 {
        None
    } else {
        match find_in_frame(frames.last(), name) {
            Some(t) => Some(t),
            None => lookup(frames.drop_last(), name),
        }
    }
}

/// Binds `name` to `t` in the innermost frame.
pub open spec fn bind(frames: Seq<Seq<(Seq<char>, TypeView)>>, name: Seq<char>, t: TypeView) -> Seq<
    Seq<(Seq<char>, TypeView)>,
> {
    frames.update(frames.len() - 1, frames.last().push((name, t)))
}

pub open spec fn num_type() -> TypeView {
    TypeView::Builtin(BuiltinType::Num)
}

pub open spec fn text_type() -> TypeView {
    TypeView::Builtin(BuiltinType::String)
}

/// The operand types that each arithmetic operator takes.
pub open spec fn operands_fit(kind: TokenType, l: TypeView, r: TypeView) -> bool {
    match kind {
        TokenType::Plus => (l == num_type() && r == num_type()) || (l == text_type() && r
            == text_type()),
        TokenType::Minus | TokenType::Star | TokenType::Slash => l == num_type() && r
            == num_type(),
        _ => false,
    }
}

/// The type of a literal value.
pub open spec fn literal_type(o: ObjectView) -> Result<TypeView, TypeErrorKind> {
    match o {
        ObjectView::Num(_) => Ok(num_type()),
        ObjectView::Text(_) => Ok(text_type()),
        ObjectView::Nil => Ok(TypeView::Nullable(Box::new(TypeView::Infer))),
        _ => Err(TypeErrorKind::InvalidLiteral),
    }
}

/// The type of an expression under the scope frames `frames`.
pub open spec fn expr_type(e: Expr, frames: Seq<Seq<(Seq<char>, TypeView)>>) -> Result<
    TypeView,
    TypeErrorKind,
>
    decreases e, 0nat,
{
    match e {
        Expr::Call(callee, _) => match expr_type(*callee, frames) {
            Ok(TypeView::Fn(ret)) => Ok(*ret),
            Ok(_) => Err(TypeErrorKind::NotCallable),
            Err(k) => Err(k),
        },
        Expr::Binary(left, op, right) => match expr_type(*left, frames) {
            Err(k) => Err(k),
            Ok(lt) => match expr_type(*right, frames) {
                Err(k) => Err(k),
                Ok(rt) => if lt == rt && operands_fit(op.kind, lt, rt) {
                    Ok(lt)
                } else {
                    Err(TypeErrorKind::OperandMismatch(op.line as nat))
                },
            },
        },
        Expr::Struct(name, fields) => match lookup(frames, name.lexeme@) {
            None => Err(TypeErrorKind::Unresolved(name.lexeme@)),
            Some(TypeView::Struct(decls)) => match struct_fields_check(decls, 0, fields@, frames) {
                Some(k) => Err(k),
                None => match extra_fields_check(decl_field_names(decls), fields@, 0) {
                    Some(k) => Err(k),
                    None => Ok(TypeView::Struct(decls)),
                },
            },
            Some(_) => Err(TypeErrorKind::NotAStruct(name.lexeme@)),
        },
        Expr::Grouping(inner) => expr_type(*inner, frames),
        Expr::Array(entries) => match array_type(entries@, 0, TypeView::Infer, frames) {
            Ok(t) => Ok(TypeView::Nested(Box::new(TypeView::Builtin(BuiltinType::Array)), Box::new(t))),
            Err(k) => Err(k),
        },
        Expr::Literal(o) => literal_type(o@),
        Expr::Variable(name) => match lookup(frames, name.lexeme@) {
            Some(t) => Ok(t),
            None => Err(TypeErrorKind::Unresolved(name.lexeme@)),
        },
    }
}

/// The names of a struct's declared fields, in order.
pub open spec fn decl_field_names(decls: Seq<(Seq<char>, TypeView)>) -> Seq<Seq<char>> {
    Seq::new(decls.len(), |j: int| decls[j].0)
}

/// Checks the fields `fields[i..]` of a struct literal against the declared names:
/// each must be declared and written once. The first violation, if any.
pub open spec fn extra_fields_check(names: Seq<Seq<char>>, fields: Seq<Field>, i: nat) -> Option<
    TypeErrorKind,
>
    decreases fields.len() - i,
{
    if i >= fields.len() {
        None
    } else if !names.contains(fields[i as int].0.lexeme@) {
        Some(TypeErrorKind::UnknownField(fields[i as int].0.lexeme@))
    } else if first_field(fields, fields[i as int].0.lexeme@, 0) != Some(i) {
        Some(TypeErrorKind::DuplicateField(fields[i as int].0.lexeme@))
    } else {
        extra_fields_check(names, fields, i + 1)
    }
}

/// Checks the declared fields `decls[j..]` against a struct literal's fields;
/// the first violation, if any.
pub open spec fn struct_fields_check(
    decls: Seq<(Seq<char>, TypeView)>,
    j: nat,
    fields: Seq<Field>,
    frames: Seq<Seq<(Seq<char>, TypeView)>>,
) -> Option<TypeErrorKind>
    decreases fields, decls.len() - j,
{
    if j >= decls.len() {
        None
    } else {
        match first_field(fields, decls[j as int].0, 0) {
            None => Some(TypeErrorKind::MissingField(decls[j as int].0)),
            Some(i) => if i < fields.len() {
                match expr_type(fields[i as int].1, frames) {
                    Err(k) => Some(k),
                    Ok(t) => if !inferable(decls[j as int].1, t) {
                        Some(
                            TypeErrorKind::FieldTypeMismatch(
                                fields[i as int].0.line as nat,
                                type_text(decls[j as int].1),
                                type_text(t),
                            ),
                        )
                    } else {
                        struct_fields_check(decls, j + 1, fields, frames)
                    },
                }
            } else {
                None
            },
        }
    }
}

/// The common element type of `entries[i..]`, given the one found so far; `Infer`
/// entries match anything.
pub open spec fn array_type(
    entries: Seq<Expr>,
    i: nat,
    acc: TypeView,
    frames: Seq<Seq<(Seq<char>, TypeView)>>,
) -> Result<TypeView, TypeErrorKind>
    decreases entries, entries.len() - i,
{
    if i >= entries.len() {
        Ok(acc)
    } else {
        match expr_type(entries[i as int], frames) {
            Err(k) => Err(k),
            Ok(t) => if t == TypeView::Infer {
                array_type(entries, i + 1, acc, frames)
            } else if acc == TypeView::Infer {
                array_type(entries, i + 1, t, frames)
            } else if acc != t {
                Err(TypeErrorKind::ArrayElementMismatch)
            } else {
                array_type(entries, i + 1, acc, frames)
            },
        }
    }
}

/// The scope frames after checking a statement.
pub open spec fn stmt_check(s: Statement, frames: Seq<Seq<(Seq<char>, TypeView)>>) -> Result<
    Seq<Seq<(Seq<char>, TypeView)>>,
    TypeErrorKind,
>
    decreases s, 0nat,
{
    match s {
        Statement::Variable(_, name, init) => match init {
            None => Err(TypeErrorKind::MissingInitializer(name.lexeme@)),
            Some(e) => match expr_type(e, frames) {
                Ok(t) => Ok(bind(frames, name.lexeme@, t)),
                Err(k) => Err(k),
            },
        },
        Statement::Expr(e) => match expr_type(e, frames) {
            Ok(_) => Ok(frames),
            Err(k) => Err(k),
        },
        Statement::Struct(_, name, decls) => Ok(
            bind(frames, name.lexeme@, TypeView::Struct(decls_view(decls@))),
        ),
        Statement::Fn(_, name, _, ret, _) => Ok(
            bind(frames, name.lexeme@, TypeView::Fn(Box::new(ret@))),
        ),
        Statement::Block(body) => match stmts_check(body@, 0, frames.push(Seq::empty())) {
            Ok(inner) => Ok(inner.drop_last()),
            Err(k) => Err(k),
        },
        Statement::Return(_) | Statement::Import(_, _) | Statement::For(_, _, _) => Ok(frames),
    }
}

/// The scope frames after checking `body[i..]` in order.
pub open spec fn stmts_check(
    body: Seq<Statement>,
    i: nat,
    frames: Seq<Seq<(Seq<char>, TypeView)>>,
) -> Result<Seq<Seq<(Seq<char>, TypeView)>>, TypeErrorKind>
    decreases body, body.len() - i,
{
    if i >= body.len() {
        Ok(frames)
    } else {
        match stmt_check(body[i as int], frames) {
            Ok(f) => stmts_check(body, i + 1, f),
            Err(k) => Err(k),
        }
    }
}

/// Checking a statement keeps the number of frames and changes the innermost one only.
pub proof fn lemma_stmt_check_frames(s: Statement, frames: Seq<Seq<(Seq<char>, TypeView)>>)
    requires
        frames.len() >= 1,
    ensures
        stmt_check(s, frames) is Ok ==> stmt_check(s, frames)->Ok_0.len() == frames.len()
            && stmt_check(s, frames)->Ok_0.drop_last() == frames.drop_last(),
    decreases s, 0nat,
{
    match s {
        Statement::Block(body) => {
            let inner = frames.push(Seq::empty());
            lemma_stmts_check_frames(body@, 0, inner);
            assert(inner.drop_last() =~= frames);
        },
        Statement::Variable(_, name, Some(e)) => {
            if let Ok(t) = expr_type(e, frames) {
                assert(bind(frames, name.lexeme@, t).drop_last() =~= frames.drop_last());
            }
        },
        Statement::Struct(_, name, decls) => {
            assert(bind(frames, name.lexeme@, TypeView::Struct(decls_view(decls@))).drop_last()
                =~= frames.drop_last());
        },
        Statement::Fn(_, name, _, ret, _) => {
            assert(bind(frames, name.lexeme@, TypeView::Fn(Box::new(ret@))).drop_last()
                =~= frames.drop_last());
        },
        _ => {},
    }
}

pub proof fn lemma_stmts_check_frames(
    body: Seq<Statement>,
    i: nat,
    frames: Seq<Seq<(Seq<char>, TypeView)>>,
)
    requires
        frames.len() >= 1,
    ensures
        stmts_check(body, i, frames) is Ok ==> stmts_check(body, i, frames)->Ok_0.len()
            == frames.len() && stmts_check(body, i, frames)->Ok_0.drop_last() == frames.drop_last(),
    decreases body, body.len() - i,
{
    if i < body.len() {
        lemma_stmt_check_frames(body[i as int], frames);
        if let Ok(f) = stmt_check(body[i as int], frames) {
            lemma_stmts_check_frames(body, i + 1, f);
        }
    }
}

/// Inside a block, a name declared there hides the same name declared outside.
pub proof fn lemma_inner_binding_hides_outer(
    frames: Seq<Seq<(Seq<char>, TypeView)>>,
    name: Seq<char>,
    inner: TypeView,
)
    ensures
        lookup(bind(frames.push(Seq::empty()), name, inner), name) == Some(inner),
{
    let f = bind(frames.push(Seq::empty()), name, inner);
    assert(f.last() == seq![(name, inner)]);
}

/// A binding in the innermost frame shadows every binding of the same name in the
/// frames around it.
pub proof fn lemma_innermost_frame_first(
    frames: Seq<Seq<(Seq<char>, TypeView)>>,
    inner: Seq<(Seq<char>, TypeView)>,
    name: Seq<char>,
)
    requires
        find_in_frame(inner, name) is Some,
    ensures
        lookup(frames.push(inner), name) == find_in_frame(inner, name),
{
    assert(frames.push(inner).last() == inner);
}

/// A block's declarations end with it: after the block every name resolves as it
/// did before, whatever the block declared, shadowing names included.
pub proof fn lemma_block_keeps_outer_bindings(
    body: Seq<Statement>,
    frames: Seq<Seq<(Seq<char>, TypeView)>>,
)
    requires
        frames.len() >= 1,
        stmts_check(body, 0, frames.push(Seq::empty())) is Ok,
    ensures
        stmts_check(body, 0, frames.push(Seq::empty()))->Ok_0.drop_last() == frames,
        forall|name: Seq<char>|
            lookup(stmts_check(body, 0, frames.push(Seq::empty()))->Ok_0.drop_last(), name)
                == #[trigger] lookup(frames, name),
{
    let inner = frames.push(Seq::empty());
    lemma_stmts_check_frames(body, 0, inner);
    assert(inner.drop_last() =~= frames);
}

/// A `+` of a number and a text, in either order, is a type error.
pub proof fn lemma_number_plus_text_rejected(
    left: Expr,
    op: Token,
    right: Expr,
    frames: Seq<Seq<(Seq<char>, TypeView)>>,
)
    requires
        op.kind == TokenType::Plus,
        (expr_type(left, frames) == Ok::<TypeView, TypeErrorKind>(num_type()) && expr_type(right, frames)
            == Ok::<TypeView, TypeErrorKind>(text_type())) || (expr_type(left, frames) == Ok::<
            TypeView,
            TypeErrorKind,
        >(text_type()) && expr_type(right, frames) == Ok::<TypeView, TypeErrorKind>(num_type())),
    ensures
        expr_type(Expr::Binary(Box::new(left), op, Box::new(right)), frames) == Err::<
            TypeView,
            TypeErrorKind,
        >(TypeErrorKind::OperandMismatch(op.line as nat)),
        stmt_check(Statement::Expr(Expr::Binary(Box::new(left), op, Box::new(right))), frames)
            is Err,
{
}

/// One frame of the checker's scope chain, linked to the frame around it.
#[derive(Debug)]
pub struct Scope {
    enclosing: Option<Box<Scope>>,
    variables: Vec<(Token, Type)>,
}

pub open spec fn vars_view(v: Seq<(Token, Type)>) -> Seq<(Seq<char>, TypeView)> {
    Seq::new(v.len(), |i: int| (v[i].0.lexeme@, v[i].1@))
}

impl Scope {
    /// The frames of the chain, outermost first.
    pub closed spec fn frames(&self) -> Seq<Seq<(Seq<char>, TypeView)>>
        decreases self,
    {
        match self.enclosing {
            Some(b) => b.frames().push(vars_view(self.variables@)),
            None => seq![vars_view(self.variables@)],
        }
    }

    /// A chain has at least one frame.
    pub proof fn lemma_has_frame(&self)
        ensures
            self.frames().len() >= 1,
    {
        self.lemma_frames_shape();
    }

    proof fn lemma_frames_shape(&self)
        ensures
            self.frames().len() >= 1,
            self.frames().last() == vars_view(self.variables@),
            self.enclosing is None <==> self.frames().len() == 1,
            self.enclosing is Some ==> self.frames().drop_last()
                == self.enclosing->Some_0.frames(),
        decreases self,
    {
        if let Some(b) = self.enclosing {
            b.lemma_frames_shape();
            assert(self.frames().drop_last() =~= b.frames());
        }
    }

    /// A chain of one empty frame.
    pub fn new() -> (r: Scope)
        ensures
            r.frames() == seq![Seq::<(Seq<char>, TypeView)>::empty()],
    {
        let r = Scope { enclosing: None, variables: Vec::new() };
        assert(vars_view(r.variables@) =~= Seq::<(Seq<char>, TypeView)>::empty());
        r
    }

    /// The type bound to `token`'s name, innermost frame first.
    pub fn find(&self, token: &Token) -> (r: Option<Type>)
        ensures
            r is Some == lookup(self.frames(), token.lexeme@) is Some,
            r is Some ==> r->Some_0@ == lookup(self.frames(), token.lexeme@)->Some_0,
        decreases self,
    {
        proof {
            self.lemma_frames_shape();
        }
        let ghost vv = vars_view(self.variables@);
        let mut i: usize = self.variables.len();
        assert(vv.subrange(0, i as int) =~= vv);
        while i > 0
            invariant
                i <= self.variables@.len(),
                vv == vars_view(self.variables@),
                find_in_frame(vv, token.lexeme@) == find_in_frame(
                    vv.subrange(0, i as int),
                    token.lexeme@,
                ),
            decreases i,
        {
            let ghost pre = vv.subrange(0, i as int);
            if self.variables[i - 1].0.lexeme == token.lexeme {
                return Some(self.variables[i - 1].1.deep_clone());
            }
            assert(pre.drop_last() =~= vv.subrange(0, i - 1));
            i = i - 1;
        }
        assert(vv.subrange(0, 0) =~= Seq::<(Seq<char>, TypeView)>::empty());
        match &self.enclosing {
            Some(b) => b.find(token),
            None => None,
        }
    }

    /// Binds `token`'s name to `ty` in the innermost frame.
    fn declare(&mut self, token: &Token, ty: Type)
        ensures
            final(self).frames() == bind(old(self).frames(), token.lexeme@, ty@),
    {
        proof {
            self.lemma_frames_shape();
        }
        self.variables.push((token.duplicate(), ty));
        proof {
            self.lemma_frames_shape();
            assert(vars_view(self.variables@) =~= vars_view(old(self).variables@).push(
                (token.lexeme@, ty@),
            ));
            assert(self.frames() =~= bind(old(self).frames(), token.lexeme@, ty@));
        }
    }
}

/// The first field of a struct literal named like the declaration.
fn find_in_fields(fields: &Vec<Field>, declaration: &FieldDeclaration) -> (r: Option<usize>)
    ensures
        r is Some == first_field(fields@, declaration.0.0@, 0) is Some,
        r is Some ==> r->Some_0 == first_field(fields@, declaration.0.0@, 0)->Some_0,
        r is Some ==> r->Some_0 < fields@.len(),
{
    field_position(fields, &declaration.0.0)
}

/// The type of a literal value.
fn object_type(object: &Object) -> (r: Result<Type, TypeError>)
    ensures
        type_result_agrees(r, literal_type(object@)),
{
    proof {
        assert(object@ == object_view(*object));
    }
    match object {
        Object::Num(_) => Ok(Type::Builtin(BuiltinType::Num)),
        Object::String(_) => Ok(Type::Builtin(BuiltinType::String)),
        Object::Nil => {
            let inner = Type::Infer;
            assert(inner@ == TypeView::Infer);
            Ok(Type::Nullable(Box::new(inner)))
        },
        _ => Err(TypeError::InvalidLiteral),
    }
}

/// Whether the operator `op` takes operands of types `left` and `right`.
pub fn op_compatible(op: &Token, left: &Type, right: &Type) -> (r: bool)
    ensures
        r == operands_fit(op.kind, left@, right@),
{
    let is_num = |t: &Type| -> (b: bool)
        ensures
            b == (t@ == num_type()),
        {
            match t {
                Type::Builtin(BuiltinType::Num) => true,
                _ => false,
            }
        };
    let is_text = |t: &Type| -> (b: bool)
        ensures
            b == (t@ == text_type()),
        {
            match t {
                Type::Builtin(BuiltinType::String) => true,
                _ => false,
            }
        };
    match op.kind {
        TokenType::Plus => (is_num(left) && is_num(right)) || (is_text(left) && is_text(right)),
        TokenType::Minus => is_num(left) && is_num(right),
        TokenType::Star => is_num(left) && is_num(right),
        TokenType::Slash => is_num(left) && is_num(right),
        _ => false,
    }
}

/// The outcome of a check step agrees with its specification.
pub open spec fn type_result_agrees(
    r: Result<Type, TypeError>,
    s: Result<TypeView, TypeErrorKind>,
) -> bool {
    match r {
        Ok(t) => s == Ok::<TypeView, TypeErrorKind>(t@),
        Err(e) => s == Err::<TypeView, TypeErrorKind>(e.kind()),
    }
}

pub struct TypeChecker {
    scope: Scope,
    debug: bool,
}

impl TypeChecker {
    /// The checker's scope frames, outermost first.
    pub closed spec fn frames(&self) -> Seq<Seq<(Seq<char>, TypeView)>> {
        self.scope.frames()
    }

    /// A checker always has at least one scope frame.
    pub proof fn lemma_has_frame(&self)
        ensures
            self.frames().len() >= 1,
    {
        self.scope.lemma_has_frame();
    }

    pub fn init(debug: bool) -> (r: TypeChecker)
        ensures
            r.frames() == seq![Seq::<(Seq<char>, TypeView)>::empty()],
    {
        TypeChecker { scope: Scope::new(), debug }
    }

    /// Checks every statement of the program in order, in the checker's scope.
    pub fn check(&mut self, program: &Program) -> (r: Result<(), TypeError>)
        ensures
            r is Ok == stmts_check(program.0@, 0, old(self).frames()) is Ok,
            r is Ok ==> final(self).frames() == stmts_check(program.0@, 0, old(self).frames())->Ok_0,
            r is Err ==> stmts_check(program.0@, 0, old(self).frames()) == Err::<
                Seq<Seq<(Seq<char>, TypeView)>>,
                TypeErrorKind,
            >(r->Err_0.kind()),
    {
        let mut i: usize = 0;
        while i < program.0.len()
            invariant
                i <= program.0@.len(),
                stmts_check(program.0@, 0, old(self).frames()) == stmts_check(
                    program.0@,
                    i as nat,
                    self.frames(),
                ),
            decreases program.0@.len() - i,
        {
            match self.check_statement(&program.0[i]) {
                Ok(()) => {},
                Err(e) => return Err(e),
            }
            i = i + 1;
        }
        Ok(())
    }

    /// Checks one statement and records what it declares.
    pub fn check_statement(&mut self, statement: &Statement) -> (r: Result<(), TypeError>)
        ensures
            r is Ok == stmt_check(*statement, old(self).frames()) is Ok,
            r is Ok ==> final(self).frames() == stmt_check(*statement, old(self).frames())->Ok_0,
            r is Err ==> stmt_check(*statement, old(self).frames()) == Err::<
                Seq<Seq<(Seq<char>, TypeView)>>,
                TypeErrorKind,
            >(r->Err_0.kind()),
        decreases statement,
    {
        match statement {
            Statement::Return(_) => Ok(()),
            Statement::For(_, _, _) => Ok(()),
            Statement::Import(_, _) => Ok(()),
            Statement::Fn(_, name, _args, ret, _body) => {
                self.scope.declare(name, Type::Fn(Box::new(ret.deep_clone())));
                Ok(())
            },
            Statement::Block(statements) => {
                let ghost outer = self.frames();
                let mut inner = Scope::new();
                proof {
                    inner.lemma_frames_shape();
                }
                let ghost empty_vars = inner.variables@;
                std::mem::swap(&mut self.scope, &mut inner);
                self.scope.enclosing = Some(Box::new(inner));
                proof {
                    self.scope.lemma_frames_shape();
                    inner.lemma_frames_shape();
                    assert(self.scope.variables@ == empty_vars);
                    assert(self.frames() =~= outer.push(Seq::empty()));
                }
                let mut i: usize = 0;
                while i < statements.len()
                    invariant
                        *statement == Statement::Block(*statements),
                        i <= statements@.len(),
                        outer == old(self).frames(),
                        outer.len() >= 1,
                        self.frames().len() == outer.len() + 1,
                        stmts_check(statements@, 0, outer.push(Seq::empty())) == stmts_check(
                            statements@,
                            i as nat,
                            self.frames(),
                        ),
                    decreases statements@.len() - i,
                {
                    proof {
                        assert(decreases_to!(*statement => statement->Block_0));
                        assert(decreases_to!(*statements => statements@));
                        assert(decreases_to!(statements@ => statements@[i as int]));
                        lemma_stmt_check_frames(statements@[i as int], self.frames());
                    }
                    match self.check_statement(&statements[i]) {
                        Ok(()) => {},
                        Err(e) => return Err(e),
                    }
                    i = i + 1;
                }
                proof {
                    self.scope.lemma_frames_shape();
                }
                let enclosing = self.scope.enclosing.take();
                match enclosing {
                    Some(b) => {
                        self.scope = *b;
                    },
                    None => {},
                }
                Ok(())
            },
            Statement::Variable(_, token, expr) => {
                match expr {
                    Some(e) => {
                        let ty = self.check_expression(e)?;
                        self.scope.declare(token, ty);
                        Ok(())
                    },
                    None => Err(TypeError::MissingInitializer(token.lexeme.clone())),
                }
            },
            Statement::Expr(expr) => {
                self.check_expression(expr)?;
                Ok(())
            },
            Statement::Struct(_, name, fields) => {
                let mut decls: Vec<FieldDeclaration> = Vec::new();
                let mut i: usize = 0;
                while i < fields.len()
                    invariant
                        i <= fields@.len(),
                        decls@.len() == i,
                        forall|j: int| 0 <= j < i ==> #[trigger] decls@[j].0.0@ == fields@[j].0.0@,
                        forall|j: int| 0 <= j < i ==> #[trigger] decls@[j].1@ == fields@[j].1@,
                    decreases fields@.len() - i,
                {
                    let name = crate::types::QualifiedName(fields[i].0.0.clone());
                    decls.push(FieldDeclaration(name, fields[i].1.deep_clone()));
                    i = i + 1;
                }
                assert(decls_view(decls@).len() == decls@.len());
                assert(forall|j: int|
                    0 <= j < decls@.len() ==> decls_view(decls@)[j] == (
                        decls@[j].0.0@,
                        decls@[j].1@,
                    ));
                assert(decls_view(decls@) =~= decls_view(fields@));
                self.scope.declare(name, Type::Struct(decls));
                Ok(())
            },
        }
    }

    /// The type of an expression in the current scope.
    pub fn check_expression(&self, expr: &Expr) -> (r: Result<Type, TypeError>)
        ensures
            type_result_agrees(r, expr_type(*expr, self.frames())),
        decreases expr,
    {
        match expr {
            Expr::Call(callee, _) => {
                let t = self.check_expression(callee)?;
                match t {
                    Type::Fn(ret) => Ok(*ret),
                    _ => Err(TypeError::NotCallable),
                }
            },
            Expr::Binary(left, op, right) => {
                let l = self.check_expression(left)?;
                let r = self.check_expression(right)?;
                if !l.same_type(&r) || !op_compatible(op, &l, &r) {
                    return Err(TypeError::OperandMismatch(op.line));
                }
                Ok(l)
            },
            Expr::Struct(token, fields) => {
                let found = self.scope.find(token);
                match found {
                    None => Err(TypeError::Unresolved(token.lexeme.clone())),
                    Some(Type::Struct(decls)) => {
                        let ghost dv = decls_view(decls@);
                        assert(lookup(self.frames(), token.lexeme@) == Some(TypeView::Struct(dv)));
                        let mut j: usize = 0;
                        while j < decls.len()
                            invariant
                                *expr == Expr::Struct(*token, *fields),
                                j <= decls@.len(),
                                dv == decls_view(decls@),
                                expr_type(*expr, self.frames()) == match struct_fields_check(
                                    dv,
                                    0,
                                    fields@,
                                    self.frames(),
                                ) {
                                    Some(k) => Err(k),
                                    None => match extra_fields_check(decl_field_names(dv), fields@, 0) {
                                        Some(k) => Err(k),
                                        None => Ok(TypeView::Struct(dv)),
                                    },
                                },
                                struct_fields_check(dv, 0, fields@, self.frames())
                                    == struct_fields_check(dv, j as nat, fields@, self.frames()),
                            decreases decls@.len() - j,
                        {
                            proof {
                                assert(dv[j as int] == (decls@[j as int].0.0@, decls@[j as int].1@));
                            }
                            let i = match find_in_fields(fields, &decls[j]) {
                                Some(i) => i,
                                None => return Err(TypeError::MissingField(decls[j].0.0.clone())),
                            };
                            proof {
                                assert(decreases_to!(*expr => expr->Struct_1));
                                assert(decreases_to!(*fields => fields@));
                                assert(decreases_to!(fields@ => fields@[i as int]));
                            }
                            let field_ty = self.check_expression(&fields[i].1)?;
                            if !decls[j].1.can_be_inferred_from(&field_ty) {
                                return Err(
                                    TypeError::FieldTypeMismatch(
                                        fields[i].0.line,
                                        decls[j].1.print(),
                                        field_ty.print(),
                                    ),
                                );
                            }
                            j = j + 1;
                        }
                        let mut names: Vec<String> = Vec::new();
                        let mut k: usize = 0;
                        let ghost after = expr_type(*expr, self.frames());
                        assert(after == match extra_fields_check(decl_field_names(dv), fields@, 0) {
                            Some(k) => Err(k),
                            None => Ok(TypeView::Struct(dv)),
                        });
                        while k < decls.len()
                            invariant
                                k <= decls@.len(),
                                names@.len() == k,
                                dv == decls_view(decls@),
                                crate::compiler::strings_view(names@) == decl_field_names(dv).subrange(0, k as int),
                            decreases decls@.len() - k,
                        {
                            assert(dv[k as int] == (decls@[k as int].0.0@, decls@[k as int].1@));
                            let ghost before = names@;
                            names.push(decls[k].0.0.clone());
                            assert forall|j: int| 0 <= j < k + 1 implies crate::compiler::strings_view(names@)[j]
                                == decl_field_names(dv).subrange(0, k + 1)[j] by {
                                if j < k {
                                    assert(names@[j] == before[j]);
                                    assert(crate::compiler::strings_view(before)[j] == decl_field_names(dv).subrange(0, k as int)[j]);
                                }
                            }
                            assert(crate::compiler::strings_view(names@) =~= decl_field_names(dv).subrange(0, k + 1));
                            k = k + 1;
                        }
                        assert(decl_field_names(dv).subrange(0, decls@.len() as int) =~= decl_field_names(dv));
                        let ghost dn = decl_field_names(dv);
                        let mut i: usize = 0;
                        while i < fields.len()
                            invariant
                                i <= fields@.len(),
                                dn == crate::compiler::strings_view(names@),
                                extra_fields_check(dn, fields@, 0) == extra_fields_check(dn, fields@, i as nat),
                                dn == decl_field_names(dv),
                                after == expr_type(*expr, self.frames()),
                                after == match extra_fields_check(dn, fields@, 0) {
                                    Some(k) => Err(k),
                                    None => Ok(TypeView::Struct(dv)),
                                },
                            decreases fields@.len() - i,
                        {
                            if !name_listed(&names, &fields[i].0.lexeme) {
                                return Err(TypeError::UnknownField(fields[i].0.lexeme.clone()));
                            }
                            match field_position(fields, &fields[i].0.lexeme) {
                                Some(p) => {
                                    if p != i {
                                        return Err(TypeError::DuplicateField(fields[i].0.lexeme.clone()));
                                    }
                                },
                                None => {
                                    return Err(TypeError::DuplicateField(fields[i].0.lexeme.clone()));
                                },
                            }
                            i = i + 1;
                        }
                        Ok(Type::Struct(decls))
                    },
                    Some(_) => Err(TypeError::NotAStruct(token.lexeme.clone())),
                }
            },
            Expr::Grouping(inner) => self.check_expression(inner),
            Expr::Array(exprs) => {
                let mut ty = Type::Infer;
                let mut i: usize = 0;
                while i < exprs.len()
                    invariant
                        *expr == Expr::Array(*exprs),
                        i <= exprs@.len(),
                        array_type(exprs@, 0, TypeView::Infer, self.frames()) == array_type(
                            exprs@,
                            i as nat,
                            ty@,
                            self.frames(),
                        ),
                    decreases exprs@.len() - i,
                {
                    proof {
                        assert(decreases_to!(*expr => expr->Array_0));
                        assert(decreases_to!(*exprs => exprs@));
                        assert(decreases_to!(exprs@ => exprs@[i as int]));
                    }
                    let item_ty = self.check_expression(&exprs[i])?;
                    if item_ty.is_infer() {
                    } else if ty.is_infer() {
                        ty = item_ty;
                    } else if !ty.same_type(&item_ty) {
                        return Err(TypeError::ArrayElementMismatch);
                    }
                    i = i + 1;
                }
                let base = Type::Builtin(BuiltinType::Array);
                assert(base@ == TypeView::Builtin(BuiltinType::Array));
                Ok(Type::Nested(Box::new(base), Box::new(ty)))
            },
            Expr::Literal(object) => object_type(object),
            Expr::Variable(token) => match self.scope.find(token) {
                Some(t) => Ok(t),
                None => Err(TypeError::Unresolved(token.lexeme.clone())),
            },
        }
    }
}

} // verus!
