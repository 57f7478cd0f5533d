//! The syntax tree handed from the parser to the checker and the code generator.
use vstd::prelude::*;
use crate::object::Object;
use crate::token::Token;
use crate::types::{FieldDeclaration, Type};

verus! {

/// `name: value` inside a struct literal.
#[derive(Debug)]
pub struct Field(pub Token, pub Expr);

#[derive(Debug)]
pub enum Expr {
    /// Callee and arguments.
    Call(Box<Expr>, Vec<Expr>),
    /// Left operand, operator, right operand.
    Binary(Box<Expr>, Token, Box<Expr>),
    /// Struct name and the fields as written.
    Struct(Token, Vec<Field>),
    Grouping(Box<Expr>),
    Array(Vec<Expr>),
    Literal(Object),
    Variable(Token),
}

#[derive(Debug)]
pub enum Statement {
    /// `[pub] let name [= value];`
    Variable(bool, Token, Option<Expr>),
    Return(Expr),
    Expr(Expr),
    /// `[pub] struct Name { field: Type, ... }`
    Struct(bool, Token, Vec<FieldDeclaration>),
    /// `import name from 'module';`
    Import(Token, Token),
    /// Visibility, name, parameters, return type and body of a function.
    Fn(bool, Token, Vec<Token>, Type, Vec<Statement>),
    Block(Vec<Statement>),
    /// Loop variable, iterated expression and body.
    For(Token, Expr, Vec<Statement>),
}

/// Position of the first field of a struct literal named `name`, from `i` on.
pub open spec fn first_field(fields: Seq<Field>, name: Seq<char>, i: nat) -> Option<nat>
    decreases fields.len() - i,
{
    if i >= fields.len() {
        None
    } else if fields[i as int].0.lexeme@ == name {
        Some(i)
    } else {
        first_field(fields, name, i + 1)
    }
}

/// The first field of a struct literal named `name`.
pub fn field_position(fields: &Vec<Field>, name: &String) -> (r: Option<usize>)
    ensures
        r is Some == first_field(fields@, name@, 0) is Some,
        r is Some ==> r->Some_0 == first_field(fields@, name@, 0)->Some_0,
        r is Some ==> r->Some_0 < fields@.len(),
{
    let mut i: usize = 0;
    while i < fields.len()
        invariant
            i <= fields@.len(),
            first_field(fields@, name@, 0) == first_field(fields@, name@, i as nat),
        decreases fields@.len() - i,
    {
        if *name == fields[i].0.lexeme {
            return Some(i);
        }
        i = i + 1;
    }
    None
}

/// `name` is one of `names`.
pub fn name_listed(names: &Vec<String>, name: &String) -> (r: bool)
    ensures
        r == crate::compiler::strings_view(names@).contains(name@),
{
    let ghost sv = crate::compiler::strings_view(names@);
    let mut j: usize = 0;
    while j < names.len()
        invariant
            j <= names@.len(),
            sv == crate::compiler::strings_view(names@),
            forall|k: int| 0 <= k < j ==> sv[k] != name@,
        decreases names@.len() - j,
    {
        if names[j] == *name {
            assert(sv[j as int] == name@);
            return true;
        }
        j = j + 1;
    }
    false
}

/// The first field of a struct literal, from `i` on, whose name is not in `names`.
pub open spec fn undeclared_field(names: Seq<Seq<char>>, fields: Seq<Field>, i: nat) -> Option<nat>
    decreases fields.len() - i,
{
    if i >= fields.len() {
        None
    } else if !names.contains(fields[i as int].0.lexeme@) {
        Some(i)
    } else {
        undeclared_field(names, fields, i + 1)
    }
}

/// The first field of a struct literal whose name is not in `names`.
pub fn find_undeclared(fields: &Vec<Field>, names: &Vec<String>) -> (r: Option<usize>)
    ensures
        r is Some == undeclared_field(crate::compiler::strings_view(names@), fields@, 0) is Some,
        r is Some ==> r->Some_0 == undeclared_field(crate::compiler::strings_view(names@), fields@, 0)->Some_0
            && r->Some_0 < fields@.len(),
{
    let mut i: usize = 0;
    while i < fields.len()
        invariant
            i <= fields@.len(),
            undeclared_field(crate::compiler::strings_view(names@), fields@, 0) == undeclared_field(
                crate::compiler::strings_view(names@),
                fields@,
                i as nat,
            ),
        decreases fields@.len() - i,
    {
        if !name_listed(names, &fields[i].0.lexeme) {
            return Some(i);
        }
        i = i + 1;
    }
    None
}

/// A whole source file.
#[derive(Debug)]
pub struct Program(pub Vec<Statement>);

} // verus!
