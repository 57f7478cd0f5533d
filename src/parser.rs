//! Recursive-descent parser from tokens to the syntax tree.
use vstd::prelude::*;
use crate::ast::{Expr, Field, Program, Statement};
use crate::number::{literal_value, Number};
use crate::object::Object;
use crate::scanner::Scanner;
use crate::token::{Token, TokenType};
use crate::types::{BuiltinType, FieldDeclaration, QualifiedName, Type};

verus! {

/// A syntax error: the line of the offending token and what was expected.
#[derive(Debug)]
pub struct ParseError {
    pub line: usize,
    pub message: String,
}

pub struct Parser {
    scanner: Scanner,
    current: Token,
    debug: bool,
}

impl Parser {
    pub closed spec fn wf(&self) -> bool {
        self.scanner.wf()
    }

    /// What is left to parse: characters not yet scanned, plus the pending token
    /// unless it is the end.
    pub closed spec fn budget(&self) -> nat {
        self.scanner.left() + if self.current.kind == TokenType::Eof {
            0nat
        } else {
            1nat
        }
    }

    /// The pending token.
    pub closed spec fn current(&self) -> Token {
        self.current
    }

    pub fn init(scanner: Scanner, debug: bool, current: Token) -> (r: Parser)
        requires
            scanner.wf(),
        ensures
            r.wf(),
            r.current() == current,
    {
        Parser { scanner, current, debug }
    }

    fn error(&self, msg: &str) -> (r: ParseError)
        ensures
            r.line == self.current.line,
            r.message@ == msg@,
    {
        ParseError { line: self.current.line, message: String::from_str(msg) }
    }

    /// Takes the pending token and scans the next one.
    fn advance(&mut self) -> (r: Token)
        requires
            old(self).wf(),
            old(self).current.kind != TokenType::Eof,
        ensures
            final(self).wf(),
            final(self).budget() < old(self).budget(),
            r == old(self).current,
    {
        proof {
            self.scanner.lemma_pos_in_range();
        }
        let mut next = self.scanner.scan_token();
        proof {
            self.scanner.lemma_pos_in_range();
        }
        std::mem::swap(&mut self.current, &mut next);
        next
    }

    /// Takes the pending token when it is of kind `kind`.
    fn matches(&mut self, kind: TokenType) -> (r: Option<Token>)
        requires
            old(self).wf(),
            kind != TokenType::Eof,
        ensures
            final(self).wf(),
            r is Some == (old(self).current.kind == kind),
            r is Some ==> r->Some_0 == old(self).current && final(self).budget() < old(self).budget(),
            r is None ==> *final(self) == *old(self),
    {
        if self.current.kind == kind {
            Some(self.advance())
        } else {
            None
        }
    }

    /// Takes the pending token, which must be of kind `kind`.
    fn consume(&mut self, kind: TokenType, msg: &str) -> (r: Result<Token, ParseError>)
        requires
            old(self).wf(),
            kind != TokenType::Eof,
        ensures
            final(self).wf(),
            r is Ok == (old(self).current.kind == kind),
            r is Ok ==> r->Ok_0 == old(self).current && final(self).budget() < old(self).budget(),
            r is Err ==> *final(self) == *old(self),
    {
        if self.current.kind == kind {
            Ok(self.advance())
        } else {
            Err(self.error(msg))
        }
    }

    /// Parses the whole source.
    pub fn parse(&mut self) -> (r: Result<Program, ParseError>)
        requires
            old(self).wf(),
        ensures
            final(self).wf(),
            r is Ok ==> final(self).current().kind == TokenType::Eof,
    {
        self.program()
    }

    fn program(&mut self) -> (r: Result<Program, ParseError>)
        requires
            old(self).wf(),
        ensures
            final(self).wf(),
            r is Ok ==> final(self).current.kind == TokenType::Eof,
    {
        let mut stmts: Vec<Statement> = Vec::new();
        while self.current.kind != TokenType::Eof
            invariant
                self.wf(),
            decreases self.budget(),
        {
            let statement = self.declaration()?;
            stmts.push(statement);
        }
        Ok(Program(stmts))
    }

    fn declaration(&mut self) -> (r: Result<Statement, ParseError>)
        requires
            old(self).wf(),
        ensures
            final(self).wf(),
            final(self).budget() <= old(self).budget(),
            r is Ok ==> final(self).budget() < old(self).budget(),
        decreases old(self).budget(), 9nat,
    {
        if self.matches(TokenType::Let).is_some() {
            self.let_declaration(false)
        } else if self.matches(TokenType::Pub).is_some() {
            if self.matches(TokenType::Let).is_some() {
                self.let_declaration(true)
            } else if self.matches(TokenType::Struct).is_some() {
                self.struct_declaration(true)
            } else {
                Err(self.error("the following declaration cannot be public."))
            }
        } else if self.matches(TokenType::Fn).is_some() {
            self.fn_declaration(false)
        } else if self.matches(TokenType::Import).is_some() {
            self.import_declaration()
        } else if self.matches(TokenType::Struct).is_some() {
            self.struct_declaration(false)
        } else if self.matches(TokenType::Return).is_some() {
            self.return_declaration()
        } else {
            self.statement()
        }
    }

    fn return_declaration(&mut self) -> (r: Result<Statement, ParseError>)
        requires
            old(self).wf(),
        ensures
            final(self).wf(),
            final(self).budget() <= old(self).budget(),
            r is Ok ==> final(self).budget() < old(self).budget(),
        decreases old(self).budget(), 8nat,
    {
        let value = self.expression()?;
        self.consume(TokenType::Semicolon, "Expected a ';' after return")?;
        Ok(Statement::Return(value))
    }

    fn fn_declaration(&mut self, public: bool) -> (r: Result<Statement, ParseError>)
        requires
            old(self).wf(),
        ensures
            final(self).wf(),
            final(self).budget() <= old(self).budget(),
            r is Ok ==> final(self).budget() < old(self).budget(),
        decreases old(self).budget(), 8nat,
    {
        let name = self.consume(TokenType::Identifier, "Expect function name.")?;
        self.consume(TokenType::LeftParen, "Expect '(' after function name.")?;
        let mut args: Vec<Token> = Vec::new();
        while self.matches(TokenType::RightParen).is_none()
            invariant
                self.wf(),
                self.budget() < old(self).budget(),
            decreases self.budget(),
        {
            let token = self.consume(TokenType::Identifier, "Expect argument name.")?;
            args.push(token);
            self.matches(TokenType::Comma);
        }
        let return_type = if self.matches(TokenType::Colon).is_some() {
            self.types()?
        } else {
            Type::Builtin(BuiltinType::Unit)
        };
        self.consume(TokenType::LeftBrace, "Expect '{' after function signature.")?;
        let mut body: Vec<Statement> = Vec::new();
        while self.current.kind != TokenType::RightBrace
            invariant
                self.wf(),
                self.budget() < old(self).budget(),
            decreases self.budget(),
        {
            if self.current.kind == TokenType::Eof {
                return Err(self.error("Expect '}' at the end of block declaration."));
            }
            body.push(self.declaration()?);
        }
        self.consume(TokenType::RightBrace, "Expect '}' at the end of block declaration.")?;
        Ok(Statement::Fn(public, name, args, return_type, body))
    }

    fn struct_declaration(&mut self, public: bool) -> (r: Result<Statement, ParseError>)
        requires
            old(self).wf(),
        ensures
            final(self).wf(),
            final(self).budget() <= old(self).budget(),
            r is Ok ==> final(self).budget() < old(self).budget(),
        decreases old(self).budget(), 8nat,
    {
        let struct_name = self.consume(TokenType::KIdentifier, "Expect a name after struct.")?;
        self.consume(TokenType::LeftBrace, "Expect '{' after struct name.")?;
        let mut fields: Vec<FieldDeclaration> = Vec::new();
        while self.current.kind != TokenType::RightBrace
            invariant
                self.wf(),
                self.budget() < old(self).budget(),
            decreases self.budget(),
        {
            let ghost b0 = self.budget();
            let key = self.consume(TokenType::Identifier, "Expect a field declaration.")?;
            while self.matches(TokenType::Dot).is_some()
                invariant
                    self.wf(),
                    self.budget() < old(self).budget(),
                    self.budget() < b0,
                decreases self.budget(),
            {
                self.consume(TokenType::Identifier, "Expect a nested field declaration.")?;
            }
            self.consume(TokenType::Colon, "Expect ':' after field declaration.")?;
            let ty = self.types()?;
            fields.push(FieldDeclaration(QualifiedName(key.lexeme), ty));
            self.matches(TokenType::Comma);
        }
        self.consume(TokenType::RightBrace, "Expect '}' after struct definition.")?;
        Ok(Statement::Struct(public, struct_name, fields))
    }

    /// A type annotation: a name, optionally `<parameter>`, optionally `?`.
    fn types(&mut self) -> (r: Result<Type, ParseError>)
        requires
            old(self).wf(),
        ensures
            final(self).wf(),
            final(self).budget() <= old(self).budget(),
            r is Ok ==> final(self).budget() < old(self).budget(),
        decreases old(self).budget(), 1nat,
    {
        let name = self.consume(
            TokenType::KIdentifier,
            "Expected types to start with a struct identifier.",
        )?;
        let mut base_type = Type::explicit(QualifiedName(name.lexeme));
        if self.matches(TokenType::LeftCaret).is_some() {
            let nested = self.types()?;
            self.consume(TokenType::RightCaret, "Expected matching '>' to the '<'.")?;
            base_type = Type::Nested(Box::new(base_type), Box::new(nested));
        }
        if self.matches(TokenType::Question).is_some() {
            base_type = Type::Nullable(Box::new(base_type));
        }
        Ok(base_type)
    }

    fn let_declaration(&mut self, public: bool) -> (r: Result<Statement, ParseError>)
        requires
            old(self).wf(),
        ensures
            final(self).wf(),
            final(self).budget() <= old(self).budget(),
            r is Ok ==> final(self).budget() < old(self).budget(),
        decreases old(self).budget(), 8nat,
    {
        let iden = self.consume(TokenType::Identifier, "Expected an identifier.")?;
        let init = if self.matches(TokenType::Equal).is_some() {
            Some(self.expression()?)
        } else {
            None
        };
        self.consume(TokenType::Semicolon, "Expected a ';' after variable declaration")?;
        Ok(Statement::Variable(public, iden, init))
    }

    fn import_declaration(&mut self) -> (r: Result<Statement, ParseError>)
        requires
            old(self).wf(),
        ensures
            final(self).wf(),
            final(self).budget() <= old(self).budget(),
            r is Ok ==> final(self).budget() < old(self).budget(),
        decreases old(self).budget(), 8nat,
    {
        let iden = match self.matches(TokenType::Identifier) {
            Some(t) => t,
            None => match self.matches(TokenType::KIdentifier) {
                Some(t) => t,
                None => return Err(self.error("Expected a variable or struct definition to export")),
            },
        };
        self.consume(TokenType::From, "Expect 'from' after import")?;
        let module = self.consume(TokenType::String, "Expect module to import from")?;
        self.consume(TokenType::Semicolon, "Expected a ';' after import")?;
        Ok(Statement::Import(iden, module))
    }

    fn statement(&mut self) -> (r: Result<Statement, ParseError>)
        requires
            old(self).wf(),
        ensures
            final(self).wf(),
            final(self).budget() <= old(self).budget(),
            r is Ok ==> final(self).budget() < old(self).budget(),
        decreases old(self).budget(), 8nat,
    {
        self.expr_statement()
    }

    fn expr_statement(&mut self) -> (r: Result<Statement, ParseError>)
        requires
            old(self).wf(),
        ensures
            final(self).wf(),
            final(self).budget() <= old(self).budget(),
            r is Ok ==> final(self).budget() < old(self).budget(),
        decreases old(self).budget(), 7nat,
    {
        Ok(Statement::Expr(self.expression()?))
    }

    /// An expression, possibly called with arguments.
    fn expression(&mut self) -> (r: Result<Expr, ParseError>)
        requires
            old(self).wf(),
        ensures
            final(self).wf(),
            final(self).budget() <= old(self).budget(),
            r is Ok ==> final(self).budget() < old(self).budget(),
        decreases old(self).budget(), 6nat,
    {
        let expr = self.multiply()?;
        if self.matches(TokenType::LeftParen).is_some() {
            let mut args: Vec<Expr> = Vec::new();
            while self.current.kind != TokenType::RightParen
                invariant
                    self.wf(),
                    self.budget() < old(self).budget(),
                decreases self.budget(),
            {
                args.push(self.expression()?);
                if self.current.kind != TokenType::RightParen {
                    self.consume(TokenType::Comma, "Expect ',' between function arguments.")?;
                }
            }
            self.consume(TokenType::RightParen, "Expect ')' after function arguments.")?;
            Ok(Expr::Call(Box::new(expr), args))
        } else {
            Ok(expr)
        }
    }

    fn multiply(&mut self) -> (r: Result<Expr, ParseError>)
        requires
            old(self).wf(),
        ensures
            final(self).wf(),
            final(self).budget() <= old(self).budget(),
            r is Ok ==> final(self).budget() < old(self).budget(),
        decreases old(self).budget(), 5nat,
    {
        let operand = self.add()?;
        match self.matches(TokenType::Star) {
            Some(op) => {
                let value = self.expression()?;
                Ok(Expr::Binary(Box::new(operand), op, Box::new(value)))
            },
            None => Ok(operand),
        }
    }

    fn add(&mut self) -> (r: Result<Expr, ParseError>)
        requires
            old(self).wf(),
        ensures
            final(self).wf(),
            final(self).budget() <= old(self).budget(),
            r is Ok ==> final(self).budget() < old(self).budget(),
        decreases old(self).budget(), 4nat,
    {
        let operand = self.primary()?;
        match self.matches(TokenType::Plus) {
            Some(op) => {
                let value = self.expression()?;
                Ok(Expr::Binary(Box::new(operand), op, Box::new(value)))
            },
            None => Ok(operand),
        }
    }

    fn primary(&mut self) -> (r: Result<Expr, ParseError>)
        requires
            old(self).wf(),
        ensures
            final(self).wf(),
            final(self).budget() <= old(self).budget(),
            r is Ok ==> final(self).budget() < old(self).budget(),
            old(self).current().kind == TokenType::Identifier ==> r == Ok::<Expr, ParseError>(
                Expr::Variable(old(self).current()),
            ),
            old(self).current().kind == TokenType::Nil ==> r == Ok::<Expr, ParseError>(
                Expr::Literal(Object::Nil),
            ),
            old(self).current().kind == TokenType::Number ==> (r is Ok <==> literal_value(
                old(self).current().lexeme@,
            ) is Some),
            old(self).current().kind == TokenType::Number && r is Ok ==> r->Ok_0 == Expr::Literal(
                Object::Num(literal_value(old(self).current().lexeme@)->Some_0),
            ),
            !(old(self).current().kind == TokenType::Identifier || old(self).current().kind
                == TokenType::Number || old(self).current().kind == TokenType::Nil || old(
                self,
            ).current().kind == TokenType::String || old(self).current().kind
                == TokenType::KIdentifier || old(self).current().kind == TokenType::LeftParen || old(
                self,
            ).current().kind == TokenType::LeftBracket) ==> r is Err,
        decreases old(self).budget(), 3nat,
    {
        if let Some(identifier) = self.matches(TokenType::Identifier) {
            Ok(Expr::Variable(identifier))
        } else if let Some(num) = self.matches(TokenType::Number) {
            match Number::parse_literal(num.lexeme.as_str()) {
                Some(n) => Ok(Expr::Literal(Object::Num(n))),
                None => Err(ParseError { line: num.line, message: String::from_str("Invalid number.") }),
            }
        } else if self.matches(TokenType::Nil).is_some() {
            Ok(Expr::Literal(Object::Nil))
        } else if let Some(text) = self.matches(TokenType::String) {
            let len = text.lexeme.as_str().unicode_len();
            if len < 2 {
                return Err(ParseError { line: text.line, message: String::from_str("Invalid string.") });
            }
            let inner = text.lexeme.as_str().substring_char(1, len - 1);
            Ok(Expr::Literal(Object::String(String::from_str(inner))))
        } else if let Some(token) = self.matches(TokenType::KIdentifier) {
            self.structure(token)
        } else if self.matches(TokenType::LeftParen).is_some() {
            let expr = self.expression()?;
            self.consume(TokenType::RightParen, "Expect ')' after expression.")?;
            Ok(Expr::Grouping(Box::new(expr)))
        } else if self.matches(TokenType::LeftBracket).is_some() {
            self.array()
        } else {
            Err(self.error("Expected expression."))
        }
    }

    /// The entries of an array literal, after its `[`.
    fn array(&mut self) -> (r: Result<Expr, ParseError>)
        requires
            old(self).wf(),
        ensures
            final(self).wf(),
            final(self).budget() <= old(self).budget(),
            r is Ok ==> final(self).budget() < old(self).budget(),
        decreases old(self).budget(), 7nat,
    {
        let mut exprs: Vec<Expr> = Vec::new();
        while self.matches(TokenType::RightBracket).is_none()
            invariant
                self.wf(),
                self.budget() <= old(self).budget(),
            decreases self.budget(),
        {
            exprs.push(self.expression()?);
            if self.matches(TokenType::Comma).is_none() {
                self.consume(TokenType::RightBracket, "Expect ']' after an array.")?;
                return Ok(Expr::Array(exprs));
            }
        }
        Ok(Expr::Array(exprs))
    }

    /// The fields of a struct literal named by `token`.
    fn structure(&mut self, token: Token) -> (r: Result<Expr, ParseError>)
        requires
            old(self).wf(),
        ensures
            final(self).wf(),
            final(self).budget() <= old(self).budget(),
            r is Ok ==> final(self).budget() < old(self).budget(),
        decreases old(self).budget(), 2nat,
    {
        self.consume(TokenType::LeftBrace, "Expect '{' to instantiate a struct")?;
        let mut fields: Vec<Field> = Vec::new();
        while self.current.kind != TokenType::RightBrace
            invariant
                self.wf(),
                self.budget() < old(self).budget(),
            decreases self.budget(),
        {
            let ghost b0 = self.budget();
            let key_name = self.consume(TokenType::Identifier, "Expect a field declaration.")?;
            while self.matches(TokenType::Dot).is_some()
                invariant
                    self.wf(),
                    self.budget() < old(self).budget(),
                    self.budget() < b0,
                decreases self.budget(),
            {
                self.consume(TokenType::Identifier, "Expect a nested field declaration.")?;
            }
            self.consume(TokenType::Colon, "Expect ':' after field declaration.")?;
            let value = self.expression()?;
            fields.push(Field(key_name, value));
            self.matches(TokenType::Comma);
        }
        self.consume(TokenType::RightBrace, "Expect '}' after struct instantiation")?;
        Ok(Expr::Struct(token, fields))
    }
}

} // verus!
