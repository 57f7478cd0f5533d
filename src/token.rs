//! Tokens produced by the scanner.
use vstd::prelude::*;

verus! {

/// The kinds of token of the language.
#[derive(Clone, Copy, Debug, PartialEq, Eq, Structural)]
pub enum TokenType {
    LeftBracket,
    RightBracket,
    LeftParen,
    RightParen,
    LeftBrace,
    RightBrace,
    LeftCaret,
    RightCaret,
    Identifier,
    KIdentifier,
    Let,
    Pub,
    Fn,
    Struct,
    Import,
    From,
    Return,
    Nil,
    If,
    For,
    In,
    Question,
    Dot,
    Comma,
    Colon,
    Semicolon,
    Ampersand,
    Equal,
    Plus,
    Minus,
    Star,
    Slash,
    Number,
    String,
    NewLine,
    Eof,
    Error,
}

/// A token: its kind, its text, and where it starts in the source.
#[derive(Clone, Debug)]
pub struct Token {
    pub kind: TokenType,
    pub lexeme: String,
    pub line: usize,
    pub col: usize,
}

impl Token {
    pub fn new(kind: TokenType, lexeme: String, line: usize, col: usize) -> (r: Token)
        ensures
            r.kind == kind,
            r.lexeme@ == lexeme@,
            r.line == line,
            r.col == col,
    {
        Token { kind, lexeme, line, col }
    }

    /// An independent copy of the token.
    pub fn duplicate(&self) -> (r: Token)
        ensures
            r.kind == self.kind,
            r.lexeme@ == self.lexeme@,
            r.line == self.line,
            r.col == self.col,
    {
        Token { kind: self.kind, lexeme: self.lexeme.clone(), line: self.line, col: self.col }
    }
}

} // verus!
