//! Turns source text into tokens, one at a time.
use vstd::prelude::*;
use crate::token::{Token, TokenType};

verus! {

/// The Unicode `White_Space` property, which `char::is_whitespace` tests.
pub open spec fn white_space(c: char) -> bool {
    ('\u{9}' <= c && c <= '\u{d}') || c == ' ' || c == '\u{85}' || c == '\u{a0}' || c
        == '\u{1680}' || ('\u{2000}' <= c && c <= '\u{200a}') || c == '\u{2028}' || c == '\u{2029}'
        || c == '\u{202f}' || c == '\u{205f}' || c == '\u{3000}'
}

/// What `char::is_alphabetic` returns: the Unicode `Alphabetic` property.
pub uninterp spec fn alphabetic(c: char) -> bool;

/// What `char::is_numeric` returns: the Unicode general categories `Nd`, `Nl`, `No`.
pub uninterp spec fn numeric(c: char) -> bool;

/// What `char::is_uppercase` returns: the Unicode `Uppercase` property.
pub uninterp spec fn uppercase(c: char) -> bool;

/// Whether `c` is a `White_Space` character, as `char::is_whitespace` answers.
fn is_white_space(c: char) -> (r: bool)
    ensures
        r == white_space(c),
{
    ('\u{9}' <= c && c <= '\u{d}') || c == ' ' || c == '\u{85}' || c == '\u{a0}' || c == '\u{1680}'
        || ('\u{2000}' <= c && c <= '\u{200a}') || c == '\u{2028}' || c == '\u{2029}' || c
        == '\u{202f}' || c == '\u{205f}' || c == '\u{3000}'
}

/// Relies on `char::is_alphabetic`, which depends on the character alone; ASCII
/// letters are alphabetic and ASCII digits are not.
#[verifier::external_body]
fn is_alphabetic(c: char) -> (r: bool)
    ensures
        r == alphabetic(c),
        ('a' <= c && c <= 'z') || ('A' <= c && c <= 'Z') ==> r,
        '0' <= c && c <= '9' ==> !r,
{
    c.is_alphabetic()
}

/// Relies on `char::is_numeric`, which depends on the character alone; ASCII digits
/// are numeric.
#[verifier::external_body]
fn is_numeric(c: char) -> (r: bool)
    ensures
        r == numeric(c),
        '0' <= c && c <= '9' ==> r,
{
    c.is_numeric()
}

/// Relies on `char::is_alphanumeric`, documented as `is_alphabetic() || is_numeric()`.
#[verifier::external_body]
fn is_alphanumeric(c: char) -> (r: bool)
    ensures
        r == (alphabetic(c) || numeric(c)),
{
    c.is_alphanumeric()
}

/// Relies on `char::is_uppercase`, which depends on the character alone; `A` to `Z`
/// are uppercase and `a` to `z` are not.
#[verifier::external_body]
fn is_uppercase(c: char) -> (r: bool)
    ensures
        r == uppercase(c),
        'A' <= c && c <= 'Z' ==> r,
        'a' <= c && c <= 'z' ==> !r,
{
    c.is_uppercase()
}

/// Relies on `String::push`: appends one character.
#[verifier::external_body]
fn push_char(s: &mut String, c: char)
    ensures
        final(s)@ == old(s)@.push(c),
{
    s.push(c)
}

/// The characters `s[from..to]` as a string.
pub fn text_of(s: &Vec<char>, from: usize, to: usize) -> (r: String)
    requires
        from <= to <= s@.len(),
    ensures
        r@ == s@.subrange(from as int, to as int),
{
    let mut out = String::new();
    let mut i: usize = from;
    while i < to
        invariant
            from <= i <= to,
            to <= s@.len(),
            out@ == s@.subrange(from as int, i as int),
        decreases to - i,
    {
        push_char(&mut out, s[i]);
        assert(out@ =~= s@.subrange(from as int, i + 1));
        i = i + 1;
    }
    out
}

/// A character that may continue an identifier.
pub open spec fn ident_char(c: char) -> bool {
    alphabetic(c) || numeric(c) || c == '_'
}

/// The kind of an identifier-like lexeme: a keyword, a type name (capitalised) or
/// a plain identifier.
pub open spec fn word_kind(w: Seq<char>) -> TokenType {
    if w == "for"@ {
        TokenType::For
    } else if w == "from"@ {
        TokenType::From
    } else if w == "if"@ {
        TokenType::If
    } else if w == "in"@ {
        TokenType::In
    } else if w == "import"@ {
        TokenType::Import
    } else if w == "let"@ {
        TokenType::Let
    } else if w == "struct"@ {
        TokenType::Struct
    } else if w == "pub"@ {
        TokenType::Pub
    } else if w == "fn"@ {
        TokenType::Fn
    } else if w == "return"@ {
        TokenType::Return
    } else if w == "nil"@ {
        TokenType::Nil
    } else if w.len() > 0 && uppercase(w[0]) {
        TokenType::KIdentifier
    } else {
        TokenType::Identifier
    }
}

/// The kind of a one-character token.
pub open spec fn punct_kind(c: char) -> Option<TokenType> {
    if c == '[' { Some(TokenType::LeftBracket) }
    else if c == ']' { Some(TokenType::RightBracket) }
    else if c == '(' { Some(TokenType::LeftParen) }
    else if c == ')' { Some(TokenType::RightParen) }
    else if c == '{' { Some(TokenType::LeftBrace) }
    else if c == '}' { Some(TokenType::RightBrace) }
    else if c == '<' { Some(TokenType::LeftCaret) }
    else if c == '>' { Some(TokenType::RightCaret) }
    else if c == '=' { Some(TokenType::Equal) }
    else if c == '&' { Some(TokenType::Ampersand) }
    else if c == '+' { Some(TokenType::Plus) }
    else if c == '-' { Some(TokenType::Minus) }
    else if c == '*' { Some(TokenType::Star) }
    else if c == '/' { Some(TokenType::Slash) }
    else if c == '.' { Some(TokenType::Dot) }
    else if c == ';' { Some(TokenType::Semicolon) }
    else if c == ',' { Some(TokenType::Comma) }
    else if c == ':' { Some(TokenType::Colon) }
    else if c == '?' { Some(TokenType::Question) }
    else { None }
}

/// Number of line breaks in `s`.
pub open spec fn newlines(s: Seq<char>) -> nat
    decreases s.len(),
{
    if s.len() == 0 {
        0
    } else {
        newlines(s.drop_last()) + if s.last() == '\n' {
            1nat
        } else {
            0nat
        }
    }
}

proof fn lemma_newlines_bound(s: Seq<char>)
    ensures
        newlines(s) <= s.len(),
    decreases s.len(),
{
    if s.len() > 0 {
        lemma_newlines_bound(s.drop_last());
    }
}

/// Where the next token starts when scanning resumes at `i`: whitespace is skipped,
/// and so is a `#` comment up to the end of its line. `in_comment` says that `i` is
/// inside a comment.
pub open spec fn skip_blank(s: Seq<char>, i: nat, in_comment: bool) -> nat
    decreases s.len() - i,
{
    if i >= s.len() {
        i
    } else if in_comment && s[i as int] != '\n' {
        skip_blank(s, i + 1, true)
    } else if white_space(s[i as int]) {
        skip_blank(s, i + 1, false)
    } else if s[i as int] == '#' {
        skip_blank(s, i + 1, true)
    } else {
        i
    }
}

pub struct Scanner {
    source: Vec<char>,
    start: usize,
    current: usize,
    line: usize,
    col: usize,
    col_offset: usize,
    debug: bool,
}

impl Scanner {
    /// The source text.
    pub closed spec fn chars(&self) -> Seq<char> {
        self.source@
    }

    /// Where the token being scanned starts.
    pub closed spec fn start(&self) -> nat {
        self.start as nat
    }

    /// The next character to read.
    pub closed spec fn pos(&self) -> nat {
        self.current as nat
    }

    /// The line of the next character to read.
    pub closed spec fn line(&self) -> nat {
        self.line as nat
    }

    /// Characters left to read.
    pub open spec fn left(&self) -> nat {
        (self.chars().len() - self.pos()) as nat
    }

    pub closed spec fn wf(&self) -> bool {
        &&& self.source@.len() < usize::MAX
        &&& self.start <= self.current <= self.source@.len()
        &&& self.line == 1 + newlines(self.source@.subrange(0, self.current as int))
        &&& self.line <= self.current + 1
        &&& self.col <= self.current + 1
        &&& self.col_offset <= self.current + 1
    }

    pub proof fn lemma_pos_in_range(&self)
        requires
            self.wf(),
        ensures
            self.pos() <= self.chars().len(),
    {
    }

    pub fn init(source: &str, debug: bool) -> (r: Scanner)
        requires
            source@.len() < usize::MAX,
        ensures
            r.wf(),
            r.chars() == source@,
            r.pos() == 0,
    {
        let n = source.unicode_len();
        let mut chars: Vec<char> = Vec::new();
        let mut i: usize = 0;
        while i < n
            invariant
                n == source@.len(),
                i <= n,
                chars@ == source@.subrange(0, i as int),
            decreases n - i,
        {
            chars.push(source.get_char(i));
            assert(chars@ =~= source@.subrange(0, i + 1));
            i = i + 1;
        }
        assert(chars@ =~= source@);
        assert(chars@.subrange(0, 0) =~= Seq::<char>::empty());
        Scanner { source: chars, start: 0, current: 0, line: 1, col: 1, col_offset: 1, debug }
    }

    /// The next character, if any.
    fn peek(&self) -> (r: Option<char>)
        ensures
            r == (if self.pos() < self.chars().len() {
                Some(self.chars()[self.pos() as int])
            } else {
                None::<char>
            }),
    {
        if self.current < self.source.len() {
            Some(self.source[self.current])
        } else {
            None
        }
    }

    /// The character after the next one, if any.
    fn peek_next(&self) -> (r: Option<char>)
        requires
            self.wf(),
        ensures
            r == (if self.pos() + 1 < self.chars().len() {
                Some(self.chars()[self.pos() + 1 as int])
            } else {
                None::<char>
            }),
    {
        if self.current + 1 < self.source.len() {
            Some(self.source[self.current + 1])
        } else {
            None
        }
    }

    /// Whether every character has been read.
    fn is_at_end(&self) -> (r: bool)
        ensures
            r == (self.pos() >= self.chars().len()),
    {
        self.current >= self.source.len()
    }

    /// Reads the next character.
    fn advance(&mut self) -> (r: Option<char>)
        requires
            old(self).wf(),
        ensures
            final(self).wf(),
            final(self).chars() == old(self).chars(),
            final(self).start() == old(self).start(),
            r == (if old(self).pos() < old(self).chars().len() {
                Some(old(self).chars()[old(self).pos() as int])
            } else {
                None::<char>
            }),
            final(self).pos() == if r is Some {
                old(self).pos() + 1
            } else {
                old(self).pos()
            },
    {
        if self.current < self.source.len() {
            let c = self.source[self.current];
            let ghost before = self.source@.subrange(0, self.current as int);
            proof {
                lemma_newlines_bound(self.source@.subrange(0, self.current + 1));
                assert(self.source@.subrange(0, self.current + 1).drop_last() =~= before);
            }
            self.current = self.current + 1;
            if c == '\n' {
                self.line = self.line + 1;
                self.col_offset = 1;
            } else {
                self.col_offset = self.col_offset + 1;
            }
            Some(c)
        } else {
            None
        }
    }

    /// Skips whitespace and `#` comments, counting lines.
    fn skip_whitespace(&mut self)
        requires
            old(self).wf(),
        ensures
            final(self).wf(),
            final(self).chars() == old(self).chars(),
            final(self).pos() >= old(self).pos(),
            final(self).start() == old(self).start(),
            final(self).pos() < final(self).chars().len() ==> !white_space(
                final(self).chars()[final(self).pos() as int],
            ) && final(self).chars()[final(self).pos() as int] != '#',
            final(self).pos() == skip_blank(old(self).chars(), old(self).pos(), false),
    {
        let ghost target = skip_blank(self.chars(), self.pos(), false);
        loop
            invariant
                self.wf(),
                self.chars() == old(self).chars(),
                self.pos() >= old(self).pos(),
                self.start() == old(self).start(),
                target == skip_blank(old(self).chars(), old(self).pos(), false),
                skip_blank(self.chars(), self.pos(), false) == target,
            decreases self.left(),
        {
            match self.peek() {
                Some(c) => {
                    if is_white_space(c) {
                        let ghost before = self.pos();
                        let adv = self.advance();
                        assert(adv is Some);
                        assert(self.pos() == before + 1);
                    } else if c == '#' {
                        let ghost before = self.pos();
                        self.advance();
                        loop
                            invariant
                                self.wf(),
                                self.chars() == old(self).chars(),
                                self.pos() > before,
                                before >= old(self).pos(),
                                self.start() == old(self).start(),
                                target == skip_blank(old(self).chars(), old(self).pos(), false),
                                skip_blank(self.chars(), self.pos(), true) == target,
                            ensures
                                self.wf(),
                                self.chars() == old(self).chars(),
                                self.pos() > before,
                                before >= old(self).pos(),
                                self.start() == old(self).start(),
                                skip_blank(self.chars(), self.pos(), true) == target,
                                self.pos() < self.chars().len() ==> self.chars()[self.pos() as int] == '\n',
                            decreases self.left(),
                        {
                            match self.peek() {
                                Some(d) => {
                                    if d == '\n' {
                                        break;
                                    }
                                    self.advance();
                                },
                                None => break,
                            }
                        }
                        if self.is_at_end() {
                            return;
                        }
                        proof {
                            assert(white_space(self.chars()[self.pos() as int]));
                            assert(skip_blank(self.chars(), self.pos(), false) == target);
                        }
                    } else {
                        return;
                    }
                },
                None => return,
            }
        }
    }

    /// A token of kind `kind` spanning the characters since the token's start.
    fn make_token(&mut self, kind: TokenType) -> (r: Token)
        requires
            old(self).wf(),
        ensures
            final(self).wf(),
            final(self).chars() == old(self).chars(),
            final(self).pos() == old(self).pos(),
            final(self).start() == old(self).start(),
            r.kind == kind,
            r.lexeme@ == old(self).chars().subrange(old(self).start() as int, old(self).pos() as int),
            r.line == 1 + newlines(old(self).chars().subrange(0, old(self).pos() as int)),
    {
        let lexeme = text_of(&self.source, self.start, self.current);
        let t = Token { kind, lexeme, line: self.line, col: self.col };
        self.col = self.col_offset;
        t
    }

    /// An error token carrying `msg`.
    fn error_token(&mut self, msg: &str) -> (r: Token)
        requires
            old(self).wf(),
        ensures
            final(self).wf(),
            final(self).chars() == old(self).chars(),
            final(self).pos() == old(self).pos(),
            final(self).start() == old(self).start(),
            r.kind == TokenType::Error,
            r.lexeme@ == msg@,
            r.line == 1 + newlines(old(self).chars().subrange(0, old(self).pos() as int)),
    {
        let t = Token { kind: TokenType::Error, lexeme: String::from_str(msg), line: self.line, col: self.col };
        self.col = self.col_offset;
        t
    }

    /// The kind of the identifier-like lexeme since the token's start.
    fn token_type(&self) -> (r: TokenType)
        requires
            self.wf(),
        ensures
            r == word_kind(self.chars().subrange(self.start() as int, self.pos() as int)),
    {
        let w = text_of(&self.source, self.start, self.current);
        proof {
            reveal_strlit("for");
            reveal_strlit("from");
            reveal_strlit("if");
            reveal_strlit("in");
            reveal_strlit("import");
            reveal_strlit("let");
            reveal_strlit("struct");
            reveal_strlit("pub");
            reveal_strlit("fn");
            reveal_strlit("return");
            reveal_strlit("nil");
        }
        if w == String::from_str("for") {
            TokenType::For
        } else if w == String::from_str("from") {
            TokenType::From
        } else if w == String::from_str("if") {
            TokenType::If
        } else if w == String::from_str("in") {
            TokenType::In
        } else if w == String::from_str("import") {
            TokenType::Import
        } else if w == String::from_str("let") {
            TokenType::Let
        } else if w == String::from_str("struct") {
            TokenType::Struct
        } else if w == String::from_str("pub") {
            TokenType::Pub
        } else if w == String::from_str("fn") {
            TokenType::Fn
        } else if w == String::from_str("return") {
            TokenType::Return
        } else if w == String::from_str("nil") {
            TokenType::Nil
        } else if self.current > self.start && is_uppercase(self.source[self.start]) {
            TokenType::KIdentifier
        } else {
            TokenType::Identifier
        }
    }

    /// Scans the rest of an identifier or keyword.
    fn identifier(&mut self) -> (r: Token)
        requires
            old(self).wf(),
        ensures
            final(self).wf(),
            final(self).chars() == old(self).chars(),
            final(self).start() == old(self).start(),
            final(self).pos() >= old(self).pos(),
            forall|k: int|
                old(self).pos() <= k < final(self).pos() ==> ident_char(#[trigger] final(self).chars()[k]),
            final(self).pos() < final(self).chars().len() ==> !ident_char(
                final(self).chars()[final(self).pos() as int],
            ),
            r.kind == word_kind(final(self).chars().subrange(final(self).start() as int, final(self).pos() as int)),
            r.line == 1 + newlines(final(self).chars().subrange(0, final(self).pos() as int)),
            r.lexeme@ == final(self).chars().subrange(final(self).start() as int, final(self).pos() as int),
    {
        loop
            invariant
                self.wf(),
                self.chars() == old(self).chars(),
                self.start() == old(self).start(),
                self.pos() >= old(self).pos(),
                forall|k: int| old(self).pos() <= k < self.pos() ==> ident_char(#[trigger] self.chars()[k]),
            ensures
                self.wf(),
                self.chars() == old(self).chars(),
                self.start() == old(self).start(),
                self.pos() >= old(self).pos(),
                forall|k: int| old(self).pos() <= k < self.pos() ==> ident_char(#[trigger] self.chars()[k]),
                self.pos() < self.chars().len() ==> !ident_char(self.chars()[self.pos() as int]),
            decreases self.left(),
        {
            match self.peek() {
                Some(c) => {
                    if is_alphanumeric(c) || c == '_' || is_numeric(c) {
                        self.advance();
                    } else {
                        break;
                    }
                },
                None => break,
            }
        }
        let kind = self.token_type();
        self.make_token(kind)
    }

    /// Scans the rest of a number: digits, then `.` and digits when a digit follows
    /// the point.
    fn number(&mut self) -> (r: Token)
        requires
            old(self).wf(),
        ensures
            final(self).wf(),
            final(self).chars() == old(self).chars(),
            final(self).start() == old(self).start(),
            final(self).pos() >= old(self).pos(),
            r.kind == TokenType::Number,
            r.line == 1 + newlines(final(self).chars().subrange(0, final(self).pos() as int)),
            r.lexeme@ == final(self).chars().subrange(final(self).start() as int, final(self).pos() as int),
    {
        loop
            invariant
                self.wf(),
                self.chars() == old(self).chars(),
                self.start() == old(self).start(),
                self.pos() >= old(self).pos(),
            decreases self.left(),
        {
            match self.peek() {
                Some(c) => {
                    if is_numeric(c) {
                        self.advance();
                    } else {
                        break;
                    }
                },
                None => break,
            }
        }
        if self.peek() == Some('.') {
            let digit_follows = match self.peek_next() {
                Some(d) => is_numeric(d),
                None => false,
            };
            if digit_follows {
                self.advance();
                loop
                    invariant
                        self.wf(),
                        self.chars() == old(self).chars(),
                        self.start() == old(self).start(),
                        self.pos() >= old(self).pos(),
                    decreases self.left(),
                {
                    match self.peek() {
                        Some(c) => {
                            if is_numeric(c) {
                                self.advance();
                            } else {
                                break;
                            }
                        },
                        None => break,
                    }
                }
            }
        }
        self.make_token(TokenType::Number)
    }

    /// Scans the rest of a string literal, up to and with its closing quote.
    fn string(&mut self) -> (r: Token)
        requires
            old(self).wf(),
        ensures
            final(self).wf(),
            final(self).chars() == old(self).chars(),
            final(self).start() == old(self).start(),
            final(self).pos() >= old(self).pos(),
            r.kind == TokenType::String ==> r.lexeme@ == final(self).chars().subrange(
                final(self).start() as int,
                final(self).pos() as int,
            ) && final(self).pos() > old(self).pos() && final(self).chars()[final(self).pos() - 1 as int]
                == '\'',
            r.kind == TokenType::String || r.kind == TokenType::Error,
            r.kind == TokenType::String <==> exists|k: int|
                old(self).pos() <= k < old(self).chars().len() && old(self).chars()[k] == '\'',
            r.kind == TokenType::String ==> forall|k: int|
                old(self).pos() <= k < final(self).pos() - 1 ==> final(self).chars()[k] != '\'',
            r.line == 1 + newlines(final(self).chars().subrange(0, final(self).pos() as int)),
    {
        loop
            invariant
                self.wf(),
                self.chars() == old(self).chars(),
                self.start() == old(self).start(),
                self.pos() >= old(self).pos(),
                forall|k: int| old(self).pos() <= k < self.pos() ==> self.chars()[k] != '\'',
            ensures
                self.wf(),
                self.chars() == old(self).chars(),
                self.start() == old(self).start(),
                self.pos() >= old(self).pos(),
                forall|k: int| old(self).pos() <= k < self.pos() ==> self.chars()[k] != '\'',
                self.pos() < self.chars().len() ==> self.chars()[self.pos() as int] == '\'',
            decreases self.left(),
        {
            match self.peek() {
                Some(c) => {
                    if c == '\'' {
                        break;
                    }
                    let ghost before = self.pos();
                    let adv = self.advance();
                    assert(adv is Some);
                    assert(self.pos() == before + 1);
                },
                None => break,
            }
        }
        if self.is_at_end() {
            self.error_token("Unterminated string.")
        } else {
            self.advance();
            self.make_token(TokenType::String)
        }
    }

    /// Scans the next token; at the end of the source, an `Eof` token.
    pub fn scan_token(&mut self) -> (r: Token)
        requires
            old(self).wf(),
        ensures
            final(self).wf(),
            final(self).chars() == old(self).chars(),
            final(self).pos() >= old(self).pos(),
            r.kind != TokenType::Eof ==> final(self).pos() > old(self).pos(),
            r.kind == TokenType::Eof ==> final(self).pos() == final(self).chars().len(),
            final(self).start() == skip_blank(old(self).chars(), old(self).pos(), false),
            r.line == 1 + newlines(final(self).chars().subrange(0, final(self).pos() as int)),
            r.kind != TokenType::Error ==> r.lexeme@ == final(self).chars().subrange(
                final(self).start() as int,
                final(self).pos() as int,
            ),
            final(self).start() < final(self).pos() ==> {
                let c = final(self).chars()[final(self).start() as int];
                &&& !white_space(c) && c != '#'
                &&& punct_kind(c) is Some ==> r.kind == punct_kind(c)->Some_0
                &&& punct_kind(c) is None && c != '\'' && (alphabetic(c) || c == '_') ==> r.kind == word_kind(
                    final(self).chars().subrange(final(self).start() as int, final(self).pos() as int),
                )
                &&& punct_kind(c) is None && c != '\'' && !alphabetic(c) && c != '_' && numeric(c)
                    ==> r.kind == TokenType::Number
                &&& c == '\'' ==> (r.kind == TokenType::String <==> exists|k: int|
                    final(self).start() < k < final(self).chars().len() && final(self).chars()[k] == '\'')
                &&& c == '\'' && r.kind == TokenType::String ==> final(self).chars()[final(self).pos() - 1 as int]
                    == '\'' && forall|k: int|
                    final(self).start() < k < final(self).pos() - 1 ==> final(self).chars()[k] != '\''
            },
    {
        self.skip_whitespace();
        self.start = self.current;
        let t = match self.advance() {
            Some(c) => match c {
                '[' => self.make_token(TokenType::LeftBracket),
                ']' => self.make_token(TokenType::RightBracket),
                '(' => self.make_token(TokenType::LeftParen),
                ')' => self.make_token(TokenType::RightParen),
                '{' => self.make_token(TokenType::LeftBrace),
                '}' => self.make_token(TokenType::RightBrace),
                '<' => self.make_token(TokenType::LeftCaret),
                '>' => self.make_token(TokenType::RightCaret),
                '=' => self.make_token(TokenType::Equal),
                '&' => self.make_token(TokenType::Ampersand),
                '+' => self.make_token(TokenType::Plus),
                '-' => self.make_token(TokenType::Minus),
                '*' => self.make_token(TokenType::Star),
                '/' => self.make_token(TokenType::Slash),
                '.' => self.make_token(TokenType::Dot),
                ';' => self.make_token(TokenType::Semicolon),
                ',' => self.make_token(TokenType::Comma),
                ':' => self.make_token(TokenType::Colon),
                '?' => self.make_token(TokenType::Question),
                '\'' => self.string(),
                _ => {
                    if is_alphabetic(c) || c == '_' {
                        self.identifier()
                    } else if is_numeric(c) {
                        self.number()
                    } else {
                        self.error_token("Unexpected character.")
                    }
                },
            },
            None => self.make_token(TokenType::Eof),
        };
        t
    }
}

} // verus!
