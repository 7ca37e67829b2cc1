use crate::util::{is_alpha, is_digit, str_eq};
use vstd::prelude::*;
use vstd::string::StrSliceExecFns;

verus! {

/// Every kind of token the language knows.
#[allow(non_camel_case_types)]
#[derive(Debug, PartialEq, Eq, Structural, Clone, Copy)]
pub enum TokenKind {
    // Single-character tokens.
    TOKEN_LEFT_PAREN,
    TOKEN_RIGHT_PAREN,
    TOKEN_LEFT_BRACE,
    TOKEN_RIGHT_BRACE,
    TOKEN_COMMA,
    TOKEN_DOT,
    TOKEN_MINUS,
    TOKEN_PLUS,
    TOKEN_SEMICOLON,
    TOKEN_SLASH,
    TOKEN_STAR,
    // One or two character tokens.
    TOKEN_BANG,
    TOKEN_BANG_EQUAL,
    TOKEN_EQUAL,
    TOKEN_EQUAL_EQUAL,
    TOKEN_GREATER,
    TOKEN_GREATER_EQUAL,
    TOKEN_LESS,
    TOKEN_LESS_EQUAL,
    // Literals.
    TOKEN_IDENTIFIER,
    TOKEN_STRING,
    TOKEN_NUMBER,
    // Keywords.
    TOKEN_AND,
    TOKEN_CLASS,
    TOKEN_ELSE,
    TOKEN_FALSE,
    TOKEN_FOR,
    TOKEN_FUN,
    TOKEN_IF,
    TOKEN_NIL,
    TOKEN_OR,
    TOKEN_PRINT,
    TOKEN_RETURN,
    TOKEN_SUPER,
    TOKEN_THIS,
    TOKEN_TRUE,
    TOKEN_VAR,
    TOKEN_WHILE,
    TOKEN_ASSERT_EQ,
    TOKEN_ERROR,
    TOKEN_EOF,
}

/// One token: its kind, its text, and the source line it began on.
pub struct Token {
    pub kind: TokenKind,
    pub slice: String,
    pub line: usize,
}

impl Token {
    pub fn new(kind: TokenKind, slice: String, line: usize) -> (t: Self)
        ensures
            t.kind == kind,
            t.slice == slice,
            t.line == line,
    {
        Token { kind, slice, line }
    }
}

impl Clone for Token {
    fn clone(&self) -> (t: Self)
        ensures
            t.kind == self.kind,
            t.slice@ == self.slice@,
            t.line == self.line,
    {
        Token { kind: self.kind, slice: self.slice.clone(), line: self.line }
    }
}

pub open spec fn is_ws_char(c: char) -> bool {
    c == ' ' || c == '\r' || c == '\t'
}

/// Where whitespace skipping stops, and the line it stops on. Blanks and
/// newlines are consumed one by one; a line comment is consumed through its
/// terminating newline, character by character in comment mode, and the
/// skipping then goes on.
pub open spec fn skip_ws_from(src: Seq<char>, pos: int, line: int, in_comment: bool) -> (int, int)
    decreases
            src.len() - pos,
            (if in_comment {
                0int
            } else {
                1int
            }),
{
    if pos < 0 || pos >= src.len() {
        (pos, line)
    } else if in_comment {
        if src[pos] == '\n' {
            skip_ws_from(src, pos + 1, line + 1, false)
        } else {
            skip_ws_from(src, pos + 1, line, true)
        }
    } else if is_ws_char(src[pos]) {
        skip_ws_from(src, pos + 1, line, false)
    } else if src[pos] == '\n' {
        skip_ws_from(src, pos + 1, line + 1, false)
    } else if src[pos] == '/' && pos + 1 < src.len() && src[pos + 1] == '/' {
        skip_ws_from(src, pos, line, true)
    } else {
        (pos, line)
    }
}

pub open spec fn skip_ws(src: Seq<char>, pos: int, line: int) -> (int, int) {
    skip_ws_from(src, pos, line, false)
}

/// The hand-written lexer: a cursor over the source, tracking the token in
/// progress and the current line.
pub struct Scanner {
    pub source: String,
    pub start: usize,
    pub current: usize,
    pub source_length: usize,
    pub line: usize,
}

impl Scanner {
    /// The cursor stays within the source and the line count stays within
    /// what the consumed characters allow.
    pub open spec fn wf(&self) -> bool {
        &&& self.source_length == self.source@.len()
        &&& self.source_length < usize::MAX
        &&& self.current <= self.source_length
        &&& self.start <= self.source_length
        &&& 1 <= self.line
        &&& self.line <= self.current + 1
    }

    pub fn new(source: &String) -> (sc: Self)
        requires
            source@.len() < usize::MAX,
        ensures
            sc.wf(),
            sc.source@ == source@,
            sc.start == 0,
            sc.current == 0,
            sc.line == 1,
    {
        let source_length = source.as_str().unicode_len();
        Scanner { source: source.clone(), current: 0, start: 0, source_length, line: 1 }
    }

    /// The first character of the token in progress.
    fn start(&self) -> (c: char)
        requires
            self.wf(),
            self.start < self.source_length,
        ensures
            c == self.source@[self.start as int],
    {
        self.source.as_str().get_char(self.start)
    }

    /// The character under the cursor.
    fn current(&self) -> (c: char)
        requires
            self.wf(),
            self.current < self.source_length,
        ensures
            c == self.source@[self.current as int],
    {
        self.source.as_str().get_char(self.current)
    }

    fn make_token(&self, kind: TokenKind) -> (t: Token)
        requires
            self.wf(),
            self.start <= self.current,
        ensures
            t.kind == kind,
            t.line == self.line,
            t.slice@ == self.source@.subrange(self.start as int, self.current as int),
    {
        let slice = self.source.as_str().substring_char(self.start, self.current).to_owned();
        Token::new(kind, slice, self.line)
    }

    fn error_token(&self, message: &str) -> (t: Token)
        ensures
            t.kind == TokenKind::TOKEN_ERROR,
            t.line == self.line,
            t.slice@ == message@,
    {
        Token::new(TokenKind::TOKEN_ERROR, message.to_owned(), self.line)
    }

    pub fn is_at_end(&self) -> (r: bool)
        ensures
            r == (self.current >= self.source_length),
    {
        self.current >= self.source_length
    }

    pub fn is_at_peek_next_end(&self) -> (r: bool)
        requires
            self.wf(),
        ensures
            r == (self.current + 1 >= self.source_length),
    {
        self.current + 1 >= self.source_length
    }

    /// Moves the cursor one character forward; at the end of the source it
    /// stays put.
    pub fn advance(&mut self)
        requires
            old(self).wf(),
        ensures
            final(self).wf(),
            final(self).source == old(self).source,
            final(self).start == old(self).start,
            final(self).source_length == old(self).source_length,
            final(self).line == old(self).line,
            final(self).current == if old(self).current < old(self).source_length {
                (old(self).current + 1) as usize
            } else {
                old(self).current
            },
    {
        if self.current < self.source_length {
            self.current = self.current + 1;
        }
    }

    pub fn peek(&self) -> (r: Option<char>)
        requires
            self.wf(),
        ensures
            self.current < self.source_length ==> r == Some(self.source@[self.current as int]),
            self.current >= self.source_length ==> r is None,
    {
        if self.is_at_end() {
            return None;
        }
        Some(self.source.as_str().get_char(self.current))
    }

    pub fn peek_next(&self) -> (r: Option<char>)
        requires
            self.wf(),
        ensures
            self.current + 1 < self.source_length ==> r == Some(
                self.source@[self.current as int + 1],
            ),
            self.current + 1 >= self.source_length ==> r is None,
    {
        if self.is_at_peek_next_end() {
            return None;
        }
        Some(self.source.as_str().get_char(self.current + 1))
    }

    /// Whether the character after the one under the cursor is `expected`:
    /// the lookahead for two-character operators.
    pub fn expect(&self, expected: char) -> (r: bool)
        requires
            self.wf(),
        ensures
            r == (self.current + 1 < self.source_length && self.source@[self.current as int + 1]
                == expected),
    {
        if let Some(peek) = self.peek_next() {
            peek == expected
        } else {
            false
        }
    }

    /// Skips blanks, newlines and one line comment, keeping the line count.
    pub fn skip_whitespace(&mut self)
        requires
            old(self).wf(),
        ensures
            final(self).wf(),
            final(self).source == old(self).source,
            final(self).start == old(self).start,
            final(self).source_length == old(self).source_length,
            (final(self).current as int, final(self).line as int) == skip_ws(
                old(self).source@,
                old(self).current as int,
                old(self).line as int,
            ),
    {
        let ghost src = self.source@;
        let ghost goal = skip_ws(src, self.current as int, self.line as int);
        loop
            invariant_except_break
                self.wf(),
                src == self.source@,
                self.start == old(self).start,
                self.source == old(self).source,
                self.source_length == old(self).source_length,
                goal == skip_ws_from(src, self.current as int, self.line as int, false),
                goal == skip_ws(old(self).source@, old(self).current as int, old(self).line as int),
            ensures
                self.wf(),
                self.source == old(self).source,
                self.start == old(self).start,
                self.source_length == old(self).source_length,
                (self.current as int, self.line as int) == skip_ws(
                    old(self).source@,
                    old(self).current as int,
                    old(self).line as int,
                ),
            decreases self.source_length - self.current,
        {
            if self.current >= self.source_length {
                break ;
            }
            let c = self.current();
            if c == ' ' || c == '\r' || c == '\t' {
                self.current = self.current + 1;
            } else if c == '\n' {
                self.line = self.line + 1;
                self.current = self.current + 1;
            } else if c == '/' {
                if self.expect('/') {
                    // A line comment: consume through its newline.
                    let ghost cur_before = self.current;
                    loop
                        invariant_except_break
                            self.wf(),
                            src == self.source@,
                            self.start == old(self).start,
                            self.source == old(self).source,
                            self.source_length == old(self).source_length,
                            cur_before <= self.current,
                            cur_before < self.source_length,
                            goal == skip_ws_from(src, self.current as int, self.line as int, true),
                        ensures
                            self.wf(),
                            src == self.source@,
                            self.source == old(self).source,
                            self.start == old(self).start,
                            self.source_length == old(self).source_length,
                            self.current > cur_before,
                            goal == skip_ws_from(src, self.current as int, self.line as int, false),
                        decreases self.source_length - self.current,
                    {
                        if self.current >= self.source_length {
                            break ;
                        }
                        let p = self.current();
                        if p == '\n' {
                            self.line = self.line + 1;
                            self.current = self.current + 1;
                            break ;
                        }
                        self.current = self.current + 1;
                    }
                } else {
                    break ;
                }
            } else {
                break ;
            }
        }
    }

    /// Scans a string literal. The cursor stands just past the opening
    /// quote; the token keeps both quotes in its text and may span lines.
    pub fn tokenize_string(&mut self) -> (t: Token)
        requires
            old(self).wf(),
            old(self).start <= old(self).current,
        ensures
            final(self).wf(),
            final(self).source == old(self).source,
            final(self).start == old(self).start,
            final(self).source_length == old(self).source_length,
            ({
                let src = old(self).source@;
                let q = string_end(src, old(self).current as int);
                if q < src.len() {
                    &&& t.kind == TokenKind::TOKEN_STRING
                    &&& final(self).current as int == q + 1
                    &&& final(self).line as int == old(self).line + newlines_in(
                        src,
                        old(self).current as int,
                        q,
                    )
                    &&& t.slice@ == src.subrange(old(self).start as int, q + 1)
                    &&& t.line == final(self).line
                } else {
                    &&& t.kind == TokenKind::TOKEN_ERROR
                    &&& final(self).current as int == src.len()
                    &&& final(self).line as int == old(self).line + newlines_in(
                        src,
                        old(self).current as int,
                        src.len() as int,
                    )
                    &&& t.slice@ == "Unterminated string."@
                    &&& t.line == final(self).line
                }
            }),
    {
        let ghost src = self.source@;
        let ghost cur0 = self.current as int;
        let ghost line0 = self.line as int;
        loop
            invariant_except_break
                self.wf(),
                src == self.source@,
                self.source == old(self).source,
                self.start == old(self).start,
                self.source_length == old(self).source_length,
                0 <= cur0 <= self.current as int,
                string_end(src, cur0) == string_end(src, self.current as int),
                self.line as int == line0 + newlines_in(src, cur0, self.current as int),
            ensures
                self.wf(),
                src == self.source@,
                self.source == old(self).source,
                self.start == old(self).start,
                self.source_length == old(self).source_length,
                cur0 <= self.current as int,
                self.current as int == string_end(src, cur0) || (self.current
                    >= self.source_length && string_end(src, cur0) == src.len()),
                self.line as int == line0 + newlines_in(src, cur0, self.current as int),
            decreases self.source_length - self.current,
        {
            if self.current >= self.source_length {
                break ;
            }
            let c = self.current();
            if c == '"' {
                break ;
            }
            proof {
                lemma_newlines_snoc(src, cur0, self.current as int);
            }
            if c == '\n' {
                self.line = self.line + 1;
            }
            self.current = self.current + 1;
        }
        if self.is_at_end() {
            return self.error_token("Unterminated string.");
        }
        // The closing quote.
        self.current = self.current + 1;
        self.make_token(TokenKind::TOKEN_STRING)
    }

    /// Scans a number: an integer part and, when a dot with a digit behind
    /// it follows, a fractional part.
    pub fn tokenize_number(&mut self) -> (t: Token)
        requires
            old(self).wf(),
            old(self).start <= old(self).current,
        ensures
            final(self).wf(),
            final(self).source == old(self).source,
            final(self).start == old(self).start,
            final(self).source_length == old(self).source_length,
            final(self).line == old(self).line,
            final(self).current as int == number_end(old(self).source@, old(self).current as int),
            old(self).current <= final(self).current,
            t.kind == TokenKind::TOKEN_NUMBER,
            t.line == final(self).line,
            t.slice@ == old(self).source@.subrange(
                old(self).start as int,
                final(self).current as int,
            ),
    {
        let ghost src = self.source@;
        let ghost cur0 = self.current as int;
        // The integer part.
        loop
            invariant_except_break
                self.wf(),
                src == self.source@,
                self.source == old(self).source,
                self.start == old(self).start,
                self.source_length == old(self).source_length,
                self.line == old(self).line,
                cur0 <= self.current as int,
                digits_end(src, cur0) == digits_end(src, self.current as int),
            ensures
                self.wf(),
                src == self.source@,
                self.source == old(self).source,
                self.start == old(self).start,
                self.source_length == old(self).source_length,
                self.line == old(self).line,
                cur0 <= self.current as int,
                self.current as int == digits_end(src, cur0),
            decreases self.source_length - self.current,
        {
            match self.peek() {
                Some(peek) => {
                    if !is_digit(peek) {
                        break ;
                    }
                },
                None => {
                    break ;
                },
            }
            self.current = self.current + 1;
        }
        // A fractional part.
        let mut has_fraction = false;
        if let Some(peek) = self.peek() {
            if let Some(peek_next) = self.peek_next() {
                if peek == '.' && is_digit(peek_next) {
                    has_fraction = true;
                }
            }
        }
        if has_fraction {
            let ghost d = self.current as int;
            self.current = self.current + 1;
            loop
                invariant_except_break
                    self.wf(),
                    src == self.source@,
                    self.source == old(self).source,
                    self.start == old(self).start,
                    self.source_length == old(self).source_length,
                    self.line == old(self).line,
                    d + 1 <= self.current as int,
                    digits_end(src, d + 1) == digits_end(src, self.current as int),
                    number_end(src, cur0) == digits_end(src, d + 1),
                ensures
                    self.wf(),
                    src == self.source@,
                    self.source == old(self).source,
                    self.start == old(self).start,
                    self.source_length == old(self).source_length,
                    self.line == old(self).line,
                    d + 1 <= self.current as int,
                    self.current as int == number_end(src, cur0),
                decreases self.source_length - self.current,
            {
                match self.peek() {
                    Some(peek) => {
                        if !is_digit(peek) {
                            break ;
                        }
                    },
                    None => {
                        break ;
                    },
                }
                self.current = self.current + 1;
            }
        }
        self.make_token(TokenKind::TOKEN_NUMBER)
    }

    /// Scans an identifier with maximal munch and classifies it against the
    /// keyword table.
    pub fn tokenize_identifier(&mut self) -> (t: Token)
        requires
            old(self).wf(),
            old(self).start <= old(self).current,
        ensures
            final(self).wf(),
            final(self).source == old(self).source,
            final(self).start == old(self).start,
            final(self).source_length == old(self).source_length,
            final(self).line == old(self).line,
            final(self).current as int == ident_end(old(self).source@, old(self).current as int),
            old(self).current <= final(self).current,
            t.kind == keyword_kind(
                old(self).source@.subrange(old(self).start as int, final(self).current as int),
            ),
            t.line == final(self).line,
            t.slice@ == old(self).source@.subrange(
                old(self).start as int,
                final(self).current as int,
            ),
    {
        let ghost src = self.source@;
        let ghost cur0 = self.current as int;
        loop
            invariant_except_break
                self.wf(),
                src == self.source@,
                self.source == old(self).source,
                self.start == old(self).start,
                self.source_length == old(self).source_length,
                self.line == old(self).line,
                cur0 <= self.current as int,
                ident_end(src, cur0) == ident_end(src, self.current as int),
            ensures
                self.wf(),
                src == self.source@,
                self.source == old(self).source,
                self.start == old(self).start,
                self.source_length == old(self).source_length,
                self.line == old(self).line,
                cur0 <= self.current as int,
                self.current as int == ident_end(src, cur0),
            decreases self.source_length - self.current,
        {
            match self.peek() {
                Some(peek) => {
                    if !(is_alpha(peek) || is_digit(peek)) {
                        break ;
                    }
                },
                None => {
                    break ;
                },
            }
            self.current = self.current + 1;
        }
        let kind = self.identifier_type();
        self.make_token(kind)
    }

    /// Classifies the token in progress: a keyword's kind when its text is
    /// exactly that keyword, else a plain identifier.
    pub fn identifier_type(&self) -> (kind: TokenKind)
        requires
            self.wf(),
            self.start <= self.current,
        ensures
            kind == keyword_kind(self.source@.subrange(self.start as int, self.current as int)),
    {
        let word = self.source.as_str().substring_char(self.start, self.current);
        if str_eq(word, "and") {
            TokenKind::TOKEN_AND
        } else if str_eq(word, "assert_eq") {
            TokenKind::TOKEN_ASSERT_EQ
        } else if str_eq(word, "class") {
            TokenKind::TOKEN_CLASS
        } else if str_eq(word, "else") {
            TokenKind::TOKEN_ELSE
        } else if str_eq(word, "false") {
            TokenKind::TOKEN_FALSE
        } else if str_eq(word, "for") {
            TokenKind::TOKEN_FOR
        } else if str_eq(word, "fun") {
            TokenKind::TOKEN_FUN
        } else if str_eq(word, "if") {
            TokenKind::TOKEN_IF
        } else if str_eq(word, "nil") {
            TokenKind::TOKEN_NIL
        } else if str_eq(word, "or") {
            TokenKind::TOKEN_OR
        } else if str_eq(word, "print") {
            TokenKind::TOKEN_PRINT
        } else if str_eq(word, "return") {
            TokenKind::TOKEN_RETURN
        } else if str_eq(word, "super") {
            TokenKind::TOKEN_SUPER
        } else if str_eq(word, "this") {
            TokenKind::TOKEN_THIS
        } else if str_eq(word, "true") {
            TokenKind::TOKEN_TRUE
        } else if str_eq(word, "var") {
            TokenKind::TOKEN_VAR
        } else if str_eq(word, "while") {
            TokenKind::TOKEN_WHILE
        } else {
            TokenKind::TOKEN_IDENTIFIER
        }
    }

    /// Whether the region of the token in progress that begins `start`
    /// characters in continues with exactly `the_rest` and nothing more; if
    /// so the keyword's kind, else a plain identifier.
    pub fn check_keyword(&self, start: usize, end: usize, the_rest: &str, kind: TokenKind) -> (r:
        TokenKind)
        requires
            self.wf(),
            self.start <= self.current,
            start + end <= usize::MAX,
        ensures
            r == if self.current - self.start == start + end && self.source@.subrange(
                self.start + start,
                self.start + start + end,
            ) == the_rest@ {
                kind
            } else {
                TokenKind::TOKEN_IDENTIFIER
            },
    {
        if self.current - self.start == start + end {
            let sub = self.source.as_str().substring_char(
                self.start + start,
                self.start + start + end,
            );
            if str_eq(sub, the_rest) {
                return kind;
            }
        }
        TokenKind::TOKEN_IDENTIFIER
    }

    /// Scans the next token. Whitespace and comments are skipped first;
    /// identifiers, numbers and strings are consumed whole, while
    /// punctuation leaves its character for the caller to step over.
    pub fn scan_token(&mut self) -> (t: Token)
        requires
            old(self).wf(),
        ensures
            final(self).wf(),
            final(self).source == old(self).source,
            scan_token_post(*old(self), *final(self), t),
    {
        self.skip_whitespace();
        self.start = self.current;

        if self.is_at_end() {
            return self.make_token(TokenKind::TOKEN_EOF);
        }

        let c = self.start();

        if is_alpha(c) {
            return self.tokenize_identifier();
        }
        if is_digit(c) {
            return self.tokenize_number();
        }

        match c {
            // single character
            '(' => return self.make_token(TokenKind::TOKEN_LEFT_PAREN),
            ')' => return self.make_token(TokenKind::TOKEN_RIGHT_PAREN),
            '{' => return self.make_token(TokenKind::TOKEN_LEFT_BRACE),
            '}' => return self.make_token(TokenKind::TOKEN_RIGHT_BRACE),
            ';' => return self.make_token(TokenKind::TOKEN_SEMICOLON),
            ',' => return self.make_token(TokenKind::TOKEN_COMMA),
            '.' => return self.make_token(TokenKind::TOKEN_DOT),
            '-' => return self.make_token(TokenKind::TOKEN_MINUS),
            '+' => return self.make_token(TokenKind::TOKEN_PLUS),
            '/' => return self.make_token(TokenKind::TOKEN_SLASH),
            '*' => return self.make_token(TokenKind::TOKEN_STAR),
            // optional two character
            '!' => {
                if self.expect('=') {
                    self.advance();
                    return self.make_token(TokenKind::TOKEN_BANG_EQUAL);
                } else {
                    return self.make_token(TokenKind::TOKEN_BANG);
                }
            },
            '=' => {
                if self.expect('=') {
                    self.advance();
                    return self.make_token(TokenKind::TOKEN_EQUAL_EQUAL);
                } else {
                    return self.make_token(TokenKind::TOKEN_EQUAL);
                }
            },
            '<' => {
                if self.expect('=') {
                    self.advance();
                    return self.make_token(TokenKind::TOKEN_LESS_EQUAL);
                } else {
                    return self.make_token(TokenKind::TOKEN_LESS);
                }
            },
            '>' => {
                if self.expect('=') {
                    self.advance();
                    return self.make_token(TokenKind::TOKEN_GREATER_EQUAL);
                } else {
                    return self.make_token(TokenKind::TOKEN_GREATER);
                }
            },
            '"' => {
                self.advance();
                return self.tokenize_string();
            },
            _ => {},
        }
        self.error_token("Unexpected character.")
    }
}

impl From<&String> for Scanner {
    fn from(source: &String) -> (sc: Self)
        ensures
            source@.len() < usize::MAX ==> sc.wf(),
            sc.source@ == source@,
            sc.start == 0,
            sc.current == 0,
            sc.line == 1,
    {
        let source_length = source.as_str().unicode_len();
        Scanner { source: source.clone(), start: 0, current: 0, line: 1, source_length }
    }
}

impl vstd::std_specs::convert::FromSpecImpl<&String> for Scanner {
    open spec fn obeys_from_spec() -> bool {
        true
    }

    open spec fn from_spec(v: &String) -> Scanner {
        Scanner {
            source: *v,
            start: 0,
            current: 0,
            line: 1,
            source_length: v@.len() as usize,
        }
    }
}

/// The end of a maximal run of digits beginning at `pos`.
pub open spec fn digits_end(src: Seq<char>, pos: int) -> int
    decreases src.len() - pos,
{
    if 0 <= pos < src.len() && crate::util::is_digit_char(src[pos]) {
        digits_end(src, pos + 1)
    } else {
        pos
    }
}

/// The end of a numeric literal beginning at `pos`: digits, then a
/// fractional part when a dot with a digit behind it follows.
pub open spec fn number_end(src: Seq<char>, pos: int) -> int {
    let d = digits_end(src, pos);
    if d + 1 < src.len() && src[d] == '.' && crate::util::is_digit_char(src[d + 1]) {
        digits_end(src, d + 1)
    } else {
        d
    }
}

/// The end of a maximal run of identifier characters beginning at `pos`.
pub open spec fn ident_end(src: Seq<char>, pos: int) -> int
    decreases src.len() - pos,
{
    if 0 <= pos < src.len() && (crate::util::is_alpha_char(src[pos])
        || crate::util::is_digit_char(src[pos])) {
        ident_end(src, pos + 1)
    } else {
        pos
    }
}

/// The position of the first quote at or after `pos`, or the source's end.
pub open spec fn string_end(src: Seq<char>, pos: int) -> int
    decreases src.len() - pos,
{
    if pos < 0 || pos >= src.len() {
        src.len() as int
    } else if src[pos] == '"' {
        pos
    } else {
        string_end(src, pos + 1)
    }
}

/// How many newlines lie in `src[a .. b)`.
pub open spec fn newlines_in(src: Seq<char>, a: int, b: int) -> int
    decreases b - a,
{
    if a < 0 || a >= b {
        0
    } else {
        (if src[a] == '\n' {
            1int
        } else {
            0int
        }) + newlines_in(src, a + 1, b)
    }
}

proof fn lemma_newlines_snoc(src: Seq<char>, a: int, b: int)
    requires
        0 <= a <= b,
    ensures
        newlines_in(src, a, b + 1) == newlines_in(src, a, b) + (if b < src.len() && src[b] == '\n' {
            1int
        } else {
            0int
        }) || b >= src.len(),
    decreases b - a,
{
    reveal_with_fuel(newlines_in, 3);
    if a < b {
        lemma_newlines_snoc(src, a + 1, b);
    }
}

proof fn lemma_skip_ws_from_bounds(src: Seq<char>, pos: int, line: int, in_comment: bool)
    requires
        0 <= pos <= src.len(),
    ensures
        pos <= skip_ws_from(src, pos, line, in_comment).0 <= src.len(),
    decreases
            src.len() - pos,
            (if in_comment {
                0int
            } else {
                1int
            }),
{
    if pos >= src.len() {
    } else if in_comment {
        if src[pos] == '\n' {
            lemma_skip_ws_from_bounds(src, pos + 1, line + 1, false);
        } else {
            lemma_skip_ws_from_bounds(src, pos + 1, line, true);
        }
    } else if is_ws_char(src[pos]) {
        lemma_skip_ws_from_bounds(src, pos + 1, line, false);
    } else if src[pos] == '\n' {
        lemma_skip_ws_from_bounds(src, pos + 1, line + 1, false);
    } else if src[pos] == '/' && pos + 1 < src.len() && src[pos + 1] == '/' {
        lemma_skip_ws_from_bounds(src, pos, line, true);
    } else {
    }
}

/// A digit run never moves backward nor past the end, and covers digits
/// only.
pub proof fn lemma_digits_end_bounds(src: Seq<char>, pos: int)
    requires
        0 <= pos <= src.len(),
    ensures
        pos <= digits_end(src, pos) <= src.len(),
        forall|k: int|
            pos <= k < digits_end(src, pos) ==> crate::util::is_digit_char(#[trigger] src[k]),
    decreases src.len() - pos,
{
    if pos < src.len() && crate::util::is_digit_char(src[pos]) {
        lemma_digits_end_bounds(src, pos + 1);
    }
}

/// An identifier run never moves backward nor past the end.
pub proof fn lemma_ident_end_bounds(src: Seq<char>, pos: int)
    requires
        0 <= pos <= src.len(),
    ensures
        pos <= ident_end(src, pos) <= src.len(),
    decreases src.len() - pos,
{
    if pos < src.len() && (crate::util::is_alpha_char(src[pos]) || crate::util::is_digit_char(
        src[pos],
    )) {
        lemma_ident_end_bounds(src, pos + 1);
    }
}

/// The scan for a closing quote never moves backward nor past the end.
pub proof fn lemma_string_end_bounds(src: Seq<char>, pos: int)
    requires
        0 <= pos <= src.len(),
    ensures
        pos <= string_end(src, pos) <= src.len(),
    decreases src.len() - pos,
{
    if pos < src.len() && src[pos] != '"' {
        lemma_string_end_bounds(src, pos + 1);
    }
}

/// A numeric literal never moves backward nor past the end.
pub proof fn lemma_number_end_bounds(src: Seq<char>, pos: int)
    requires
        0 <= pos <= src.len(),
    ensures
        pos <= number_end(src, pos) <= src.len(),
{
    lemma_digits_end_bounds(src, pos);
    let d = digits_end(src, pos);
    if d + 1 < src.len() && src[d] == '.' && crate::util::is_digit_char(src[d + 1]) {
        lemma_digits_end_bounds(src, d + 1);
    }
}

/// A token that starts at an in-range position consumes at least one
/// character: identifiers and numbers take their first character, and a
/// string takes at least its opening quote.
pub proof fn lemma_scan_progress(src: Seq<char>, p: int)
    requires
        0 <= p < src.len(),
    ensures
        crate::util::is_alpha_char(src[p]) ==> ident_end(src, p) >= p + 1,
        crate::util::is_digit_char(src[p]) ==> number_end(src, p) >= p + 1,
        string_end(src, p + 1) + 1 >= p + 2,
{
    if crate::util::is_alpha_char(src[p]) {
        assert(ident_end(src, p) == ident_end(src, p + 1));
        lemma_ident_end_bounds(src, p + 1);
    }
    if crate::util::is_digit_char(src[p]) {
        assert(digits_end(src, p) == digits_end(src, p + 1));
        lemma_digits_end_bounds(src, p + 1);
        let d = digits_end(src, p);
        if d + 1 < src.len() && src[d] == '.' && crate::util::is_digit_char(src[d + 1]) {
            lemma_digits_end_bounds(src, d + 1);
        }
    }
    lemma_string_end_bounds(src, p + 1);
}

/// The whitespace skipper never moves backward nor past the end.
pub proof fn lemma_skip_ws_bounds(src: Seq<char>, pos: int, line: int)
    requires
        0 <= pos <= src.len(),
    ensures
        pos <= skip_ws(src, pos, line).0 <= src.len(),
{
    lemma_skip_ws_from_bounds(src, pos, line, false);
}

/// The kind a word of identifier characters lexes to: one of the fixed
/// keywords, or a plain identifier.
pub open spec fn keyword_kind(word: Seq<char>) -> TokenKind {
    if word == "and"@ {
        TokenKind::TOKEN_AND
    } else if word == "assert_eq"@ {
        TokenKind::TOKEN_ASSERT_EQ
    } else if word == "class"@ {
        TokenKind::TOKEN_CLASS
    } else if word == "else"@ {
        TokenKind::TOKEN_ELSE
    } else if word == "false"@ {
        TokenKind::TOKEN_FALSE
    } else if word == "for"@ {
        TokenKind::TOKEN_FOR
    } else if word == "fun"@ {
        TokenKind::TOKEN_FUN
    } else if word == "if"@ {
        TokenKind::TOKEN_IF
    } else if word == "nil"@ {
        TokenKind::TOKEN_NIL
    } else if word == "or"@ {
        TokenKind::TOKEN_OR
    } else if word == "print"@ {
        TokenKind::TOKEN_PRINT
    } else if word == "return"@ {
        TokenKind::TOKEN_RETURN
    } else if word == "super"@ {
        TokenKind::TOKEN_SUPER
    } else if word == "this"@ {
        TokenKind::TOKEN_THIS
    } else if word == "true"@ {
        TokenKind::TOKEN_TRUE
    } else if word == "var"@ {
        TokenKind::TOKEN_VAR
    } else if word == "while"@ {
        TokenKind::TOKEN_WHILE
    } else {
        TokenKind::TOKEN_IDENTIFIER
    }
}

/// The kind of a punctuation or operator character, with the one-character
/// lookahead for the four comparison operators.
pub open spec fn punct_kind(src: Seq<char>, p: int) -> TokenKind {
    let c = src[p];
    if c == '(' {
        TokenKind::TOKEN_LEFT_PAREN
    } else if c == ')' {
        TokenKind::TOKEN_RIGHT_PAREN
    } else if c == '{' {
        TokenKind::TOKEN_LEFT_BRACE
    } else if c == '}' {
        TokenKind::TOKEN_RIGHT_BRACE
    } else if c == ';' {
        TokenKind::TOKEN_SEMICOLON
    } else if c == ',' {
        TokenKind::TOKEN_COMMA
    } else if c == '.' {
        TokenKind::TOKEN_DOT
    } else if c == '-' {
        TokenKind::TOKEN_MINUS
    } else if c == '+' {
        TokenKind::TOKEN_PLUS
    } else if c == '/' {
        TokenKind::TOKEN_SLASH
    } else if c == '*' {
        TokenKind::TOKEN_STAR
    } else if c == '!' {
        if two_char_op(src, p) {
            TokenKind::TOKEN_BANG_EQUAL
        } else {
            TokenKind::TOKEN_BANG
        }
    } else if c == '=' {
        if two_char_op(src, p) {
            TokenKind::TOKEN_EQUAL_EQUAL
        } else {
            TokenKind::TOKEN_EQUAL
        }
    } else if c == '<' {
        if two_char_op(src, p) {
            TokenKind::TOKEN_LESS_EQUAL
        } else {
            TokenKind::TOKEN_LESS
        }
    } else if c == '>' {
        if two_char_op(src, p) {
            TokenKind::TOKEN_GREATER_EQUAL
        } else {
            TokenKind::TOKEN_GREATER
        }
    } else {
        TokenKind::TOKEN_ERROR
    }
}

/// An operator that pairs with a following equals sign.
pub open spec fn two_char_op(src: Seq<char>, p: int) -> bool {
    &&& (src[p] == '!' || src[p] == '=' || src[p] == '<' || src[p] == '>')
    &&& p + 1 < src.len()
    &&& src[p + 1] == '='
}

/// What one call of scan_token does: where the cursor lands, which token
/// comes back, and how the line count moves.
pub open spec fn scan_token_post(o: Scanner, n: Scanner, t: Token) -> bool {
    let src = o.source@;
    let pl = skip_ws(src, o.current as int, o.line as int);
    let p = pl.0;
    let l = pl.1;
    &&& n.source@ == src
    &&& n.source_length == o.source_length
    &&& n.start as int == p
    &&& t.line == n.line
    &&& if p >= src.len() {
        &&& t.kind == TokenKind::TOKEN_EOF
        &&& n.current as int == p
        &&& n.line as int == l
        &&& t.slice@ == src.subrange(p, p)
    } else if crate::util::is_alpha_char(src[p]) {
        let e = ident_end(src, p);
        &&& t.kind == keyword_kind(src.subrange(p, e))
        &&& n.current as int == e
        &&& n.line as int == l
        &&& t.slice@ == src.subrange(p, e)
    } else if crate::util::is_digit_char(src[p]) {
        let e = number_end(src, p);
        &&& t.kind == TokenKind::TOKEN_NUMBER
        &&& n.current as int == e
        &&& n.line as int == l
        &&& t.slice@ == src.subrange(p, e)
    } else if src[p] == '"' {
        let q = string_end(src, p + 1);
        if q < src.len() {
            &&& t.kind == TokenKind::TOKEN_STRING
            &&& n.current as int == q + 1
            &&& n.line as int == l + newlines_in(src, p + 1, q)
            &&& t.slice@ == src.subrange(p, q + 1)
        } else {
            &&& t.kind == TokenKind::TOKEN_ERROR
            &&& n.current as int == src.len()
            &&& n.line as int == l + newlines_in(src, p + 1, src.len() as int)
            &&& t.slice@ == "Unterminated string."@
        }
    } else {
        &&& t.kind == punct_kind(src, p)
        &&& n.line as int == l
        &&& n.current as int == if two_char_op(src, p) {
            p + 1
        } else {
            p
        }
        &&& (t.kind == TokenKind::TOKEN_ERROR ==> t.slice@ == "Unexpected character."@)
        &&& (t.kind != TokenKind::TOKEN_ERROR ==> t.slice@ == src.subrange(p, n.current as int))
    }
}

} // verus!
