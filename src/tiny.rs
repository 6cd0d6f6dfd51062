//! The Tiny language: the same statements as Mist, with declaration checks
//! made while parsing, Unicode identifiers and numerals, and error messages
//! that carry a source position.
//!
//! ```text
//! program     := statement*
//! statement   := "maybe" IDENTIFIER "=" expression | "blah" expression
//! expression  := term (("+" | "-") term)*
//! term        := NUMBER | STRING | IDENTIFIER
//! ```

use vstd::prelude::*;
use crate::bindings::Bindings;
pub use crate::mist::{Expression, Position, KindModel, advance_spec, pos_over};
use crate::text::{chars_of, push_char, push_str, numeral, parse_unsigned, int_numeral, parse_unsigned_i32, escape_text, push_escaped, unicode_whitespace, unicode_alphabetic, unicode_numeric, is_whitespace, is_alphabetic, is_numeric, is_alphanumeric};

verus! {

/// A compilation error: a message and where it arose.
#[derive(Debug, Clone)]
pub struct CompileError {
    pub message: String,
    pub position: Position,
}

impl CompileError {
    pub fn new(message: String, position: Position) -> (r: CompileError)
        ensures
            r.message == message,
            r.position == position,
    {
        CompileError { message, position }
    }
}

/// A fault as a message and a position.
pub type Fault = (Seq<char>, Position);

/// `e` is the error that reports `f`.
pub open spec fn reports(e: CompileError, f: Fault) -> bool {
    e.message@ == f.0 && e.position == f.1
}

/// The tokens of Tiny.
#[derive(Debug, Clone, PartialEq)]
pub enum Token {
    Blah,
    Maybe,
    Identifier(String),
    Number(i32),
    StringLiteral(String),
    Plus,
    Minus,
    Equals,
    Eof,
}

/// A token and where it starts.
#[derive(Debug, Clone)]
pub struct TokenWithPos {
    pub token: Token,
    pub position: Position,
}

impl View for Token {
    type V = KindModel;

    open spec fn view(&self) -> KindModel {
        match self {
            Token::Blah => KindModel::Blah,
            Token::Maybe => KindModel::Maybe,
            Token::Number(n) => KindModel::Number(*n),
            Token::StringLiteral(s) => KindModel::StringLiteral(s@),
            Token::Identifier(s) => KindModel::Identifier(s@),
            Token::Plus => KindModel::Plus,
            Token::Minus => KindModel::Minus,
            Token::Equals => KindModel::Equals,
            Token::Eof => KindModel::Eof,
        }
    }
}

/// The models of a sequence of positioned tokens.
pub open spec fn tokens_model(ts: Seq<TokenWithPos>) -> Seq<(KindModel, Position)> {
    ts.map_values(|t: TokenWithPos| (t.token@, t.position))
}

// ---------------------------------------------------------------------------
// Lexer
// ---------------------------------------------------------------------------

/// Where skipping whitespace and `//` comments from `i` stops.
pub open spec fn skip_end(s: Seq<char>, i: int, in_comment: bool) -> int
    decreases s.len() - i, if in_comment { 1int } else { 0int },
{
    if i < 0 || i >= s.len() {
        i
    } else if in_comment {
        if s[i] == '\n' {
            skip_end(s, i, false)
        } else {
            skip_end(s, i + 1, true)
        }
    } else if unicode_whitespace(s[i]) {
        skip_end(s, i + 1, false)
    } else if s[i] == '/' && i + 1 < s.len() && s[i + 1] == '/' {
        skip_end(s, i + 2, true)
    } else {
        i
    }
}

/// The end of the run of numeric characters from `i`.
pub open spec fn numeral_end(s: Seq<char>, i: int) -> int
    decreases s.len() - i,
{
    if i < 0 || i >= s.len() || !unicode_numeric(s[i]) {
        i
    } else {
        numeral_end(s, i + 1)
    }
}

/// A character that may continue a word: a letter, a numeric character or
/// an underscore.
pub open spec fn word_char(c: char) -> bool {
    unicode_alphabetic(c) || unicode_numeric(c) || c == '_'
}

/// The end of the run of word characters from `i`.
pub open spec fn word_end(s: Seq<char>, i: int) -> int
    decreases s.len() - i,
{
    if i < 0 || i >= s.len() || !word_char(s[i]) {
        i
    } else {
        word_end(s, i + 1)
    }
}

/// How a string literal fails to end.
pub enum StringFault {
    /// The input ends inside the literal.
    Unterminated,
    /// A backslash is followed by this character, which starts no escape;
    /// the index is the one after it.
    InvalidEscape(char, int),
}

/// Scans the body of a string literal from `i` having read `acc`, with
/// `escaped` after a backslash: the index after the closing quote and the
/// value. The escapes are `\n`, `\t`, `\\` and `\"`.
pub open spec fn scan_string(s: Seq<char>, i: int, acc: Seq<char>, escaped: bool) -> Result<
    (int, Seq<char>),
    StringFault,
>
    decreases s.len() - i,
{
    if i < 0 || i >= s.len() {
        Err(StringFault::Unterminated)
    } else {
        let c = s[i];
        if !escaped {
            if c == '\\' {
                scan_string(s, i + 1, acc, true)
            } else if c == '"' {
                Ok((i + 1, acc))
            } else {
                scan_string(s, i + 1, acc.push(c), false)
            }
        } else if c == 'n' {
            scan_string(s, i + 1, acc.push('\n'), false)
        } else if c == 't' {
            scan_string(s, i + 1, acc.push('\t'), false)
        } else if c == '\\' || c == '"' {
            scan_string(s, i + 1, acc.push(c), false)
        } else {
            Err(StringFault::InvalidEscape(c, i + 1))
        }
    }
}

/// The keyword or identifier that a word is.
pub open spec fn word_token(w: Seq<char>) -> KindModel {
    if w == "blah"@ {
        KindModel::Blah
    } else if w == "maybe"@ {
        KindModel::Maybe
    } else {
        KindModel::Identifier(w)
    }
}

/// The token read at `j`, where no blank starts, from position `p`, and the
/// index after it.
pub open spec fn lex_token(s: Seq<char>, j: int, p: Position) -> Result<(KindModel, int), Fault> {
    if j >= s.len() {
        Ok((KindModel::Eof, j))
    } else {
        let c = s[j];
        if c == '"' {
            match scan_string(s, j + 1, Seq::empty(), false) {
                Ok((k, v)) => Ok((KindModel::StringLiteral(v), k)),
                Err(StringFault::Unterminated) => Err(("Unterminated string literal"@, p)),
                Err(StringFault::InvalidEscape(e, k)) => Err(
                    ("Invalid escape sequence: \\"@.push(e), pos_over(s, j, k, p)),
                ),
            }
        } else if c == '+' {
            Ok((KindModel::Plus, j + 1))
        } else if c == '-' {
            Ok((KindModel::Minus, j + 1))
        } else if c == '=' {
            Ok((KindModel::Equals, j + 1))
        } else if unicode_numeric(c) {
            let k = numeral_end(s, j);
            let digits = s.subrange(j, k);
            match parse_unsigned_i32(digits) {
                Some(n) => Ok((KindModel::Number(n), k)),
                None => Err(("Invalid number: "@ + digits, p)),
            }
        } else if unicode_alphabetic(c) || c == '_' {
            let k = word_end(s, j + 1);
            Ok((word_token(s.subrange(j, k)), k))
        } else {
            Err(("Unexpected character: '"@.push(c) + "'"@, p))
        }
    }
}

/// The positioned tokens of `s` from `i`, read from position `p`, up to and
/// including `Eof`; or the first fault.
pub open spec fn lex_from(s: Seq<char>, i: int, p: Position) -> Result<Seq<(KindModel, Position)>, Fault>
    decreases s.len() - i,
{
    let j = skip_end(s, i, false);
    let pj = pos_over(s, i, j, p);
    if j < i {
        Ok(seq![(KindModel::Eof, pj)])
    } else {
        match lex_token(s, j, pj) {
            Err(f) => Err(f),
            Ok((KindModel::Eof, _)) => Ok(seq![(KindModel::Eof, pj)]),
            Ok((t, k)) => if k <= j || k > s.len() {
                Ok(seq![(KindModel::Eof, pj)])
            } else {
                match lex_from(s, k, pos_over(s, j, k, pj)) {
                    Err(f) => Err(f),
                    Ok(rest) => Ok(seq![(t, pj)] + rest),
                }
            },
        }
    }
}

/// The positioned tokens of a whole source text.
pub open spec fn lex_spec(s: Seq<char>) -> Result<Seq<(KindModel, Position)>, Fault> {
    lex_from(s, 0, Position { line: 1, column: 1 })
}

proof fn lemma_numeral_end(s: Seq<char>, i: int)
    ensures
        numeral_end(s, i) >= i,
    decreases s.len() - i,
{
    if !(i < 0 || i >= s.len() || !unicode_numeric(s[i])) {
        lemma_numeral_end(s, i + 1);
    }
}

proof fn lemma_word_end(s: Seq<char>, i: int)
    ensures
        word_end(s, i) >= i,
    decreases s.len() - i,
{
    if !(i < 0 || i >= s.len() || !word_char(s[i])) {
        lemma_word_end(s, i + 1);
    }
}

proof fn lemma_scan_string(s: Seq<char>, i: int, acc: Seq<char>, escaped: bool)
    ensures
        scan_string(s, i, acc, escaped) matches Ok((k, _)) ==> k > i,
    decreases s.len() - i,
{
    if 0 <= i < s.len() {
        let c = s[i];
        if !escaped {
            if c == '\\' {
                lemma_scan_string(s, i + 1, acc, true);
            } else if c != '"' {
                lemma_scan_string(s, i + 1, acc.push(c), false);
            }
        } else if c == 'n' {
            lemma_scan_string(s, i + 1, acc.push('\n'), false);
        } else if c == 't' {
            lemma_scan_string(s, i + 1, acc.push('\t'), false);
        } else if c == '\\' || c == '"' {
            lemma_scan_string(s, i + 1, acc.push(c), false);
        }
    }
}

/// Reads Tiny source text into positioned tokens.
pub struct Lexer {
    input: Vec<char>,
    position: usize,
    current_pos: Position,
}

impl Lexer {
    /// The index lies within the input, and the line and column have grown
    /// at most once per character read.
    pub closed spec fn wf(&self) -> bool {
        &&& self.position <= self.input@.len()
        &&& self.input@.len() < usize::MAX
        &&& self.current_pos.line <= self.position + 1
        &&& self.current_pos.column <= self.position + 1
    }

    /// The characters being read.
    pub closed spec fn source(&self) -> Seq<char> {
        self.input@
    }

    /// The index of the next character to read.
    pub closed spec fn index(&self) -> int {
        self.position as int
    }

    /// The position of the next character to read.
    pub closed spec fn pos(&self) -> Position {
        self.current_pos
    }

    pub fn new(input: &str) -> (r: Lexer)
        requires
            input@.len() < usize::MAX,
        ensures
            r.wf(),
            r.source() == input@,
            r.index() == 0,
            r.pos() == (Position { line: 1, column: 1 }),
    {
        Lexer { input: chars_of(input), position: 0, current_pos: Position::new() }
    }

    fn peek(&self) -> (r: Option<char>)
        ensures
            r == (if self.position < self.input@.len() {
                Some(self.input@[self.position as int])
            } else {
                None
            }),
    {
        if self.position < self.input.len() {
            Some(self.input[self.position])
        } else {
            None
        }
    }

    fn peek_ahead(&self, n: usize) -> (r: Option<char>)
        requires
            self.position + n <= usize::MAX,
        ensures
            r == (if self.position + n < self.input@.len() {
                Some(self.input@[self.position + n])
            } else {
                None
            }),
    {
        if self.position + n < self.input.len() {
            Some(self.input[self.position + n])
        } else {
            None
        }
    }

    fn advance(&mut self) -> (r: Option<char>)
        requires
            old(self).wf(),
        ensures
            final(self).wf(),
            final(self).input@ == old(self).input@,
            old(self).position < old(self).input@.len() ==> {
                &&& r == Some(old(self).input@[old(self).position as int])
                &&& final(self).position == old(self).position + 1
                &&& final(self).current_pos == advance_spec(old(self).current_pos, r->0)
            },
            old(self).position >= old(self).input@.len() ==> r is None && *final(self)
                == *old(self),
    {
        let ch = self.peek();
        if let Some(c) = ch {
            self.position = self.position + 1;
            self.current_pos.advance(c);
        }
        ch
    }

    fn at_line_end(&self) -> (r: bool)
        ensures
            r == (self.position >= self.input@.len() || self.input@[self.position as int] == '\n'),
    {
        self.position >= self.input.len() || self.input[self.position] == '\n'
    }

    fn skip_whitespace(&mut self)
        requires
            old(self).wf(),
        ensures
            final(self).wf(),
            final(self).input@ == old(self).input@,
            final(self).position >= old(self).position,
            final(self).position == skip_end(old(self).input@, old(self).position as int, false),
            final(self).current_pos == pos_over(
                old(self).input@,
                old(self).position as int,
                final(self).position as int,
                old(self).current_pos,
            ),
    {
        let ghost s = self.input@;
        let ghost i0 = self.position as int;
        let ghost p0 = self.current_pos;
        assert(pos_over(s, i0, i0, p0) == p0);
        loop
            invariant
                self.wf(),
                self.input@ == s,
                s == old(self).input@,
                i0 == old(self).position,
                p0 == old(self).current_pos,
                i0 <= self.position,
                skip_end(s, i0, false) == skip_end(s, self.position as int, false),
                self.current_pos == pos_over(s, i0, self.position as int, p0),
            decreases s.len() - self.position,
        {
            let ch = match self.peek() {
                Some(ch) => ch,
                None => return,
            };
            if is_whitespace(ch) {
                self.advance();
            } else if ch == '/' && matches!(self.peek_ahead(1), Some('/')) {
                self.advance();
                assert(self.current_pos == pos_over(s, i0, self.position as int, p0));
                self.advance();
                assert(self.current_pos == pos_over(s, i0, self.position as int, p0));
                let ghost c1 = self.position;
                while !self.at_line_end()
                    invariant
                        c1 <= self.position,
                        self.wf(),
                        self.input@ == s,
                        s == old(self).input@,
                        i0 == old(self).position,
                        p0 == old(self).current_pos,
                        i0 <= self.position,
                        skip_end(s, i0, false) == skip_end(s, self.position as int, true),
                        self.current_pos == pos_over(s, i0, self.position as int, p0),
                    decreases s.len() - self.position,
                {
                    self.advance();
                }
            } else {
                return;
            }
        }
    }

    fn read_word(&mut self) -> (r: String)
        requires
            old(self).wf(),
            old(self).position < old(self).input@.len(),
            unicode_alphabetic(old(self).input@[old(self).position as int])
                || old(self).input@[old(self).position as int] == '_',
        ensures
            final(self).wf(),
            final(self).input@ == old(self).input@,
            final(self).position == word_end(old(self).input@, old(self).position + 1),
            r@ == old(self).input@.subrange(old(self).position as int, final(self).position as int),
            final(self).current_pos == pos_over(
                old(self).input@,
                old(self).position as int,
                final(self).position as int,
                old(self).current_pos,
            ),
    {
        let ghost s = self.input@;
        let ghost i0 = self.position as int;
        let ghost p0 = self.current_pos;
        assert(pos_over(s, i0, i0, p0) == p0);
        let mut word = String::new();
        if let Some(ch) = self.peek() {
            if is_alphabetic(ch) || ch == '_' {
                push_char(&mut word, ch);
                self.advance();
            }
        }
        assert(word@ =~= s.subrange(i0, self.position as int));
        while self.position < self.input.len() && is_word_char(self.input[self.position])
            invariant
                self.wf(),
                self.input@ == s,
                s == old(self).input@,
                i0 == old(self).position,
                p0 == old(self).current_pos,
                i0 < self.position,
                word@ == s.subrange(i0, self.position as int),
                word_end(s, i0 + 1) == word_end(s, self.position as int),
                self.current_pos == pos_over(s, i0, self.position as int, p0),
            decreases s.len() - self.position,
        {
            let ch = self.input[self.position];
            push_char(&mut word, ch);
            self.advance();
            assert(word@ =~= s.subrange(i0, self.position as int));
        }
        word
    }

    fn read_number(&mut self) -> (r: Result<i32, CompileError>)
        requires
            old(self).wf(),
        ensures
            final(self).wf(),
            final(self).input@ == old(self).input@,
            final(self).position == numeral_end(old(self).input@, old(self).position as int),
            final(self).current_pos == pos_over(
                old(self).input@,
                old(self).position as int,
                final(self).position as int,
                old(self).current_pos,
            ),
            ({
                let digits = old(self).input@.subrange(
                    old(self).position as int,
                    final(self).position as int,
                );
                match parse_unsigned_i32(digits) {
                    Some(n) => r == Ok::<i32, CompileError>(n),
                    None => r matches Err(e) && reports(
                        e,
                        ("Invalid number: "@ + digits, old(self).current_pos),
                    ),
                }
            }),
    {
        let ghost s = self.input@;
        let ghost i0 = self.position as int;
        let start_pos = self.current_pos;
        assert(pos_over(s, i0, i0, start_pos) == start_pos);
        let mut num = String::new();
        let mut digits: Vec<char> = Vec::new();
        while self.position < self.input.len() && is_numeric(self.input[self.position])
            invariant
                self.wf(),
                self.input@ == s,
                s == old(self).input@,
                i0 == old(self).position,
                start_pos == old(self).current_pos,
                i0 <= self.position,
                digits@ == s.subrange(i0, self.position as int),
                num@ == digits@,
                numeral_end(s, i0) == numeral_end(s, self.position as int),
                self.current_pos == pos_over(s, i0, self.position as int, start_pos),
            decreases s.len() - self.position,
        {
            let ch = self.input[self.position];
            push_char(&mut num, ch);
            digits.push(ch);
            self.advance();
            assert(digits@ =~= s.subrange(i0, self.position as int));
        }
        match parse_unsigned(&digits) {
            Some(n) => Ok(n),
            None => {
                let mut message = String::from_str("Invalid number: ");
                push_str(&mut message, num.as_str());
                Err(CompileError::new(message, start_pos))
            },
        }
    }

    fn read_string_literal(&mut self) -> (r: Result<String, CompileError>)
        requires
            old(self).wf(),
            old(self).position < old(self).input@.len(),
            old(self).input@[old(self).position as int] == '"',
        ensures
            final(self).wf(),
            final(self).input@ == old(self).input@,
            ({
                let s = old(self).input@;
                let i0 = old(self).position as int;
                let p0 = old(self).current_pos;
                match scan_string(s, i0 + 1, Seq::empty(), false) {
                    Ok((k, v)) => r matches Ok(st) && st@ == v && final(self).position == k
                        && final(self).current_pos == pos_over(s, i0, k, p0),
                    Err(StringFault::Unterminated) => r matches Err(e) && reports(
                        e,
                        ("Unterminated string literal"@, p0),
                    ),
                    Err(StringFault::InvalidEscape(c, k)) => r matches Err(e) && reports(
                        e,
                        ("Invalid escape sequence: \\"@.push(c), pos_over(s, i0, k, p0)),
                    ),
                }
            }),
    {
        let ghost s = self.input@;
        let ghost i0 = self.position as int;
        let start_pos = self.current_pos;
        assert(pos_over(s, i0, i0, start_pos) == start_pos);
        self.advance();
        let mut string = String::new();
        let mut escaped = false;
        loop
            invariant
                self.wf(),
                self.input@ == s,
                s == old(self).input@,
                i0 == old(self).position,
                start_pos == old(self).current_pos,
                i0 < self.position,
                scan_string(s, i0 + 1, Seq::empty(), false) == scan_string(
                    s,
                    self.position as int,
                    string@,
                    escaped,
                ),
                self.current_pos == pos_over(s, i0, self.position as int, start_pos),
            decreases s.len() - self.position,
        {
            match self.advance() {
                Some(c) => {
                    if c == '\\' && !escaped {
                        escaped = true;
                    } else if c == 'n' && escaped {
                        push_char(&mut string, '\n');
                        escaped = false;
                    } else if c == 't' && escaped {
                        push_char(&mut string, '\t');
                        escaped = false;
                    } else if c == '\\' && escaped {
                        push_char(&mut string, '\\');
                        escaped = false;
                    } else if c == '"' && escaped {
                        push_char(&mut string, '"');
                        escaped = false;
                    } else if c == '"' && !escaped {
                        return Ok(string);
                    } else {
                        if escaped {
                            let mut message = String::from_str("Invalid escape sequence: \\");
                            push_char(&mut message, c);
                            return Err(CompileError::new(message, self.current_pos));
                        }
                        push_char(&mut string, c);
                    }
                },
                None => {
                    return Err(
                        CompileError::new(
                            String::from_str("Unterminated string literal"),
                            start_pos,
                        ),
                    );
                },
            }
        }
    }

    fn next_token(&mut self) -> (r: Result<TokenWithPos, CompileError>)
        requires
            old(self).wf(),
        ensures
            final(self).wf(),
            final(self).input@ == old(self).input@,
            ({
                let s = old(self).input@;
                let i0 = old(self).position as int;
                let j = skip_end(s, i0, false);
                let pj = pos_over(s, i0, j, old(self).current_pos);
                &&& j >= i0
                &&& match (r, lex_token(s, j, pj)) {
                    (Ok(t), Ok((m, k))) => {
                        &&& t.token@ == m
                        &&& t.position == pj
                        &&& final(self).position == k
                        &&& final(self).current_pos == pos_over(s, j, k, pj)
                        &&& (m is Eof ==> k == j)
                        &&& (!(m is Eof) ==> k > j)
                    },
                    (Err(e), Err(f)) => reports(e, f),
                    _ => false,
                }
            }),
    {
        self.skip_whitespace();
        let ghost s = self.input@;
        let ghost j = self.position as int;
        let start_pos = self.current_pos;
        assert(pos_over(s, j, j, start_pos) == start_pos);
        proof {
            lemma_numeral_end(s, j);
            lemma_word_end(s, j + 1);
            lemma_scan_string(s, j + 1, Seq::empty(), false);
        }
        match self.peek() {
            None => Ok(TokenWithPos { token: Token::Eof, position: start_pos }),
            Some(ch) => {
                if ch == '"' {
                    let string = match self.read_string_literal() {
                        Ok(v) => v,
                        Err(e) => return Err(e),
                    };
                    Ok(TokenWithPos { token: Token::StringLiteral(string), position: start_pos })
                } else if ch == '+' {
                    self.advance();
                    Ok(TokenWithPos { token: Token::Plus, position: start_pos })
                } else if ch == '-' {
                    self.advance();
                    Ok(TokenWithPos { token: Token::Minus, position: start_pos })
                } else if ch == '=' {
                    self.advance();
                    Ok(TokenWithPos { token: Token::Equals, position: start_pos })
                } else if is_numeric(ch) {
                    let num = match self.read_number() {
                        Ok(n) => n,
                        Err(e) => return Err(e),
                    };
                    Ok(TokenWithPos { token: Token::Number(num), position: start_pos })
                } else if is_alphabetic(ch) || ch == '_' {
                    let word = self.read_word();
                    let token = if word == String::from_str("blah") {
                        Token::Blah
                    } else if word == String::from_str("maybe") {
                        Token::Maybe
                    } else {
                        Token::Identifier(word)
                    };
                    Ok(TokenWithPos { token, position: start_pos })
                } else {
                    let mut message = String::from_str("Unexpected character: '");
                    push_char(&mut message, ch);
                    push_str(&mut message, "'");
                    Err(CompileError::new(message, start_pos))
                }
            },
        }
    }

    /// Reads the whole remaining input: the positioned tokens up to and
    /// including `Eof`, or the first error.
    pub fn tokenize(&mut self) -> (r: Result<Vec<TokenWithPos>, CompileError>)
        requires
            old(self).wf(),
        ensures
            final(self).wf(),
            final(self).source() == old(self).source(),
            match (r, lex_from(old(self).source(), old(self).index(), old(self).pos())) {
                (Ok(ts), Ok(m)) => tokens_model(ts@) == m,
                (Err(e), Err(f)) => reports(e, f),
                _ => false,
            },
    {
        let ghost s = self.input@;
        let ghost whole = lex_from(s, self.position as int, self.current_pos);
        let mut tokens: Vec<TokenWithPos> = Vec::new();
        loop
            invariant
                self.wf(),
                self.input@ == s,
                s == old(self).input@,
                whole == lex_from(old(self).input@, old(self).position as int, old(self).current_pos),
                whole == match lex_from(s, self.position as int, self.current_pos) {
                    Ok(rest) => Ok(tokens_model(tokens@) + rest),
                    Err(f) => Err(f),
                },
            decreases s.len() - self.position,
        {
            let ghost before = tokens_model(tokens@);
            let token_with_pos = match self.next_token() {
                Ok(t) => t,
                Err(e) => return Err(e),
            };
            let is_eof = matches!(token_with_pos.token, Token::Eof);
            let ghost m = (token_with_pos.token@, token_with_pos.position);
            tokens.push(token_with_pos);
            assert(tokens_model(tokens@) =~= before + seq![m]);
            if is_eof {
                return Ok(tokens);
            }
            proof {
                if let Ok(r) = lex_from(s, self.position as int, self.current_pos) {
                    assert(before + (seq![m] + r) =~= tokens_model(tokens@) + r);
                }
            }
        }
    }
}

fn is_word_char(c: char) -> (r: bool)
    ensures
        r == word_char(c),
{
    is_alphanumeric(c) || c == '_'
}

// ---------------------------------------------------------------------------
// Parser
// ---------------------------------------------------------------------------

/// Statements of a Tiny program.
#[derive(Debug, PartialEq)]
pub enum AstNode {
    BlahStatement(Expression),
    MaybeDeclaration(String, Expression),
}

/// The token at `i`, or `Eof` past the end.
pub open spec fn tok(t: Seq<TokenWithPos>, i: int) -> Token {
    if 0 <= i < t.len() {
        t[i].token
    } else {
        Token::Eof
    }
}

/// The position of the token at `i`, or line 1, column 1 past the end.
pub open spec fn tok_pos(t: Seq<TokenWithPos>, i: int) -> Position {
    if 0 <= i < t.len() {
        t[i].position
    } else {
        Position { line: 1, column: 1 }
    }
}

/// A number, declared variable or string read at `i`, and the index after
/// it; `d` holds the names declared so far.
pub open spec fn primary_spec(t: Seq<TokenWithPos>, i: int, d: Set<Seq<char>>) -> Result<
    (Expression, int),
    Fault,
> {
    let p = tok_pos(t, i);
    match tok(t, i) {
        Token::Number(n) => Ok((Expression::Number(n), i + 1)),
        Token::Identifier(name) => if d.contains(name@) {
            Ok((Expression::Variable(name), i + 1))
        } else {
            Err(("Undefined variable: '"@ + name@ + "'"@, p))
        },
        Token::StringLiteral(s) => Ok((Expression::StringLiteral(s), i + 1)),
        _ => Err(("Expected number, variable, or string"@, p)),
    }
}

/// Reads `(("+" | "-") term)*` at `i` onto the left operand `left`; a string
/// may not be an operand.
pub open spec fn expression_rest(
    t: Seq<TokenWithPos>,
    i: int,
    d: Set<Seq<char>>,
    left: Expression,
) -> Result<(Expression, int), Fault>
    decreases t.len() - i,
{
    let p = tok_pos(t, i);
    let op = tok(t, i);
    if op is Plus || op is Minus {
        match primary_spec(t, i + 1, d) {
            Err(f) => Err(f),
            Ok((right, j)) => if left is StringLiteral || right is StringLiteral {
                Err(("Cannot use strings in arithmetic expressions"@, p))
            } else if j <= i || j > t.len() {
                Err(("Expected number, variable, or string"@, p))
            } else if op is Plus {
                expression_rest(t, j, d, Expression::Add(Box::new(left), Box::new(right)))
            } else {
                expression_rest(t, j, d, Expression::Subtract(Box::new(left), Box::new(right)))
            },
        }
    } else {
        Ok((left, i))
    }
}

/// An expression read at `i`, and the index after it.
pub open spec fn expression_spec(t: Seq<TokenWithPos>, i: int, d: Set<Seq<char>>) -> Result<
    (Expression, int),
    Fault,
> {
    match primary_spec(t, i, d) {
        Err(f) => Err(f),
        Ok((e, j)) => expression_rest(t, j, d, e),
    }
}

/// A declaration read at `i`, where `maybe` stands: the name may not be
/// declared yet, and the value may not be a string.
pub open spec fn maybe_spec(t: Seq<TokenWithPos>, i: int, d: Set<Seq<char>>) -> Result<
    (AstNode, int, Set<Seq<char>>),
    Fault,
> {
    let var_pos = tok_pos(t, i + 1);
    match tok(t, i + 1) {
        Token::Identifier(name) => if d.contains(name@) {
            Err(("Variable '"@ + name@ + "' already declared"@, var_pos))
        } else if !(tok(t, i + 2) is Equals) {
            Err(("Expected '=' after variable name"@, tok_pos(t, i + 2)))
        } else {
            match expression_spec(t, i + 3, d) {
                Err(f) => Err(f),
                Ok((e, k)) => if e is StringLiteral {
                    Err(("Cannot assign string literals to variables"@, tok_pos(t, k)))
                } else {
                    Ok((AstNode::MaybeDeclaration(name, e), k, d.insert(name@)))
                },
            }
        },
        _ => Err(("Expected variable name after 'maybe'"@, var_pos)),
    }
}

/// A statement read at `i`, the index after it, and the declared names
/// after it.
pub open spec fn statement_spec(t: Seq<TokenWithPos>, i: int, d: Set<Seq<char>>) -> Result<
    (AstNode, int, Set<Seq<char>>),
    Fault,
> {
    let p = tok_pos(t, i);
    match tok(t, i) {
        Token::Blah => match expression_spec(t, i + 1, d) {
            Err(f) => Err(f),
            Ok((e, k)) => Ok((AstNode::BlahStatement(e), k, d)),
        },
        Token::Maybe => maybe_spec(t, i, d),
        Token::Eof => Err(("Unexpected end of file"@, p)),
        _ => Err(("Expected 'blah' or 'maybe' statement"@, p)),
    }
}

/// The statements read from `i` up to `Eof` or the end, or the first fault.
pub open spec fn parse_from(t: Seq<TokenWithPos>, i: int, d: Set<Seq<char>>) -> Result<
    Seq<AstNode>,
    Fault,
>
    decreases t.len() - i,
{
    if tok(t, i) is Eof {
        Ok(Seq::empty())
    } else {
        match statement_spec(t, i, d) {
            Err(f) => Err(f),
            Ok((st, j, d2)) => if j <= i || j > t.len() {
                Err(("Unexpected end of file"@, tok_pos(t, i)))
            } else {
                match parse_from(t, j, d2) {
                    Err(f) => Err(f),
                    Ok(rest) => Ok(seq![st] + rest),
                }
            },
        }
    }
}

impl Token {
    /// A copy of this token.
    pub fn duplicate(&self) -> (r: Token)
        ensures
            r == *self,
    {
        match self {
            Token::Blah => Token::Blah,
            Token::Maybe => Token::Maybe,
            Token::Identifier(s) => Token::Identifier(s.clone()),
            Token::Number(n) => Token::Number(*n),
            Token::StringLiteral(s) => Token::StringLiteral(s.clone()),
            Token::Plus => Token::Plus,
            Token::Minus => Token::Minus,
            Token::Equals => Token::Equals,
            Token::Eof => Token::Eof,
        }
    }
}

fn message_with_name(before: &str, name: &String, after: &str) -> (r: String)
    ensures
        r@ == before@ + name@ + after@,
{
    let mut m = String::from_str(before);
    push_str(&mut m, name.as_str());
    push_str(&mut m, after);
    m
}

/// Reads positioned tokens into statements, checking that each variable is
/// declared once and before it is used.
pub struct Parser {
    tokens: Vec<TokenWithPos>,
    position: usize,
    declared_vars: Bindings<()>,
}

impl Parser {
    /// The index lies at most one past the tokens.
    pub closed spec fn wf(&self) -> bool {
        &&& self.position <= self.tokens@.len() + 1
        &&& self.tokens@.len() < usize::MAX
        &&& self.declared_vars.wf()
    }

    /// The tokens being read.
    pub closed spec fn tokens(&self) -> Seq<TokenWithPos> {
        self.tokens@
    }

    /// The index of the next token to read.
    pub closed spec fn index(&self) -> int {
        self.position as int
    }

    /// The names declared so far.
    pub closed spec fn declared(&self) -> Set<Seq<char>> {
        self.declared_vars@.dom()
    }

    pub fn new(tokens: Vec<TokenWithPos>) -> (r: Parser)
        requires
            tokens@.len() < usize::MAX,
        ensures
            r.wf(),
            r.tokens() == tokens@,
            r.index() == 0,
            r.declared() == Set::<Seq<char>>::empty(),
    {
        let r = Parser { tokens, position: 0, declared_vars: Bindings::new() };
        assert(r.declared() =~= Set::<Seq<char>>::empty());
        r
    }

    fn peek_is_eof(&self) -> (r: bool)
        ensures
            r == (tok(self.tokens@, self.position as int) is Eof),
    {
        if self.position < self.tokens.len() {
            matches!(self.tokens[self.position].token, Token::Eof)
        } else {
            true
        }
    }

    fn peek(&self) -> (r: Option<&Token>)
        ensures
            r matches Some(t) ==> *t == tok(self.tokens@, self.position as int),
            r is None ==> tok(self.tokens@, self.position as int) is Eof,
    {
        if self.position < self.tokens.len() {
            Some(&self.tokens[self.position].token)
        } else {
            None
        }
    }

    fn current_position(&self) -> (r: Position)
        ensures
            r == tok_pos(self.tokens@, self.position as int),
    {
        if self.position < self.tokens.len() {
            self.tokens[self.position].position
        } else {
            Position::new()
        }
    }

    fn advance(&mut self) -> (r: TokenWithPos)
        requires
            old(self).wf(),
            old(self).position <= old(self).tokens@.len(),
        ensures
            final(self).tokens@ == old(self).tokens@,
            final(self).declared_vars == old(self).declared_vars,
            final(self).position == old(self).position + 1,
            final(self).wf(),
            r.token == tok(old(self).tokens@, old(self).position as int),
            r.position == tok_pos(old(self).tokens@, old(self).position as int),
    {
        let token = if self.position < self.tokens.len() {
            let t = &self.tokens[self.position];
            TokenWithPos { token: t.token.duplicate(), position: t.position }
        } else {
            TokenWithPos { token: Token::Eof, position: Position::new() }
        };
        self.position = self.position + 1;
        token
    }

    fn parse_primary(&mut self) -> (r: Result<Expression, CompileError>)
        requires
            old(self).wf(),
            old(self).position <= old(self).tokens@.len(),
        ensures
            final(self).tokens@ == old(self).tokens@,
            final(self).declared_vars == old(self).declared_vars,
            final(self).wf(),
            match (r, primary_spec(old(self).tokens@, old(self).position as int, old(self).declared())) {
                (Ok(e), Ok((m, j))) => e == m && final(self).position == j && j
                    <= old(self).tokens@.len(),
                (Err(e), Err(f)) => reports(e, f),
                _ => false,
            },
    {
        let token_with_pos = self.advance();
        let pos = token_with_pos.position;
        match token_with_pos.token {
            Token::Number(n) => Ok(Expression::Number(n)),
            Token::Identifier(name) => {
                if self.declared_vars.get(&name).is_none() {
                    return Err(
                        CompileError::new(message_with_name("Undefined variable: '", &name, "'"), pos),
                    );
                }
                Ok(Expression::Variable(name))
            },
            Token::StringLiteral(s) => Ok(Expression::StringLiteral(s)),
            _ => Err(
                CompileError::new(String::from_str("Expected number, variable, or string"), pos),
            ),
        }
    }

    fn parse_expression(&mut self) -> (r: Result<Expression, CompileError>)
        requires
            old(self).wf(),
            old(self).position <= old(self).tokens@.len(),
        ensures
            final(self).tokens@ == old(self).tokens@,
            final(self).declared_vars == old(self).declared_vars,
            final(self).wf(),
            r is Ok ==> final(self).position > old(self).position,
            match (r, expression_spec(old(self).tokens@, old(self).position as int, old(self).declared())) {
                (Ok(e), Ok((m, j))) => e == m && final(self).position == j && j
                    <= old(self).tokens@.len(),
                (Err(e), Err(f)) => reports(e, f),
                _ => false,
            },
    {
        let ghost t = self.tokens@;
        let ghost d = self.declared();
        let mut left = match self.parse_primary() {
            Ok(e) => e,
            Err(e) => return Err(e),
        };
        loop
            invariant
                self.wf(),
                self.tokens@ == t,
                t == old(self).tokens@,
                self.declared_vars == old(self).declared_vars,
                d == old(self).declared(),
                self.position <= t.len(),
                self.position > old(self).position,
                expression_spec(t, old(self).position as int, d) == expression_rest(
                    t,
                    self.position as int,
                    d,
                    left,
                ),
            decreases t.len() - self.position,
        {
            let pos = self.current_position();
            let is_plus = match self.peek() {
                Some(Token::Plus) => true,
                Some(Token::Minus) => false,
                _ => return Ok(left),
            };
            self.advance();
            let right = match self.parse_primary() {
                Ok(e) => e,
                Err(e) => return Err(e),
            };
            if matches!(&left, Expression::StringLiteral(_)) || matches!(&right, Expression::StringLiteral(_)) {
                return Err(
                    CompileError::new(
                        String::from_str("Cannot use strings in arithmetic expressions"),
                        pos,
                    ),
                );
            }
            left = if is_plus {
                Expression::Add(Box::new(left), Box::new(right))
            } else {
                Expression::Subtract(Box::new(left), Box::new(right))
            };
        }
    }

    fn parse_blah_statement(&mut self) -> (r: Result<AstNode, CompileError>)
        requires
            old(self).wf(),
            tok(old(self).tokens@, old(self).position as int) is Blah,
        ensures
            final(self).tokens@ == old(self).tokens@,
            final(self).wf(),
            match (r, statement_spec(old(self).tokens@, old(self).position as int, old(self).declared())) {
                (Ok(s), Ok((m, j, d))) => s == m && final(self).position == j && j
                    <= old(self).tokens@.len() && j > old(self).position && final(self).declared() == d,
                (Err(e), Err(f)) => reports(e, f),
                _ => false,
            },
    {
        let pos = self.current_position();
        match self.advance().token {
            Token::Blah => {},
            _ => return Err(CompileError::new(String::from_str("Expected 'blah' keyword"), pos)),
        }
        let expr = match self.parse_expression() {
            Ok(e) => e,
            Err(e) => return Err(e),
        };
        Ok(AstNode::BlahStatement(expr))
    }

    fn parse_maybe_declaration(&mut self) -> (r: Result<AstNode, CompileError>)
        requires
            old(self).wf(),
            tok(old(self).tokens@, old(self).position as int) is Maybe,
        ensures
            final(self).tokens@ == old(self).tokens@,
            final(self).wf(),
            match (r, statement_spec(old(self).tokens@, old(self).position as int, old(self).declared())) {
                (Ok(s), Ok((m, j, d))) => s == m && final(self).position == j && j
                    <= old(self).tokens@.len() && j > old(self).position && final(self).declared() == d,
                (Err(e), Err(f)) => reports(e, f),
                _ => false,
            },
    {
        let pos = self.current_position();
        match self.advance().token {
            Token::Maybe => {},
            _ => return Err(CompileError::new(String::from_str("Expected 'maybe' keyword"), pos)),
        }
        let var_pos = self.current_position();
        let var_name = match self.advance().token {
            Token::Identifier(name) => {
                if self.declared_vars.get(&name).is_some() {
                    return Err(
                        CompileError::new(
                            message_with_name("Variable '", &name, "' already declared"),
                            var_pos,
                        ),
                    );
                }
                name
            },
            _ => return Err(
                CompileError::new(String::from_str("Expected variable name after 'maybe'"), var_pos),
            ),
        };
        let eq_pos = self.current_position();
        match self.advance().token {
            Token::Equals => {},
            _ => return Err(
                CompileError::new(String::from_str("Expected '=' after variable name"), eq_pos),
            ),
        }
        let expr = match self.parse_expression() {
            Ok(e) => e,
            Err(e) => return Err(e),
        };
        if matches!(&expr, Expression::StringLiteral(_)) {
            return Err(
                CompileError::new(
                    String::from_str("Cannot assign string literals to variables"),
                    self.current_position(),
                ),
            );
        }
        let ghost before = self.declared_vars@;
        self.declared_vars.insert(var_name.clone(), ());
        proof {
            assert(self.declared() =~= before.dom().insert(var_name@));
        }
        Ok(AstNode::MaybeDeclaration(var_name, expr))
    }

    fn parse_statement(&mut self) -> (r: Result<AstNode, CompileError>)
        requires
            old(self).wf(),
            old(self).position <= old(self).tokens@.len(),
        ensures
            final(self).tokens@ == old(self).tokens@,
            final(self).wf(),
            match (r, statement_spec(old(self).tokens@, old(self).position as int, old(self).declared())) {
                (Ok(s), Ok((m, j, d))) => s == m && final(self).position == j && j
                    <= old(self).tokens@.len() && j > old(self).position && final(self).declared() == d,
                (Err(e), Err(f)) => reports(e, f),
                _ => false,
            },
    {
        let pos = self.current_position();
        match self.peek() {
            Some(Token::Blah) => self.parse_blah_statement(),
            Some(Token::Maybe) => self.parse_maybe_declaration(),
            Some(Token::Eof) | None => Err(
                CompileError::new(String::from_str("Unexpected end of file"), pos),
            ),
            _ => Err(CompileError::new(String::from_str("Expected 'blah' or 'maybe' statement"), pos)),
        }
    }

    /// Reads statements up to `Eof` or the end of the tokens.
    pub fn parse(&mut self) -> (r: Result<Vec<AstNode>, CompileError>)
        requires
            old(self).wf(),
        ensures
            final(self).tokens() == old(self).tokens(),
            match (r, parse_from(old(self).tokens(), old(self).index(), old(self).declared())) {
                (Ok(p), Ok(m)) => p@ == m,
                (Err(e), Err(f)) => reports(e, f),
                _ => false,
            },
    {
        let ghost t = self.tokens@;
        let ghost whole = parse_from(t, self.position as int, self.declared());
        let mut statements: Vec<AstNode> = Vec::new();
        while !self.peek_is_eof()
            invariant
                self.wf(),
                self.tokens@ == t,
                t == old(self).tokens@,
                whole == parse_from(old(self).tokens@, old(self).position as int, old(self).declared()),
                whole == match parse_from(t, self.position as int, self.declared()) {
                    Ok(rest) => Ok(statements@ + rest),
                    Err(f) => Err(f),
                },
            decreases t.len() - self.position,
        {
            let ghost before = statements@;
            let statement = match self.parse_statement() {
                Ok(s) => s,
                Err(e) => return Err(e),
            };
            statements.push(statement);
            proof {
                if let Ok(r) = parse_from(t, self.position as int, self.declared()) {
                    assert(before + (seq![statement] + r) =~= statements@ + r);
                }
            }
        }
        assert(statements@ + Seq::<AstNode>::empty() =~= statements@);
        Ok(statements)
    }
}

// ---------------------------------------------------------------------------
// Code generation
// ---------------------------------------------------------------------------

/// The C expression for `e`: every variable reads as 0 while it is null.
pub open spec fn expr_code(e: Expression) -> Seq<char>
    decreases e,
{
    match e {
        Expression::Number(n) => int_numeral(n as int),
        Expression::Variable(x) => "("@ + x@ + "_is_null ? 0 : "@ + x@ + ")"@,
        Expression::StringLiteral(s) => seq!['"'] + escape_text(s@) + seq!['"'],
        Expression::Add(l, r) => "("@ + expr_code(*l) + " + "@ + expr_code(*r) + ")"@,
        Expression::Subtract(l, r) => "("@ + expr_code(*l) + " - "@ + expr_code(*r) + ")"@,
    }
}

/// `prefix` followed by the C code for a statement: a string literal is
/// printed with `%s` and anything else with `%d`; a declaration assigns its
/// value or marks the variable null with even odds.
pub open spec fn node_after(prefix: Seq<char>, node: AstNode) -> Seq<char> {
    match node {
        AstNode::BlahStatement(e) => prefix + (if e is StringLiteral {
            "    printf(\"%s\\n\", "@
        } else {
            "    printf(\"%d\\n\", "@
        }) + expr_code(e) + ");\n"@,
        AstNode::MaybeDeclaration(name, e) => {
            let x = name@;
            prefix + "    // Declare variable '"@ + x + "' with 50% chance of null\n"@ + "    int "@
                + x + " = 0;\n"@ + "    int "@ + x + "_is_null = 0;\n"@
                + "    if (rand() % 2 == 0) {\n"@ + "        "@ + x + " = "@ + expr_code(e)
                + ";\n"@ + "        printf(\"maybe "@ + x + " = %d\\n\", "@ + x + ");\n"@
                + "    } else {\n"@ + "        "@ + x + "_is_null = 1;\n"@
                + "        printf(\"maybe "@ + x + " = null\\n\");\n"@ + "    }\n\n"@
        },
    }
}

/// The text before the statements of a generated program.
pub open spec fn header_text() -> Seq<char> {
    "// Generated by Tiny Language Compiler\n"@ + "#include <stdio.h>\n"@ + "#include <stdlib.h>\n"@
        + "#include <time.h>\n\n"@ + "int main() {\n"@
        + "    // Initialize random number generator\n"@ + "    srand(time(NULL));\n\n"@
}

/// The header followed by the code of the statements.
pub open spec fn program_body(p: Seq<AstNode>) -> Seq<char>
    decreases p.len(),
{
    if p.len() == 0 {
        header_text()
    } else {
        node_after(program_body(p.drop_last()), p.last())
    }
}

/// The whole C program generated for `p`.
pub open spec fn program_text(p: Seq<AstNode>) -> Seq<char> {
    program_body(p) + "    return 0;\n"@ + "}\n"@
}

/// Generates C code from statements.
pub struct CodeGenerator;

impl CodeGenerator {
    /// The C expression for `expr`.
    pub fn generate_expression(&self, expr: &Expression) -> (r: String)
        ensures
            r@ == expr_code(*expr),
        decreases expr,
    {
        match expr {
            Expression::Number(n) => numeral(*n),
            Expression::Variable(name) => {
                let mut t = String::new();
                push_str(&mut t, "(");
                push_str(&mut t, name.as_str());
                push_str(&mut t, "_is_null ? 0 : ");
                push_str(&mut t, name.as_str());
                push_str(&mut t, ")");
                t
            },
            Expression::StringLiteral(s) => {
                let mut t = String::new();
                push_char(&mut t, '"');
                push_escaped(&mut t, s);
                push_char(&mut t, '"');
                t
            },
            Expression::Add(left, right) => {
                let mut t = String::new();
                push_str(&mut t, "(");
                let l = self.generate_expression(left);
                push_str(&mut t, l.as_str());
                push_str(&mut t, " + ");
                let r = self.generate_expression(right);
                push_str(&mut t, r.as_str());
                push_str(&mut t, ")");
                t
            },
            Expression::Subtract(left, right) => {
                let mut t = String::new();
                push_str(&mut t, "(");
                let l = self.generate_expression(left);
                push_str(&mut t, l.as_str());
                push_str(&mut t, " - ");
                let r = self.generate_expression(right);
                push_str(&mut t, r.as_str());
                push_str(&mut t, ")");
                t
            },
        }
    }

    fn generate_node(&self, code: &mut String, node: &AstNode)
        ensures
            final(code)@ == node_after(old(code)@, *node),
    {
        match node {
            AstNode::BlahStatement(expr) => {
                if matches!(expr, Expression::StringLiteral(_)) {
                    push_str(code, "    printf(\"%s\\n\", ");
                } else {
                    push_str(code, "    printf(\"%d\\n\", ");
                }
                let e = self.generate_expression(expr);
                push_str(code, e.as_str());
                push_str(code, ");\n");
            },
            AstNode::MaybeDeclaration(var_name, expr) => {
                let x = var_name.as_str();
                push_str(code, "    // Declare variable '");
                push_str(code, x);
                push_str(code, "' with 50% chance of null\n");
                push_str(code, "    int ");
                push_str(code, x);
                push_str(code, " = 0;\n");
                push_str(code, "    int ");
                push_str(code, x);
                push_str(code, "_is_null = 0;\n");
                push_str(code, "    if (rand() % 2 == 0) {\n");
                push_str(code, "        ");
                push_str(code, x);
                push_str(code, " = ");
                let e = self.generate_expression(expr);
                push_str(code, e.as_str());
                push_str(code, ";\n");
                push_str(code, "        printf(\"maybe ");
                push_str(code, x);
                push_str(code, " = %d\\n\", ");
                push_str(code, x);
                push_str(code, ");\n");
                push_str(code, "    } else {\n");
                push_str(code, "        ");
                push_str(code, x);
                push_str(code, "_is_null = 1;\n");
                push_str(code, "        printf(\"maybe ");
                push_str(code, x);
                push_str(code, " = null\\n\");\n");
                push_str(code, "    }\n\n");
            },
        }
    }

    /// The C program for the statements.
    pub fn generate(&self, ast: Vec<AstNode>) -> (r: String)
        ensures
            r@ == program_text(ast@),
    {
        let mut code = String::new();
        push_str(&mut code, "// Generated by Tiny Language Compiler\n");
        push_str(&mut code, "#include <stdio.h>\n");
        push_str(&mut code, "#include <stdlib.h>\n");
        push_str(&mut code, "#include <time.h>\n\n");
        push_str(&mut code, "int main() {\n");
        push_str(&mut code, "    // Initialize random number generator\n");
        push_str(&mut code, "    srand(time(NULL));\n\n");
        assert(ast@.subrange(0, 0) =~= Seq::<AstNode>::empty());
        let mut i: usize = 0;
        while i < ast.len()
            invariant
                i <= ast@.len(),
                code@ == program_body(ast@.subrange(0, i as int)),
            decreases ast@.len() - i,
        {
            proof {
                let q = ast@.subrange(0, i + 1);
                assert(q.drop_last() =~= ast@.subrange(0, i as int));
            }
            self.generate_node(&mut code, &ast[i]);
            i = i + 1;
        }
        assert(ast@.subrange(0, i as int) =~= ast@);
        push_str(&mut code, "    return 0;\n");
        push_str(&mut code, "}\n");
        code
    }
}

// ---------------------------------------------------------------------------
// The compiler
// ---------------------------------------------------------------------------

/// A successful lexing gives at most one token per character, and `Eof`.
pub proof fn lemma_lex_length(s: Seq<char>, i: int, p: Position)
    requires
        0 <= i <= s.len(),
    ensures
        lex_from(s, i, p) matches Ok(m) ==> m.len() <= s.len() - i + 1,
    decreases s.len() - i,
{
    let j = skip_end(s, i, false);
    let pj = pos_over(s, i, j, p);
    if j >= i {
        if let Ok((t, k)) = lex_token(s, j, pj) {
            if !(t is Eof) && k > j && k <= s.len() {
                lemma_lex_length(s, k, pos_over(s, j, k, pj));
            }
        }
    }
}

/// What compiling `source` gives: the first lexical or syntax error, or the
/// generated program.
pub open spec fn compile_spec(source: Seq<char>, r: Result<String, CompileError>) -> bool {
    match lex_spec(source) {
        Err(f) => r matches Err(e) && reports(e, f),
        Ok(m) => exists|ts: Seq<TokenWithPos>|
            tokens_model(ts) == m && match parse_from(ts, 0, Set::empty()) {
                Err(f) => r matches Err(e) && reports(e, f),
                Ok(p) => r matches Ok(code) && code@ == program_text(p),
            },
    }
}

/// Compiles Tiny source text to a C program.
pub fn compile(source: &str) -> (r: Result<String, CompileError>)
    requires
        source@.len() + 1 < usize::MAX,
    ensures
        compile_spec(source@, r),
{
    let mut lexer = Lexer::new(source);
    let tokens = match lexer.tokenize() {
        Ok(t) => t,
        Err(e) => return Err(e),
    };
    proof {
        lemma_lex_length(source@, 0, Position { line: 1, column: 1 });
    }
    let ghost ts = tokens@;
    let mut parser = Parser::new(tokens);
    let ast = match parser.parse() {
        Ok(a) => a,
        Err(e) => return Err(e),
    };
    let generator = CodeGenerator;
    let c_code = generator.generate(ast);
    Ok(c_code)
}

} // verus!
