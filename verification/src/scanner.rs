//! The scanner engine: owns the character buffer and cursor state,
//! drives the character-classification loop, and produces the token
//! sequence, verified against the model in `model`.

use vstd::prelude::*;
use vstd::string::*;

use crate::error::{diag_views, ErrorReporter};
use crate::model::{
    alnum_end, comment_end, digits_end, eof_token, identifier_step, is_alnum, is_alpha, is_digit,
    keyword_kind, lemma_alnum_end, lemma_app_none, lemma_app_some, lemma_comment_end,
    lemma_digits_end, lemma_quote_end, lemma_scan_from_unfold,
    lemma_scan_step_bounds, newlines, number_step, opt_seq, quote_end, scan_from, scan_result,
    scan_step, string_step,
};
use crate::token::{lemma_token_views_push, lit_views, token_views, Literal, SpecToken, Token,
    TokenType};

verus! {

/// Whether `c` is an ASCII decimal digit.
pub fn digit(c: char) -> (r: bool)
    ensures
        r == is_digit(c),
{
    let u = c as u32;
    48 <= u && u <= 57
}

/// Whether `c` is an ASCII alphabetic character.
pub fn alpha(c: char) -> (r: bool)
    ensures
        r == is_alpha(c),
{
    let u = c as u32;
    (65 <= u && u <= 90) || (97 <= u && u <= 122)
}

/// Whether `c` is an ASCII alphanumeric character.
pub fn alnum(c: char) -> (r: bool)
    ensures
        r == is_alnum(c),
{
    digit(c) || alpha(c)
}

/// Relies on String::push: appends the one character to the end of the
/// string.
#[verifier::external_body]
fn push_char(s: &mut String, c: char)
    ensures
        final(s)@ == old(s)@.push(c),
{
    s.push(c);
}

/// Whether `text` equals the given reserved word.
fn is_kw(text: &String, kw: &str) -> (r: bool)
    ensures
        r == (text@ == kw@),
{
    let k = String::from_str(kw);
    *text == k
}

/// Consults the keyword table: the reserved kind for one of the sixteen
/// reserved words, by exact string equality, and nothing otherwise.
pub fn lookup_keyword(text: &String) -> (r: Option<TokenType>)
    ensures
        r == keyword_kind(text@),
{
    if is_kw(text, "and") {
        Some(TokenType::And)
    } else if is_kw(text, "class") {
        Some(TokenType::Class)
    } else if is_kw(text, "else") {
        Some(TokenType::Else)
    } else if is_kw(text, "false") {
        Some(TokenType::False)
    } else if is_kw(text, "for") {
        Some(TokenType::For)
    } else if is_kw(text, "fun") {
        Some(TokenType::Fun)
    } else if is_kw(text, "if") {
        Some(TokenType::If)
    } else if is_kw(text, "nil") {
        Some(TokenType::Nil)
    } else if is_kw(text, "or") {
        Some(TokenType::Or)
    } else if is_kw(text, "print") {
        Some(TokenType::Print)
    } else if is_kw(text, "return") {
        Some(TokenType::Return)
    } else if is_kw(text, "super") {
        Some(TokenType::Super)
    } else if is_kw(text, "this") {
        Some(TokenType::This)
    } else if is_kw(text, "true") {
        Some(TokenType::True)
    } else if is_kw(text, "var") {
        Some(TokenType::Var)
    } else if is_kw(text, "while") {
        Some(TokenType::While)
    } else {
        None
    }
}

/// The scanner: the full source as a random-access sequence of
/// characters, the two cursors (`start` marks the current lexeme's
/// first character, `current` the next unconsumed character), the
/// 1-based line counter, and the append-only token output.
pub struct Scanner {
    pub source: Vec<char>,
    pub tokens: Vec<Token>,
    pub start: usize,
    pub current: usize,
    pub line: usize,
}

impl Scanner {
    /// A fresh scanner over the given source text, its characters
    /// materialized for random access, with both cursors at the start
    /// and the line counter at one.
    pub fn new(source: &str) -> (s: Scanner)
        requires
            source@.len() < usize::MAX,
        ensures
            s.wf(),
            s.source@ == source@,
            s.tokens@.len() == 0,
            s.start == 0,
            s.current == 0,
            s.line == 1,
    {
        let n = source.unicode_len();
        let mut chars: Vec<char> = Vec::new();
        let mut j: usize = 0;
        while j < n
            invariant
                j <= n,
                n == source@.len(),
                chars@ == source@.subrange(0, j as int),
            decreases n - j,
        {
            let c = source.get_char(j);
            chars.push(c);
            j = j + 1;
            assert(chars@ =~= source@.subrange(0, j as int));
        }
        assert(chars@ =~= source@);
        Scanner { source: chars, tokens: Vec::new(), start: 0, current: 0, line: 1 }
    }

    /// The scanner's internal invariant: the cursor stays within the
    /// source, the line counter starts at one and can grow by at most
    /// one per consumed character, and the source is short enough that
    /// cursor arithmetic cannot overflow.
    pub open spec fn wf(&self) -> bool {
        &&& self.source@.len() < usize::MAX
        &&& self.current <= self.source@.len()
        &&& 1 <= self.line
        &&& self.line + self.source@.len() - self.current <= usize::MAX
    }

    fn is_at_end(&self) -> (r: bool)
        ensures
            r == (self.current >= self.source@.len()),
    {
        self.current >= self.source.len()
    }

    /// The next unconsumed character, or a NUL sentinel at the end of
    /// the source.
    fn peek(&self) -> (c: char)
        requires
            self.current <= self.source@.len(),
        ensures
            c == (if self.current < self.source@.len() {
                self.source@[self.current as int]
            } else {
                '\0'
            }),
    {
        if self.is_at_end() {
            return '\0';
        }
        self.source[self.current]
    }

    /// The character one past the next unconsumed one, or a NUL
    /// sentinel past the end of the source.
    fn peek_next(&self) -> (c: char)
        requires
            self.current <= self.source@.len(),
            self.source@.len() < usize::MAX,
        ensures
            c == (if self.current + 1 < self.source@.len() {
                self.source@[self.current + 1]
            } else {
                '\0'
            }),
    {
        if self.current + 1 >= self.source.len() {
            return '\0';
        }
        self.source[self.current + 1]
    }

    /// Consumes and returns the next character.
    fn advance(&mut self) -> (c: char)
        requires
            old(self).current < old(self).source@.len(),
            old(self).source@.len() < usize::MAX,
        ensures
            *final(self) == (Scanner { current: (old(self).current + 1) as usize, ..*old(self) }),
            c == old(self).source@[old(self).current as int],
    {
        let c = self.source[self.current];
        self.current = self.current + 1;
        c
    }

    /// Consumes the next character when it equals `expected`.
    fn match_token(&mut self, expected: char) -> (r: bool)
        requires
            old(self).current <= old(self).source@.len(),
            old(self).source@.len() < usize::MAX,
        ensures
            r == (old(self).current < old(self).source@.len() && old(self).source@[old(
                self,
            ).current as int] == expected),
            *final(self) == if r {
                (Scanner { current: (old(self).current + 1) as usize, ..*old(self) })
            } else {
                *old(self)
            },
    {
        if self.is_at_end() {
            return false;
        }
        if self.source[self.current] != expected {
            return false;
        }
        self.current = self.current + 1;
        true
    }

    /// The source text of the index range `[a, b)`, as a string.
    fn text_of_range(&self, a: usize, b: usize) -> (s: String)
        requires
            a <= b <= self.source@.len(),
        ensures
            s@ == self.source@.subrange(a as int, b as int),
    {
        let mut s = String::new();
        let mut j: usize = a;
        while j < b
            invariant
                a <= j <= b <= self.source@.len(),
                s@ == self.source@.subrange(a as int, j as int),
            decreases b - j,
        {
            push_char(&mut s, self.source[j]);
            j = j + 1;
            assert(s@ =~= self.source@.subrange(a as int, j as int));
        }
        s
    }

    /// Appends a token for the current lexeme — the source text from
    /// `start` up to `current` — with the given kind, literal and line.
    fn add_token_at(&mut self, ttype: TokenType, lit: Option<Literal>, line: usize)
        requires
            old(self).start <= old(self).current <= old(self).source@.len(),
        ensures
            final(self).source == old(self).source,
            final(self).start == old(self).start,
            final(self).current == old(self).current,
            final(self).line == old(self).line,
            token_views(final(self).tokens@) == token_views(old(self).tokens@).push(
                SpecToken {
                    kind: ttype,
                    lexeme: old(self).source@.subrange(
                        old(self).start as int,
                        old(self).current as int,
                    ),
                    literal: lit_views(lit),
                    line: line as int,
                },
            ),
    {
        let text = self.text_of_range(self.start, self.current);
        let t = Token::new(ttype, text, lit, line);
        proof {
            lemma_token_views_push(self.tokens@, t);
        }
        self.tokens.push(t);
    }

    /// Appends a token for the current lexeme at the current line.
    fn add_token(&mut self, ttype: TokenType, lit: Option<Literal>)
        requires
            old(self).start <= old(self).current <= old(self).source@.len(),
        ensures
            final(self).source == old(self).source,
            final(self).start == old(self).start,
            final(self).current == old(self).current,
            final(self).line == old(self).line,
            token_views(final(self).tokens@) == token_views(old(self).tokens@).push(
                SpecToken {
                    kind: ttype,
                    lexeme: old(self).source@.subrange(
                        old(self).start as int,
                        old(self).current as int,
                    ),
                    literal: lit_views(lit),
                    line: old(self).line as int,
                },
            ),
    {
        let line = self.line;
        self.add_token_at(ttype, lit, line);
    }

    /// Scans an identifier or reserved word whose first (alphabetic)
    /// character has just been consumed: consumes the maximal
    /// alphanumeric run and emits the reserved kind on an exact keyword
    /// match, an identifier token otherwise.
    fn identifier(&mut self)
        requires
            old(self).wf(),
            old(self).start < old(self).source@.len(),
            is_alpha(old(self).source@[old(self).start as int]),
            old(self).current == old(self).start + 1,
        ensures
            final(self).wf(),
            final(self).source == old(self).source,
            final(self).line == old(self).line,
            ({
                let st = identifier_step(
                    old(self).source@,
                    old(self).start as int,
                    old(self).line as int,
                );
                &&& final(self).current as int == st.next
                &&& token_views(final(self).tokens@) == token_views(old(self).tokens@) + opt_seq(
                    st.token,
                )
            }),
    {
        let ghost src = self.source@;
        let ghost i = self.start as int;
        proof {
            lemma_alnum_end(src, i + 1);
        }
        loop
            invariant
                self.wf(),
                self.source@ == src,
                self.source == old(self).source,
                self.start == old(self).start,
                self.line == old(self).line,
                self.tokens == old(self).tokens,
                i == old(self).start as int,
                i + 1 <= self.current <= alnum_end(src, i + 1),
                alnum_end(src, i + 1) <= src.len(),
                alnum_end(src, self.current as int) == alnum_end(src, i + 1),
            ensures
                self.wf(),
                self.source == old(self).source,
                self.start == old(self).start,
                self.line == old(self).line,
                self.tokens == old(self).tokens,
                self.current as int == alnum_end(src, i + 1),
            decreases src.len() - self.current,
        {
            let c = self.peek();
            if !alnum(c) {
                break;
            }
            self.advance();
            proof {
                lemma_alnum_end(src, self.current as int);
            }
        }
        let text = self.text_of_range(self.start, self.current);
        proof {
            lemma_app_some(
                token_views(old(self).tokens@),
                identifier_step(src, i, old(self).line as int).token->Some_0,
            );
        }
        match lookup_keyword(&text) {
            Some(k) => self.add_token(k, None),
            None => self.add_token(TokenType::Identifier, None),
        }
    }

    /// Scans a number literal whose first digit has just been consumed:
    /// a maximal run of digits, then a fractional part only when a dot
    /// directly followed by a digit comes next.  The emitted token
    /// carries the exact digit text as its literal.
    fn number(&mut self)
        requires
            old(self).wf(),
            old(self).start < old(self).source@.len(),
            is_digit(old(self).source@[old(self).start as int]),
            old(self).current == old(self).start + 1,
        ensures
            final(self).wf(),
            final(self).source == old(self).source,
            final(self).line == old(self).line,
            ({
                let st = number_step(
                    old(self).source@,
                    old(self).start as int,
                    old(self).line as int,
                );
                &&& final(self).current as int == st.next
                &&& token_views(final(self).tokens@) == token_views(old(self).tokens@) + opt_seq(
                    st.token,
                )
            }),
    {
        let ghost src = self.source@;
        let ghost i = self.start as int;
        proof {
            lemma_digits_end(src, i);
        }
        loop
            invariant
                self.wf(),
                self.source@ == src,
                self.source == old(self).source,
                self.start == old(self).start,
                self.line == old(self).line,
                self.tokens == old(self).tokens,
                i == old(self).start as int,
                i + 1 <= self.current <= digits_end(src, i),
                digits_end(src, i) <= src.len(),
                digits_end(src, self.current as int) == digits_end(src, i),
            ensures
                self.wf(),
                self.source == old(self).source,
                self.start == old(self).start,
                self.line == old(self).line,
                self.tokens == old(self).tokens,
                self.current as int == digits_end(src, i),
            decreases src.len() - self.current,
        {
            let c = self.peek();
            if !digit(c) {
                break;
            }
            self.advance();
            proof {
                lemma_digits_end(src, self.current as int);
            }
        }
        let ghost d1 = digits_end(src, i);
        if self.peek() == '.' {
            let c = self.peek_next();
            if digit(c) {
                self.advance();
                proof {
                    lemma_digits_end(src, d1 + 1);
                }
                loop
                    invariant
                        self.wf(),
                        self.source@ == src,
                        self.source == old(self).source,
                        self.start == old(self).start,
                        self.line == old(self).line,
                        self.tokens == old(self).tokens,
                        0 <= i < d1,
                        d1 + 1 <= self.current <= digits_end(src, d1 + 1),
                        digits_end(src, d1 + 1) <= src.len(),
                        digits_end(src, self.current as int) == digits_end(src, d1 + 1),
                    ensures
                        self.wf(),
                        self.source == old(self).source,
                        self.start == old(self).start,
                        self.line == old(self).line,
                        self.tokens == old(self).tokens,
                        self.current as int == digits_end(src, d1 + 1),
                    decreases src.len() - self.current,
                {
                    let c2 = self.peek();
                    if !digit(c2) {
                        break;
                    }
                    self.advance();
                    proof {
                        lemma_digits_end(src, self.current as int);
                    }
                }
            }
        }
        let text = self.text_of_range(self.start, self.current);
        proof {
            lemma_app_some(
                token_views(old(self).tokens@),
                number_step(src, i, old(self).line as int).token->Some_0,
            );
        }
        self.add_token(TokenType::Number, Some(Literal::Number(text)));
    }

    /// Scans a string literal whose opening quote has just been
    /// consumed: consumes characters up to the closing quote, counting
    /// the newlines crossed (multi-line strings are permitted).  The
    /// emitted token's line is that of the opening quote and its
    /// literal is the raw text strictly between the quotes; when the
    /// source ends first, no token is emitted and an unterminated-string
    /// diagnostic is reported at the line reached.
    fn string(&mut self, reporter: &mut ErrorReporter)
        requires
            old(self).wf(),
            old(self).start < old(self).source@.len(),
            old(self).source@[old(self).start as int] == '"',
            old(self).current == old(self).start + 1,
        ensures
            final(self).wf(),
            final(self).source == old(self).source,
            ({
                let st = string_step(
                    old(self).source@,
                    old(self).start as int,
                    old(self).line as int,
                );
                &&& final(self).current as int == st.next
                &&& final(self).line as int == st.line
                &&& token_views(final(self).tokens@) == token_views(old(self).tokens@) + opt_seq(
                    st.token,
                )
                &&& diag_views(final(reporter).diagnostics@) == diag_views(
                    old(reporter).diagnostics@,
                ) + opt_seq(st.diag)
                &&& final(reporter).had_error == (old(reporter).had_error || st.diag is Some)
            }),
    {
        let ghost src = self.source@;
        let ghost i = self.start as int;
        let ghost line0 = self.line as int;
        proof {
            lemma_quote_end(src, i + 1);
        }
        let line_at_start = self.line;
        loop
            invariant
                self.wf(),
                self.source@ == src,
                self.source == old(self).source,
                self.start == old(self).start,
                self.tokens == old(self).tokens,
                i == old(self).start as int,
                line0 == old(self).line as int,
                i + 1 <= self.current <= quote_end(src, i + 1),
                quote_end(src, i + 1) <= src.len(),
                quote_end(src, self.current as int) == quote_end(src, i + 1),
                self.line as int == line0 + newlines(src, i + 1, self.current as int),
            ensures
                self.wf(),
                self.source == old(self).source,
                self.start == old(self).start,
                self.tokens == old(self).tokens,
                self.current as int == quote_end(src, i + 1),
                self.line as int == line0 + newlines(src, i + 1, self.current as int),
            decreases src.len() - self.current,
        {
            let c = self.peek();
            if c == '"' && !self.is_at_end() {
                break;
            }
            if self.is_at_end() {
                break;
            }
            if c == '\n' {
                self.line = self.line + 1;
            }
            self.advance();
            proof {
                lemma_quote_end(src, self.current as int);
            }
        }
        if self.is_at_end() {
            let l = self.line;
            reporter.error(l, "Unterminated string");
            proof {
                lemma_app_none(token_views(old(self).tokens@));
                lemma_app_some(
                    diag_views(old(reporter).diagnostics@),
                    string_step(src, i, line0).diag->Some_0,
                );
            }
            return ;
        }
        self.advance();
        let value = self.text_of_range(self.start + 1, self.current - 1);
        proof {
            lemma_app_none(diag_views(old(reporter).diagnostics@));
            lemma_app_some(
                token_views(old(self).tokens@),
                string_step(src, i, line0).token->Some_0,
            );
        }
        self.add_token_at(TokenType::String, Some(Literal::String(value)), line_at_start);
    }

    /// One iteration of the outer loop: consumes the character at the
    /// cursor and dispatches on it, emitting at most one token and
    /// reporting at most one diagnostic, exactly as one step of the
    /// model prescribes.
    fn scan_token(&mut self, reporter: &mut ErrorReporter)
        requires
            old(self).wf(),
            old(self).current < old(self).source@.len(),
            old(self).start == old(self).current,
        ensures
            final(self).wf(),
            final(self).source == old(self).source,
            ({
                let st = scan_step(
                    old(self).source@,
                    old(self).current as int,
                    old(self).line as int,
                );
                &&& final(self).current as int == st.next
                &&& final(self).line as int == st.line
                &&& token_views(final(self).tokens@) == token_views(old(self).tokens@) + opt_seq(
                    st.token,
                )
                &&& diag_views(final(reporter).diagnostics@) == diag_views(
                    old(reporter).diagnostics@,
                ) + opt_seq(st.diag)
                &&& final(reporter).had_error == (old(reporter).had_error || st.diag is Some)
            }),
    {
        let ghost src = self.source@;
        let ghost i = self.current as int;
        let ghost line = self.line as int;
        proof {
            lemma_scan_step_bounds(src, i, line);
            lemma_app_none(token_views(old(self).tokens@));
            lemma_app_none(diag_views(old(reporter).diagnostics@));
            if scan_step(src, i, line).token is Some {
                lemma_app_some(token_views(old(self).tokens@), scan_step(src, i, line).token->Some_0);
            }
            if scan_step(src, i, line).diag is Some {
                lemma_app_some(
                    diag_views(old(reporter).diagnostics@),
                    scan_step(src, i, line).diag->Some_0,
                );
            }
        }
        let c = self.advance();
        if c == '(' {
            self.add_token(TokenType::LeftParen, None);
        } else if c == ')' {
            self.add_token(TokenType::RightParen, None);
        } else if c == '{' {
            self.add_token(TokenType::LeftBrace, None);
        } else if c == '}' {
            self.add_token(TokenType::RightBrace, None);
        } else if c == ',' {
            self.add_token(TokenType::Comma, None);
        } else if c == '.' {
            self.add_token(TokenType::Dot, None);
        } else if c == '-' {
            self.add_token(TokenType::Minus, None);
        } else if c == '+' {
            self.add_token(TokenType::Plus, None);
        } else if c == ';' {
            self.add_token(TokenType::Semicolon, None);
        } else if c == '*' {
            self.add_token(TokenType::Star, None);
        } else if c == '!' {
            let token = if self.match_token('=') {
                TokenType::BangEqual
            } else {
                TokenType::Bang
            };
            self.add_token(token, None);
        } else if c == '=' {
            let token = if self.match_token('=') {
                TokenType::EqualEqual
            } else {
                TokenType::Equal
            };
            self.add_token(token, None);
        } else if c == '<' {
            let token = if self.match_token('=') {
                TokenType::LessEqual
            } else {
                TokenType::Less
            };
            self.add_token(token, None);
        } else if c == '>' {
            let token = if self.match_token('=') {
                TokenType::GreaterEqual
            } else {
                TokenType::Greater
            };
            self.add_token(token, None);
        } else if c == '/' {
            if self.match_token('/') {
                proof {
                    lemma_comment_end(src, i + 2);
                }
                loop
                    invariant
                        self.wf(),
                        self.source@ == src,
                        self.source == old(self).source,
                        self.start == old(self).start,
                        self.line == old(self).line,
                        self.tokens == old(self).tokens,
                        i + 2 <= self.current <= comment_end(src, i + 2),
                        comment_end(src, i + 2) <= src.len(),
                        comment_end(src, self.current as int) == comment_end(src, i + 2),
                    ensures
                        self.wf(),
                        self.source == old(self).source,
                        self.start == old(self).start,
                        self.line == old(self).line,
                        self.tokens == old(self).tokens,
                        self.current as int == comment_end(src, i + 2),
                    decreases src.len() - self.current,
                {
                    let p = self.peek();
                    if p == '\n' && !self.is_at_end() {
                        break;
                    }
                    if self.is_at_end() {
                        break;
                    }
                    self.advance();
                    proof {
                        lemma_comment_end(src, self.current as int);
                    }
                }
            } else {
                self.add_token(TokenType::Slash, None);
            }
        } else if c == ' ' || c == '\r' || c == '\t' {
        } else if c == '\n' {
            self.line = self.line + 1;
        } else if c == '"' {
            self.string(reporter);
        } else if digit(c) {
            self.number();
        } else if alpha(c) {
            self.identifier();
        } else {
            let l = self.line;
            reporter.error(l, "Unexpected character.");
        }
    }

    /// Drives the scan to completion: dispatches on every character of
    /// the source, appends the single end-of-input token, and returns
    /// the finished token sequence.  Never fails; every malformed-input
    /// condition is reported through the reporter and scanning
    /// continues, so one run surfaces every lexical error.
    pub fn scan_tokens(&mut self, reporter: &mut ErrorReporter) -> (tokens: &Vec<Token>)
        requires
            old(self).wf(),
            old(self).current == 0,
            old(self).line == 1,
            old(self).tokens@.len() == 0,
        ensures
            final(self).wf(),
            final(self).source == old(self).source,
            tokens@ == final(self).tokens@,
            ({
                let r = scan_result(old(self).source@);
                &&& token_views(final(self).tokens@) == r.tokens
                &&& final(self).line as int == r.line
                &&& diag_views(final(reporter).diagnostics@) == diag_views(
                    old(reporter).diagnostics@,
                ) + r.diags
                &&& final(reporter).had_error == (old(reporter).had_error || r.diags.len() > 0)
            }),
    {
        let ghost src = self.source@;
        let ghost full = scan_result(src);
        proof {
            assert(token_views(self.tokens@) =~= Seq::<SpecToken>::empty());
            assert(token_views(self.tokens@) + full.tokens =~= full.tokens);
            assert(diag_views(reporter.diagnostics@) + full.diags =~= diag_views(
                reporter.diagnostics@,
            ) + full.diags);
        }
        loop
            invariant
                self.wf(),
                self.source@ == src,
                self.source == old(self).source,
                token_views(self.tokens@) + scan_from(
                    src,
                    self.current as int,
                    self.line as int,
                ).tokens == full.tokens,
                diag_views(reporter.diagnostics@) + scan_from(
                    src,
                    self.current as int,
                    self.line as int,
                ).diags == diag_views(old(reporter).diagnostics@) + full.diags,
                scan_from(src, self.current as int, self.line as int).line == full.line,
                diag_views(old(reporter).diagnostics@).len() <= diag_views(
                    reporter.diagnostics@,
                ).len(),
                reporter.had_error == (old(reporter).had_error || diag_views(
                    reporter.diagnostics@,
                ).len() > diag_views(old(reporter).diagnostics@).len()),
            ensures
                self.wf(),
                self.source == old(self).source,
                self.current == src.len(),
                token_views(self.tokens@).push(eof_token(self.line as int)) == full.tokens,
                diag_views(reporter.diagnostics@) == diag_views(old(reporter).diagnostics@)
                    + full.diags,
                self.line as int == full.line,
                reporter.had_error == (old(reporter).had_error || full.diags.len() > 0),
            decreases src.len() - self.current,
        {
            if self.is_at_end() {
                proof {
                    assert(scan_from(src, self.current as int, self.line as int).tokens =~= seq![
                        eof_token(self.line as int),
                    ]);
                    assert(token_views(self.tokens@).push(eof_token(self.line as int))
                        =~= token_views(self.tokens@) + seq![eof_token(self.line as int)]);
                    assert(diag_views(reporter.diagnostics@) + Seq::<
                        crate::error::SpecDiagnostic,
                    >::empty() =~= diag_views(reporter.diagnostics@));
                }
                break;
            }
            self.start = self.current;
            let ghost cur = self.current as int;
            let ghost line = self.line as int;
            let ghost pre_tokens = token_views(self.tokens@);
            let ghost pre_diags = diag_views(reporter.diagnostics@);
            proof {
                lemma_scan_from_unfold(src, cur, line);
                lemma_scan_step_bounds(src, cur, line);
            }
            self.scan_token(reporter);
            proof {
                let st = scan_step(src, cur, line);
                let rest = scan_from(src, st.next, st.line);
                assert((pre_tokens + opt_seq(st.token)) + rest.tokens =~= pre_tokens + (opt_seq(
                    st.token,
                ) + rest.tokens));
                assert((pre_diags + opt_seq(st.diag)) + rest.diags =~= pre_diags + (opt_seq(
                    st.diag,
                ) + rest.diags));
            }
        }
        let line = self.line;
        let t = Token::new(TokenType::Eof, String::new(), None, line);
        proof {
            lemma_token_views_push(self.tokens@, t);
        }
        self.tokens.push(t);
        &self.tokens
    }
}

/// Scans one whole input unit — a file's contents or one interactive
/// line — and returns its token sequence, reporting every lexical
/// error through the given reporter.
pub fn scan_source(source: &str, reporter: &mut ErrorReporter) -> (tokens: Vec<Token>)
    requires
        source@.len() < usize::MAX,
    ensures
        ({
            let r = scan_result(source@);
            &&& token_views(tokens@) == r.tokens
            &&& diag_views(final(reporter).diagnostics@) == diag_views(old(reporter).diagnostics@)
                + r.diags
            &&& final(reporter).had_error == (old(reporter).had_error || r.diags.len() > 0)
        }),
{
    let mut scanner = Scanner::new(source);
    scanner.scan_tokens(reporter);
    scanner.tokens
}

} // verus!
