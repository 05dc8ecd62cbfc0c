//! The mathematical model of the scan.
//!
//! `scan_result` maps a source text, as a sequence of characters, to the
//! exact token and diagnostic sequences a scan of it produces and to the
//! final line count.  The executable scanner is specified against this
//! model, and the general laws of the scanner are proved of it here.

use vstd::prelude::*;

use crate::token::{SpecLiteral, SpecToken, TokenType};
use crate::error::SpecDiagnostic;

verus! {

/// An ASCII decimal digit.
pub open spec fn is_digit(c: char) -> bool {
    48 <= c as u32 <= 57
}

/// An ASCII alphabetic character.
pub open spec fn is_alpha(c: char) -> bool {
    (65 <= c as u32 <= 90) || (97 <= c as u32 <= 122)
}

/// An ASCII alphanumeric character: what may stand inside an identifier.
pub open spec fn is_alnum(c: char) -> bool {
    is_digit(c) || is_alpha(c)
}

/// The end of the maximal run of digits beginning at `i`: the first
/// index at or after `i` holding no digit, or the end of the source.
pub open spec fn digits_end(src: Seq<char>, i: int) -> int
    decreases src.len() - i
        when 0 <= i <= src.len()
{
    if i < src.len() && is_digit(src[i]) {
        digits_end(src, i + 1)
    } else {
        i
    }
}

pub proof fn lemma_digits_end(src: Seq<char>, i: int)
    requires
        0 <= i <= src.len(),
    ensures
        i <= digits_end(src, i) <= src.len(),
        forall|j: int| i <= j < digits_end(src, i) ==> is_digit(src[j]),
        digits_end(src, i) < src.len() ==> !is_digit(src[digits_end(src, i)]),
    decreases src.len() - i,
{
    if i < src.len() && is_digit(src[i]) {
        lemma_digits_end(src, i + 1);
    }
}

/// The end of the maximal run of alphanumeric characters beginning at `i`.
pub open spec fn alnum_end(src: Seq<char>, i: int) -> int
    decreases src.len() - i
        when 0 <= i <= src.len()
{
    if i < src.len() && is_alnum(src[i]) {
        alnum_end(src, i + 1)
    } else {
        i
    }
}

pub proof fn lemma_alnum_end(src: Seq<char>, i: int)
    requires
        0 <= i <= src.len(),
    ensures
        i <= alnum_end(src, i) <= src.len(),
        forall|j: int| i <= j < alnum_end(src, i) ==> is_alnum(src[j]),
        alnum_end(src, i) < src.len() ==> !is_alnum(src[alnum_end(src, i)]),
    decreases src.len() - i,
{
    if i < src.len() && is_alnum(src[i]) {
        lemma_alnum_end(src, i + 1);
    }
}

/// The index of the first newline at or after `i`, or the end of the
/// source: where a line comment beginning before `i` stops being
/// discarded.
pub open spec fn comment_end(src: Seq<char>, i: int) -> int
    decreases src.len() - i
        when 0 <= i <= src.len()
{
    if i < src.len() && src[i] != '\n' {
        comment_end(src, i + 1)
    } else {
        i
    }
}

pub proof fn lemma_comment_end(src: Seq<char>, i: int)
    requires
        0 <= i <= src.len(),
    ensures
        i <= comment_end(src, i) <= src.len(),
        forall|j: int| i <= j < comment_end(src, i) ==> src[j] != '\n',
        comment_end(src, i) < src.len() ==> src[comment_end(src, i)] == '\n',
    decreases src.len() - i,
{
    if i < src.len() && src[i] != '\n' {
        lemma_comment_end(src, i + 1);
    }
}

/// The index of the first double quote at or after `i`, or the end of
/// the source: where a string literal opened before `i` closes.
pub open spec fn quote_end(src: Seq<char>, i: int) -> int
    decreases src.len() - i
        when 0 <= i <= src.len()
{
    if i < src.len() && src[i] != '"' {
        quote_end(src, i + 1)
    } else {
        i
    }
}

pub proof fn lemma_quote_end(src: Seq<char>, i: int)
    requires
        0 <= i <= src.len(),
    ensures
        i <= quote_end(src, i) <= src.len(),
        forall|j: int| i <= j < quote_end(src, i) ==> src[j] != '"',
        quote_end(src, i) < src.len() ==> src[quote_end(src, i)] == '"',
    decreases src.len() - i,
{
    if i < src.len() && src[i] != '"' {
        lemma_quote_end(src, i + 1);
    }
}

/// How many newline characters stand in `src` at the indices of
/// `[a, b)`.
pub open spec fn newlines(src: Seq<char>, a: int, b: int) -> int
    decreases b - a
        when a <= b
{
    if a >= b {
        0
    } else {
        newlines(src, a, b - 1) + if src[b - 1] == '\n' {
            1int
        } else {
            0int
        }
    }
}

pub proof fn lemma_newlines_bounds(src: Seq<char>, a: int, b: int)
    requires
        a <= b,
    ensures
        0 <= newlines(src, a, b) <= b - a,
    decreases b - a,
{
    if a < b {
        lemma_newlines_bounds(src, a, b - 1);
    }
}

/// The keyword table: the reserved kind for an exact reserved-word
/// text, and nothing for any other text.
pub open spec fn keyword_kind(s: Seq<char>) -> Option<TokenType> {
    if s == "and"@ {
        Some(TokenType::And)
    } else if s == "class"@ {
        Some(TokenType::Class)
    } else if s == "else"@ {
        Some(TokenType::Else)
    } else if s == "false"@ {
        Some(TokenType::False)
    } else if s == "for"@ {
        Some(TokenType::For)
    } else if s == "fun"@ {
        Some(TokenType::Fun)
    } else if s == "if"@ {
        Some(TokenType::If)
    } else if s == "nil"@ {
        Some(TokenType::Nil)
    } else if s == "or"@ {
        Some(TokenType::Or)
    } else if s == "print"@ {
        Some(TokenType::Print)
    } else if s == "return"@ {
        Some(TokenType::Return)
    } else if s == "super"@ {
        Some(TokenType::Super)
    } else if s == "this"@ {
        Some(TokenType::This)
    } else if s == "true"@ {
        Some(TokenType::True)
    } else if s == "var"@ {
        Some(TokenType::Var)
    } else if s == "while"@ {
        Some(TokenType::While)
    } else {
        None
    }
}

/// What one dispatch step of the scan does: the token it emits (if
/// any), the diagnostic it reports (if any), the cursor position after
/// it, and the line count after it.
pub struct ScanStep {
    pub token: Option<SpecToken>,
    pub diag: Option<SpecDiagnostic>,
    pub next: int,
    pub line: int,
}

/// A single-character token of the given kind at `i`.
pub open spec fn single_step(src: Seq<char>, i: int, line: int, kind: TokenType) -> ScanStep {
    ScanStep {
        token: Some(
            SpecToken { kind, lexeme: src.subrange(i, i + 1), literal: None, line },
        ),
        diag: None,
        next: i + 1,
        line,
    }
}

/// A potentially two-character operator at `i`: the two-character kind
/// when an equals sign follows, else the one-character kind.
pub open spec fn pair_step(
    src: Seq<char>,
    i: int,
    line: int,
    two: TokenType,
    one: TokenType,
) -> ScanStep {
    if i + 1 < src.len() && src[i + 1] == '=' {
        ScanStep {
            token: Some(
                SpecToken { kind: two, lexeme: src.subrange(i, i + 2), literal: None, line },
            ),
            diag: None,
            next: i + 2,
            line,
        }
    } else {
        single_step(src, i, line, one)
    }
}

/// A string literal opened by the quote at `i`: its lexeme includes
/// both quotes, its literal value is the raw text strictly between
/// them, and its line is the line of the opening quote.  When the
/// source ends before a closing quote, no token is emitted and an
/// unterminated-string diagnostic is reported at the line reached.
pub open spec fn string_step(src: Seq<char>, i: int, line: int) -> ScanStep {
    let close = quote_end(src, i + 1);
    let nl = newlines(src, i + 1, close);
    if close >= src.len() {
        ScanStep {
            token: None,
            diag: Some(SpecDiagnostic { line: line + nl, message: "Unterminated string"@ }),
            next: src.len() as int,
            line: line + nl,
        }
    } else {
        ScanStep {
            token: Some(
                SpecToken {
                    kind: TokenType::String,
                    lexeme: src.subrange(i, close + 1),
                    literal: Some(SpecLiteral::String(src.subrange(i + 1, close))),
                    line,
                },
            ),
            diag: None,
            next: close + 1,
            line: line + nl,
        }
    }
}

/// A number literal beginning with the digit at `i`: a maximal run of
/// digits, then a fractional part only when a dot directly followed by
/// a digit comes next.  The literal value is the exact digit text.
pub open spec fn number_step(src: Seq<char>, i: int, line: int) -> ScanStep {
    let d1 = digits_end(src, i);
    let e = if d1 < src.len() && src[d1] == '.' && d1 + 1 < src.len() && is_digit(src[d1 + 1]) {
        digits_end(src, d1 + 1)
    } else {
        d1
    };
    ScanStep {
        token: Some(
            SpecToken {
                kind: TokenType::Number,
                lexeme: src.subrange(i, e),
                literal: Some(SpecLiteral::Number(src.subrange(i, e))),
                line,
            },
        ),
        diag: None,
        next: e,
        line,
    }
}

/// An identifier or reserved word beginning with the alphabetic
/// character at `i`: a maximal run of alphanumeric characters, emitted
/// as the reserved kind on an exact keyword match and as an identifier
/// otherwise, with no literal attached either way.
pub open spec fn identifier_step(src: Seq<char>, i: int, line: int) -> ScanStep {
    let e = alnum_end(src, i + 1);
    let text = src.subrange(i, e);
    let kind = match keyword_kind(text) {
        Some(k) => k,
        None => TokenType::Identifier,
    };
    ScanStep {
        token: Some(SpecToken { kind, lexeme: text, literal: None, line }),
        diag: None,
        next: e,
        line,
    }
}

/// One iteration of the scanner's outer loop: dispatch on the
/// character at `i`.
pub open spec fn scan_step(src: Seq<char>, i: int, line: int) -> ScanStep
    recommends
        0 <= i < src.len(),
{
    let c = src[i];
    if c == '(' {
        single_step(src, i, line, TokenType::LeftParen)
    } else if c == ')' {
        single_step(src, i, line, TokenType::RightParen)
    } else if c == '{' {
        single_step(src, i, line, TokenType::LeftBrace)
    } else if c == '}' {
        single_step(src, i, line, TokenType::RightBrace)
    } else if c == ',' {
        single_step(src, i, line, TokenType::Comma)
    } else if c == '.' {
        single_step(src, i, line, TokenType::Dot)
    } else if c == '-' {
        single_step(src, i, line, TokenType::Minus)
    } else if c == '+' {
        single_step(src, i, line, TokenType::Plus)
    } else if c == ';' {
        single_step(src, i, line, TokenType::Semicolon)
    } else if c == '*' {
        single_step(src, i, line, TokenType::Star)
    } else if c == '!' {
        pair_step(src, i, line, TokenType::BangEqual, TokenType::Bang)
    } else if c == '=' {
        pair_step(src, i, line, TokenType::EqualEqual, TokenType::Equal)
    } else if c == '<' {
        pair_step(src, i, line, TokenType::LessEqual, TokenType::Less)
    } else if c == '>' {
        pair_step(src, i, line, TokenType::GreaterEqual, TokenType::Greater)
    } else if c == '/' {
        if i + 1 < src.len() && src[i + 1] == '/' {
            ScanStep { token: None, diag: None, next: comment_end(src, i + 2), line }
        } else {
            single_step(src, i, line, TokenType::Slash)
        }
    } else if c == ' ' || c == '\r' || c == '\t' {
        ScanStep { token: None, diag: None, next: i + 1, line }
    } else if c == '\n' {
        ScanStep { token: None, diag: None, next: i + 1, line: line + 1 }
    } else if c == '"' {
        string_step(src, i, line)
    } else if is_digit(c) {
        number_step(src, i, line)
    } else if is_alpha(c) {
        identifier_step(src, i, line)
    } else {
        ScanStep {
            token: None,
            diag: Some(SpecDiagnostic { line, message: "Unexpected character."@ }),
            next: i + 1,
            line,
        }
    }
}

/// One dispatch step stays within the source, always makes progress,
/// never decreases the line count nor increases it by more than the
/// characters it consumes, reports diagnostics only at lines it has
/// reached, and emits tokens only at the line it began on and never of
/// the end-of-input kind.
pub proof fn lemma_scan_step_bounds(src: Seq<char>, i: int, line: int)
    requires
        0 <= i < src.len(),
    ensures
        ({
            let st = scan_step(src, i, line);
            &&& i < st.next <= src.len()
            &&& line <= st.line <= line + (st.next - i)
            &&& (st.diag matches Some(d) ==> line <= d.line <= st.line)
            &&& (st.token matches Some(t) ==> t.kind != TokenType::Eof && t.line == line)
        }),
{
    let c = src[i];
    if c == '/' && i + 1 < src.len() && src[i + 1] == '/' {
        lemma_comment_end(src, i + 2);
    } else if c == '"' {
        lemma_quote_end(src, i + 1);
        lemma_newlines_bounds(src, i + 1, quote_end(src, i + 1));
    } else if is_digit(c) {
        lemma_digits_end(src, i);
        let d1 = digits_end(src, i);
        if d1 < src.len() && src[d1] == '.' && d1 + 1 < src.len() && is_digit(src[d1 + 1]) {
            lemma_digits_end(src, d1 + 1);
        }
        assert(digits_end(src, i) > i);
    } else if is_alpha(c) {
        lemma_alnum_end(src, i + 1);
    }
}

/// The whole rest of a scan: tokens and diagnostics produced from
/// position `i` at line count `line` to the end of the source,
/// followed by the single end-of-input token, and the final line
/// count.
pub struct ScanResult {
    pub tokens: Seq<SpecToken>,
    pub diags: Seq<SpecDiagnostic>,
    pub line: int,
}

/// The end-of-input token: empty lexeme, no literal, the final line.
pub open spec fn eof_token(line: int) -> SpecToken {
    SpecToken { kind: TokenType::Eof, lexeme: Seq::empty(), literal: None, line }
}

pub open spec fn opt_seq<A>(o: Option<A>) -> Seq<A> {
    match o {
        Some(a) => seq![a],
        None => Seq::empty(),
    }
}

pub proof fn lemma_app_none<A>(s: Seq<A>)
    ensures
        s + opt_seq(None::<A>) == s,
{
    assert(s + opt_seq(None::<A>) =~= s);
}

pub proof fn lemma_app_some<A>(s: Seq<A>, a: A)
    ensures
        s + opt_seq(Some(a)) == s.push(a),
{
    assert(s + opt_seq(Some(a)) =~= s.push(a));
}

pub open spec fn scan_from(src: Seq<char>, i: int, line: int) -> ScanResult
    decreases src.len() - i
        when 0 <= i <= src.len()
{
    if i >= src.len() {
        ScanResult { tokens: seq![eof_token(line)], diags: Seq::empty(), line }
    } else {
        let st = scan_step(src, i, line);
        let j = if i < st.next <= src.len() {
            st.next
        } else {
            src.len() as int
        };
        let rest = scan_from(src, j, st.line);
        ScanResult {
            tokens: opt_seq(st.token) + rest.tokens,
            diags: opt_seq(st.diag) + rest.diags,
            line: rest.line,
        }
    }
}

/// In the source's interior, the scan is one dispatch step followed by
/// the scan of what the step left unconsumed.
pub proof fn lemma_scan_from_unfold(src: Seq<char>, i: int, line: int)
    requires
        0 <= i < src.len(),
    ensures
        ({
            let st = scan_step(src, i, line);
            let rest = scan_from(src, st.next, st.line);
            scan_from(src, i, line) == (ScanResult {
                tokens: opt_seq(st.token) + rest.tokens,
                diags: opt_seq(st.diag) + rest.diags,
                line: rest.line,
            })
        }),
{
    lemma_scan_step_bounds(src, i, line);
}

/// The scan of a whole source text, from its beginning at line one.
pub open spec fn scan_result(src: Seq<char>) -> ScanResult {
    scan_from(src, 0, 1)
}

pub proof fn lemma_scan_from_ends_with_eof(src: Seq<char>, i: int, line: int)
    requires
        0 <= i <= src.len(),
    ensures
        ({
            let r = scan_from(src, i, line);
            &&& r.tokens.len() >= 1
            &&& r.tokens.last() == eof_token(r.line)
            &&& (forall|j: int|
                0 <= j < r.tokens.len() - 1 ==> #[trigger] r.tokens[j].kind != TokenType::Eof)
        }),
    decreases src.len() - i,
{
    if i < src.len() {
        lemma_scan_step_bounds(src, i, line);
        let st = scan_step(src, i, line);
        lemma_scan_from_ends_with_eof(src, st.next, st.line);
    }
}

/// The produced token sequence always ends with exactly one
/// end-of-input token — empty lexeme, no literal — and contains no
/// other token of that kind.
pub proof fn lemma_ends_with_end_of_input(src: Seq<char>)
    ensures
        ({
            let r = scan_result(src);
            &&& r.tokens.len() >= 1
            &&& r.tokens.last().kind == TokenType::Eof
            &&& r.tokens.last().lexeme.len() == 0
            &&& r.tokens.last().literal is None
            &&& r.tokens.last().line == r.line
            &&& (forall|j: int|
                0 <= j < r.tokens.len() - 1 ==> #[trigger] r.tokens[j].kind != TokenType::Eof)
        }),
{
    lemma_scan_from_ends_with_eof(src, 0, 1);
}

pub proof fn lemma_scan_from_line_bounds(src: Seq<char>, i: int, line: int)
    requires
        0 <= i <= src.len(),
    ensures
        ({
            let r = scan_from(src, i, line);
            &&& r.line >= line
            &&& (forall|j: int|
                0 <= j < r.diags.len() ==> line <= (#[trigger] r.diags[j]).line <= r.line)
        }),
    decreases src.len() - i,
{
    if i < src.len() {
        lemma_scan_step_bounds(src, i, line);
        let st = scan_step(src, i, line);
        lemma_scan_from_line_bounds(src, st.next, st.line);
    }
}

/// Every reported diagnostic carries a line number no greater than the
/// line number of the end-of-input token that closes the scan.
pub proof fn lemma_diagnostics_within_final_line(src: Seq<char>)
    ensures
        ({
            let r = scan_result(src);
            forall|j: int|
                0 <= j < r.diags.len() ==> (#[trigger] r.diags[j]).line <= r.tokens.last().line
        }),
{
    lemma_scan_from_ends_with_eof(src, 0, 1);
    lemma_scan_from_line_bounds(src, 0, 1);
}

/// The token kind that a source of exactly one punctuation or operator
/// character produces.
pub open spec fn punctuation_kind(c: char) -> Option<TokenType> {
    if c == '(' {
        Some(TokenType::LeftParen)
    } else if c == ')' {
        Some(TokenType::RightParen)
    } else if c == '{' {
        Some(TokenType::LeftBrace)
    } else if c == '}' {
        Some(TokenType::RightBrace)
    } else if c == ',' {
        Some(TokenType::Comma)
    } else if c == '.' {
        Some(TokenType::Dot)
    } else if c == '-' {
        Some(TokenType::Minus)
    } else if c == '+' {
        Some(TokenType::Plus)
    } else if c == ';' {
        Some(TokenType::Semicolon)
    } else if c == '*' {
        Some(TokenType::Star)
    } else if c == '/' {
        Some(TokenType::Slash)
    } else if c == '!' {
        Some(TokenType::Bang)
    } else if c == '=' {
        Some(TokenType::Equal)
    } else if c == '<' {
        Some(TokenType::Less)
    } else if c == '>' {
        Some(TokenType::Greater)
    } else {
        None
    }
}

/// A source of exactly one punctuation or operator character scans to
/// one token of the matching kind whose lexeme is that character,
/// followed by the end-of-input token, with nothing reported.
pub proof fn lemma_single_character_token(c: char)
    requires
        punctuation_kind(c) is Some,
    ensures
        ({
            let r = scan_result(seq![c]);
            &&& r.tokens.len() == 2
            &&& Some(r.tokens[0].kind) == punctuation_kind(c)
            &&& r.tokens[0].lexeme == seq![c]
            &&& r.tokens[0].literal is None
            &&& r.tokens[0].line == 1
            &&& r.tokens[1] == eof_token(1)
            &&& r.diags.len() == 0
        }),
{
    let src = seq![c];
    lemma_scan_from_unfold(src, 0, 1);
    assert(src.subrange(0, 1) =~= seq![c]);
    assert(!is_digit(c) && !is_alpha(c));
    let r = scan_result(src);
    assert(r.tokens =~= seq![scan_step(src, 0, 1).token->Some_0, eof_token(1)]);
    assert(r.diags =~= Seq::<SpecDiagnostic>::empty());
}

/// Scanning is a pure function of the source text alone: two
/// independent scans of equal sources yield element-wise equal token
/// sequences.
pub proof fn lemma_scan_deterministic(a: Seq<char>, b: Seq<char>)
    requires
        a == b,
    ensures
        scan_result(a).tokens == scan_result(b).tokens,
{
}

} // verus!
