//! The token data model: token kinds, literal values, and located tokens.

use vstd::prelude::*;

verus! {

/// The closed set of token kinds: single-character punctuation,
/// one-or-two-character operators, the literal-bearing kinds, the
/// reserved words, and the end-of-input marker.
#[derive(Debug, Clone, Copy, PartialEq, Eq, Structural)]
pub enum TokenType {
    LeftParen,
    RightParen,
    LeftBrace,
    RightBrace,
    Comma,
    Dot,
    Minus,
    Plus,
    Semicolon,
    Slash,
    Star,
    Bang,
    BangEqual,
    Equal,
    EqualEqual,
    Less,
    LessEqual,
    Greater,
    GreaterEqual,
    Identifier,
    String,
    Number,
    And,
    Class,
    Else,
    Fun,
    False,
    For,
    If,
    Nil,
    Or,
    Print,
    Return,
    Super,
    This,
    True,
    Var,
    While,
    Eof,
}

/// A literal value carried by a token.  The scanner itself produces only
/// `Number` and `String`; a numeric literal is kept as its exact digit
/// text (digits with an optional fractional part), and converting that
/// text to a machine float is the consumer's concern.
#[derive(Debug, Clone, PartialEq)]
pub enum Literal {
    Number(String),
    String(String),
    Boolean(bool),
    Nil,
}

/// The mathematical value of a `Literal`: the same tag over sequences of
/// characters.
pub enum SpecLiteral {
    Number(Seq<char>),
    String(Seq<char>),
    Boolean(bool),
    Nil,
}

/// A classified, located unit of lexical meaning: kind, the exact source
/// substring that produced it, an optional literal value, and the
/// 1-based source line on which its first character stood.
#[derive(Debug, Clone, PartialEq)]
pub struct Token {
    pub token_type: TokenType,
    pub lexeme: String,
    pub literal: Option<Literal>,
    pub line: usize,
}

/// The mathematical value of a `Token`.
pub struct SpecToken {
    pub kind: TokenType,
    pub lexeme: Seq<char>,
    pub literal: Option<SpecLiteral>,
    pub line: int,
}

pub open spec fn lit_view(l: Literal) -> SpecLiteral {
    match l {
        Literal::Number(s) => SpecLiteral::Number(s@),
        Literal::String(s) => SpecLiteral::String(s@),
        Literal::Boolean(b) => SpecLiteral::Boolean(b),
        Literal::Nil => SpecLiteral::Nil,
    }
}

pub open spec fn lit_views(l: Option<Literal>) -> Option<SpecLiteral> {
    match l {
        Some(l) => Some(lit_view(l)),
        None => None,
    }
}

impl View for Token {
    type V = SpecToken;

    open spec fn view(&self) -> SpecToken {
        SpecToken {
            kind: self.token_type,
            lexeme: self.lexeme@,
            literal: lit_views(self.literal),
            line: self.line as int,
        }
    }
}

/// The mathematical values of a sequence of tokens, element-wise.
pub open spec fn token_views(ts: Seq<Token>) -> Seq<SpecToken> {
    ts.map_values(|t: Token| t@)
}

pub proof fn lemma_token_views_push(ts: Seq<Token>, t: Token)
    ensures
        token_views(ts.push(t)) == token_views(ts).push(t@),
{
    assert(token_views(ts.push(t)) =~= token_views(ts).push(t@));
}

impl Token {
    pub fn new(token_type: TokenType, lexeme: String, literal: Option<Literal>, line: usize) -> (t:
        Token)
        ensures
            t == (Token { token_type, lexeme, literal, line }),
    {
        Self { token_type, lexeme, literal, line }
    }
}

} // verus!
