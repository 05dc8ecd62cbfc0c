use rlox::error::ErrorReporter;
use rlox::scanner::{scan_source, Scanner};
use rlox::token::{Literal, Token, TokenType};

fn scan(source: &str) -> (Vec<Token>, ErrorReporter) {
    let mut reporter = ErrorReporter::new();
    let tokens = scan_source(source, &mut reporter);
    (tokens, reporter)
}

fn number_value(t: &Token) -> f64 {
    match &t.literal {
        Some(Literal::Number(text)) => text.parse::<f64>().unwrap(),
        other => panic!("expected a number literal, got {:?}", other),
    }
}

#[test]
fn ends_with_end_of_input() {
    for source in ["", "1 + 2", "\"abc\"", "@#@", "var x = 10;", "// only a comment"] {
        let (tokens, _) = scan(source);
        let last = tokens.last().unwrap();
        assert_eq!(last.token_type, TokenType::Eof);
        assert_eq!(last.lexeme, "");
        assert!(last.literal.is_none());
        let eofs = tokens
            .iter()
            .filter(|t| t.token_type == TokenType::Eof)
            .count();
        assert_eq!(eofs, 1);
    }
}

#[test]
fn empty_source_has_only_end_of_input() {
    let (tokens, reporter) = scan("");
    assert_eq!(tokens.len(), 1);
    assert_eq!(tokens[0].token_type, TokenType::Eof);
    assert_eq!(tokens[0].line, 1);
    assert!(!reporter.had_error());
}

#[test]
fn single_character_punctuation() {
    let cases = [
        ("(", TokenType::LeftParen),
        (")", TokenType::RightParen),
        ("{", TokenType::LeftBrace),
        ("}", TokenType::RightBrace),
        (",", TokenType::Comma),
        (".", TokenType::Dot),
        ("-", TokenType::Minus),
        ("+", TokenType::Plus),
        (";", TokenType::Semicolon),
        ("*", TokenType::Star),
        ("/", TokenType::Slash),
    ];
    for (source, kind) in cases {
        let (tokens, reporter) = scan(source);
        assert_eq!(tokens.len(), 2);
        assert_eq!(tokens[0].token_type, kind);
        assert_eq!(tokens[0].lexeme, source);
        assert!(tokens[0].literal.is_none());
        assert_eq!(tokens[0].line, 1);
        assert!(!reporter.had_error());
    }
}

#[test]
fn two_character_operators() {
    let cases = [
        ("==", TokenType::EqualEqual),
        ("!=", TokenType::BangEqual),
        ("<=", TokenType::LessEqual),
        (">=", TokenType::GreaterEqual),
    ];
    for (source, kind) in cases {
        let (tokens, _) = scan(source);
        assert_eq!(tokens.len(), 2);
        assert_eq!(tokens[0].token_type, kind);
        assert_eq!(tokens[0].lexeme, source);
    }
}

#[test]
fn one_character_operators() {
    let cases = [
        ("=", TokenType::Equal),
        ("!", TokenType::Bang),
        ("<", TokenType::Less),
        (">", TokenType::Greater),
    ];
    for (source, kind) in cases {
        let (tokens, _) = scan(source);
        assert_eq!(tokens.len(), 2);
        assert_eq!(tokens[0].token_type, kind);
        assert_eq!(tokens[0].lexeme, source);
    }
}

#[test]
fn comment_contributes_no_token() {
    let (tokens, reporter) = scan("// comment\n1");
    assert_eq!(tokens.len(), 2);
    assert_eq!(tokens[0].token_type, TokenType::Number);
    assert_eq!(number_value(&tokens[0]), 1.0);
    assert_eq!(tokens[0].line, 2);
    assert_eq!(tokens[1].token_type, TokenType::Eof);
    assert_eq!(tokens[1].line, 2);
    assert!(!reporter.had_error());
}

#[test]
fn comment_to_end_of_input() {
    let (tokens, reporter) = scan("1 // trailing");
    assert_eq!(tokens.len(), 2);
    assert_eq!(tokens[0].token_type, TokenType::Number);
    assert_eq!(tokens[1].token_type, TokenType::Eof);
    assert!(!reporter.had_error());
}

#[test]
fn fractional_number() {
    let (tokens, reporter) = scan("123.45");
    assert_eq!(tokens.len(), 2);
    assert_eq!(tokens[0].token_type, TokenType::Number);
    assert_eq!(tokens[0].lexeme, "123.45");
    assert_eq!(number_value(&tokens[0]), 123.45);
    assert!(!reporter.had_error());
}

#[test]
fn trailing_dot_is_a_separate_token() {
    let (tokens, reporter) = scan("123.");
    assert_eq!(tokens.len(), 3);
    assert_eq!(tokens[0].token_type, TokenType::Number);
    assert_eq!(tokens[0].lexeme, "123");
    assert_eq!(number_value(&tokens[0]), 123.0);
    assert_eq!(tokens[1].token_type, TokenType::Dot);
    assert_eq!(tokens[1].lexeme, ".");
    assert!(!reporter.had_error());
}

#[test]
fn string_literal_excludes_quotes() {
    let (tokens, reporter) = scan("\"abc\"");
    assert_eq!(tokens.len(), 2);
    assert_eq!(tokens[0].token_type, TokenType::String);
    assert_eq!(tokens[0].lexeme, "\"abc\"");
    assert_eq!(tokens[0].literal, Some(Literal::String(String::from("abc"))));
    assert!(!reporter.had_error());
}

#[test]
fn unterminated_string_emits_no_token() {
    let (tokens, reporter) = scan("\"abc");
    assert_eq!(tokens.len(), 1);
    assert_eq!(tokens[0].token_type, TokenType::Eof);
    assert!(reporter.had_error());
    assert_eq!(reporter.diagnostics.len(), 1);
    assert_eq!(reporter.diagnostics[0].message, "Unterminated string");
}

#[test]
fn multi_line_string_counts_lines() {
    let (tokens, reporter) = scan("\"a\nb\"\nx");
    assert_eq!(tokens.len(), 3);
    assert_eq!(tokens[0].token_type, TokenType::String);
    assert_eq!(
        tokens[0].literal,
        Some(Literal::String(String::from("a\nb")))
    );
    assert_eq!(tokens[0].line, 1);
    assert_eq!(tokens[1].token_type, TokenType::Identifier);
    assert_eq!(tokens[1].lexeme, "x");
    assert_eq!(tokens[1].line, 3);
    assert!(!reporter.had_error());
}

#[test]
fn keyword_matching_is_exact() {
    let (tokens, _) = scan("and andy");
    assert_eq!(tokens.len(), 3);
    assert_eq!(tokens[0].token_type, TokenType::And);
    assert_eq!(tokens[0].lexeme, "and");
    assert!(tokens[0].literal.is_none());
    assert_eq!(tokens[1].token_type, TokenType::Identifier);
    assert_eq!(tokens[1].lexeme, "andy");
    assert!(tokens[1].literal.is_none());
    assert_eq!(tokens[2].token_type, TokenType::Eof);
}

#[test]
fn all_reserved_words() {
    let cases = [
        ("and", TokenType::And),
        ("class", TokenType::Class),
        ("else", TokenType::Else),
        ("false", TokenType::False),
        ("for", TokenType::For),
        ("fun", TokenType::Fun),
        ("if", TokenType::If),
        ("nil", TokenType::Nil),
        ("or", TokenType::Or),
        ("print", TokenType::Print),
        ("return", TokenType::Return),
        ("super", TokenType::Super),
        ("this", TokenType::This),
        ("true", TokenType::True),
        ("var", TokenType::Var),
        ("while", TokenType::While),
    ];
    for (source, kind) in cases {
        let (tokens, _) = scan(source);
        assert_eq!(tokens.len(), 2);
        assert_eq!(tokens[0].token_type, kind);
        assert_eq!(tokens[0].lexeme, source);
        assert!(tokens[0].literal.is_none());
    }
}

#[test]
fn capitalized_keyword_is_an_identifier() {
    let (tokens, _) = scan("And");
    assert_eq!(tokens[0].token_type, TokenType::Identifier);
    assert_eq!(tokens[0].lexeme, "And");
}

#[test]
fn identifier_may_contain_digits() {
    let (tokens, _) = scan("abc123");
    assert_eq!(tokens.len(), 2);
    assert_eq!(tokens[0].token_type, TokenType::Identifier);
    assert_eq!(tokens[0].lexeme, "abc123");
}

#[test]
fn line_numbers_follow_newlines() {
    let (tokens, _) = scan("1\n2\n3");
    assert_eq!(tokens.len(), 4);
    assert_eq!(tokens[0].token_type, TokenType::Number);
    assert_eq!(tokens[0].line, 1);
    assert_eq!(tokens[1].line, 2);
    assert_eq!(tokens[2].line, 3);
    assert_eq!(number_value(&tokens[2]), 3.0);
}

#[test]
fn scanning_twice_gives_equal_sequences() {
    let source = "var answer = 42; // the answer\nprint \"done\" <= >= != !";
    let (first, _) = scan(source);
    let (second, _) = scan(source);
    assert_eq!(first, second);
}

#[test]
fn unexpected_character_is_skipped() {
    let (tokens, reporter) = scan("@1");
    assert_eq!(tokens.len(), 2);
    assert_eq!(tokens[0].token_type, TokenType::Number);
    assert_eq!(number_value(&tokens[0]), 1.0);
    assert!(reporter.had_error());
    assert_eq!(reporter.diagnostics.len(), 1);
    assert_eq!(reporter.diagnostics[0].message, "Unexpected character.");
    assert_eq!(reporter.diagnostics[0].line, 1);
}

#[test]
fn scan_surfaces_every_error() {
    let (tokens, reporter) = scan("@\n#\n1");
    assert_eq!(tokens.len(), 2);
    assert_eq!(tokens[0].token_type, TokenType::Number);
    assert_eq!(reporter.diagnostics.len(), 2);
    assert_eq!(reporter.diagnostics[0].line, 1);
    assert_eq!(reporter.diagnostics[1].line, 2);
}

#[test]
fn diagnostic_lines_bounded_by_final_line() {
    let (tokens, reporter) = scan("@ 1\n# 2\n\"open");
    let eof_line = tokens.last().unwrap().line;
    assert!(reporter.had_error());
    assert!(!reporter.diagnostics.is_empty());
    for d in &reporter.diagnostics {
        assert!(d.line <= eof_line);
    }
}

#[test]
fn whitespace_is_consumed_without_tokens() {
    let (tokens, reporter) = scan(" \r\t");
    assert_eq!(tokens.len(), 1);
    assert_eq!(tokens[0].token_type, TokenType::Eof);
    assert_eq!(tokens[0].line, 1);
    assert!(!reporter.had_error());
}

#[test]
fn mixed_expression() {
    let (tokens, reporter) = scan("var x = (1 + 2.5) * 3; // compute");
    let kinds: Vec<TokenType> = tokens.iter().map(|t| t.token_type).collect();
    assert_eq!(
        kinds,
        vec![
            TokenType::Var,
            TokenType::Identifier,
            TokenType::Equal,
            TokenType::LeftParen,
            TokenType::Number,
            TokenType::Plus,
            TokenType::Number,
            TokenType::RightParen,
            TokenType::Star,
            TokenType::Number,
            TokenType::Semicolon,
            TokenType::Eof,
        ]
    );
    assert_eq!(number_value(&tokens[6]), 2.5);
    assert!(!reporter.had_error());
}

#[test]
fn scanner_type_drives_one_scan() {
    let mut reporter = ErrorReporter::new();
    let mut scanner = Scanner::new("print 7");
    let tokens = scanner.scan_tokens(&mut reporter);
    assert_eq!(tokens.len(), 3);
    assert_eq!(tokens[0].token_type, TokenType::Print);
    assert_eq!(tokens[1].token_type, TokenType::Number);
    assert_eq!(tokens[2].token_type, TokenType::Eof);
    assert!(!reporter.had_error());
}

#[test]
fn reporter_reset_clears_the_flag() {
    let mut reporter = ErrorReporter::new();
    assert!(!reporter.had_error());
    let _ = scan_source("@", &mut reporter);
    assert!(reporter.had_error());
    reporter.reset();
    assert!(!reporter.had_error());
    let _ = scan_source("1", &mut reporter);
    assert!(!reporter.had_error());
}

#[test]
fn token_new_builds_the_record() {
    let t = Token::new(
        TokenType::Number,
        String::from("7"),
        Some(Literal::Number(String::from("7"))),
        3,
    );
    assert_eq!(t.token_type, TokenType::Number);
    assert_eq!(t.lexeme, "7");
    assert_eq!(t.literal, Some(Literal::Number(String::from("7"))));
    assert_eq!(t.line, 3);
}

#[test]
fn slash_then_comment_distinction() {
    let (tokens, _) = scan("1 / 2 // half");
    let kinds: Vec<TokenType> = tokens.iter().map(|t| t.token_type).collect();
    assert_eq!(
        kinds,
        vec![
            TokenType::Number,
            TokenType::Slash,
            TokenType::Number,
            TokenType::Eof,
        ]
    );
}
