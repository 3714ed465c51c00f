use lox::scanner::Scanner;
use lox::token::{LexError, LexErrorKind, Literal, NumberLit, Token, TokenKind};

fn scan_source(src: &str) -> (Vec<Token>, Vec<LexError>) {
    Scanner::new(String::from(src)).scan_tokens()
}

fn kinds(tokens: &[Token]) -> Vec<TokenKind> {
    tokens.iter().map(|t| t.kind).collect()
}

#[test]
fn empty_source_yields_only_eof() {
    let (tokens, errors) = scan_source("");
    assert_eq!(tokens.len(), 1);
    assert_eq!(tokens[0].kind, TokenKind::Eof);
    assert_eq!(tokens[0].lexeme, "");
    assert_eq!(tokens[0].literal, Literal::NoValue);
    assert_eq!(tokens[0].line, 1);
    assert!(errors.is_empty());
}

#[test]
fn every_scan_ends_with_exactly_one_eof() {
    for src in ["", "(", "a + b", "\"abc", "@#\nvar x = 1;", "1.5 // done"] {
        let (tokens, _) = scan_source(src);
        assert!(!tokens.is_empty());
        assert_eq!(tokens.last().unwrap().kind, TokenKind::Eof);
        for t in &tokens[..tokens.len() - 1] {
            assert_ne!(t.kind, TokenKind::Eof);
        }
    }
}

#[test]
fn whitespace_and_comments_scan_to_eof_alone() {
    let (tokens, errors) = scan_source(" \t\r\n// a comment\n   // another");
    assert_eq!(tokens.len(), 1);
    assert_eq!(tokens[0].kind, TokenKind::Eof);
    assert!(errors.is_empty());
}

#[test]
fn maximal_munch_prefers_two_char_operators() {
    let (tokens, errors) = scan_source("==");
    assert_eq!(kinds(&tokens), vec![TokenKind::EqualEqual, TokenKind::Eof]);
    assert_eq!(tokens[0].lexeme, "==");
    assert!(errors.is_empty());
}

#[test]
fn operator_pairs_and_singles() {
    let (tokens, errors) = scan_source("! != = == < <= > >= / *");
    assert_eq!(
        kinds(&tokens),
        vec![
            TokenKind::Bang,
            TokenKind::BangEqual,
            TokenKind::Equal,
            TokenKind::EqualEqual,
            TokenKind::Less,
            TokenKind::LessEqual,
            TokenKind::Greater,
            TokenKind::GreaterEqual,
            TokenKind::Slash,
            TokenKind::Star,
            TokenKind::Eof,
        ]
    );
    assert!(errors.is_empty());
}

#[test]
fn single_character_symbols() {
    let (tokens, errors) = scan_source("(){},.-+;");
    assert_eq!(
        kinds(&tokens),
        vec![
            TokenKind::LeftParen,
            TokenKind::RightParen,
            TokenKind::LeftBrace,
            TokenKind::RightBrace,
            TokenKind::Comma,
            TokenKind::Dot,
            TokenKind::Minus,
            TokenKind::Plus,
            TokenKind::Semicolon,
            TokenKind::Eof,
        ]
    );
    assert!(errors.is_empty());
}

#[test]
fn line_numbers_count_preceding_newlines() {
    let (tokens, errors) = scan_source("a\nb\n\nc");
    assert!(errors.is_empty());
    assert_eq!(tokens.len(), 4);
    assert_eq!(tokens[0].line, 1);
    assert_eq!(tokens[1].line, 2);
    assert_eq!(tokens[2].line, 4);
    assert_eq!(tokens[3].kind, TokenKind::Eof);
    assert_eq!(tokens[3].line, 4);
}

#[test]
fn line_numbers_never_decrease() {
    let (tokens, _) = scan_source("var x = 1;\n// note\nprint x;\n\"s\ntring\" @\nend");
    let mut prev = 0usize;
    for t in &tokens {
        assert!(t.line >= 1);
        assert!(t.line >= prev);
        prev = t.line;
    }
}

#[test]
fn string_literal_decodes_to_its_contents() {
    let (tokens, errors) = scan_source("\"hi\"");
    assert!(errors.is_empty());
    assert_eq!(tokens.len(), 2);
    assert_eq!(tokens[0].kind, TokenKind::StringLit);
    assert_eq!(tokens[0].lexeme, "\"hi\"");
    assert_eq!(tokens[0].literal, Literal::StringVal(String::from("hi")));
    assert_eq!(tokens[0].line, 1);
}

#[test]
fn multi_line_string_starts_on_its_first_line() {
    let (tokens, errors) = scan_source("\"a\nb\" x");
    assert!(errors.is_empty());
    assert_eq!(tokens[0].kind, TokenKind::StringLit);
    assert_eq!(tokens[0].line, 1);
    assert_eq!(tokens[0].literal, Literal::StringVal(String::from("a\nb")));
    assert_eq!(tokens[1].kind, TokenKind::Identifier);
    assert_eq!(tokens[1].line, 2);
}

#[test]
fn unterminated_string_records_error_and_reaches_eof() {
    let (tokens, errors) = scan_source("\"abc");
    assert_eq!(kinds(&tokens), vec![TokenKind::Eof]);
    assert_eq!(errors.len(), 1);
    assert_eq!(errors[0].kind, LexErrorKind::UnterminatedString);
    assert_eq!(errors[0].line, 1);
}

#[test]
fn unterminated_string_reports_its_starting_line() {
    let (tokens, errors) = scan_source("x\n\"ab\ncd");
    assert_eq!(kinds(&tokens), vec![TokenKind::Identifier, TokenKind::Eof]);
    assert_eq!(errors.len(), 1);
    assert_eq!(errors[0].line, 2);
    assert_eq!(tokens[1].line, 3);
}

#[test]
fn illegal_character_is_skipped_and_scanning_continues() {
    let (tokens, errors) = scan_source("@1");
    assert_eq!(errors.len(), 1);
    assert_eq!(errors[0].kind, LexErrorKind::UnexpectedChar('@'));
    assert_eq!(errors[0].line, 1);
    assert_eq!(kinds(&tokens), vec![TokenKind::Number, TokenKind::Eof]);
    assert_eq!(tokens[0].lexeme, "1");
    assert_eq!(
        tokens[0].literal,
        Literal::NumberVal(NumberLit { mantissa: 1, scale: 0 })
    );
}

#[test]
fn number_with_fraction_decodes_exactly() {
    let (tokens, errors) = scan_source("123.45");
    assert!(errors.is_empty());
    assert_eq!(tokens.len(), 2);
    assert_eq!(tokens[0].kind, TokenKind::Number);
    assert_eq!(tokens[0].lexeme, "123.45");
    assert_eq!(
        tokens[0].literal,
        Literal::NumberVal(NumberLit { mantissa: 12345, scale: 2 })
    );
}

#[test]
fn trailing_dot_is_not_part_of_the_number() {
    let (tokens, errors) = scan_source("123.");
    assert!(errors.is_empty());
    assert_eq!(
        kinds(&tokens),
        vec![TokenKind::Number, TokenKind::Dot, TokenKind::Eof]
    );
    assert_eq!(tokens[0].lexeme, "123");
    assert_eq!(
        tokens[0].literal,
        Literal::NumberVal(NumberLit { mantissa: 123, scale: 0 })
    );
    assert_eq!(tokens[1].lexeme, ".");
}

#[test]
fn oversized_number_saturates_its_mantissa() {
    let (tokens, errors) = scan_source("99999999999999999999");
    assert!(errors.is_empty());
    assert_eq!(tokens[0].kind, TokenKind::Number);
    assert_eq!(
        tokens[0].literal,
        Literal::NumberVal(NumberLit { mantissa: u64::MAX, scale: 0 })
    );
}

#[test]
fn keywords_are_not_identifiers() {
    let (tokens, errors) = scan_source("for");
    assert!(errors.is_empty());
    assert_eq!(kinds(&tokens), vec![TokenKind::For, TokenKind::Eof]);
    assert_eq!(tokens[0].lexeme, "for");
    assert_eq!(tokens[0].literal, Literal::NoValue);
}

#[test]
fn all_keywords_classify() {
    let cases = [
        ("and", TokenKind::And),
        ("class", TokenKind::Class),
        ("else", TokenKind::Else),
        ("false", TokenKind::False),
        ("fun", TokenKind::Fun),
        ("for", TokenKind::For),
        ("if", TokenKind::If),
        ("nil", TokenKind::Nil),
        ("or", TokenKind::Or),
        ("print", TokenKind::Print),
        ("return", TokenKind::Return),
        ("super", TokenKind::Super),
        ("this", TokenKind::This),
        ("true", TokenKind::True),
        ("var", TokenKind::Var),
        ("while", TokenKind::While),
    ];
    for (src, kind) in cases {
        let (tokens, errors) = scan_source(src);
        assert!(errors.is_empty());
        assert_eq!(tokens[0].kind, kind, "keyword {src}");
    }
}

#[test]
fn identifiers_extend_past_keyword_prefixes() {
    let (tokens, errors) = scan_source("fortune _x a1b orchid");
    assert!(errors.is_empty());
    assert_eq!(
        kinds(&tokens),
        vec![
            TokenKind::Identifier,
            TokenKind::Identifier,
            TokenKind::Identifier,
            TokenKind::Identifier,
            TokenKind::Eof,
        ]
    );
    assert_eq!(tokens[0].lexeme, "fortune");
    assert_eq!(tokens[1].lexeme, "_x");
}

#[test]
fn comment_runs_to_end_of_line_only() {
    let (tokens, errors) = scan_source("a // b c d\ne");
    assert!(errors.is_empty());
    assert_eq!(
        kinds(&tokens),
        vec![TokenKind::Identifier, TokenKind::Identifier, TokenKind::Eof]
    );
    assert_eq!(tokens[0].lexeme, "a");
    assert_eq!(tokens[1].lexeme, "e");
    assert_eq!(tokens[1].line, 2);
}

#[test]
fn errors_are_batched_in_order() {
    let (tokens, errors) = scan_source("@ x #\n$");
    assert_eq!(errors.len(), 3);
    assert_eq!(errors[0].kind, LexErrorKind::UnexpectedChar('@'));
    assert_eq!(errors[0].line, 1);
    assert_eq!(errors[1].kind, LexErrorKind::UnexpectedChar('#'));
    assert_eq!(errors[1].line, 1);
    assert_eq!(errors[2].kind, LexErrorKind::UnexpectedChar('$'));
    assert_eq!(errors[2].line, 2);
    assert_eq!(kinds(&tokens), vec![TokenKind::Identifier, TokenKind::Eof]);
}
