use lox::render::render_u64;
use lox::scanner::Scanner;
use lox::token::{Literal, NumberLit, Token, TokenKind};
use lox::{error, Lox};

#[test]
fn decimal_rendering_of_integers() {
    assert_eq!(render_u64(0), "0");
    assert_eq!(render_u64(7), "7");
    assert_eq!(render_u64(42), "42");
    assert_eq!(render_u64(1000), "1000");
    assert_eq!(render_u64(u64::MAX), "18446744073709551615");
}

#[test]
fn number_literals_render_with_their_scale() {
    assert_eq!(NumberLit { mantissa: 123, scale: 0 }.render(), "123");
    assert_eq!(NumberLit { mantissa: 12345, scale: 2 }.render(), "123.45");
    assert_eq!(NumberLit { mantissa: 5, scale: 3 }.render(), "0.005");
    assert_eq!(NumberLit { mantissa: 120, scale: 1 }.render(), "12.0");
}

#[test]
fn plain_diagnostic_renders_in_the_reporting_format() {
    let d = error(1, "Unexpected character.");
    assert_eq!(d.render(), "[line 1] Error: Unexpected character.");
    let d2 = error(12, "boom");
    assert_eq!(d2.render(), "[line 12] Error: boom");
}

#[test]
fn collected_diagnostics_render_with_their_lines() {
    let mut lox = Lox::new();
    lox.run(String::from("@\n\"open"));
    let ds = lox.diagnostics();
    assert_eq!(ds[0].render(), "[line 1] Error: Unexpected character.");
    assert_eq!(ds[1].render(), "[line 2] Error: Unterminated string.");
}

#[test]
fn tokens_render_kind_lexeme_and_literal() {
    let (tokens, _) = Scanner::new(String::from("var x = \"hi\" 12.5")).scan_tokens();
    assert_eq!(tokens[0].render(), "Var var nil");
    assert_eq!(tokens[1].render(), "Identifier x nil");
    assert_eq!(tokens[2].render(), "Equal = nil");
    assert_eq!(tokens[3].render(), "String \"hi\" hi");
    assert_eq!(tokens[4].render(), "Number 12.5 12.5");
    assert_eq!(tokens[5].render(), "Eof  nil");
}

#[test]
fn kind_names_cover_the_enumeration() {
    assert_eq!(TokenKind::LeftParen.name(), "LeftParen");
    assert_eq!(TokenKind::BangEqual.name(), "BangEqual");
    assert_eq!(TokenKind::StringLit.name(), "String");
    assert_eq!(TokenKind::While.name(), "While");
    assert_eq!(TokenKind::Eof.name(), "Eof");
}

#[test]
fn handwritten_token_renders_too() {
    let t = Token {
        kind: TokenKind::Number,
        lexeme: String::from("3.25"),
        literal: Literal::NumberVal(NumberLit { mantissa: 325, scale: 2 }),
        line: 9,
    };
    assert_eq!(t.render(), "Number 3.25 3.25");
}
