use lox::token::{Literal, Token, TokenKind};
use lox::{Lox, RuntimeError};

#[test]
fn new_session_has_no_errors() {
    let lox = Lox::new();
    assert!(!lox.had_error());
    assert!(!lox.had_runtime_error());
    assert!(lox.diagnostics().is_empty());
}

#[test]
fn run_returns_tokens_and_keeps_flags_clean_on_good_input() {
    let mut lox = Lox::new();
    let tokens = lox.run(String::from("var answer = 42;"));
    assert_eq!(tokens.len(), 6);
    assert_eq!(tokens[0].kind, TokenKind::Var);
    assert_eq!(tokens.last().unwrap().kind, TokenKind::Eof);
    assert!(!lox.had_error());
    assert!(!lox.had_runtime_error());
    assert!(lox.diagnostics().is_empty());
}

#[test]
fn run_collects_one_diagnostic_per_lexical_error() {
    let mut lox = Lox::new();
    lox.run(String::from("@\n\"open"));
    assert!(lox.had_error());
    assert!(!lox.had_runtime_error());
    let ds = lox.diagnostics();
    assert_eq!(ds.len(), 2);
    assert_eq!(ds[0].line, 1);
    assert_eq!(ds[0].message, "Unexpected character.");
    assert_eq!(ds[1].line, 2);
    assert_eq!(ds[1].message, "Unterminated string.");
}

#[test]
fn error_sets_flag_and_records() {
    let mut lox = Lox::new();
    lox.error(7, "something odd");
    assert!(lox.had_error());
    assert!(!lox.had_runtime_error());
    let ds = lox.diagnostics();
    assert_eq!(ds.len(), 1);
    assert_eq!(ds[0].line, 7);
    assert_eq!(ds[0].location, "");
    assert_eq!(ds[0].message, "something odd");
}

#[test]
fn runtime_error_sets_its_own_flag() {
    let mut lox = Lox::new();
    let token = Token {
        kind: TokenKind::Identifier,
        lexeme: String::from("x"),
        literal: Literal::NoValue,
        line: 3,
    };
    lox.runtime_error(RuntimeError { token, message: String::from("undefined variable") });
    assert!(lox.had_runtime_error());
    assert!(!lox.had_error());
    let ds = lox.diagnostics();
    assert_eq!(ds.len(), 1);
    assert_eq!(ds[0].line, 3);
    assert_eq!(ds[0].location, "x");
    assert_eq!(ds[0].message, "undefined variable");
}

#[test]
fn exit_status_distinguishes_error_kinds() {
    let mut lox = Lox::new();
    assert_eq!(lox.exit_status(), 0);
    let token = Token {
        kind: TokenKind::Plus,
        lexeme: String::from("+"),
        literal: Literal::NoValue,
        line: 1,
    };
    lox.runtime_error(RuntimeError { token, message: String::from("bad operands") });
    assert_eq!(lox.exit_status(), 70);
    lox.error(1, "unexpected token");
    assert_eq!(lox.exit_status(), 65);
}

#[test]
fn file_mode_statuses_for_illegal_and_clean_sources() {
    let mut bad = Lox::new();
    bad.run(String::from("var x = @;"));
    assert_eq!(bad.exit_status(), 65);
    let mut good = Lox::new();
    good.run(String::from("var x = 1;"));
    assert_eq!(good.exit_status(), 0);
}

#[test]
fn clear_error_resets_only_the_lexical_flag() {
    let mut lox = Lox::new();
    let token = Token {
        kind: TokenKind::Minus,
        lexeme: String::from("-"),
        literal: Literal::NoValue,
        line: 1,
    };
    lox.runtime_error(RuntimeError { token, message: String::from("bad operand") });
    lox.run(String::from("@"));
    assert!(lox.had_error());
    lox.clear_error();
    assert!(!lox.had_error());
    assert!(lox.had_runtime_error());
}

#[test]
fn next_prompt_iteration_starts_clean() {
    let mut lox = Lox::new();
    for (line, expect_error) in [("@", true), ("var x = 1;", false), ("\"oops", true)] {
        lox.run(String::from(line));
        assert_eq!(lox.had_error(), expect_error, "line {line}");
        lox.clear_error();
        assert!(!lox.had_error());
    }
}
