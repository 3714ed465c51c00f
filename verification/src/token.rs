use vstd::prelude::*;

verus! {

/// The closed set of lexical categories a token can belong to: single-character
/// symbols, one-or-two-character operators, literals, the reserved keywords of a
/// small dynamically-typed scripting grammar, and the end-of-input marker.
#[derive(Clone, Copy, Debug, PartialEq, Eq, Structural)]
pub enum TokenKind {
    LeftParen,
    RightParen,
    LeftBrace,
    RightBrace,
    Comma,
    Dot,
    Minus,
    Plus,
    Semicolon,
    Slash,
    Star,
    Bang,
    BangEqual,
    Equal,
    EqualEqual,
    Greater,
    GreaterEqual,
    Less,
    LessEqual,
    Identifier,
    StringLit,
    Number,
    And,
    Class,
    Else,
    False,
    Fun,
    For,
    If,
    Nil,
    Or,
    Print,
    Return,
    Super,
    This,
    True,
    Var,
    While,
    Eof,
}

/// A decoded decimal number literal, kept as exact integers: the digits of the
/// literal read as one integer (`mantissa`) and how many of them lie after the
/// decimal point (`scale`), so the value written in the source is
/// `mantissa / 10^scale`. A literal whose digits exceed `u64::MAX` saturates:
/// its mantissa is `u64::MAX`.
#[derive(Clone, Copy, Debug, PartialEq, Eq, Structural)]
pub struct NumberLit {
    pub mantissa: u64,
    pub scale: usize,
}

/// The optional decoded value of a token: present only for string literals
/// (the text between the quotes) and number literals.
#[derive(Clone, Debug, PartialEq)]
pub enum Literal {
    NoValue,
    StringVal(String),
    NumberVal(NumberLit),
}

/// One lexical unit: its category, the exact source substring that produced it,
/// its decoded value if it is a literal, and the 1-based line it begins on.
#[derive(Clone, Debug, PartialEq)]
pub struct Token {
    pub kind: TokenKind,
    pub lexeme: String,
    pub literal: Literal,
    pub line: usize,
}

/// Mathematical model of a `Literal`.
#[verifier::ext_equal]
pub ghost enum LiteralView {
    NoValue,
    StringVal(Seq<char>),
    NumberVal { mantissa: int, scale: int },
}

/// Mathematical model of a `Token`.
#[verifier::ext_equal]
pub ghost struct TokenView {
    pub kind: TokenKind,
    pub lexeme: Seq<char>,
    pub literal: LiteralView,
    pub line: int,
}

impl View for Literal {
    type V = LiteralView;

    open spec fn view(&self) -> LiteralView {
        match self {
            Literal::NoValue => LiteralView::NoValue,
            Literal::StringVal(s) => LiteralView::StringVal(s@),
            Literal::NumberVal(n) => LiteralView::NumberVal {
                mantissa: n.mantissa as int,
                scale: n.scale as int,
            },
        }
    }
}

impl View for Token {
    type V = TokenView;

    open spec fn view(&self) -> TokenView {
        TokenView {
            kind: self.kind,
            lexeme: self.lexeme@,
            literal: self.literal@,
            line: self.line as int,
        }
    }
}

/// The model of a sequence of tokens.
pub open spec fn token_views(ts: Seq<Token>) -> Seq<TokenView> {
    ts.map_values(|t: Token| t@)
}

/// The two kinds of lexical error the scanner can record.
#[derive(Clone, Copy, Debug, PartialEq, Eq, Structural)]
pub enum LexErrorKind {
    UnexpectedChar(char),
    UnterminatedString,
}

/// A structured lexical-error record: the 1-based line the problem was found
/// on and what the problem was.
#[derive(Clone, Copy, Debug, PartialEq, Eq, Structural)]
pub struct LexError {
    pub line: usize,
    pub kind: LexErrorKind,
}

} // verus!
