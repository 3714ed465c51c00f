use vstd::arithmetic::div_mod::lemma_div_denominator;
use vstd::prelude::*;
use vstd::string::StrSliceExecFns;
use vstd::string::StringExecFns;

use crate::session::{Diagnostic, DiagnosticView};
use crate::token::{Literal, LiteralView, NumberLit, Token, TokenKind};

verus! {

// ---------------------------------------------------------------------------
// Decimal rendering of integers
// ---------------------------------------------------------------------------
/// The character of one decimal digit.
pub open spec fn dec_digit(n: int) -> char
    recommends
        0 <= n < 10,
{
    ((48 + n) as u8) as char
}

/// The decimal digit string of a non-negative integer, without leading zeros
/// (a single zero for zero itself).
pub open spec fn dec_str(n: int) -> Seq<char>
    recommends
        0 <= n,
    decreases n,
{
    if n < 10 {
        seq![dec_digit(n)]
    } else {
        dec_str(n / 10).push(dec_digit(n % 10))
    }
}

fn digit_char(d: u64) -> (c: char)
    requires
        d < 10,
    ensures
        c == dec_digit(d as int),
{
    (48 + d as u8) as char
}

/// The decimal rendering of an unsigned integer.
pub fn render_u64(n: u64) -> (s: String)
    ensures
        s@ == dec_str(n as int),
    decreases n,
{
    if n < 10 {
        let mut s = String::new();
        s.push(digit_char(n));
        proof {
            assert(s@ =~= seq![dec_digit(n as int)]);
        }
        s
    } else {
        let mut s = render_u64(n / 10);
        s.push(digit_char(n % 10));
        s
    }
}

// ---------------------------------------------------------------------------
// Rendering of number literals
// ---------------------------------------------------------------------------
/// Ten to the power `k`.
pub open spec fn pow10(k: int) -> int
    decreases k,
{
    if k <= 0 {
        1
    } else {
        10 * pow10(k - 1)
    }
}

proof fn lemma_pow10_pos(k: int)
    ensures
        pow10(k) >= 1,
    decreases k,
{
    if k > 0 {
        lemma_pow10_pos(k - 1);
    }
}

/// The lowest `k` decimal digits of `x`, zero-padded to exactly `k` characters.
pub open spec fn frac_digits(x: int, k: int) -> Seq<char>
    recommends
        0 <= x,
    decreases k,
{
    if k <= 0 {
        Seq::empty()
    } else {
        frac_digits(x / 10, k - 1).push(dec_digit(x % 10))
    }
}

/// The decimal rendering of a number literal with `k` digits after the decimal
/// point: the integer part, the point, and the fractional digits zero-padded
/// to width `k`.
pub open spec fn number_str(m: int, k: int) -> Seq<char>
    recommends
        0 <= m,
        0 <= k,
{
    if k == 0 {
        dec_str(m)
    } else {
        dec_str(m / pow10(k)).push('.') + frac_digits(m, k)
    }
}

fn div_pow10(m: u64, k: usize) -> (r: u64)
    ensures
        r as int == m as int / pow10(k as int),
    decreases k,
{
    if k == 0 {
        m
    } else {
        let r = div_pow10(m / 10, k - 1);
        proof {
            lemma_pow10_pos(k - 1);
            lemma_div_denominator(m as int, 10, pow10(k - 1));
        }
        r
    }
}

fn frac_str(x: u64, k: usize) -> (s: String)
    ensures
        s@ == frac_digits(x as int, k as int),
    decreases k,
{
    if k == 0 {
        let s = String::new();
        proof {
            assert(s@ =~= frac_digits(x as int, 0));
        }
        s
    } else {
        let mut s = frac_str(x / 10, k - 1);
        s.push(digit_char(x % 10));
        s
    }
}

impl NumberLit {
    /// The decimal text of this number literal: `mantissa` with a decimal
    /// point placed `scale` digits from its right end, zero-padded as needed.
    pub fn render(&self) -> (s: String)
        ensures
            s@ == number_str(self.mantissa as int, self.scale as int),
    {
        if self.scale == 0 {
            render_u64(self.mantissa)
        } else {
            let ip = div_pow10(self.mantissa, self.scale);
            let mut s = render_u64(ip);
            s.push('.');
            let f = frac_str(self.mantissa, self.scale);
            s.append(f.as_str());
            s
        }
    }
}

// ---------------------------------------------------------------------------
// Rendering of diagnostics
// ---------------------------------------------------------------------------
/// The diagnostic line format: `[line N] Error{location}: {message}`.
pub open spec fn render_diag(d: DiagnosticView) -> Seq<char> {
    "[line "@ + dec_str(d.line) + "] Error"@ + d.location + ": "@ + d.message
}

impl Diagnostic {
    /// Formats this record as one diagnostic line.
    pub fn render(&self) -> (s: String)
        ensures
            s@ == render_diag(self@),
    {
        let mut s = String::from_str("[line ");
        let num = render_u64(self.line as u64);
        s.append(num.as_str());
        s.append("] Error");
        s.append(self.location.as_str());
        s.append(": ");
        s.append(self.message.as_str());
        s
    }
}

// ---------------------------------------------------------------------------
// Rendering of tokens
// ---------------------------------------------------------------------------
/// The display name of each token kind.
pub open spec fn kind_name(k: TokenKind) -> Seq<char> {
    match k {
        TokenKind::LeftParen => "LeftParen"@,
        TokenKind::RightParen => "RightParen"@,
        TokenKind::LeftBrace => "LeftBrace"@,
        TokenKind::RightBrace => "RightBrace"@,
        TokenKind::Comma => "Comma"@,
        TokenKind::Dot => "Dot"@,
        TokenKind::Minus => "Minus"@,
        TokenKind::Plus => "Plus"@,
        TokenKind::Semicolon => "Semicolon"@,
        TokenKind::Slash => "Slash"@,
        TokenKind::Star => "Star"@,
        TokenKind::Bang => "Bang"@,
        TokenKind::BangEqual => "BangEqual"@,
        TokenKind::Equal => "Equal"@,
        TokenKind::EqualEqual => "EqualEqual"@,
        TokenKind::Greater => "Greater"@,
        TokenKind::GreaterEqual => "GreaterEqual"@,
        TokenKind::Less => "Less"@,
        TokenKind::LessEqual => "LessEqual"@,
        TokenKind::Identifier => "Identifier"@,
        TokenKind::StringLit => "String"@,
        TokenKind::Number => "Number"@,
        TokenKind::And => "And"@,
        TokenKind::Class => "Class"@,
        TokenKind::Else => "Else"@,
        TokenKind::False => "False"@,
        TokenKind::Fun => "Fun"@,
        TokenKind::For => "For"@,
        TokenKind::If => "If"@,
        TokenKind::Nil => "Nil"@,
        TokenKind::Or => "Or"@,
        TokenKind::Print => "Print"@,
        TokenKind::Return => "Return"@,
        TokenKind::Super => "Super"@,
        TokenKind::This => "This"@,
        TokenKind::True => "True"@,
        TokenKind::Var => "Var"@,
        TokenKind::While => "While"@,
        TokenKind::Eof => "Eof"@,
    }
}

impl TokenKind {
    /// The display name of this kind.
    pub fn name(&self) -> (s: String)
        ensures
            s@ == kind_name(*self),
    {
        match self {
            TokenKind::LeftParen => String::from_str("LeftParen"),
            TokenKind::RightParen => String::from_str("RightParen"),
            TokenKind::LeftBrace => String::from_str("LeftBrace"),
            TokenKind::RightBrace => String::from_str("RightBrace"),
            TokenKind::Comma => String::from_str("Comma"),
            TokenKind::Dot => String::from_str("Dot"),
            TokenKind::Minus => String::from_str("Minus"),
            TokenKind::Plus => String::from_str("Plus"),
            TokenKind::Semicolon => String::from_str("Semicolon"),
            TokenKind::Slash => String::from_str("Slash"),
            TokenKind::Star => String::from_str("Star"),
            TokenKind::Bang => String::from_str("Bang"),
            TokenKind::BangEqual => String::from_str("BangEqual"),
            TokenKind::Equal => String::from_str("Equal"),
            TokenKind::EqualEqual => String::from_str("EqualEqual"),
            TokenKind::Greater => String::from_str("Greater"),
            TokenKind::GreaterEqual => String::from_str("GreaterEqual"),
            TokenKind::Less => String::from_str("Less"),
            TokenKind::LessEqual => String::from_str("LessEqual"),
            TokenKind::Identifier => String::from_str("Identifier"),
            TokenKind::StringLit => String::from_str("String"),
            TokenKind::Number => String::from_str("Number"),
            TokenKind::And => String::from_str("And"),
            TokenKind::Class => String::from_str("Class"),
            TokenKind::Else => String::from_str("Else"),
            TokenKind::False => String::from_str("False"),
            TokenKind::Fun => String::from_str("Fun"),
            TokenKind::For => String::from_str("For"),
            TokenKind::If => String::from_str("If"),
            TokenKind::Nil => String::from_str("Nil"),
            TokenKind::Or => String::from_str("Or"),
            TokenKind::Print => String::from_str("Print"),
            TokenKind::Return => String::from_str("Return"),
            TokenKind::Super => String::from_str("Super"),
            TokenKind::This => String::from_str("This"),
            TokenKind::True => String::from_str("True"),
            TokenKind::Var => String::from_str("Var"),
            TokenKind::While => String::from_str("While"),
            TokenKind::Eof => String::from_str("Eof"),
        }
    }
}

/// The text a literal payload is echoed as: `nil` when absent, the decoded
/// text of a string, the decimal text of a number.
pub open spec fn literal_str(l: LiteralView) -> Seq<char> {
    match l {
        LiteralView::NoValue => "nil"@,
        LiteralView::StringVal(s) => s,
        LiteralView::NumberVal { mantissa, scale } => number_str(mantissa, scale),
    }
}

impl Token {
    /// One line of token rendering: `{kind} {lexeme} {literal}`.
    pub fn render(&self) -> (s: String)
        ensures
            s@ == kind_name(self.kind) + " "@ + self.lexeme@ + " "@ + literal_str(self.literal@),
    {
        let mut s = self.kind.name();
        s.append(" ");
        s.append(self.lexeme.as_str());
        s.append(" ");
        let lit_s = match &self.literal {
            Literal::NoValue => String::from_str("nil"),
            Literal::StringVal(v) => v.clone(),
            Literal::NumberVal(n) => n.render(),
        };
        s.append(lit_s.as_str());
        s
    }
}

} // verus!
