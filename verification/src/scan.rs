use vstd::prelude::*;

use crate::token::{LexError, LexErrorKind, LiteralView, TokenKind, TokenView};

verus! {

// ---------------------------------------------------------------------------
// Character classes
// ---------------------------------------------------------------------------
/// A decimal digit `0`..`9`.
pub open spec fn is_digit(c: char) -> bool {
    48 <= c as u32 && c as u32 <= 57
}

/// A letter or underscore, the characters an identifier may start with.
pub open spec fn is_alpha(c: char) -> bool {
    (97 <= c as u32 && c as u32 <= 122) || (65 <= c as u32 && c as u32 <= 90) || c == '_'
}

/// A character that may continue an identifier.
pub open spec fn is_alnum(c: char) -> bool {
    is_alpha(c) || is_digit(c)
}

/// Whitespace the scanner skips; the newline additionally advances the line counter.
pub open spec fn is_blank(c: char) -> bool {
    c == ' ' || c == '\r' || c == '\t' || c == '\n'
}

// ---------------------------------------------------------------------------
// Runs of characters
// ---------------------------------------------------------------------------
/// The index just past the run of digits starting at `i`.
pub open spec fn digits_end(s: Seq<char>, i: int) -> int
    decreases s.len() - i,
{
    if 0 <= i && i < s.len() && is_digit(s[i]) {
        digits_end(s, i + 1)
    } else {
        i
    }
}

/// The index just past the run of identifier characters starting at `i`.
pub open spec fn ident_end(s: Seq<char>, i: int) -> int
    decreases s.len() - i,
{
    if 0 <= i && i < s.len() && is_alnum(s[i]) {
        ident_end(s, i + 1)
    } else {
        i
    }
}

/// The index of the first newline at or after `i`, or the end of the input.
pub open spec fn line_end(s: Seq<char>, i: int) -> int
    decreases s.len() - i,
{
    if 0 <= i && i < s.len() && s[i] != '\n' {
        line_end(s, i + 1)
    } else {
        i
    }
}

/// The index of the first closing quote at or after `i`, or the end of the input.
pub open spec fn string_close(s: Seq<char>, i: int) -> int
    decreases s.len() - i,
{
    if 0 <= i && i < s.len() && s[i] != '"' {
        string_close(s, i + 1)
    } else {
        i
    }
}

pub proof fn lemma_digits_end(s: Seq<char>, i: int)
    requires
        0 <= i <= s.len(),
    ensures
        i <= digits_end(s, i) <= s.len(),
        forall|j: int| i <= j < digits_end(s, i) ==> is_digit(#[trigger] s[j]),
        digits_end(s, i) < s.len() ==> !is_digit(s[digits_end(s, i)]),
    decreases s.len() - i,
{
    if i < s.len() && is_digit(s[i]) {
        lemma_digits_end(s, i + 1);
    }
}

pub proof fn lemma_ident_end(s: Seq<char>, i: int)
    requires
        0 <= i <= s.len(),
    ensures
        i <= ident_end(s, i) <= s.len(),
        forall|j: int| i <= j < ident_end(s, i) ==> is_alnum(#[trigger] s[j]),
        ident_end(s, i) < s.len() ==> !is_alnum(s[ident_end(s, i)]),
    decreases s.len() - i,
{
    if i < s.len() && is_alnum(s[i]) {
        lemma_ident_end(s, i + 1);
    }
}

pub proof fn lemma_line_end(s: Seq<char>, i: int)
    requires
        0 <= i <= s.len(),
    ensures
        i <= line_end(s, i) <= s.len(),
        forall|j: int| i <= j < line_end(s, i) ==> #[trigger] s[j] != '\n',
        line_end(s, i) < s.len() ==> s[line_end(s, i)] == '\n',
    decreases s.len() - i,
{
    if i < s.len() && s[i] != '\n' {
        lemma_line_end(s, i + 1);
    }
}

pub proof fn lemma_string_close(s: Seq<char>, i: int)
    requires
        0 <= i <= s.len(),
    ensures
        i <= string_close(s, i) <= s.len(),
        forall|j: int| i <= j < string_close(s, i) ==> #[trigger] s[j] != '"',
        string_close(s, i) < s.len() ==> s[string_close(s, i)] == '"',
    decreases s.len() - i,
{
    if i < s.len() && s[i] != '"' {
        lemma_string_close(s, i + 1);
    }
}

// ---------------------------------------------------------------------------
// Line numbers
// ---------------------------------------------------------------------------
/// How many newline characters occur strictly before index `i`.
pub open spec fn nl_upto(s: Seq<char>, i: int) -> int
    decreases i,
{
    if i <= 0 || i > s.len() {
        0
    } else {
        nl_upto(s, i - 1) + (if s[i - 1] == '\n' {
            1int
        } else {
            0int
        })
    }
}

/// The 1-based line number of position `i`: one more than the newlines before it.
pub open spec fn line_at(s: Seq<char>, i: int) -> int {
    1 + nl_upto(s, i)
}

pub proof fn lemma_nl_upto_bounds(s: Seq<char>, i: int)
    requires
        0 <= i <= s.len(),
    ensures
        0 <= nl_upto(s, i) <= i,
    decreases i,
{
    if i > 0 {
        lemma_nl_upto_bounds(s, i - 1);
    }
}

pub proof fn lemma_nl_upto_mono(s: Seq<char>, a: int, b: int)
    requires
        0 <= a <= b <= s.len(),
    ensures
        nl_upto(s, a) <= nl_upto(s, b),
    decreases b - a,
{
    if a < b {
        lemma_nl_upto_mono(s, a, b - 1);
    }
}

/// A stretch of input without newlines does not change the line number.
pub proof fn lemma_nl_upto_same(s: Seq<char>, a: int, b: int)
    requires
        0 <= a <= b <= s.len(),
        forall|j: int| a <= j < b ==> #[trigger] s[j] != '\n',
    ensures
        nl_upto(s, b) == nl_upto(s, a),
    decreases b - a,
{
    if a < b {
        lemma_nl_upto_same(s, a, b - 1);
    }
}

// ---------------------------------------------------------------------------
// Number literals
// ---------------------------------------------------------------------------
/// The numeric value of a digit character.
pub open spec fn digit_val(c: char) -> int {
    c as u32 - 48
}

/// The value of a digit string read as one decimal integer.
pub open spec fn digits_val(ds: Seq<char>) -> int
    decreases ds.len(),
{
    if ds.len() == 0 {
        0
    } else {
        10 * digits_val(ds.drop_last()) + digit_val(ds.last())
    }
}

/// Saturation of a decoded value at the largest representable mantissa.
pub open spec fn sat_u64(v: int) -> int {
    if v > u64::MAX {
        u64::MAX as int
    } else {
        v
    }
}

pub proof fn lemma_digits_val_nonneg(ds: Seq<char>)
    requires
        forall|j: int| 0 <= j < ds.len() ==> is_digit(#[trigger] ds[j]),
    ensures
        digits_val(ds) >= 0,
    decreases ds.len(),
{
    if ds.len() > 0 {
        assert(forall|j: int|
            0 <= j < ds.drop_last().len() ==> is_digit(#[trigger] ds.drop_last()[j]));
        lemma_digits_val_nonneg(ds.drop_last());
    }
}

/// Whether a number continues past its integer digits with a fractional part:
/// a decimal point must be followed by at least one digit to count.
pub open spec fn number_has_frac(s: Seq<char>, i: int) -> bool {
    let ie = digits_end(s, i);
    ie + 1 < s.len() && s[ie] == '.' && is_digit(s[ie + 1])
}

/// The index just past the whole number lexeme starting at `i`.
pub open spec fn number_end(s: Seq<char>, i: int) -> int {
    if number_has_frac(s, i) {
        digits_end(s, digits_end(s, i) + 1)
    } else {
        digits_end(s, i)
    }
}

/// All digits of the number lexeme at `i`, with the decimal point removed.
pub open spec fn number_digits(s: Seq<char>, i: int) -> Seq<char> {
    let ie = digits_end(s, i);
    if number_has_frac(s, i) {
        s.subrange(i, ie) + s.subrange(ie + 1, number_end(s, i))
    } else {
        s.subrange(i, ie)
    }
}

/// How many digits of the number lexeme at `i` lie after the decimal point.
pub open spec fn number_scale(s: Seq<char>, i: int) -> int {
    if number_has_frac(s, i) {
        number_end(s, i) - (digits_end(s, i) + 1)
    } else {
        0
    }
}

/// The decoded value of the number lexeme at `i`.
pub open spec fn number_literal(s: Seq<char>, i: int) -> LiteralView {
    LiteralView::NumberVal {
        mantissa: sat_u64(digits_val(number_digits(s, i))),
        scale: number_scale(s, i),
    }
}

// ---------------------------------------------------------------------------
// Keywords
// ---------------------------------------------------------------------------
/// The reserved-keyword table: maps an identifier lexeme to its keyword kind,
/// or to `Identifier` when it is not reserved.
pub open spec fn keyword_kind(s: Seq<char>) -> TokenKind {
    if s == "and"@ {
        TokenKind::And
    } else if s == "class"@ {
        TokenKind::Class
    } else if s == "else"@ {
        TokenKind::Else
    } else if s == "false"@ {
        TokenKind::False
    } else if s == "fun"@ {
        TokenKind::Fun
    } else if s == "for"@ {
        TokenKind::For
    } else if s == "if"@ {
        TokenKind::If
    } else if s == "nil"@ {
        TokenKind::Nil
    } else if s == "or"@ {
        TokenKind::Or
    } else if s == "print"@ {
        TokenKind::Print
    } else if s == "return"@ {
        TokenKind::Return
    } else if s == "super"@ {
        TokenKind::Super
    } else if s == "this"@ {
        TokenKind::This
    } else if s == "true"@ {
        TokenKind::True
    } else if s == "var"@ {
        TokenKind::Var
    } else if s == "while"@ {
        TokenKind::While
    } else {
        TokenKind::Identifier
    }
}

// ---------------------------------------------------------------------------
// One scanning step
// ---------------------------------------------------------------------------
/// What the scanner does at one position: skip ahead (whitespace, comments),
/// emit a token ending at `end`, record an error and resume at `next`, or
/// record an unterminated string and give up on the rest of the input.
pub ghost enum Step {
    Skip { next: int },
    Emit { kind: TokenKind, end: int, literal: LiteralView },
    Reject { err: LexErrorKind, next: int },
    Halt { err: LexErrorKind },
}

/// The single-step decision of the scanner at position `i`, by maximal munch:
/// the longest valid lexeme at `i` wins (`==` before `=`, all digits of a
/// number, the whole identifier run).
pub open spec fn scan_step(s: Seq<char>, i: int) -> Step
    recommends
        0 <= i < s.len(),
{
    let c = s[i];
    if is_blank(c) {
        Step::Skip { next: i + 1 }
    } else if c == '(' {
        Step::Emit { kind: TokenKind::LeftParen, end: i + 1, literal: LiteralView::NoValue }
    } else if c == ')' {
        Step::Emit { kind: TokenKind::RightParen, end: i + 1, literal: LiteralView::NoValue }
    } else if c == '{' {
        Step::Emit { kind: TokenKind::LeftBrace, end: i + 1, literal: LiteralView::NoValue }
    } else if c == '}' {
        Step::Emit { kind: TokenKind::RightBrace, end: i + 1, literal: LiteralView::NoValue }
    } else if c == ',' {
        Step::Emit { kind: TokenKind::Comma, end: i + 1, literal: LiteralView::NoValue }
    } else if c == '.' {
        Step::Emit { kind: TokenKind::Dot, end: i + 1, literal: LiteralView::NoValue }
    } else if c == '-' {
        Step::Emit { kind: TokenKind::Minus, end: i + 1, literal: LiteralView::NoValue }
    } else if c == '+' {
        Step::Emit { kind: TokenKind::Plus, end: i + 1, literal: LiteralView::NoValue }
    } else if c == ';' {
        Step::Emit { kind: TokenKind::Semicolon, end: i + 1, literal: LiteralView::NoValue }
    } else if c == '*' {
        Step::Emit { kind: TokenKind::Star, end: i + 1, literal: LiteralView::NoValue }
    } else if c == '!' {
        if i + 1 < s.len() && s[i + 1] == '=' {
            Step::Emit { kind: TokenKind::BangEqual, end: i + 2, literal: LiteralView::NoValue }
        } else {
            Step::Emit { kind: TokenKind::Bang, end: i + 1, literal: LiteralView::NoValue }
        }
    } else if c == '=' {
        if i + 1 < s.len() && s[i + 1] == '=' {
            Step::Emit { kind: TokenKind::EqualEqual, end: i + 2, literal: LiteralView::NoValue }
        } else {
            Step::Emit { kind: TokenKind::Equal, end: i + 1, literal: LiteralView::NoValue }
        }
    } else if c == '<' {
        if i + 1 < s.len() && s[i + 1] == '=' {
            Step::Emit { kind: TokenKind::LessEqual, end: i + 2, literal: LiteralView::NoValue }
        } else {
            Step::Emit { kind: TokenKind::Less, end: i + 1, literal: LiteralView::NoValue }
        }
    } else if c == '>' {
        if i + 1 < s.len() && s[i + 1] == '=' {
            Step::Emit { kind: TokenKind::GreaterEqual, end: i + 2, literal: LiteralView::NoValue }
        } else {
            Step::Emit { kind: TokenKind::Greater, end: i + 1, literal: LiteralView::NoValue }
        }
    } else if c == '/' {
        if i + 1 < s.len() && s[i + 1] == '/' {
            Step::Skip { next: line_end(s, i + 2) }
        } else {
            Step::Emit { kind: TokenKind::Slash, end: i + 1, literal: LiteralView::NoValue }
        }
    } else if c == '"' {
        let close = string_close(s, i + 1);
        if close < s.len() {
            Step::Emit {
                kind: TokenKind::StringLit,
                end: close + 1,
                literal: LiteralView::StringVal(s.subrange(i + 1, close)),
            }
        } else {
            Step::Halt { err: LexErrorKind::UnterminatedString }
        }
    } else if is_digit(c) {
        Step::Emit { kind: TokenKind::Number, end: number_end(s, i), literal: number_literal(s, i) }
    } else if is_alpha(c) {
        Step::Emit {
            kind: keyword_kind(s.subrange(i, ident_end(s, i))),
            end: ident_end(s, i),
            literal: LiteralView::NoValue,
        }
    } else {
        Step::Reject { err: LexErrorKind::UnexpectedChar(c), next: i + 1 }
    }
}

/// Whatever step the scanner takes at a position, it moves strictly forward
/// and stays within the input.
pub proof fn lemma_step_bounds(s: Seq<char>, i: int)
    requires
        0 <= i < s.len(),
    ensures
        match scan_step(s, i) {
            Step::Skip { next } => i < next <= s.len(),
            Step::Emit { end, .. } => i < end <= s.len(),
            Step::Reject { next, .. } => i < next <= s.len(),
            Step::Halt { .. } => true,
        },
{
    let c = s[i];
    if c == '/' && i + 1 < s.len() && s[i + 1] == '/' {
        lemma_line_end(s, i + 2);
    }
    if c == '"' {
        lemma_string_close(s, i + 1);
    }
    if is_digit(c) {
        lemma_digits_end(s, i);
        assert(digits_end(s, i) == digits_end(s, i + 1));
        if number_has_frac(s, i) {
            lemma_digits_end(s, digits_end(s, i) + 1);
        }
    }
    if is_alpha(c) && !is_digit(c) && !is_blank(c) {
        lemma_ident_end(s, i);
        assert(ident_end(s, i) == ident_end(s, i + 1));
    }
}

// ---------------------------------------------------------------------------
// The whole scan
// ---------------------------------------------------------------------------
/// The result of scanning a suffix of the input: the tokens in order, the
/// position each token's lexeme begins at (one entry per token), and the
/// lexical errors in the order they are found.
#[verifier::ext_equal]
pub ghost struct ScanOut {
    pub tokens: Seq<TokenView>,
    pub starts: Seq<int>,
    pub errors: Seq<LexError>,
}

/// The end-of-input token: no lexeme, no value, on the last line of the input.
pub open spec fn eof_token(s: Seq<char>) -> TokenView {
    TokenView {
        kind: TokenKind::Eof,
        lexeme: Seq::empty(),
        literal: LiteralView::NoValue,
        line: line_at(s, s.len() as int),
    }
}

/// The error record for step `i`, at the line that position lies on.
pub open spec fn step_error(s: Seq<char>, i: int, k: LexErrorKind) -> LexError {
    LexError { line: line_at(s, i) as usize, kind: k }
}

/// The full token and error output of a single scan of `s` from position `i`
/// to the end of the input. Every scan ends in the end-of-input token.
pub open spec fn scan_from(s: Seq<char>, i: int) -> ScanOut
    decreases s.len() - i,
    via scan_from_decreases
{
    if !(0 <= i < s.len()) {
        ScanOut {
            tokens: seq![eof_token(s)],
            starts: seq![s.len() as int],
            errors: Seq::empty(),
        }
    } else {
        match scan_step(s, i) {
            Step::Skip { next } => scan_from(s, next),
            Step::Emit { kind, end, literal } => {
                let rest = scan_from(s, end);
                ScanOut {
                    tokens: seq![
                        TokenView { kind, lexeme: s.subrange(i, end), literal, line: line_at(s, i) },
                    ] + rest.tokens,
                    starts: seq![i] + rest.starts,
                    errors: rest.errors,
                }
            },
            Step::Reject { err, next } => {
                let rest = scan_from(s, next);
                ScanOut {
                    tokens: rest.tokens,
                    starts: rest.starts,
                    errors: seq![step_error(s, i, err)] + rest.errors,
                }
            },
            Step::Halt { err } => ScanOut {
                tokens: seq![eof_token(s)],
                starts: seq![s.len() as int],
                errors: seq![step_error(s, i, err)],
            },
        }
    }
}

#[via_fn]
proof fn scan_from_decreases(s: Seq<char>, i: int) {
    if 0 <= i < s.len() {
        lemma_step_bounds(s, i);
    }
}

/// The whole scan of a source string: tokens and errors from its start.
pub open spec fn scan(s: Seq<char>) -> ScanOut {
    scan_from(s, 0)
}

// ---------------------------------------------------------------------------
// Shape of every scan
// ---------------------------------------------------------------------------
/// What holds of the output of every scan that starts at position `i`:
/// the token list is terminated by exactly one end-of-input token; each token
/// records where its lexeme starts, the starts move forward through the input,
/// each token's lexeme is the exact source substring at its start, and each
/// token's line is one more than the newlines before its start.
pub open spec fn scan_wf(s: Seq<char>, i: int, o: ScanOut) -> bool {
    &&& o.tokens.len() >= 1
    &&& o.starts.len() == o.tokens.len()
    &&& o.tokens.last() == eof_token(s)
    &&& o.starts.last() == s.len() as int
    &&& (forall|j: int| 0 <= j < o.tokens.len() - 1 ==> (#[trigger] o.tokens[j]).kind != TokenKind::Eof)
    &&& (forall|j: int| 0 <= j < o.starts.len() ==> i <= #[trigger] o.starts[j] <= s.len())
    &&& (forall|j: int, k: int|
        0 <= j <= k < o.starts.len() ==> #[trigger] o.starts[j] <= #[trigger] o.starts[k])
    &&& (forall|j: int|
        0 <= j < o.tokens.len() ==> (#[trigger] o.tokens[j]).line == line_at(s, o.starts[j]))
    &&& (forall|j: int|
        0 <= j < o.tokens.len() ==> o.starts[j] + (#[trigger] o.tokens[j]).lexeme.len() <= s.len()
            && o.tokens[j].lexeme == s.subrange(o.starts[j], o.starts[j] + o.tokens[j].lexeme.len()))
}

/// Every scan output is wellformed in the sense of `scan_wf`.
pub proof fn lemma_scan_wf(s: Seq<char>, i: int)
    requires
        0 <= i <= s.len(),
    ensures
        scan_wf(s, i, scan_from(s, i)),
    decreases s.len() - i,
{
    let o = scan_from(s, i);
    if !(0 <= i < s.len()) {
        assert(o.tokens[0].lexeme =~= s.subrange(s.len() as int, s.len() as int));
    } else {
        lemma_step_bounds(s, i);
        match scan_step(s, i) {
            Step::Skip { next } => {
                lemma_scan_wf(s, next);
            },
            Step::Emit { kind, end, literal } => {
                lemma_scan_wf(s, end);
                let rest = scan_from(s, end);
                let t = TokenView { kind, lexeme: s.subrange(i, end), literal, line: line_at(s, i) };
                assert(o.tokens.last() == rest.tokens.last());
                assert(o.starts.last() == rest.starts.last());
                assert(t.kind != TokenKind::Eof);
                assert(t.lexeme.len() == end - i);
                assert(t.lexeme == s.subrange(i, i + t.lexeme.len()));
                assert(forall|j: int| 1 <= j < o.tokens.len() ==> o.tokens[j] == rest.tokens[j - 1]);
                assert(forall|j: int| 1 <= j < o.starts.len() ==> o.starts[j] == rest.starts[j - 1]);
            },
            Step::Reject { err, next } => {
                lemma_scan_wf(s, next);
            },
            Step::Halt { err } => {
                assert(o.tokens[0].lexeme =~= s.subrange(s.len() as int, s.len() as int));
            },
        }
    }
}

// ---------------------------------------------------------------------------
// Laws of the scanner
// ---------------------------------------------------------------------------
/// The token sequence of any scan ends with exactly one end-of-input token:
/// it is nonempty, its last token is the end-of-input marker with no lexeme,
/// and no earlier token is.
pub proof fn lemma_scan_ends_with_eof(s: Seq<char>)
    ensures
        scan(s).tokens.len() >= 1,
        scan(s).tokens.last().kind == TokenKind::Eof,
        scan(s).tokens.last().lexeme.len() == 0,
        forall|j: int|
            0 <= j < scan(s).tokens.len() - 1
                ==> (#[trigger] scan(s).tokens[j]).kind != TokenKind::Eof,
{
    lemma_scan_wf(s, 0);
}

/// Line numbers across any scan are monotonically non-decreasing, and each
/// token's line equals the count of newline characters before the start of its
/// lexeme, plus one.
pub proof fn lemma_scan_lines(s: Seq<char>)
    ensures
        forall|j: int|
            0 <= j < scan(s).tokens.len()
                ==> (#[trigger] scan(s).tokens[j]).line == 1 + nl_upto(s, scan(s).starts[j]),
        forall|j: int, k: int|
            0 <= j <= k < scan(s).tokens.len()
                ==> (#[trigger] scan(s).tokens[j]).line <= (#[trigger] scan(s).tokens[k]).line,
        forall|j: int| 0 <= j < scan(s).tokens.len() ==> (#[trigger] scan(s).tokens[j]).line >= 1,
{
    lemma_scan_wf(s, 0);
    let o = scan(s);
    assert forall|j: int, k: int| 0 <= j <= k < o.tokens.len() implies (#[trigger] o.tokens[j]).line
        <= (#[trigger] o.tokens[k]).line by {
        lemma_nl_upto_mono(s, o.starts[j], o.starts[k]);
    }
    assert forall|j: int| 0 <= j < o.tokens.len() implies (#[trigger] o.tokens[j]).line >= 1 by {
        lemma_nl_upto_bounds(s, o.starts[j]);
    }
}

/// Input from position `i` on that consists solely of whitespace and comments:
/// every step of the scanner from `i` to the end of the input only skips.
pub open spec fn blank_only_from(s: Seq<char>, i: int) -> bool
    decreases s.len() - i,
    via blank_only_from_decreases
{
    if !(0 <= i < s.len()) {
        true
    } else {
        match scan_step(s, i) {
            Step::Skip { next } => blank_only_from(s, next),
            _ => false,
        }
    }
}

#[via_fn]
proof fn blank_only_from_decreases(s: Seq<char>, i: int) {
    if 0 <= i < s.len() {
        lemma_step_bounds(s, i);
    }
}

/// Input that holds nothing but whitespace characters from `i` on consists
/// solely of whitespace in the sense of `blank_only_from`.
pub proof fn lemma_all_blank_is_blank_only(s: Seq<char>, i: int)
    requires
        0 <= i <= s.len(),
        forall|j: int| i <= j < s.len() ==> is_blank(#[trigger] s[j]),
    ensures
        blank_only_from(s, i),
    decreases s.len() - i,
{
    if i < s.len() {
        lemma_all_blank_is_blank_only(s, i + 1);
    }
}

/// A source consisting solely of whitespace and comments scans to exactly one
/// token, the end-of-input marker, and no errors.
pub proof fn lemma_blank_scan(s: Seq<char>, i: int)
    requires
        0 <= i <= s.len(),
        blank_only_from(s, i),
    ensures
        scan_from(s, i).tokens =~= seq![eof_token(s)],
        scan_from(s, i).errors =~= Seq::<LexError>::empty(),
    decreases s.len() - i,
{
    if 0 <= i < s.len() {
        lemma_step_bounds(s, i);
        match scan_step(s, i) {
            Step::Skip { next } => {
                lemma_blank_scan(s, next);
            },
            _ => {
                assert(false);
            },
        }
    }
}

} // verus!
