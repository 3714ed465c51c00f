use vstd::prelude::*;
use vstd::string::StrSliceExecFns;
use vstd::string::StringExecFns;

use crate::scan::{
    digit_val, digits_end, digits_val, eof_token, ident_end, is_alnum, is_alpha, is_blank,
    is_digit, keyword_kind, lemma_digits_end, lemma_digits_val_nonneg, lemma_ident_end,
    lemma_line_end, lemma_nl_upto_bounds, lemma_nl_upto_mono, lemma_nl_upto_same,
    lemma_step_bounds,
    lemma_string_close, line_at, line_end, nl_upto, number_digits, number_end, number_has_frac,
    number_literal, number_scale, sat_u64, scan, scan_from, scan_step, step_error, string_close,
    ScanOut, Step,
};
use crate::token::{
    token_views, LexError, LexErrorKind, Literal, LiteralView, NumberLit, Token, TokenKind,
    TokenView,
};

verus! {

/// Relies on String::push: appends the given character to the end of the string.
pub assume_specification[ String::push ](s: &mut String, c: char)
    ensures
        final(s)@ == old(s)@.push(c),
;

// ---------------------------------------------------------------------------
// Executable character classes
// ---------------------------------------------------------------------------
fn is_digit_char(c: char) -> (b: bool)
    ensures
        b == is_digit(c),
{
    let u: u32 = c as u32;
    48 <= u && u <= 57
}

fn is_alpha_char(c: char) -> (b: bool)
    ensures
        b == is_alpha(c),
{
    let u: u32 = c as u32;
    (97 <= u && u <= 122) || (65 <= u && u <= 90) || c == '_'
}

// ---------------------------------------------------------------------------
// Small executable helpers over the source characters
// ---------------------------------------------------------------------------
/// The characters of a string slice, in order, as a vector.
fn chars_of(s: &str) -> (v: Vec<char>)
    ensures
        v@ == s@,
{
    let n: usize = s.unicode_len();
    let mut v: Vec<char> = Vec::new();
    let mut j: usize = 0;
    while j < n
        invariant
            j <= n,
            n as nat == s@.len(),
            v@ == s@.subrange(0, j as int),
        decreases n - j,
    {
        let c = s.get_char(j);
        v.push(c);
        proof {
            assert(v@ =~= s@.subrange(0, j as int + 1));
        }
        j += 1;
    }
    proof {
        assert(v@ =~= s@);
    }
    v
}

/// The substring of the source from `a` (inclusive) to `b` (exclusive), as a string.
fn string_of_range(v: &Vec<char>, a: usize, b: usize) -> (s: String)
    requires
        a <= b <= v@.len(),
    ensures
        s@ == v@.subrange(a as int, b as int),
{
    let mut s = String::new();
    let mut j: usize = a;
    proof {
        assert(s@ =~= v@.subrange(a as int, a as int));
    }
    while j < b
        invariant
            a <= j <= b <= v@.len(),
            s@ == v@.subrange(a as int, j as int),
        decreases b - j,
    {
        s.push(v[j]);
        proof {
            assert(s@ =~= v@.subrange(a as int, j as int + 1));
        }
        j += 1;
    }
    s
}

fn digits_end_x(v: &Vec<char>, i: usize) -> (r: usize)
    requires
        i <= v@.len(),
    ensures
        i <= r <= v@.len(),
        r as int == digits_end(v@, i as int),
{
    let mut j: usize = i;
    loop
        invariant
            i <= j <= v@.len(),
            digits_end(v@, i as int) == digits_end(v@, j as int),
        ensures
            i <= j <= v@.len(),
            j as int == digits_end(v@, i as int),
        decreases v@.len() - j,
    {
        if j < v.len() && is_digit_char(v[j]) {
            j += 1;
        } else {
            break ;
        }
    }
    j
}

fn ident_end_x(v: &Vec<char>, i: usize) -> (r: usize)
    requires
        i <= v@.len(),
    ensures
        i <= r <= v@.len(),
        r as int == ident_end(v@, i as int),
{
    let mut j: usize = i;
    loop
        invariant
            i <= j <= v@.len(),
            ident_end(v@, i as int) == ident_end(v@, j as int),
        ensures
            i <= j <= v@.len(),
            j as int == ident_end(v@, i as int),
        decreases v@.len() - j,
    {
        if j < v.len() && (is_alpha_char(v[j]) || is_digit_char(v[j])) {
            j += 1;
        } else {
            break ;
        }
    }
    j
}

fn line_end_x(v: &Vec<char>, i: usize) -> (r: usize)
    requires
        i <= v@.len(),
    ensures
        i <= r <= v@.len(),
        r as int == line_end(v@, i as int),
{
    let mut j: usize = i;
    loop
        invariant
            i <= j <= v@.len(),
            line_end(v@, i as int) == line_end(v@, j as int),
        ensures
            i <= j <= v@.len(),
            j as int == line_end(v@, i as int),
        decreases v@.len() - j,
    {
        if j < v.len() && v[j] != '\n' {
            j += 1;
        } else {
            break ;
        }
    }
    j
}

/// Finds the closing quote of a string literal whose body starts at `i`, and
/// counts the newlines inside the body on the way.
fn string_body_end(v: &Vec<char>, i: usize) -> (r: (usize, usize))
    requires
        i <= v@.len(),
    ensures
        i <= r.0 <= v@.len(),
        r.0 as int == string_close(v@, i as int),
        r.1 as int == nl_upto(v@, r.0 as int) - nl_upto(v@, i as int),
{
    let mut j: usize = i;
    let mut nls: usize = 0;
    loop
        invariant
            i <= j <= v@.len(),
            string_close(v@, i as int) == string_close(v@, j as int),
            nls <= j - i,
            nls as int == nl_upto(v@, j as int) - nl_upto(v@, i as int),
        ensures
            i <= j <= v@.len(),
            j as int == string_close(v@, i as int),
            nls as int == nl_upto(v@, j as int) - nl_upto(v@, i as int),
        decreases v@.len() - j,
    {
        if j < v.len() && v[j] != '"' {
            if v[j] == '\n' {
                nls += 1;
            }
            j += 1;
        } else {
            break ;
        }
    }
    (j, nls)
}

/// The saturating decimal accumulation of the digits `v[a..b]` onto an
/// accumulator that already holds the (saturated) value of `prior`.
fn push_digits(v: &Vec<char>, a: usize, b: usize, acc0: u64, prior: Ghost<Seq<char>>) -> (r: u64)
    requires
        a <= b <= v@.len(),
        forall|j: int| a <= j < b ==> is_digit(#[trigger] v@[j]),
        forall|j: int| 0 <= j < prior@.len() ==> is_digit(#[trigger] prior@[j]),
        acc0 as int == sat_u64(digits_val(prior@)),
    ensures
        r as int == sat_u64(digits_val(prior@ + v@.subrange(a as int, b as int))),
{
    let mut acc: u64 = acc0;
    let mut j: usize = a;
    proof {
        assert(prior@ + v@.subrange(a as int, a as int) =~= prior@);
    }
    loop
        invariant
            a <= j <= b <= v@.len(),
            forall|j2: int| a <= j2 < b ==> is_digit(#[trigger] v@[j2]),
            forall|j2: int| 0 <= j2 < prior@.len() ==> is_digit(#[trigger] prior@[j2]),
            acc as int == sat_u64(digits_val(prior@ + v@.subrange(a as int, j as int))),
        ensures
            acc as int == sat_u64(digits_val(prior@ + v@.subrange(a as int, b as int))),
        decreases b - j,
    {
        if j >= b {
            break ;
        }
        let c = v[j];
        let d: u64 = (c as u32 - 48) as u64;
        let ghost ds = prior@ + v@.subrange(a as int, j as int);
        proof {
            assert(is_digit(c));
            assert forall|j2: int| 0 <= j2 < ds.len() implies is_digit(#[trigger] ds[j2]) by {
                if j2 >= prior@.len() {
                    assert(ds[j2] == v@[a + (j2 - prior@.len())]);
                }
            }
            lemma_digits_val_nonneg(ds);
            assert(ds.push(c).drop_last() =~= ds);
            assert(digits_val(ds.push(c)) == 10 * digits_val(ds) + digit_val(c));
            assert(prior@ + v@.subrange(a as int, j as int + 1) =~= ds.push(c));
        }
        if acc > u64::MAX / 10 || (acc == u64::MAX / 10 && d > u64::MAX % 10) {
            proof {
                assert(10 * digits_val(ds) + digit_val(c) > u64::MAX);
            }
            acc = u64::MAX;
        } else {
            acc = acc * 10 + d;
        }
        j += 1;
    }
    acc
}

/// Compares a string against a literal by contents.
fn str_eq_lit(a: &String, b: &str) -> (r: bool)
    ensures
        r == (a@ == b@),
{
    let bs = String::from_str(b);
    a.eq(&bs)
}

/// Classifies an identifier lexeme against the reserved-keyword table.
fn keyword_or_ident(lex: &String) -> (k: TokenKind)
    ensures
        k == keyword_kind(lex@),
{
    if str_eq_lit(lex, "and") {
        TokenKind::And
    } else if str_eq_lit(lex, "class") {
        TokenKind::Class
    } else if str_eq_lit(lex, "else") {
        TokenKind::Else
    } else if str_eq_lit(lex, "false") {
        TokenKind::False
    } else if str_eq_lit(lex, "fun") {
        TokenKind::Fun
    } else if str_eq_lit(lex, "for") {
        TokenKind::For
    } else if str_eq_lit(lex, "if") {
        TokenKind::If
    } else if str_eq_lit(lex, "nil") {
        TokenKind::Nil
    } else if str_eq_lit(lex, "or") {
        TokenKind::Or
    } else if str_eq_lit(lex, "print") {
        TokenKind::Print
    } else if str_eq_lit(lex, "return") {
        TokenKind::Return
    } else if str_eq_lit(lex, "super") {
        TokenKind::Super
    } else if str_eq_lit(lex, "this") {
        TokenKind::This
    } else if str_eq_lit(lex, "true") {
        TokenKind::True
    } else if str_eq_lit(lex, "var") {
        TokenKind::Var
    } else if str_eq_lit(lex, "while") {
        TokenKind::While
    } else {
        TokenKind::Identifier
    }
}

// ---------------------------------------------------------------------------
// Sequence bookkeeping for the main loop
// ---------------------------------------------------------------------------
proof fn lemma_token_views_push(ts: Seq<Token>, t: Token)
    ensures
        token_views(ts.push(t)) == token_views(ts).push(t@),
{
    assert(token_views(ts.push(t)) =~= token_views(ts).push(t@));
}

/// Emitting the token of an `Emit` step keeps the output aligned with the spec.
proof fn lemma_emit_shift(
    s: Seq<char>,
    i: int,
    kind: TokenKind,
    end: int,
    lit: LiteralView,
    ts: Seq<Token>,
    t: Token,
    es: Seq<LexError>,
)
    requires
        0 <= i < s.len(),
        scan_step(s, i) == (Step::Emit { kind, end, literal: lit }),
        t@ == (TokenView { kind, lexeme: s.subrange(i, end), literal: lit, line: line_at(s, i) }),
        scan(s).tokens == token_views(ts) + scan_from(s, i).tokens,
        scan(s).errors == es + scan_from(s, i).errors,
    ensures
        scan(s).tokens == token_views(ts.push(t)) + scan_from(s, end).tokens,
        scan(s).errors == es + scan_from(s, end).errors,
{
    lemma_step_bounds(s, i);
    let rest = scan_from(s, end);
    lemma_token_views_push(ts, t);
    assert(token_views(ts) + (seq![t@] + rest.tokens) =~= token_views(ts.push(t)) + rest.tokens);
}

/// Recording the error of a `Reject` step keeps the output aligned with the spec.
proof fn lemma_reject_shift(
    s: Seq<char>,
    i: int,
    err: LexErrorKind,
    next: int,
    ts: Seq<Token>,
    es: Seq<LexError>,
)
    requires
        0 <= i < s.len(),
        scan_step(s, i) == (Step::Reject { err, next }),
        scan(s).tokens == token_views(ts) + scan_from(s, i).tokens,
        scan(s).errors == es + scan_from(s, i).errors,
    ensures
        scan(s).tokens == token_views(ts) + scan_from(s, next).tokens,
        scan(s).errors == es.push(step_error(s, i, err)) + scan_from(s, next).errors,
{
    lemma_step_bounds(s, i);
    let rest = scan_from(s, next);
    assert(es + (seq![step_error(s, i, err)] + rest.errors) =~= es.push(step_error(s, i, err))
        + rest.errors);
}

/// Recording the error of a `Halt` step keeps the output aligned with the spec.
proof fn lemma_halt_shift(
    s: Seq<char>,
    i: int,
    err: LexErrorKind,
    ts: Seq<Token>,
    es: Seq<LexError>,
)
    requires
        0 <= i < s.len(),
        scan_step(s, i) == (Step::Halt { err }),
        scan(s).tokens == token_views(ts) + scan_from(s, i).tokens,
        scan(s).errors == es + scan_from(s, i).errors,
    ensures
        scan(s).tokens == token_views(ts) + scan_from(s, s.len() as int).tokens,
        scan(s).errors == es.push(step_error(s, i, err)) + scan_from(s, s.len() as int).errors,
{
    let tail = scan_from(s, s.len() as int);
    assert(scan_from(s, i).tokens =~= tail.tokens);
    assert(es + seq![step_error(s, i, err)] =~= es.push(step_error(s, i, err)) + tail.errors);
}

// ---------------------------------------------------------------------------
// The scanner
// ---------------------------------------------------------------------------
/// A single-use scanner over one source string: one call to `scan_tokens`
/// consumes the whole input once and yields the token sequence together with
/// the lexical errors found along the way, in order.
pub struct Scanner {
    source: Vec<char>,
}

impl View for Scanner {
    type V = Seq<char>;

    closed spec fn view(&self) -> Seq<char> {
        self.source@
    }
}

impl Scanner {
    /// The one machine limit on scanning: the character count must leave room
    /// for line numbers, which can reach one past it, to fit in a `usize`.
    pub open spec fn wf(&self) -> bool {
        self@.len() < usize::MAX
    }

    pub fn new(source: String) -> (sc: Scanner)
        requires
            source@.len() < usize::MAX,
        ensures
            sc@ == source@,
            sc.wf(),
    {
        Scanner { source: chars_of(source.as_str()) }
    }

    /// One full pass over the source: the tokens it holds, terminated by the
    /// end-of-input token, and every lexical error found, exactly as the
    /// mathematical scan `scan` describes.
    pub fn scan_tokens(self) -> (r: (Vec<Token>, Vec<LexError>))
        requires
            self.wf(),
        ensures
            token_views(r.0@) == scan(self@).tokens,
            r.1@ == scan(self@).errors,
    {
        let v: Vec<char> = self.source;
        let ghost s = v@;
        let n: usize = v.len();
        let mut tokens: Vec<Token> = Vec::new();
        let mut errors: Vec<LexError> = Vec::new();
        let mut i: usize = 0;
        let mut line: usize = 1;
        proof {
            assert(token_views(tokens@) =~= Seq::<TokenView>::empty());
            assert(scan(s).tokens =~= token_views(tokens@) + scan_from(s, 0).tokens);
            assert(scan(s).errors =~= errors@ + scan_from(s, 0).errors);
        }
        loop
            invariant
                i <= n,
                n == s.len(),
                n < usize::MAX,
                v@ == s,
                line as int == line_at(s, i as int),
                scan(s).tokens == token_views(tokens@) + scan_from(s, i as int).tokens,
                scan(s).errors == errors@ + scan_from(s, i as int).errors,
            ensures
                i == n,
                line as int == line_at(s, i as int),
                scan(s).tokens == token_views(tokens@) + scan_from(s, i as int).tokens,
                scan(s).errors == errors@ + scan_from(s, i as int).errors,
            decreases n - i,
        {
            if i >= n {
                break ;
            }
            let ghost gi = i as int;
            let c = v[i];
            proof {
                lemma_step_bounds(s, gi);
                lemma_nl_upto_bounds(s, gi);
            }
            // Whitespace is skipped; the newline advances the line counter.
            if c == ' ' || c == '\r' || c == '\t' || c == '\n' {
                if c == '\n' {
                    line = line + 1;
                }
                i = i + 1;
                continue ;
            }
            let kind: TokenKind;
            let end: usize;
            let mut lit: Literal = Literal::NoValue;
            let mut nl_in_lexeme: usize = 0;
            if c == '(' {
                kind = TokenKind::LeftParen;
                end = i + 1;
            } else if c == ')' {
                kind = TokenKind::RightParen;
                end = i + 1;
            } else if c == '{' {
                kind = TokenKind::LeftBrace;
                end = i + 1;
            } else if c == '}' {
                kind = TokenKind::RightBrace;
                end = i + 1;
            } else if c == ',' {
                kind = TokenKind::Comma;
                end = i + 1;
            } else if c == '.' {
                kind = TokenKind::Dot;
                end = i + 1;
            } else if c == '-' {
                kind = TokenKind::Minus;
                end = i + 1;
            } else if c == '+' {
                kind = TokenKind::Plus;
                end = i + 1;
            } else if c == ';' {
                kind = TokenKind::Semicolon;
                end = i + 1;
            } else if c == '*' {
                kind = TokenKind::Star;
                end = i + 1;
            } else if c == '!' {
                if i + 1 < n && v[i + 1] == '=' {
                    kind = TokenKind::BangEqual;
                    end = i + 2;
                } else {
                    kind = TokenKind::Bang;
                    end = i + 1;
                }
            } else if c == '=' {
                if i + 1 < n && v[i + 1] == '=' {
                    kind = TokenKind::EqualEqual;
                    end = i + 2;
                } else {
                    kind = TokenKind::Equal;
                    end = i + 1;
                }
            } else if c == '<' {
                if i + 1 < n && v[i + 1] == '=' {
                    kind = TokenKind::LessEqual;
                    end = i + 2;
                } else {
                    kind = TokenKind::Less;
                    end = i + 1;
                }
            } else if c == '>' {
                if i + 1 < n && v[i + 1] == '=' {
                    kind = TokenKind::GreaterEqual;
                    end = i + 2;
                } else {
                    kind = TokenKind::Greater;
                    end = i + 1;
                }
            } else if c == '/' {
                if i + 1 < n && v[i + 1] == '/' {
                    // A comment runs to the end of the line and is skipped.
                    let j = line_end_x(&v, i + 2);
                    proof {
                        lemma_line_end(s, gi + 2);
                        assert forall|k: int| gi <= k < j as int implies #[trigger] s[k] != '\n'
                        by {}
                        lemma_nl_upto_same(s, gi, j as int);
                    }
                    i = j;
                    continue ;
                } else {
                    kind = TokenKind::Slash;
                    end = i + 1;
                }
            } else if c == '"' {
                let r = string_body_end(&v, i + 1);
                let close = r.0;
                let nls = r.1;
                proof {
                    lemma_string_close(s, gi + 1);
                    lemma_nl_upto_bounds(s, close as int);
                    lemma_nl_upto_bounds(s, gi + 1);
                    lemma_nl_upto_mono(s, gi + 1, close as int);
                }
                if close < n {
                    kind = TokenKind::StringLit;
                    end = close + 1;
                    lit = Literal::StringVal(string_of_range(&v, i + 1, close));
                    nl_in_lexeme = nls;
                } else {
                    // An unterminated string: record it at its starting line and
                    // let the scan reach the end of the input.
                    proof {
                        let ghost e = step_error(s, gi, LexErrorKind::UnterminatedString);
                        lemma_halt_shift(
                            s,
                            gi,
                            LexErrorKind::UnterminatedString,
                            tokens@,
                            errors@,
                        );
                        assert(e.line == line);
                    }
                    errors.push(LexError { line, kind: LexErrorKind::UnterminatedString });
                    proof {
                        lemma_nl_upto_bounds(s, n as int);
                    }
                    line = line + nls;
                    i = n;
                    continue ;
                }
            } else if is_digit_char(c) {
                let int_end = digits_end_x(&v, i);
                proof {
                    lemma_digits_end(s, gi);
                }
                let has_frac = int_end + 1 < n && v[int_end] == '.' && is_digit_char(
                    v[int_end + 1],
                );
                let e2: usize;
                let scale: usize;
                if has_frac {
                    e2 = digits_end_x(&v, int_end + 1);
                    proof {
                        lemma_digits_end(s, int_end as int + 1);
                    }
                    scale = e2 - (int_end + 1);
                } else {
                    e2 = int_end;
                    scale = 0;
                }
                proof {
                    assert(number_has_frac(s, gi) == has_frac);
                    assert(number_end(s, gi) == e2 as int);
                    assert(number_scale(s, gi) == scale as int);
                    assert(digits_val(Seq::<char>::empty()) == 0);
                }
                let m1 = push_digits(&v, i, int_end, 0, Ghost(Seq::empty()));
                proof {
                    assert(Seq::<char>::empty() + s.subrange(gi, int_end as int) =~= s.subrange(
                        gi,
                        int_end as int,
                    ));
                }
                let mantissa: u64;
                if has_frac {
                    mantissa = push_digits(
                        &v,
                        int_end + 1,
                        e2,
                        m1,
                        Ghost(s.subrange(gi, int_end as int)),
                    );
                } else {
                    mantissa = m1;
                    proof {
                        assert(number_digits(s, gi) =~= s.subrange(gi, int_end as int));
                    }
                }
                kind = TokenKind::Number;
                end = e2;
                lit = Literal::NumberVal(NumberLit { mantissa, scale });
                proof {
                    assert(lit@ == number_literal(s, gi));
                }
            } else if is_alpha_char(c) {
                let e2 = ident_end_x(&v, i);
                proof {
                    lemma_ident_end(s, gi);
                }
                let lex = string_of_range(&v, i, e2);
                kind = keyword_or_ident(&lex);
                end = e2;
            } else {
                // No lexeme can begin with this character: record the error,
                // skip the character, and scan on.
                proof {
                    let ghost e = step_error(s, gi, LexErrorKind::UnexpectedChar(c));
                    lemma_reject_shift(
                        s,
                        gi,
                        LexErrorKind::UnexpectedChar(c),
                        gi + 1,
                        tokens@,
                        errors@,
                    );
                    assert(e.line == line);
                }
                errors.push(LexError { line, kind: LexErrorKind::UnexpectedChar(c) });
                i = i + 1;
                continue ;
            }
            // The shared path of every emitted token.
            proof {
                assert(scan_step(s, gi) == (Step::Emit {
                    kind,
                    end: end as int,
                    literal: lit@,
                }));
                if kind != TokenKind::StringLit {
                    assert forall|k: int| gi <= k < end as int implies #[trigger] s[k] != '\n'
                    by {}
                    lemma_nl_upto_same(s, gi, end as int);
                    assert(nl_in_lexeme == 0);
                    assert(line_at(s, end as int) == line as int + nl_in_lexeme);
                } else {
                    assert(line_at(s, end as int) == line as int + nl_in_lexeme);
                }
                lemma_nl_upto_bounds(s, end as int);
            }
            let lex = string_of_range(&v, i, end);
            let t = Token { kind, lexeme: lex, literal: lit, line };
            proof {
                lemma_emit_shift(s, gi, kind, end as int, t.literal@, tokens@, t, errors@);
            }
            tokens.push(t);
            line = line + nl_in_lexeme;
            i = end;
        }
        // Every scan ends with the end-of-input token.
        let eof_tok = Token {
            kind: TokenKind::Eof,
            lexeme: String::new(),
            literal: Literal::NoValue,
            line,
        };
        proof {
            assert(eof_tok@ == eof_token(s));
            lemma_token_views_push(tokens@, eof_tok);
            assert(token_views(tokens@) + seq![eof_token(s)] =~= token_views(
                tokens@.push(eof_tok),
            ));
            assert(scan(s).errors =~= errors@);
        }
        tokens.push(eof_tok);
        (tokens, errors)
    }
}

} // verus!
