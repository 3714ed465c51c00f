use vstd::prelude::*;
use vstd::string::StringExecFns;

use crate::scan::scan;
use crate::scanner::Scanner;
use crate::token::{token_views, LexError, LexErrorKind, Token};

verus! {

/// One collected diagnostic: the 1-based line it concerns, an optional
/// human-readable location suffix (empty for plain lexical errors, the
/// offending lexeme for token-anchored errors), and the message. Collection is
/// separate from rendering: a record is stored here and formatted later.
pub struct Diagnostic {
    pub line: usize,
    pub location: String,
    pub message: String,
}

/// Mathematical model of a `Diagnostic`.
#[verifier::ext_equal]
pub ghost struct DiagnosticView {
    pub line: int,
    pub location: Seq<char>,
    pub message: Seq<char>,
}

impl View for Diagnostic {
    type V = DiagnosticView;

    open spec fn view(&self) -> DiagnosticView {
        DiagnosticView { line: self.line as int, location: self.location@, message: self.message@ }
    }
}

/// The model of a sequence of diagnostics.
pub open spec fn diag_views(ds: Seq<Diagnostic>) -> Seq<DiagnosticView> {
    ds.map_values(|d: Diagnostic| d@)
}

/// The message a lexical error is reported with.
pub open spec fn lex_message(k: LexErrorKind) -> Seq<char> {
    match k {
        LexErrorKind::UnexpectedChar(_) => "Unexpected character."@,
        LexErrorKind::UnterminatedString => "Unterminated string."@,
    }
}

/// The diagnostic record a lexical error turns into: its line, no location
/// suffix, and the message of its kind.
pub open spec fn lex_diag(e: LexError) -> DiagnosticView {
    DiagnosticView { line: e.line as int, location: Seq::empty(), message: lex_message(e.kind) }
}

/// The diagnostics a sequence of lexical errors turns into, in order.
pub open spec fn lex_diags(es: Seq<LexError>) -> Seq<DiagnosticView> {
    es.map_values(|e: LexError| lex_diag(e))
}

fn lex_message_of(k: LexErrorKind) -> (m: String)
    ensures
        m@ == lex_message(k),
{
    match k {
        LexErrorKind::UnexpectedChar(_) => String::from_str("Unexpected character."),
        LexErrorKind::UnterminatedString => String::from_str("Unterminated string."),
    }
}

/// A failure detected after tokens exist, reserved for a future evaluator:
/// the token that triggered it and a human-readable description. It is never
/// constructed during pure lexical scanning.
pub struct RuntimeError {
    pub token: Token,
    pub message: String,
}

/// Builds the diagnostic record for a plain error at a line, with no token
/// context.
pub fn error(line: usize, message: &str) -> (d: Diagnostic)
    ensures
        d@ == (DiagnosticView { line: line as int, location: Seq::empty(), message: message@ }),
{
    Diagnostic { line, location: String::new(), message: String::from_str(message) }
}

/// One session of the interpreter front-end: it owns the error flags of the
/// current run unit and the diagnostics collected so far, and mutates them
/// only through its reporting operations.
pub struct Lox {
    had_error: bool,
    had_runtime_error: bool,
    diagnostics: Vec<Diagnostic>,
}

impl Lox {
    /// Whether any lexical or syntax error has been reported in the current run unit.
    pub closed spec fn spec_had_error(&self) -> bool {
        self.had_error
    }

    /// Whether any runtime error has been reported.
    pub closed spec fn spec_had_runtime_error(&self) -> bool {
        self.had_runtime_error
    }

    /// The diagnostics collected so far, in reporting order.
    pub closed spec fn spec_diagnostics(&self) -> Seq<DiagnosticView> {
        diag_views(self.diagnostics@)
    }

    /// A fresh session: no errors yet, nothing collected.
    pub fn new() -> (lox: Lox)
        ensures
            !lox.spec_had_error(),
            !lox.spec_had_runtime_error(),
            lox.spec_diagnostics() == Seq::<DiagnosticView>::empty(),
    {
        let lox = Lox { had_error: false, had_runtime_error: false, diagnostics: Vec::new() };
        proof {
            assert(lox.spec_diagnostics() =~= Seq::<DiagnosticView>::empty());
        }
        lox
    }

    /// Records one diagnostic. Reporting never halts anything: it only
    /// collects the record; the flags are raised by the callers that own them.
    fn report(&mut self, line: usize, location: String, message: String)
        ensures
            final(self).spec_had_error() == old(self).spec_had_error(),
            final(self).spec_had_runtime_error() == old(self).spec_had_runtime_error(),
            final(self).spec_diagnostics() == old(self).spec_diagnostics().push(
                DiagnosticView { line: line as int, location: location@, message: message@ },
            ),
    {
        let d = Diagnostic { line, location, message };
        let ghost dv = d@;
        self.diagnostics.push(d);
        proof {
            assert(self.spec_diagnostics() =~= old(self).spec_diagnostics().push(dv));
        }
    }

    /// Records a generic diagnostic at a line with no token context and sets
    /// the error flag.
    pub fn error(&mut self, line: usize, message: &str)
        ensures
            final(self).spec_had_error(),
            final(self).spec_had_runtime_error() == old(self).spec_had_runtime_error(),
            final(self).spec_diagnostics() == old(self).spec_diagnostics().push(
                DiagnosticView { line: line as int, location: Seq::empty(), message: message@ },
            ),
    {
        self.report(line, String::new(), String::from_str(message));
        self.had_error = true;
    }

    /// Records a runtime error, locating it by its token's line and lexeme,
    /// and sets the runtime-error flag, so that a file-mode run can end with
    /// the exit status reserved for runtime failures.
    pub fn runtime_error(&mut self, err: RuntimeError)
        ensures
            final(self).spec_had_error() == old(self).spec_had_error(),
            final(self).spec_had_runtime_error(),
            final(self).spec_diagnostics() == old(self).spec_diagnostics().push(
                DiagnosticView {
                    line: err.token.line as int,
                    location: err.token.lexeme@,
                    message: err.message@,
                },
            ),
    {
        let line = err.token.line;
        self.report(line, err.token.lexeme, err.message);
        self.had_runtime_error = true;
    }

    /// Runs one chunk of source through the scanner: returns its full token
    /// sequence, collects one diagnostic per lexical error found, and raises
    /// the error flag exactly when the scan found any.
    pub fn run(&mut self, source: String) -> (tokens: Vec<Token>)
        requires
            source@.len() < usize::MAX,
        ensures
            token_views(tokens@) == scan(source@).tokens,
            final(self).spec_had_error() == (old(self).spec_had_error() || scan(
                source@,
            ).errors.len() > 0),
            final(self).spec_had_runtime_error() == old(self).spec_had_runtime_error(),
            final(self).spec_diagnostics() == old(self).spec_diagnostics() + lex_diags(
                scan(source@).errors,
            ),
    {
        let ghost src = source@;
        let scanner = Scanner::new(source);
        let r = scanner.scan_tokens();
        let tokens = r.0;
        let errs = r.1;
        let mut fresh: Vec<Diagnostic> = Vec::new();
        let mut k: usize = 0;
        proof {
            assert(diag_views(fresh@) =~= lex_diags(errs@.subrange(0, 0)));
        }
        while k < errs.len()
            invariant
                k <= errs.len(),
                errs@ == scan(src).errors,
                diag_views(fresh@) == lex_diags(errs@.subrange(0, k as int)),
            decreases errs.len() - k,
        {
            let e = errs[k];
            let msg = lex_message_of(e.kind);
            let d = Diagnostic { line: e.line, location: String::new(), message: msg };
            let ghost dv = d@;
            let ghost fresh_old = fresh@;
            fresh.push(d);
            proof {
                assert(dv == lex_diag(errs@[k as int]));
                assert(errs@.subrange(0, k as int + 1) =~= errs@.subrange(0, k as int).push(
                    errs@[k as int],
                ));
                assert(diag_views(fresh@) =~= diag_views(fresh_old).push(dv));
                assert(lex_diags(errs@.subrange(0, k as int + 1)) =~= lex_diags(
                    errs@.subrange(0, k as int),
                ).push(lex_diag(errs@[k as int])));
                assert(diag_views(fresh@) == lex_diags(errs@.subrange(0, k as int + 1)));
            }
            k += 1;
        }
        proof {
            assert(errs@.subrange(0, errs@.len() as int) =~= errs@);
        }
        if errs.len() > 0 {
            self.had_error = true;
        }
        let ghost before = self.diagnostics@;
        let ghost f = fresh@;
        self.diagnostics.append(&mut fresh);
        proof {
            assert(diag_views(before + f) =~= diag_views(before) + diag_views(f));
        }
        tokens
    }

    /// Resets the lexical-error flag for the next independent run unit of an
    /// interactive session. The runtime-error flag is deliberately left
    /// standing, matching a driver that resets only the lexical flag between
    /// lines; the collected diagnostics also remain.
    pub fn clear_error(&mut self)
        ensures
            !final(self).spec_had_error(),
            final(self).spec_had_runtime_error() == old(self).spec_had_runtime_error(),
            final(self).spec_diagnostics() == old(self).spec_diagnostics(),
    {
        self.had_error = false;
    }

    /// The process exit status a file-mode run ends with: a reserved status
    /// for lexical/syntax errors, a distinct one for runtime errors, and
    /// success otherwise.
    pub fn exit_status(&self) -> (code: i32)
        ensures
            code == (if self.spec_had_error() {
                65int
            } else if self.spec_had_runtime_error() {
                70int
            } else {
                0int
            }),
    {
        if self.had_error {
            65
        } else if self.had_runtime_error {
            70
        } else {
            0
        }
    }

    /// Whether any lexical or syntax error has been reported.
    pub fn had_error(&self) -> (b: bool)
        ensures
            b == self.spec_had_error(),
    {
        self.had_error
    }

    /// Whether any runtime error has been reported.
    pub fn had_runtime_error(&self) -> (b: bool)
        ensures
            b == self.spec_had_runtime_error(),
    {
        self.had_runtime_error
    }

    /// Read access to the collected diagnostics, in reporting order.
    pub fn diagnostics(&self) -> (ds: &Vec<Diagnostic>)
        ensures
            diag_views(ds@) == self.spec_diagnostics(),
    {
        &self.diagnostics
    }
}

} // verus!
