//! Diagnostics: errors and warnings found while checking a program, each with
//! a message and the span of source it is about.
use vstd::prelude::*;

pub use self::display::DiagnosticsDisplay;
use crate::lexer::token::spec_token_text;
use crate::lexer::Token;
use crate::source::Source;
use crate::span::Span;

pub mod display;

verus! {

#[derive(Debug)]
pub struct Diagnostic {
    pub kind: DiagnosticKind,
    pub message: String,
    pub span: Span,
}

#[derive(Debug, PartialEq, Eq, Clone, Copy, Structural)]
pub enum DiagnosticKind {
    Error,
    Warning,
}

/// Why compilation stopped.
#[derive(Debug, PartialEq, Eq, Clone, Copy, Structural)]
pub enum CompilerError {
    /// Diagnostics were reported.
    Diagnostics,
}

#[derive(Debug, Default)]
pub struct DiagnosticBag {
    pub diagnostics: Vec<Diagnostic>,
}

/// A diagnostic as values: its kind, message and span.
pub type DiagV = (DiagnosticKind, Seq<char>, Span);

pub open spec fn diag_v(d: Diagnostic) -> DiagV {
    (d.kind, d.message@, d.span)
}

/// `after` is `before` with one diagnostic of the given kind, message and span added.
pub open spec fn reported(before: Seq<Diagnostic>, after: Seq<Diagnostic>, kind: DiagnosticKind, message: Seq<char>, span: Span) -> bool {
    &&& after.len() == before.len() + 1
    &&& after.drop_last() == before
    &&& after.last().kind == kind
    &&& after.last().message@ == message
    &&& after.last().span == span
}

/// `'` + token text + `'`.
pub open spec fn quoted(t: Seq<char>) -> Seq<char> {
    seq!['\''] + t + seq!['\'']
}

impl DiagnosticBag {
    pub fn new() -> (bag: DiagnosticBag)
        ensures
            bag.diagnostics@.len() == 0,
    {
        DiagnosticBag { diagnostics: Vec::new() }
    }

    /// Whether nothing was reported.
    pub fn is_empty(&self) -> (r: bool)
        ensures
            r == (self.diagnostics@.len() == 0),
    {
        self.diagnostics.len() == 0
    }

    /// Fails when anything was reported; the caller shows `render` to the user.
    pub fn check(&self, _src: &Source) -> (r: Result<(), CompilerError>)
        ensures
            r is Ok <==> self.diagnostics@.len() == 0,
    {
        if !self.diagnostics.is_empty() {
            return Err(CompilerError::Diagnostics);
        }
        Ok(())
    }

    pub fn report(&mut self, kind: DiagnosticKind, message: String, span: Span)
        ensures
            reported(old(self).diagnostics@, final(self).diagnostics@, kind, message@, span),
    {
        self.diagnostics.push(Diagnostic { kind, message, span });
        proof {
            assert(self.diagnostics@.drop_last() =~= old(self).diagnostics@);
        }
    }

    pub fn error(&mut self, message: String, span: Span)
        ensures
            reported(old(self).diagnostics@, final(self).diagnostics@, DiagnosticKind::Error, message@, span),
    {
        self.report(DiagnosticKind::Error, message, span);
    }

    pub fn warning(&mut self, message: String, span: Span)
        ensures
            reported(old(self).diagnostics@, final(self).diagnostics@, DiagnosticKind::Warning, message@, span),
    {
        self.report(DiagnosticKind::Warning, message, span);
    }

    pub fn unexpected_token(&mut self, expected: &Token, actual: &Token, span: &Span)
        ensures
            reported(
                old(self).diagnostics@,
                final(self).diagnostics@,
                DiagnosticKind::Error,
                "expected: "@ + quoted(spec_token_text(expected@)) + ", found: "@ + quoted(spec_token_text(actual@)),
                *span,
            ),
    {
        let mut m = String::from_str("expected: ");
        m.append("'");
        m.append(expected.to_text().as_str());
        m.append("'");
        m.append(", found: ");
        m.append("'");
        m.append(actual.to_text().as_str());
        m.append("'");
        proof { reveal_strlit("'"); }
        assert(m@ =~= "expected: "@ + quoted(spec_token_text(expected@)) + ", found: "@ + quoted(spec_token_text(actual@)));
        self.error(m, *span);
    }

    pub fn expected_expression(&mut self, expected: &Token, span: &Span)
        ensures
            reported(
                old(self).diagnostics@,
                final(self).diagnostics@,
                DiagnosticKind::Error,
                "expected expression, found "@ + quoted(spec_token_text(expected@)),
                *span,
            ),
    {
        let mut m = String::from_str("expected expression, found ");
        m.append("'");
        m.append(expected.to_text().as_str());
        m.append("'");
        proof { reveal_strlit("'"); }
        assert(m@ =~= "expected expression, found "@ + quoted(spec_token_text(expected@)));
        self.error(m, *span);
    }

    pub fn illegal_token(&mut self, span: &Span)
        ensures
            reported(old(self).diagnostics@, final(self).diagnostics@, DiagnosticKind::Error, "illegal token"@, *span),
    {
        self.error(String::from_str("illegal token"), *span);
    }

    /// Reports `prefix` + quoted token text as an error.
    fn token_error(&mut self, prefix: &str, token: &Token, span: &Span)
        ensures
            reported(
                old(self).diagnostics@,
                final(self).diagnostics@,
                DiagnosticKind::Error,
                prefix@ + quoted(spec_token_text(token@)),
                *span,
            ),
    {
        let mut m = String::from_str(prefix);
        m.append("'");
        m.append(token.to_text().as_str());
        m.append("'");
        proof { reveal_strlit("'"); }
        assert(m@ =~= prefix@ + quoted(spec_token_text(token@)));
        self.error(m, *span);
    }

    /// Reports `before` + `'` + name + `'` + `after` as an error.
    fn symbol_error(&mut self, before: &str, name: &String, after: &str, span: &Span)
        ensures
            reported(
                old(self).diagnostics@,
                final(self).diagnostics@,
                DiagnosticKind::Error,
                before@ + quoted(name@) + after@,
                *span,
            ),
    {
        let mut m = String::from_str(before);
        m.append("'");
        m.append(name.as_str());
        m.append("'");
        m.append(after);
        proof { reveal_strlit("'"); }
        assert(m@ =~= before@ + quoted(name@) + after@);
        self.error(m, *span);
    }

    pub fn unknown_statement(&mut self, token: &Token, span: &Span)
        ensures
            reported(old(self).diagnostics@, final(self).diagnostics@, DiagnosticKind::Error,
                "unknown statement "@ + quoted(spec_token_text(token@)), *span),
    {
        self.token_error("unknown statement ", token, span);
    }

    pub fn invalid_operator(&mut self, token: &Token, span: &Span)
        ensures
            reported(old(self).diagnostics@, final(self).diagnostics@, DiagnosticKind::Error,
                "invalid operator "@ + quoted(spec_token_text(token@)), *span),
    {
        self.token_error("invalid operator ", token, span);
    }

    pub fn unknown_expression(&mut self, token: &Token, span: &Span)
        ensures
            reported(old(self).diagnostics@, final(self).diagnostics@, DiagnosticKind::Error,
                "unknown expression "@ + quoted(spec_token_text(token@)), *span),
    {
        self.token_error("unknown expression ", token, span);
    }

    pub fn expected_identifier(&mut self, token: &Token, span: &Span)
        ensures
            reported(old(self).diagnostics@, final(self).diagnostics@, DiagnosticKind::Error,
                "expected identifier, found "@ + quoted(spec_token_text(token@)), *span),
    {
        self.token_error("expected identifier, found ", token, span);
    }

    pub fn invalid_integer(&mut self, token: &Token, span: &Span)
        ensures
            reported(old(self).diagnostics@, final(self).diagnostics@, DiagnosticKind::Error,
                "invalid integer literal "@ + quoted(spec_token_text(token@)), *span),
    {
        self.token_error("invalid integer literal ", token, span);
    }

    pub fn symbol_already_declared(&mut self, pattern: &String, span: &Span)
        ensures
            reported(old(self).diagnostics@, final(self).diagnostics@, DiagnosticKind::Error,
                "symbol: "@ + quoted(pattern@) + " already exists in scope"@, *span),
    {
        self.symbol_error("symbol: ", pattern, " already exists in scope", span);
    }

    pub fn undeclared_assignment(&mut self, ident: &String, span: &Span)
        ensures
            reported(old(self).diagnostics@, final(self).diagnostics@, DiagnosticKind::Error,
                "undeclared symbol: "@ + quoted(ident@) + ""@, *span),
    {
        self.symbol_error("undeclared symbol: ", ident, "", span);
    }

    pub fn undeclared_reference(&mut self, ident: &String, span: &Span)
        ensures
            reported(old(self).diagnostics@, final(self).diagnostics@, DiagnosticKind::Error,
                "symbol: "@ + quoted(ident@) + " is never declared"@, *span),
    {
        self.symbol_error("symbol: ", ident, " is never declared", span);
    }

    pub fn reference_before_assignment(&mut self, ident: &String, span: &Span)
        ensures
            reported(old(self).diagnostics@, final(self).diagnostics@, DiagnosticKind::Error,
                "symbol: "@ + quoted(ident@) + " referenced before assignment"@, *span),
    {
        self.symbol_error("symbol: ", ident, " referenced before assignment", span);
    }

    pub fn unused_variable(&mut self, ident: &String, span: &Span)
        ensures
            reported(old(self).diagnostics@, final(self).diagnostics@, DiagnosticKind::Warning,
                "unused variable: "@ + quoted(ident@), *span),
    {
        let mut m = String::from_str("unused variable: ");
        m.append("'");
        m.append(ident.as_str());
        m.append("'");
        proof { reveal_strlit("'"); }
        assert(m@ =~= "unused variable: "@ + quoted(ident@));
        self.warning(m, *span);
    }
}

} // verus!
