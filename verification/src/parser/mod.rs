//! The combinator parser: a cursor over the token stream that records
//! problems as diagnostics instead of stopping, and builds an `Ast`.
use vstd::prelude::*;

use self::ast::Ast;
use self::combinators::parse_sequence;
use self::grammar::{unbound, expect_d, flush_d, kind, past, span_at, sp_sequence, view_ast};
pub use self::ptr::P;
use crate::diagnostics::{diag_v, reported, quoted, DiagV, Diagnostic, DiagnosticBag, DiagnosticKind};
use crate::lexer::token::spec_token_text;
use crate::lexer::{lemma_lex_nth_end, lemma_strings_closed_step, lex_nth, spec_lex, strings_closed, Lexer, Token, TokenV};
use crate::span::Span;

pub mod ast;
pub mod combinators;
pub mod display;
pub mod evaluator;
pub mod grammar;
pub mod ptr;
pub mod visitor;

verus! {

/// Counts a token towards the parser's progress measure.
pub open spec fn weight(t: TokenV) -> nat {
    if t == TokenV::Eof { 0 } else { 1 }
}

/// `after` starts with `before`: reported diagnostics are never withdrawn.
pub open spec fn extends(before: Seq<Diagnostic>, after: Seq<Diagnostic>) -> bool {
    &&& before.len() <= after.len()
    &&& forall|i: int| 0 <= i < before.len() ==> #[trigger] after[i] == before[i]
}

/// The diagnostic at index `i` has the given kind, message and span.
pub open spec fn reported_at(diags: Seq<Diagnostic>, i: int, kind: DiagnosticKind, message: Seq<char>, span: Span) -> bool {
    &&& 0 <= i < diags.len()
    &&& diags[i].kind == kind
    &&& diags[i].message@ == message
    &&& diags[i].span == span
}

/// The diagnostics that `after` holds past those `before` held, as values.
pub open spec fn added(before: &Parser, after: &Parser) -> Seq<DiagV> {
    after.diags().subrange(before.diags().len() as int, after.diags().len() as int).map_values(|d: Diagnostic| diag_v(d))
}

/// What two steps add is what the first adds and then what the second adds.
pub proof fn lemma_added_concat(a: &Parser, b: &Parser, c: &Parser)
    requires
        extends(a.diags(), b.diags()),
        extends(b.diags(), c.diags()),
    ensures
        added(a, c) == added(a, b) + added(b, c),
{
    assert(added(a, c) =~= added(a, b) + added(b, c));
}

/// A step that reports one diagnostic adds just that one.
pub proof fn lemma_added_one(a: &Parser, b: &Parser, kind: DiagnosticKind, message: Seq<char>, span: Span)
    requires
        reported(a.diags(), b.diags(), kind, message, span),
    ensures
        added(a, b) == seq![(kind, message, span)],
{
    assert(b.diags().drop_last() == a.diags());
    assert(added(a, b) =~= seq![(kind, message, span)]);
}

/// A step that keeps the diagnostics adds none.
pub proof fn lemma_added_none(a: &Parser, b: &Parser)
    requires
        a.diags() == b.diags(),
    ensures
        added(a, b) == Seq::<DiagV>::empty(),
{
    assert(added(a, b) =~= Seq::<DiagV>::empty());
}

/// A token with the indices of its first and last byte.
pub type Tok = (TokenV, int, int);

/// The token at index `k` of a stream; past its end the stream goes on with
/// its last token.
pub open spec fn at(ts: Seq<Tok>, k: nat) -> Tok {
    if k < ts.len() {
        ts[k as int]
    } else {
        ts.last()
    }
}

/// The tokens of `input` from byte `c` on, up to and including the end of
/// the input (the lexer yields one token per byte at most).
pub open spec fn lex_stream(input: Seq<u8>, c: int) -> Seq<Tok> {
    Seq::new((input.len() + 3) as nat, |k: int| lex_nth(input, c, k as nat))
}

/// The `k`-th token from `current` on, when `next` comes after it and the
/// lexer reads the rest.
pub open spec fn token_ahead(lexer: Lexer, current: (Token, Span), next: (Token, Span), k: nat) -> Tok {
    if k == 0 {
        (current.0@, current.1.start as int, current.1.end as int)
    } else if k == 1 {
        (next.0@, next.1.start as int, next.1.end as int)
    } else {
        lex_nth(lexer.input@, lexer.cur(), (k - 2) as nat)
    }
}

pub struct Parser<'a> {
    pub lexer: &'a mut Lexer,
    pub current_token: (Token, Span),
    pub next_token: (Token, Span),
    pub diagnostics: DiagnosticBag,
    /// All the tokens the parser reads, from the first on.
    pub stream: Ghost<Seq<Tok>>,
    /// How many tokens the parser has moved past.
    pub index: Ghost<nat>,
}

/// What every parsing step keeps: the parser stays well formed on the same
/// token stream, it never moves backwards, its progress measure never grows
/// and diagnostics are only ever added.
pub open spec fn progressed(before: &Parser, after: &Parser) -> bool {
    &&& after.wf()
    &&& after.measure() <= before.measure()
    &&& extends(before.diagnostics.diagnostics@, after.diagnostics.diagnostics@)
    &&& after.stream@ == before.stream@
    &&& before.index@ <= after.index@
}

impl<'a> Parser<'a> {
    /// The parser's invariant: its lexer is well formed and both spans lie in the input.
    pub open spec fn wf(&self) -> bool {
        &&& self.lexer.wf()
        &&& strings_closed(self.lexer.input@, self.lexer.cur())
        &&& self.current_token.1.start <= self.current_token.1.end <= self.lexer.input@.len()
        &&& self.next_token.1.start <= self.next_token.1.end <= self.lexer.input@.len()
        &&& self.stream@.len() > 0
        &&& self.stream@.last().0 == TokenV::Eof
        &&& forall|k: nat| at(self.stream@, self.index@ + k)
            == #[trigger] token_ahead(*self.lexer, self.current_token, self.next_token, k)
    }

    /// The `k`-th token from the current one on.
    pub open spec fn tok(&self, k: nat) -> Tok {
        token_ahead(*self.lexer, self.current_token, self.next_token, k)
    }

    /// The current token is the stream's token at the parser's index, and
    /// unless it is `Eof` the stream goes on after it.
    pub proof fn lemma_tokens(&self)
        requires
            self.wf(),
        ensures
            kind(self.stream@, self.index@) == self.current_token.0@,
            kind(self.stream@, self.index@ + 1) == self.next_token.0@,
            span_at(self.stream@, self.index@) == self.current_token.1,
            span_at(self.stream@, self.index@ + 1) == self.next_token.1,
            self.current_token.0@ != TokenV::Eof ==> self.index@ + 1 < self.stream@.len(),
    {
        assert(at(self.stream@, self.index@ + 0) == token_ahead(*self.lexer, self.current_token, self.next_token, 0));
        assert(at(self.stream@, self.index@ + 1) == token_ahead(*self.lexer, self.current_token, self.next_token, 1));
    }

    /// A quantity that no parsing step increases and that every step past a
    /// token other than `Eof` decreases.
    pub open spec fn measure(&self) -> nat {
        self.lexer.remaining() + weight(self.current_token.0@) + weight(self.next_token.0@)
    }

    pub open spec fn diags(&self) -> Seq<Diagnostic> {
        self.diagnostics.diagnostics@
    }

    /// Starts parsing: reads the first two tokens.
    pub fn new(lexer: &'a mut Lexer, diagnostics: DiagnosticBag) -> (p: Parser<'a>)
        requires
            old(lexer).wf(),
            strings_closed(old(lexer).input@, old(lexer).cur()),
        ensures
            p.wf(),
            p.diagnostics == diagnostics,
            p.current_token.0@ == spec_lex(old(lexer).input@, old(lexer).cur()).0,
            p.index@ == 0,
            p.stream@ == lex_stream(old(lexer).input@, old(lexer).cur()),
            forall|k: nat| #[trigger] at(p.stream@, k) == lex_nth(old(lexer).input@, old(lexer).cur(), k),
    {
        let ghost input = lexer.input@;
        let ghost c0 = lexer.cur();
        proof {
            lemma_strings_closed_step(input, c0);
        }
        let current_token = lexer.next_spanned();
        let ghost c1 = lexer.cur();
        proof {
            lemma_strings_closed_step(input, c1);
        }
        let next_token = lexer.next_spanned();
        proof {
            lemma_strings_closed_step(input, lexer.cur());
        }
        let ghost c2 = lexer.cur();
        let ghost n = input.len();
        let ghost stream = lex_stream(input, c0);
        let p = Self { lexer, current_token, next_token, diagnostics, stream: Ghost(stream), index: Ghost(0) };
        proof {
            assert forall|k: nat| #[trigger] at(p.stream@, k) == lex_nth(input, c0, k) by {
                if k >= n + 3 {
                    lemma_lex_nth_end(input, c0, k);
                    lemma_lex_nth_end(input, c0, (n + 2) as nat);
                }
            }
            assert forall|k: nat| at(p.stream@, p.index@ + k) == #[trigger] token_ahead(*p.lexer, p.current_token, p.next_token, k) by {
                assert(lex_nth(input, c0, k) == p.tok(k)) by {
                    if k >= 1 {
                        assert(lex_nth(input, c0, k) == lex_nth(input, c1, (k - 1) as nat));
                    }
                    if k >= 2 {
                        assert(lex_nth(input, c1, (k - 1) as nat) == lex_nth(input, c2, (k - 2) as nat));
                    }
                }
                if k >= n + 3 {
                    lemma_lex_nth_end(input, c0, k);
                    lemma_lex_nth_end(input, c0, (n + 2) as nat);
                }
            }
            lemma_lex_nth_end(input, c0, (n + 2) as nat);
        }
        p
    }

    /// Parses the whole program: statements up to the end of the input.
    pub fn parse(&mut self) -> (a: Ast)
        requires
            old(self).wf(),
        ensures
            progressed(old(self), final(self)),
            a is Sequence,
            unbound(a),
            final(self).current_token.0@ == TokenV::Eof,
            (view_ast(a), final(self).index@, added(old(self), final(self)))
                == sp_sequence(old(self).stream@, old(self).index@, TokenV::Eof),
    {
        parse_sequence(self, Token::Eof)
    }

    /// Moves to the next token.
    pub fn step(&mut self)
        requires
            old(self).wf(),
        ensures
            progressed(old(self), final(self)),
            final(self).diagnostics == old(self).diagnostics,
            added(old(self), final(self)) == Seq::<DiagV>::empty(),
            final(self).current_token.0@ == old(self).next_token.0@,
            final(self).current_token.1 == old(self).next_token.1,
            old(self).current_token.0@ != TokenV::Eof ==> final(self).measure() < old(self).measure(),
            final(self).index@ == old(self).index@ + 1,
    {
        let ghost before = *self;
        proof {
            lemma_strings_closed_step(self.lexer.input@, self.lexer.cur());
        }
        let mut t = self.lexer.next_spanned();
        std::mem::swap(&mut self.next_token, &mut t);
        self.current_token = t;
        self.index = Ghost((self.index@ + 1) as nat);
        proof {
            lemma_added_none(&before, self);
            assert forall|k: nat| at(self.stream@, self.index@ + k) == #[trigger] token_ahead(*self.lexer, self.current_token, self.next_token, k) by {
                assert(self.tok(k) == before.tok(k + 1));
                assert(at(before.stream@, (before.index@ + (k + 1)) as nat) == token_ahead(*before.lexer, before.current_token, before.next_token, k + 1));
            }
        }
    }

    /// Moves to the next token and returns the one that was current.
    pub fn consume(&mut self) -> (r: (Token, Span))
        requires
            old(self).wf(),
        ensures
            progressed(old(self), final(self)),
            final(self).diagnostics == old(self).diagnostics,
            added(old(self), final(self)) == Seq::<DiagV>::empty(),
            r.0@ == old(self).current_token.0@,
            r.1 == old(self).current_token.1,
            final(self).current_token.0@ == old(self).next_token.0@,
            final(self).current_token.1 == old(self).next_token.1,
            old(self).current_token.0@ != TokenV::Eof ==> final(self).measure() < old(self).measure(),
            final(self).index@ == old(self).index@ + 1,
    {
        let prev_token = (self.current_token.0.duplicate(), self.current_token.1);
        let ghost before = *self;
        self.step();
        proof {
            lemma_added_none(&before, self);
        }
        prev_token
    }

    /// Reports a diagnostic unless the current token is `token`, then moves
    /// past the current token unless it is the end of the input.
    pub fn expect(&mut self, token: Token)
        requires
            old(self).wf(),
        ensures
            progressed(old(self), final(self)),
            old(self).current_token.0@ == token@ ==> final(self).diagnostics == old(self).diagnostics,
            old(self).current_token.0@ != token@ ==> reported(
                old(self).diags(),
                final(self).diags(),
                DiagnosticKind::Error,
                "expected: "@ + quoted(spec_token_text(token@)) + ", found: "@ + quoted(spec_token_text(old(self).current_token.0@)),
                old(self).current_token.1,
            ),
            old(self).current_token.0@ != TokenV::Eof ==> final(self).current_token.0@ == old(self).next_token.0@
                && final(self).measure() < old(self).measure(),
            old(self).current_token.0@ == TokenV::Eof ==> final(self).current_token == old(self).current_token
                && final(self).measure() == old(self).measure(),
            final(self).index@ == past(old(self).stream@, old(self).index@),
            added(old(self), final(self)) == expect_d(old(self).stream@, old(self).index@, token@),
    {
        proof {
            self.lemma_tokens();
        }
        let ghost before = *self;
        if !self.current_token_is(&token) {
            self.diagnostics.unexpected_token(&token, &self.current_token.0, &self.current_token.1);
        }
        if !self.current_token_is(&Token::Eof) {
            self.step();
        }
        proof {
            if before.current_token.0@ == token@ {
                lemma_added_none(&before, self);
            } else {
                lemma_added_one(&before, self, DiagnosticKind::Error,
                    "expected: "@ + quoted(spec_token_text(token@)) + ", found: "@ + quoted(spec_token_text(before.current_token.0@)),
                    before.current_token.1);
            }
        }
    }

    /// Moves past the current token, reporting a diagnostic when blanks
    /// separate it from the next one (as in `- 1`).
    pub fn expect_flush(&mut self)
        requires
            old(self).wf(),
        ensures
            progressed(old(self), final(self)),
            final(self).current_token.0@ == old(self).next_token.0@,
            old(self).current_token.0@ != TokenV::Eof ==> final(self).measure() < old(self).measure(),
            final(self).index@ == old(self).index@ + 1,
            Span::spec_difference(old(self).current_token.1, old(self).next_token.1) <= 1
                ==> final(self).diagnostics == old(self).diagnostics,
            Span::spec_difference(old(self).current_token.1, old(self).next_token.1) > 1
                ==> reported(
                old(self).diags(),
                final(self).diags(),
                DiagnosticKind::Error,
                "expected: "@ + quoted(spec_token_text(old(self).current_token.0@)) + ", found: "@ + quoted(spec_token_text(TokenV::Whitespace)),
                Span { start: (old(self).current_token.1.end + 1) as usize, end: (old(self).next_token.1.start - 1) as usize },
            ),
            added(old(self), final(self)) == flush_d(old(self).stream@, old(self).index@),
    {
        proof {
            self.lemma_tokens();
        }
        let ghost before = *self;
        if Span::difference(&self.current_token.1, &self.next_token.1) > 1 {
            let gap = Span::new(self.current_token.1.end + 1, self.next_token.1.start - 1);
            self.diagnostics.unexpected_token(&self.current_token.0, &Token::Whitespace, &gap);
        }
        self.step();
        proof {
            if Span::spec_difference(before.current_token.1, before.next_token.1) > 1 {
                lemma_added_one(&before, self, DiagnosticKind::Error,
                    "expected: "@ + quoted(spec_token_text(before.current_token.0@)) + ", found: "@ + quoted(spec_token_text(TokenV::Whitespace)),
                    Span { start: (before.current_token.1.end + 1) as usize, end: (before.next_token.1.start - 1) as usize });
            } else {
                lemma_added_none(&before, self);
            }
        }
    }

    pub fn current_token(&self) -> (t: &Token)
        ensures
            t == &self.current_token.0,
    {
        &self.current_token.0
    }

    pub fn current_token_is(&self, token: &Token) -> (r: bool)
        ensures
            r == (self.current_token.0@ == token@),
    {
        self.current_token.0.same(token)
    }

    pub fn current_span(&self) -> (s: Span)
        ensures
            s == self.current_token.1,
    {
        self.current_token.1
    }

    pub fn next_token(&self) -> (t: &Token)
        ensures
            t == &self.next_token.0,
    {
        &self.next_token.0
    }
}

} // verus!
