//! The statement parser's cursor over the token stream: the current token,
//! the token after it, and the lexer that produces the rest.
use vstd::prelude::*;

pub use crate::parser::ptr::P;
use crate::lexer::{lemma_lex_nth_end, lemma_strings_closed_step, lex_nth, strings_closed, Lexer, Token, TokenV};
use crate::parser::grammar::kind;
use crate::parser::{at, Tok};

verus! {

/// Why the statement parser rejected its input.
#[derive(Debug, PartialEq, Eq, Clone)]
pub enum ParseError {
    /// A token that cannot start or continue the construct being parsed.
    UnexpectedToken(Token),
    /// The first token was required, the second was found.
    Expected(Token, Token),
    /// A `let` named a symbol that was already declared.
    SymbolAlreadyDefined(String),
    /// An integer literal that does not denote an `isize`.
    InvalidInteger(String),
}

/// Counts a token towards the parser's progress measure.
pub open spec fn weight(t: TokenV) -> nat {
    if t == TokenV::Eof { 0 } else { 1 }
}

/// The kind of the `k`-th token from `current` on, when `next` comes after
/// it and the lexer reads the rest.
pub open spec fn kind_ahead(lexer: Lexer, current: Token, next: Token, k: nat) -> TokenV {
    if k == 0 {
        current@
    } else if k == 1 {
        next@
    } else {
        lex_nth(lexer.input@, lexer.cur(), (k - 2) as nat).0
    }
}

pub struct Parser<'a> {
    pub lexer: &'a mut Lexer,
    pub current_token: Token,
    pub next_token: Token,
    /// Symbols declared by `let` so far.
    pub symbols: Vec<String>,
    /// All the tokens the parser reads, from the first on.
    pub stream: Ghost<Seq<Tok>>,
    /// How many tokens the parser has moved past.
    pub index: Ghost<nat>,
}

impl<'a> Parser<'a> {
    /// The parser's invariant: its lexer is well formed.
    pub open spec fn wf(&self) -> bool {
        &&& self.lexer.wf()
        &&& strings_closed(self.lexer.input@, self.lexer.cur())
        &&& self.stream@.len() > 0
        &&& self.stream@.last().0 == TokenV::Eof
        &&& forall|k: nat| kind(self.stream@, self.index@ + k)
            == #[trigger] kind_ahead(*self.lexer, self.current_token, self.next_token, k)
    }

    /// The current token is the stream's token at the parser's index, and
    /// unless it is `Eof` the stream goes on after it.
    pub proof fn lemma_tokens(&self)
        requires
            self.wf(),
        ensures
            kind(self.stream@, self.index@) == self.current_token@,
            kind(self.stream@, self.index@ + 1) == self.next_token@,
            self.current_token@ != TokenV::Eof ==> self.index@ + 1 < self.stream@.len(),
    {
        assert(kind(self.stream@, self.index@ + 0) == kind_ahead(*self.lexer, self.current_token, self.next_token, 0));
        assert(kind(self.stream@, self.index@ + 1) == kind_ahead(*self.lexer, self.current_token, self.next_token, 1));
    }

    /// A quantity that no parsing step increases and that every step past a
    /// token other than `Eof` decreases.
    pub open spec fn measure(&self) -> nat {
        self.lexer.remaining() + weight(self.current_token@) + weight(self.next_token@)
    }

    /// Starts parsing: reads the first two tokens.
    pub fn new(lexer: &'a mut Lexer) -> (p: Parser<'a>)
        requires
            old(lexer).wf(),
            strings_closed(old(lexer).input@, old(lexer).cur()),
        ensures
            p.wf(),
            p.symbols@.len() == 0,
            p.current_token@ == crate::lexer::spec_lex(old(lexer).input@, old(lexer).cur()).0,
            p.index@ == 0,
            forall|k: nat| #[trigger] kind(p.stream@, k) == lex_nth(old(lexer).input@, old(lexer).cur(), k).0,
    {
        let ghost input = lexer.input@;
        let ghost c0 = lexer.cur();
        proof {
            lemma_strings_closed_step(input, c0);
        }
        let current_token = lexer.next_token();
        let ghost c1 = lexer.cur();
        proof {
            lemma_strings_closed_step(input, c1);
        }
        let next_token = lexer.next_token();
        proof {
            lemma_strings_closed_step(input, lexer.cur());
        }
        let ghost c2 = lexer.cur();
        let ghost n = input.len();
        let ghost stream = Seq::new(n + 3, |k: int| lex_nth(input, c0, k as nat));
        let p = Parser { lexer, current_token, next_token, symbols: Vec::new(), stream: Ghost(stream), index: Ghost(0) };
        proof {
            lemma_lex_nth_end(input, c0, (n + 2) as nat);
            assert forall|k: nat| #[trigger] kind(p.stream@, k) == lex_nth(input, c0, k).0 by {
                if k >= n + 3 {
                    lemma_lex_nth_end(input, c0, k);
                }
            }
            assert forall|k: nat| kind(p.stream@, p.index@ + k) == #[trigger] kind_ahead(*p.lexer, p.current_token, p.next_token, k) by {
                assert(kind(p.stream@, k) == lex_nth(input, c0, k).0);
                if k >= 1 {
                    assert(lex_nth(input, c0, k) == lex_nth(input, c1, (k - 1) as nat));
                }
                if k >= 2 {
                    assert(lex_nth(input, c1, (k - 1) as nat) == lex_nth(input, c2, (k - 2) as nat));
                }
            }
        }
        p
    }

    /// Moves to the next token.
    pub fn step(&mut self)
        requires
            old(self).wf(),
        ensures
            final(self).wf(),
            final(self).current_token@ == old(self).next_token@,
            final(self).symbols == old(self).symbols,
            final(self).measure() <= old(self).measure(),
            old(self).current_token@ != TokenV::Eof ==> final(self).measure() < old(self).measure(),
            final(self).stream@ == old(self).stream@,
            final(self).index@ == old(self).index@ + 1,
    {
        let ghost before = *self;
        proof {
            lemma_strings_closed_step(self.lexer.input@, self.lexer.cur());
        }
        let mut t = self.lexer.next_token();
        std::mem::swap(&mut self.next_token, &mut t);
        self.current_token = t;
        self.index = Ghost((self.index@ + 1) as nat);
        proof {
            assert forall|k: nat| kind(self.stream@, self.index@ + k) == #[trigger] kind_ahead(*self.lexer, self.current_token, self.next_token, k) by {
                assert(kind_ahead(*self.lexer, self.current_token, self.next_token, k)
                    == kind_ahead(*before.lexer, before.current_token, before.next_token, k + 1));
                assert(kind(before.stream@, (before.index@ + (k + 1)) as nat) == kind_ahead(*before.lexer, before.current_token, before.next_token, k + 1));
            }
        }
    }

    /// Moves to the next token and returns the one that was current.
    pub fn eat(&mut self) -> (t: Token)
        requires
            old(self).wf(),
        ensures
            final(self).wf(),
            t@ == old(self).current_token@,
            final(self).current_token@ == old(self).next_token@,
            final(self).symbols == old(self).symbols,
            final(self).measure() <= old(self).measure(),
            old(self).current_token@ != TokenV::Eof ==> final(self).measure() < old(self).measure(),
            final(self).stream@ == old(self).stream@,
            final(self).index@ == old(self).index@ + 1,
    {
        let prev_token = self.current_token.duplicate();
        self.step();
        prev_token
    }

    /// Whether the current token is `token`.
    pub fn current_token(&self, token: Token) -> (r: bool)
        ensures
            r == (self.current_token@ == token@),
    {
        self.current_token.same(&token)
    }

    /// Whether the token after the current one is `token`.
    pub fn next_token(&self, token: Token) -> (r: bool)
        ensures
            r == (self.next_token@ == token@),
    {
        self.next_token.same(&token)
    }
}

} // verus!
