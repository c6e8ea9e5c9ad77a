//! Lexical analysis: turns the bytes of a source text into a stream of tokens,
//! each with the span of bytes it was read from. Blanks and comments
//! (from `#` to the end of the line) are skipped.
use vstd::prelude::*;

pub use self::token::{Token, TokenV};
use self::token::{is_keyword, is_symbol, law_byte_token_spells_its_byte, law_pair_token_spells_its_bytes, law_word_token_spells_its_word, spec_fixed_text, spec_token_of_byte, spec_token_of_pair, spec_token_of_word};
use crate::span::Span;
use crate::text::string_of_chars;
use vstd::string::StringSliceAdditionalSpecFns;

pub mod token;

verus! {

/// The byte that stands for the end of the input.
pub const EOF: u8 = 0;

/// The byte at index `i`, or `EOF` past the end of the input.
pub open spec fn byte_at(s: Seq<u8>, i: int) -> u8 {
    if 0 <= i < s.len() { s[i] } else { 0 }
}

/// Blank characters: tab, form feed, carriage return and space (not newline).
pub open spec fn spec_is_whitespace(b: u8) -> bool {
    b == 9 || b == 12 || b == 13 || b == 32
}

pub open spec fn spec_is_digit(b: u8) -> bool {
    48 <= b <= 57
}

pub open spec fn spec_is_alpha(b: u8) -> bool {
    (65 <= b <= 90) || (97 <= b <= 122)
}

pub open spec fn spec_is_alnum(b: u8) -> bool {
    spec_is_digit(b) || spec_is_alpha(b)
}

/// The index after `i` in a text of length `n`: never past `n`.
pub open spec fn adv(n: int, i: int) -> int {
    if i < n { i + 1 } else { n }
}

/// The first index at or after `i` that holds no blank.
pub open spec fn skip_ws(s: Seq<u8>, i: int) -> int
    decreases s.len() - i,
{
    if 0 <= i < s.len() && spec_is_whitespace(s[i]) { skip_ws(s, i + 1) } else { i }
}

/// The first index at or after `i` that holds a newline, a NUL byte or is the end.
pub open spec fn line_end(s: Seq<u8>, i: int) -> int
    decreases s.len() - i,
{
    if 0 <= i < s.len() && s[i] != 10 && s[i] != 0 { line_end(s, i + 1) } else { i }
}

/// Skips a comment that starts at `i`, if any.
pub open spec fn skip_comment(s: Seq<u8>, i: int) -> int {
    if byte_at(s, i) == 35 { line_end(s, i) } else { i }
}

/// The index of the last digit of the run of digits that starts at `i`.
pub open spec fn digits_end(s: Seq<u8>, i: int) -> int
    decreases s.len() - i,
{
    if 0 <= i && i + 1 < s.len() && spec_is_digit(s[i + 1]) { digits_end(s, i + 1) } else { i }
}

/// The index of the last character of the identifier that starts at `i`.
pub open spec fn ident_end(s: Seq<u8>, i: int) -> int
    decreases s.len() - i,
{
    if 0 <= i && i + 1 < s.len() && spec_is_alnum(s[i + 1]) { ident_end(s, i + 1) } else { i }
}

/// The first index at or after `i` that holds a double quote, a NUL byte or is the end.
pub open spec fn string_stop(s: Seq<u8>, i: int) -> int
    decreases s.len() - i,
{
    if 0 <= i < s.len() && s[i] != 34 && s[i] != 0 { string_stop(s, i + 1) } else { i }
}

/// The bytes `s[a..b]` read as characters.
pub open spec fn chars_of(s: Seq<u8>, a: int, b: int) -> Seq<char> {
    s.subrange(a, b).map_values(|x: u8| x as char)
}

/// Where the next token starts when the current byte is at `i`.
pub open spec fn token_start(s: Seq<u8>, i: int) -> int {
    skip_comment(s, skip_ws(s, i))
}

/// The next token read when the current byte is at index `i`: the token, the
/// indices of its first and last byte, and the index of the current byte afterwards.
pub open spec fn spec_lex(s: Seq<u8>, i: int) -> (TokenV, int, int, int) {
    let n = s.len() as int;
    let b = token_start(s, i);
    let c = byte_at(s, b);
    if c == 34 {
        let e = string_stop(s, b + 1);
        (TokenV::Str(chars_of(s, b + 1, e)), b, e, adv(n, e))
    } else if spec_is_digit(c) {
        let e = digits_end(s, b);
        (TokenV::Int(chars_of(s, b, e + 1)), b, e, adv(n, e))
    } else if spec_is_alpha(c) {
        let e = ident_end(s, b);
        (spec_token_of_word(chars_of(s, b, e + 1)), b, e, adv(n, e))
    } else if (c == 61 || c == 33 || c == 62 || c == 60) && byte_at(s, b + 1) == 61 {
        (spec_token_of_pair(c, 61), b, b + 1, adv(n, b + 1))
    } else {
        (spec_token_of_byte(c), b, b, adv(n, b))
    }
}

/// Whether the token that starts at or after `i` is a string with no
/// closing quote (the input ends, or a NUL byte comes, first).
pub open spec fn opens_unclosed_string(s: Seq<u8>, i: int) -> bool {
    let b = token_start(s, i);
    byte_at(s, b) == 34 && byte_at(s, string_stop(s, b + 1)) != 34
}

/// Where the current byte is after `k` tokens are read from `i`.
pub open spec fn lex_pos(s: Seq<u8>, i: int, k: nat) -> int
    decreases k,
{
    if k == 0 {
        i
    } else {
        lex_pos(s, spec_lex(s, i).3, (k - 1) as nat)
    }
}

/// Every string that the lexer reads from `i` on has its closing quote.
pub open spec fn strings_closed(s: Seq<u8>, i: int) -> bool {
    forall|k: nat| !opens_unclosed_string(s, #[trigger] lex_pos(s, i, k))
}

/// Strings are closed from `i` on exactly when the next token is no unclosed
/// string and strings are closed from where it ends.
pub proof fn lemma_strings_closed_step(s: Seq<u8>, i: int)
    ensures
        strings_closed(s, i) == (!opens_unclosed_string(s, i) && strings_closed(s, spec_lex(s, i).3)),
{
    let j = spec_lex(s, i).3;
    if strings_closed(s, i) {
        assert(lex_pos(s, i, 0) == i);
        assert forall|k: nat| !opens_unclosed_string(s, #[trigger] lex_pos(s, j, k)) by {
            assert(lex_pos(s, i, k + 1) == lex_pos(s, j, k));
        }
    }
    if !opens_unclosed_string(s, i) && strings_closed(s, j) {
        assert forall|k: nat| !opens_unclosed_string(s, #[trigger] lex_pos(s, i, k)) by {
            if k > 0 {
                assert(lex_pos(s, i, k) == lex_pos(s, j, (k - 1) as nat));
            }
        }
    }
}

/// At the end of the input nothing more is read, so no string is open.
pub proof fn lemma_strings_closed_at_end(s: Seq<u8>)
    ensures
        strings_closed(s, s.len() as int),
{
    let n = s.len() as int;
    assert forall|k: nat| !opens_unclosed_string(s, #[trigger] lex_pos(s, n, k)) by {
        lemma_lex_pos_at_end(s, k);
    }
}

proof fn lemma_lex_pos_at_end(s: Seq<u8>, k: nat)
    ensures
        lex_pos(s, s.len() as int, k) == s.len(),
    decreases k,
{
    lemma_lex_at_end(s);
    if k > 0 {
        lemma_lex_pos_at_end(s, (k - 1) as nat);
    }
}

/// The first index at or after `i` that holds no blank.
fn skip_ws_from(s: &Vec<u8>, i: usize) -> (r: usize)
    requires
        i <= s@.len(),
    ensures
        r == skip_ws(s@, i as int),
{
    let mut j = i;
    while j < s.len() && (s[j] == 9 || s[j] == 12 || s[j] == 13 || s[j] == 32)
        invariant
            i <= j <= s@.len(),
            skip_ws(s@, j as int) == skip_ws(s@, i as int),
        decreases s@.len() - j,
    {
        j = j + 1;
    }
    j
}

/// Past a comment that starts at `i`, if any.
fn skip_comment_from(s: &Vec<u8>, i: usize) -> (r: usize)
    requires
        i <= s@.len(),
    ensures
        r == skip_comment(s@, i as int),
{
    if i < s.len() && s[i] == 35 {
        let mut j = i;
        while j < s.len() && s[j] != 10 && s[j] != 0
            invariant
                i <= j <= s@.len(),
                line_end(s@, j as int) == line_end(s@, i as int),
            decreases s@.len() - j,
        {
            j = j + 1;
        }
        j
    } else {
        i
    }
}

/// The first index at or after `i` that holds a double quote, a NUL byte or is the end.
fn string_stop_from(s: &Vec<u8>, i: usize) -> (r: usize)
    requires
        i <= s@.len(),
    ensures
        r == string_stop(s@, i as int),
{
    let mut j = i;
    while j < s.len() && s[j] != 34 && s[j] != 0
        invariant
            i <= j <= s@.len(),
            string_stop(s@, j as int) == string_stop(s@, i as int),
        decreases s@.len() - j,
    {
        j = j + 1;
    }
    j
}

/// Whether the token that starts at or after `i` is a string with no closing quote.
fn unclosed_string_at(s: &Vec<u8>, i: usize) -> (r: bool)
    requires
        i <= s@.len(),
    ensures
        r == opens_unclosed_string(s@, i as int),
{
    proof {
        lemma_skip_ws_bounds(s@, i as int);
        lemma_line_end_bounds(s@, skip_ws(s@, i as int));
    }
    let b = skip_comment_from(s, skip_ws_from(s, i));
    if b < s.len() && s[b] == 34 {
        let e = string_stop_from(s, b + 1);
        !(e < s.len() && s[e] == 34)
    } else {
        false
    }
}

/// Whether every string in a text has its closing quote: whether the lexer
/// can read the whole text.
pub fn strings_close(input: &Vec<u8>) -> (r: bool)
    requires
        input@.len() < usize::MAX,
    ensures
        r == strings_closed(input@, 0),
{
    let ghost s = input@;
    let mut lexer = Lexer::from_bytes(input.clone());
    proof {
        assert(lexer.input@ =~= s);
    }
    while lexer.position - 1 < lexer.input.len()
        invariant
            lexer.wf(),
            lexer.input@ == s,
            s == input@,
            strings_closed(s, 0) == strings_closed(s, lexer.cur()),
        decreases lexer.remaining(),
    {
        proof {
            lemma_strings_closed_step(s, lexer.cur());
            lemma_lex_advances(s, lexer.cur());
        }
        if unclosed_string_at(&lexer.input, lexer.position - 1) {
            return false;
        }
        lexer.next_spanned();
    }
    proof {
        lemma_strings_closed_at_end(s);
    }
    true
}

/// Iterator used to lex compiler input.
///
/// `ch` is the current byte, `position` the index one past it.
pub struct Lexer {
    /// Source input
    pub input: Vec<u8>,
    /// One past the index of the current byte
    pub position: usize,
    /// Current byte being read
    pub ch: u8,
}

impl Lexer {
    /// The lexer's invariant: the current byte is the one before `position`.
    pub open spec fn wf(&self) -> bool {
        &&& self.input@.len() < usize::MAX
        &&& 1 <= self.position <= self.input@.len() + 1
        &&& self.ch == byte_at(self.input@, self.position - 1)
    }

    /// The index of the current byte.
    pub open spec fn cur(&self) -> int {
        self.position - 1
    }

    /// How many bytes are left to read, the current one included.
    pub open spec fn remaining(&self) -> nat {
        (self.input@.len() - self.cur()) as nat
    }

    /// Creates a new lexer from the bytes of the input source code.
    pub fn from_bytes(input: Vec<u8>) -> (lex: Lexer)
        requires
            input@.len() < usize::MAX,
        ensures
            lex.wf(),
            lex.input@ == input@,
            lex.cur() == 0,
    {
        let mut lex = Lexer { input, position: 0, ch: EOF };
        lex.read_char();
        lex
    }

    /// Creates a new lexer from the input source code.
    pub fn new(input: String) -> (lex: Lexer)
        requires
            vstd::utf8::encode_utf8(input@).len() < usize::MAX,
        ensures
            lex.wf(),
            lex.input@ == vstd::utf8::encode_utf8(input@),
            lex.cur() == 0,
    {
        let bytes = vstd::slice::slice_to_vec(input.as_str().as_bytes());
        Lexer::from_bytes(bytes)
    }

    /// Returns the next byte without bumping the current position.
    pub fn peek(&self) -> (b: u8)
        requires
            self.position <= self.input@.len() + 1,
        ensures
            b == byte_at(self.input@, self.position as int),
    {
        if self.position >= self.input.len() {
            return EOF;
        }
        self.input[self.position]
    }

    /// Bumps the current byte being read; at the end it stays at `EOF`.
    pub fn read_char(&mut self)
        requires
            old(self).input@.len() < usize::MAX,
            old(self).position <= old(self).input@.len() + 1,
        ensures
            final(self).input == old(self).input,
            final(self).wf(),
            final(self).cur() == if old(self).position == 0 { 0 } else {
                adv(old(self).input@.len() as int, old(self).cur())
            },
    {
        if self.position >= self.input.len() {
            self.ch = EOF;
        } else {
            self.ch = self.input[self.position];
        }
        if self.position <= self.input.len() {
            self.position = self.position + 1;
        }
    }

    /// Returns true if the byte is a blank (not a newline).
    pub fn is_whitespace(ch: u8) -> (r: bool)
        ensures
            r == spec_is_whitespace(ch),
    {
        ch == 9 || ch == 12 || ch == 13 || ch == 32
    }

    /// Skips a run of blanks and returns the whitespace token.
    pub fn whitespace(&mut self) -> (t: Token)
        requires
            old(self).wf(),
        ensures
            final(self).wf(),
            final(self).input == old(self).input,
            final(self).cur() == skip_ws(old(self).input@, old(self).cur()),
            t == Token::Whitespace,
    {
        while Self::is_whitespace(self.ch)
            invariant
                self.wf(),
                self.input == old(self).input,
                skip_ws(self.input@, self.cur()) == skip_ws(self.input@, old(self).cur()),
            decreases self.remaining(),
        {
            self.read_char();
        }
        Token::Whitespace
    }

    /// Skips all input after a comment character until a newline or the end.
    pub fn skip_comment(&mut self)
        requires
            old(self).wf(),
        ensures
            final(self).wf(),
            final(self).input == old(self).input,
            final(self).cur() == skip_comment(old(self).input@, old(self).cur()),
    {
        if self.ch == 35 {
            while self.ch != 10 && self.ch != EOF
                invariant
                    self.wf(),
                    self.input == old(self).input,
                    line_end(self.input@, self.cur()) == line_end(self.input@, old(self).cur()),
                decreases self.remaining(),
            {
                self.read_char();
            }
        }
    }

    /// Reads a string literal whose opening quote is the current byte, and
    /// returns its contents. The closing quote must come before the end of the
    /// input (and before any NUL byte).
    pub fn read_string(&mut self) -> (r: String)
        requires
            old(self).wf(),
            old(self).ch == 34,
            byte_at(old(self).input@, string_stop(old(self).input@, old(self).cur() + 1)) == 34,
        ensures
            final(self).wf(),
            final(self).input == old(self).input,
            final(self).cur() == string_stop(old(self).input@, old(self).cur() + 1),
            r@ == chars_of(old(self).input@, old(self).cur() + 1, string_stop(old(self).input@, old(self).cur() + 1)),
    {
        let ghost s = self.input@;
        let ghost start = self.cur() + 1;
        let mut chars: Vec<char> = Vec::new();
        self.read_char();
        while self.ch != 34 && self.ch != EOF
            invariant
                self.wf(),
                self.input == old(self).input,
                s == self.input@,
                0 <= start <= self.cur() <= s.len(),
                string_stop(s, self.cur()) == string_stop(s, start),
                chars@ == chars_of(s, start, self.cur()),
            decreases self.remaining(),
        {
            proof { lemma_chars_of_push(s, start, self.cur()); }
            chars.push(self.ch as char);
            self.read_char();
        }
        string_of_chars(&chars)
    }

    /// Reads the run of digits that starts at the current byte.
    pub fn read_integer(&mut self) -> (r: String)
        requires
            old(self).wf(),
            spec_is_digit(old(self).ch),
        ensures
            final(self).wf(),
            final(self).input == old(self).input,
            final(self).cur() == digits_end(old(self).input@, old(self).cur()),
            r@ == chars_of(old(self).input@, old(self).cur(), final(self).cur() + 1),
    {
        let ghost s = self.input@;
        let ghost start = self.cur();
        let mut chars: Vec<char> = Vec::new();
        loop
            invariant_except_break
                chars@ == chars_of(s, start, self.cur()),
            invariant
                self.wf(),
                self.input == old(self).input,
                s == self.input@,
                0 <= start <= self.cur() < s.len(),
                spec_is_digit(self.ch),
                digits_end(s, self.cur()) == digits_end(s, start),
            ensures
                self.wf(),
                self.input == old(self).input,
                self.cur() == digits_end(s, start),
                chars@ == chars_of(s, start, self.cur() + 1),
            decreases self.remaining(),
        {
            proof { lemma_chars_of_push(s, start, self.cur()); }
            chars.push(self.ch as char);
            let next = self.peek();
            if !(48 <= next && next <= 57) {
                break;
            }
            self.read_char();
        }
        string_of_chars(&chars)
    }

    /// Reads the identifier (letters and digits) that starts at the current byte.
    pub fn read_identifier(&mut self) -> (r: String)
        requires
            old(self).wf(),
            spec_is_alpha(old(self).ch),
        ensures
            final(self).wf(),
            final(self).input == old(self).input,
            final(self).cur() == ident_end(old(self).input@, old(self).cur()),
            r@ == chars_of(old(self).input@, old(self).cur(), final(self).cur() + 1),
    {
        let ghost s = self.input@;
        let ghost start = self.cur();
        let mut chars: Vec<char> = Vec::new();
        loop
            invariant_except_break
                chars@ == chars_of(s, start, self.cur()),
            invariant
                self.wf(),
                self.input == old(self).input,
                s == self.input@,
                0 <= start <= self.cur() < s.len(),
                spec_is_alnum(self.ch),
                ident_end(s, self.cur()) == ident_end(s, start),
            ensures
                self.wf(),
                self.input == old(self).input,
                self.cur() == ident_end(s, start),
                chars@ == chars_of(s, start, self.cur() + 1),
            decreases self.remaining(),
        {
            proof { lemma_chars_of_push(s, start, self.cur()); }
            chars.push(self.ch as char);
            let next = self.peek();
            if !((48 <= next && next <= 57) || (65 <= next && next <= 90) || (97 <= next
                && next <= 122)) {
                break;
            }
            self.read_char();
        }
        string_of_chars(&chars)
    }

    /// Returns the next token and the span of bytes it was read from.
    pub fn next_spanned(&mut self) -> (r: (Token, Span))
        requires
            old(self).wf(),
            !opens_unclosed_string(old(self).input@, old(self).cur()),
        ensures
            final(self).wf(),
            final(self).input == old(self).input,
            ({
                let (t, a, b, j) = spec_lex(old(self).input@, old(self).cur());
                &&& r.0@ == t
                &&& r.1.start == a
                &&& r.1.end == b
                &&& final(self).cur() == j
            }),
            r.1.start <= r.1.end <= old(self).input@.len(),
            final(self).remaining() <= old(self).remaining(),
            r.0@ != TokenV::Eof ==> final(self).remaining() < old(self).remaining(),
            old(self).remaining() == 0 ==> r.0@ == TokenV::Eof,
    {
        let ghost s = self.input@;
        let ghost n = s.len() as int;
        self.whitespace();
        self.skip_comment();
        let ghost b = self.cur();
        let start_position = self.position - 1;
        let token = if self.ch == 34 {
            Token::String(self.read_string())
        } else if 48 <= self.ch && self.ch <= 57 {
            Token::Int(self.read_integer())
        } else if (65 <= self.ch && self.ch <= 90) || (97 <= self.ch && self.ch <= 122) {
            Token::from_word(self.read_identifier())
        } else if (self.ch == 61 || self.ch == 33 || self.ch == 62 || self.ch == 60) && self.peek()
            == 61 {
            let prev_ch = self.ch;
            self.read_char();
            Token::from_pair(prev_ch, self.ch)
        } else {
            Token::from_byte(self.ch)
        };
        let span = Span::new(start_position, self.position - 1);
        self.read_char();
        proof {
            lemma_lex_progress(s, old(self).cur());
        }
        (token, span)
    }

    /// Returns the next token.
    pub fn next_token(&mut self) -> (t: Token)
        requires
            old(self).wf(),
            !opens_unclosed_string(old(self).input@, old(self).cur()),
        ensures
            final(self).wf(),
            final(self).input == old(self).input,
            t@ == spec_lex(old(self).input@, old(self).cur()).0,
            final(self).cur() == spec_lex(old(self).input@, old(self).cur()).3,
            final(self).remaining() <= old(self).remaining(),
            t@ != TokenV::Eof ==> final(self).remaining() < old(self).remaining(),
    {
        self.next_spanned().0
    }
}

pub proof fn lemma_chars_of_push(s: Seq<u8>, a: int, b: int)
    requires
        0 <= a <= b < s.len(),
    ensures
        chars_of(s, a, b + 1) == chars_of(s, a, b).push(s[b] as char),
{
    assert(chars_of(s, a, b + 1) =~= chars_of(s, a, b).push(s[b] as char));
}

pub proof fn lemma_string_stop_bounds(s: Seq<u8>, i: int)
    requires
        0 <= i <= s.len(),
    ensures
        i <= string_stop(s, i) <= s.len(),
    decreases s.len() - i,
{
    if 0 <= i < s.len() && s[i] != 34 && s[i] != 0 {
        lemma_string_stop_bounds(s, i + 1);
    }
}

pub proof fn lemma_digits_end_bounds(s: Seq<u8>, i: int)
    requires
        0 <= i < s.len(),
    ensures
        i <= digits_end(s, i) < s.len(),
    decreases s.len() - i,
{
    if 0 <= i && i + 1 < s.len() && spec_is_digit(s[i + 1]) {
        lemma_digits_end_bounds(s, i + 1);
    }
}

pub proof fn lemma_ident_end_bounds(s: Seq<u8>, i: int)
    requires
        0 <= i < s.len(),
    ensures
        i <= ident_end(s, i) < s.len(),
    decreases s.len() - i,
{
    if 0 <= i && i + 1 < s.len() && spec_is_alnum(s[i + 1]) {
        lemma_ident_end_bounds(s, i + 1);
    }
}

/// The `k`-th token (with the indices of its first and last byte) that the
/// lexer reads when its current byte is at index `i`.
pub open spec fn lex_nth(s: Seq<u8>, i: int, k: nat) -> (TokenV, int, int)
    decreases k,
{
    let (t, a, b, j) = spec_lex(s, i);
    if k == 0 {
        (t, a, b)
    } else {
        lex_nth(s, j, (k - 1) as nat)
    }
}

/// Before the end of the input, reading a token always moves forward.
pub proof fn lemma_lex_advances(s: Seq<u8>, i: int)
    requires
        0 <= i < s.len(),
    ensures
        i < spec_lex(s, i).3 <= s.len(),
{
    lemma_lex_progress(s, i);
}

/// At the end of the input the lexer reads `Eof` and stays where it is.
pub proof fn lemma_lex_at_end(s: Seq<u8>)
    ensures
        spec_lex(s, s.len() as int) == (TokenV::Eof, s.len() as int, s.len() as int, s.len() as int),
{
}

/// Once enough tokens are read, every further one is `Eof` at the end of the input.
pub proof fn lemma_lex_nth_end(s: Seq<u8>, i: int, k: nat)
    requires
        0 <= i <= s.len(),
        k >= s.len() - i,
    ensures
        lex_nth(s, i, k) == (TokenV::Eof, s.len() as int, s.len() as int),
    decreases k,
{
    if i == s.len() {
        lemma_lex_at_end(s);
        if k > 0 {
            lemma_lex_nth_end(s, i, (k - 1) as nat);
        }
    } else {
        lemma_lex_advances(s, i);
        lemma_lex_nth_end(s, spec_lex(s, i).3, (k - 1) as nat);
    }
}

/// Reading a token never moves backwards, moves forward unless the token is
/// the end of the input, and at the end of the input the token is `Eof`.
pub proof fn lemma_lex_progress(s: Seq<u8>, i: int)
    requires
        0 <= i <= s.len(),
    ensures
        ({
            let (t, a, b, j) = spec_lex(s, i);
            &&& i <= a <= b
            &&& b <= s.len()
            &&& i <= j <= s.len()
            &&& t != TokenV::Eof ==> i < j
            &&& i == s.len() ==> t == TokenV::Eof
        }),
{
    lemma_skip_ws_bounds(s, i);
    lemma_line_end_bounds(s, skip_ws(s, i));
    let b = token_start(s, i);
    if b < s.len() {
        if s[b] == 34 {
            lemma_string_stop_bounds(s, b + 1);
        } else if spec_is_digit(s[b]) {
            lemma_digits_end_bounds(s, b);
        } else if spec_is_alpha(s[b]) {
            lemma_ident_end_bounds(s, b);
        }
    }
}

pub proof fn lemma_skip_ws_bounds(s: Seq<u8>, i: int)
    requires
        0 <= i <= s.len(),
    ensures
        i <= skip_ws(s, i) <= s.len(),
    decreases s.len() - i,
{
    if 0 <= i < s.len() && spec_is_whitespace(s[i]) {
        lemma_skip_ws_bounds(s, i + 1);
    }
}

pub proof fn lemma_line_end_bounds(s: Seq<u8>, i: int)
    requires
        0 <= i <= s.len(),
    ensures
        i <= line_end(s, i) <= s.len(),
    decreases s.len() - i,
{
    if 0 <= i < s.len() && s[i] != 10 && s[i] != 0 {
        lemma_line_end_bounds(s, i + 1);
    }
}

/// Each token spells the bytes of its span: an operator or punctuation mark
/// is the token whose text is exactly those bytes, a keyword is one whose
/// text they spell (ignoring ASCII case), an identifier holds them.
pub proof fn law_token_spells_its_span(s: Seq<u8>, i: int)
    ensures
        ({
            let (t, a, e, _) = spec_lex(s, i);
            &&& (is_symbol(t) || is_keyword(t) || t is Ident) ==> 0 <= a <= e < s.len()
            &&& is_symbol(t) ==> spec_fixed_text(t) == chars_of(s, a, e + 1)
            &&& is_keyword(t) ==> crate::text::ieq(chars_of(s, a, e + 1), spec_fixed_text(t))
            &&& t matches TokenV::Ident(w) ==> w == chars_of(s, a, e + 1)
        }),
{
    let b = token_start(s, i);
    let c = byte_at(s, b);
    let (t, a, e, _) = spec_lex(s, i);
    if c == 34 || spec_is_digit(c) {
    } else if spec_is_alpha(c) {
        assert(0 <= b < s.len());
        lemma_ident_end_bounds(s, b);
        let w = chars_of(s, b, e + 1);
        assert(w[0] == c as char);
        law_word_token_spells_its_word(w);
        if is_symbol(t) {
            assert(spec_fixed_text(t)[0] == w[0]);
        }
    } else if (c == 61 || c == 33 || c == 62 || c == 60) && byte_at(s, b + 1) == 61 {
        assert(0 <= b && b + 1 < s.len());
        law_pair_token_spells_its_bytes(c, 61);
        assert(chars_of(s, b, b + 2) =~= seq![c as char, 61u8 as char]);
    } else {
        law_byte_token_spells_its_byte(c);
        if is_symbol(t) {
            assert(0 <= b < s.len());
            assert(chars_of(s, b, b + 1) =~= seq![c as char]);
        }
    }
}

proof fn lemma_digit_run(s: Seq<u8>, i: int)
    requires
        0 <= i < s.len(),
    ensures
        forall|k: int| i < k <= digits_end(s, i) ==> spec_is_digit(#[trigger] s[k]),
        digits_end(s, i) + 1 < s.len() ==> !spec_is_digit(s[digits_end(s, i) + 1]),
    decreases s.len() - i,
{
    if i + 1 < s.len() && spec_is_digit(s[i + 1]) {
        lemma_digit_run(s, i + 1);
    }
}

proof fn lemma_ident_run(s: Seq<u8>, i: int)
    requires
        0 <= i < s.len(),
    ensures
        forall|k: int| i < k <= ident_end(s, i) ==> spec_is_alnum(#[trigger] s[k]),
        ident_end(s, i) + 1 < s.len() ==> !spec_is_alnum(s[ident_end(s, i) + 1]),
    decreases s.len() - i,
{
    if i + 1 < s.len() && spec_is_alnum(s[i + 1]) {
        lemma_ident_run(s, i + 1);
    }
}

/// A byte that can stand inside a string: neither a quote nor NUL.
pub open spec fn string_byte(b: u8) -> bool {
    b != 34 && b != 0
}

proof fn lemma_string_run(s: Seq<u8>, i: int, k: int)
    requires
        0 <= i <= k < string_stop(s, i),
    ensures
        0 <= k < s.len(),
        string_byte(byte_at(s, k)),
    decreases k - i,
{
    if k > i {
        assert(string_stop(s, i) == string_stop(s, i + 1));
        lemma_string_run(s, i + 1, k);
    }
}

proof fn lemma_string_end(s: Seq<u8>, i: int)
    requires
        0 <= i,
    ensures
        i <= string_stop(s, i),
        !string_byte(byte_at(s, string_stop(s, i))),
    decreases s.len() - i,
{
    if 0 <= i < s.len() && s[i] != 34 && s[i] != 0 {
        lemma_string_end(s, i + 1);
    }
}

/// A number is the longest run of digits at its start, and a word the
/// longest run of letters and digits that starts with a letter; a string
/// holds the bytes after its opening quote up to its closing quote (or the
/// end of the input).
pub proof fn law_literals_take_longest_runs(s: Seq<u8>, i: int)
    ensures
        ({
            let (t, a, e, _) = spec_lex(s, i);
            &&& t matches TokenV::Int(v) ==> {
                &&& 0 <= a <= e < s.len()
                &&& v == chars_of(s, a, e + 1)
                &&& forall|k: int| a <= k <= e ==> spec_is_digit(#[trigger] s[k])
                &&& e + 1 < s.len() ==> !spec_is_digit(s[e + 1])
            }
            &&& (t is Ident || is_keyword(t)) ==> {
                &&& 0 <= a <= e < s.len()
                &&& spec_is_alpha(s[a])
                &&& forall|k: int| a <= k <= e ==> spec_is_alnum(#[trigger] s[k])
                &&& e + 1 < s.len() ==> !spec_is_alnum(s[e + 1])
            }
            &&& t matches TokenV::Str(v) ==> {
                &&& byte_at(s, a) == 34
                &&& v == chars_of(s, a + 1, e)
                &&& forall|k: int| a < k < e ==> string_byte(#[trigger] byte_at(s, k))
                &&& !string_byte(byte_at(s, e))
            }
        }),
{
    let b = token_start(s, i);
    let c = byte_at(s, b);
    law_token_spells_its_span(s, i);
    if c == 34 {
        lemma_string_end(s, b + 1);
        assert forall|k: int| b < k < string_stop(s, b + 1) implies string_byte(#[trigger] byte_at(s, k)) by {
            lemma_string_run(s, b + 1, k);
        }
    } else if spec_is_digit(c) {
        lemma_digits_end_bounds(s, b);
        lemma_digit_run(s, b);
    } else if spec_is_alpha(c) {
        lemma_ident_end_bounds(s, b);
        lemma_ident_run(s, b);
        let w = chars_of(s, b, ident_end(s, b) + 1);
        law_word_token_spells_its_word(w);
    }
}

proof fn lemma_ws_run(s: Seq<u8>, i: int, k: int)
    requires
        0 <= i <= k < skip_ws(s, i),
    ensures
        0 <= k < s.len(),
        spec_is_whitespace(s[k]),
    decreases k - i,
{
    if k > i {
        lemma_ws_run(s, i + 1, k);
    }
}

proof fn lemma_ws_end(s: Seq<u8>, i: int)
    requires
        0 <= i,
    ensures
        i <= skip_ws(s, i),
        !spec_is_whitespace(byte_at(s, skip_ws(s, i))),
    decreases s.len() - i,
{
    if 0 <= i < s.len() && spec_is_whitespace(s[i]) {
        lemma_ws_end(s, i + 1);
    }
}

/// A byte that can stand inside a comment: neither a newline nor NUL.
pub open spec fn comment_byte(b: u8) -> bool {
    b != 10 && b != 0
}

proof fn lemma_comment_run(s: Seq<u8>, i: int, k: int)
    requires
        0 <= i <= k < line_end(s, i),
    ensures
        0 <= k < s.len(),
        comment_byte(s[k]),
    decreases k - i,
{
    if k > i {
        lemma_comment_run(s, i + 1, k);
    }
}

proof fn lemma_comment_end(s: Seq<u8>, i: int)
    requires
        0 <= i,
    ensures
        i <= line_end(s, i),
        !comment_byte(byte_at(s, line_end(s, i))),
    decreases s.len() - i,
{
    if 0 <= i < s.len() && s[i] != 10 && s[i] != 0 {
        lemma_comment_end(s, i + 1);
    }
}

/// Before a token there are only blanks and at most one comment: the bytes
/// from the current one up to the token are blanks, then, if a `#` follows
/// them, that comment runs up to the token, which is the newline (or the
/// end of the input) that ends it.
pub proof fn law_token_after_blanks_and_comment(s: Seq<u8>, i: int)
    requires
        0 <= i,
    ensures
        ({
            let w = skip_ws(s, i);
            let (t, a, e, _) = spec_lex(s, i);
            &&& i <= w <= a
            &&& forall|k: int| i <= k < w ==> spec_is_whitespace(#[trigger] byte_at(s, k))
            &&& !spec_is_whitespace(byte_at(s, w))
            &&& a > w ==> byte_at(s, w) == 35 && !comment_byte(byte_at(s, a))
                && forall|k: int| w <= k < a ==> comment_byte(#[trigger] byte_at(s, k))
            &&& byte_at(s, w) == 35 ==> a > w
        }),
{
    let w = skip_ws(s, i);
    lemma_ws_end(s, i);
    assert forall|k: int| i <= k < w implies spec_is_whitespace(#[trigger] byte_at(s, k)) by {
        lemma_ws_run(s, i, k);
    }
    if byte_at(s, w) == 35 {
        lemma_comment_end(s, w);
        assert forall|k: int| w <= k < line_end(s, w) implies comment_byte(#[trigger] byte_at(s, k)) by {
            lemma_comment_run(s, w, k);
        }
        assert(line_end(s, w) > w);
    }
}

} // verus!
