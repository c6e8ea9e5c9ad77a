//! Lexical tokens of the Flip language, their spec-level view and the
//! classification of single bytes, byte pairs and words into tokens.
use vstd::prelude::*;

use crate::text::{eq_ignore_case, ieq, push_char, push_str, str_chars};

verus! {

/// Token enum representing a lexical token in the input source.
#[derive(Debug, PartialEq, Eq, Clone)]
pub enum Token {
    // Special
    Assign,
    Ident(String),
    Illegal,
    Eof,
    Newline,
    /// Whitespace sequence of length n
    Whitespace,
    // Literals
    Int(String),
    String(String),
    // Operators
    Equal,
    NotEqual,
    Plus,
    Minus,
    Asterisk,
    ForwardSlash,
    LessThan,
    LessThanEqual,
    GreaterThan,
    GreaterThanEqual,
    // Keywords
    Let,
    If,
    Then,
    Else,
    While,
    Print,
    // Separators
    LParen,
    RParen,
    LBrace,
    RBrace,
    SemiColon,
}

/// The mathematical value of a token: text payloads are sequences of characters.
pub enum TokenV {
    Assign,
    Ident(Seq<char>),
    Illegal,
    Eof,
    Newline,
    Whitespace,
    Int(Seq<char>),
    Str(Seq<char>),
    Equal,
    NotEqual,
    Plus,
    Minus,
    Asterisk,
    ForwardSlash,
    LessThan,
    LessThanEqual,
    GreaterThan,
    GreaterThanEqual,
    Let,
    If,
    Then,
    Else,
    While,
    Print,
    LParen,
    RParen,
    LBrace,
    RBrace,
    SemiColon,
}

impl View for Token {
    type V = TokenV;

    open spec fn view(&self) -> TokenV {
        match self {
            Token::Assign => TokenV::Assign,
            Token::Ident(s) => TokenV::Ident(s@),
            Token::Illegal => TokenV::Illegal,
            Token::Eof => TokenV::Eof,
            Token::Newline => TokenV::Newline,
            Token::Whitespace => TokenV::Whitespace,
            Token::Int(s) => TokenV::Int(s@),
            Token::String(s) => TokenV::Str(s@),
            Token::Equal => TokenV::Equal,
            Token::NotEqual => TokenV::NotEqual,
            Token::Plus => TokenV::Plus,
            Token::Minus => TokenV::Minus,
            Token::Asterisk => TokenV::Asterisk,
            Token::ForwardSlash => TokenV::ForwardSlash,
            Token::LessThan => TokenV::LessThan,
            Token::LessThanEqual => TokenV::LessThanEqual,
            Token::GreaterThan => TokenV::GreaterThan,
            Token::GreaterThanEqual => TokenV::GreaterThanEqual,
            Token::Let => TokenV::Let,
            Token::If => TokenV::If,
            Token::Then => TokenV::Then,
            Token::Else => TokenV::Else,
            Token::While => TokenV::While,
            Token::Print => TokenV::Print,
            Token::LParen => TokenV::LParen,
            Token::RParen => TokenV::RParen,
            Token::LBrace => TokenV::LBrace,
            Token::RBrace => TokenV::RBrace,
            Token::SemiColon => TokenV::SemiColon,
        }
    }
}

/// The token that a single byte stands for.
pub open spec fn spec_token_of_byte(ch: u8) -> TokenV {
    if ch == 61 { TokenV::Assign }
    else if ch == 43 { TokenV::Plus }
    else if ch == 45 { TokenV::Minus }
    else if ch == 42 { TokenV::Asterisk }
    else if ch == 47 { TokenV::ForwardSlash }
    else if ch == 60 { TokenV::LessThan }
    else if ch == 62 { TokenV::GreaterThan }
    else if ch == 10 { TokenV::Newline }
    else if ch == 0 { TokenV::Eof }
    else if ch == 40 { TokenV::LParen }
    else if ch == 41 { TokenV::RParen }
    else if ch == 123 { TokenV::LBrace }
    else if ch == 125 { TokenV::RBrace }
    else if ch == 59 { TokenV::SemiColon }
    else { TokenV::Illegal }
}

/// The token that a two-byte operator stands for: the first byte is one of
/// `=`, `!`, `<`, `>` and the second is `=`.
pub open spec fn spec_token_of_pair(a: u8, b: u8) -> TokenV {
    if b != 61 { TokenV::Illegal }
    else if a == 61 { TokenV::Equal }
    else if a == 33 { TokenV::NotEqual }
    else if a == 60 { TokenV::LessThanEqual }
    else if a == 62 { TokenV::GreaterThanEqual }
    else { TokenV::Illegal }
}

/// The token that a word stands for: a two-character operator, a keyword
/// (compared without regard to ASCII case) or else an identifier.
pub open spec fn spec_token_of_word(w: Seq<char>) -> TokenV {
    if w == seq!['=', '='] { TokenV::Equal }
    else if w == seq!['!', '='] { TokenV::NotEqual }
    else if w == seq!['<', '='] { TokenV::LessThanEqual }
    else if w == seq!['>', '='] { TokenV::GreaterThanEqual }
    else if ieq(w, seq!['l', 'e', 't']) { TokenV::Let }
    else if ieq(w, seq!['i', 'f']) { TokenV::If }
    else if ieq(w, seq!['t', 'h', 'e', 'n']) { TokenV::Then }
    else if ieq(w, seq!['e', 'l', 's', 'e']) { TokenV::Else }
    else if ieq(w, seq!['w', 'h', 'i', 'l', 'e']) { TokenV::While }
    else if ieq(w, seq!['p', 'r', 'i', 'n', 't']) { TokenV::Print }
    else { TokenV::Ident(w) }
}

/// `to_text` of a token that carries no text.
pub open spec fn spec_fixed_text(t: TokenV) -> Seq<char> {
    match t {
        TokenV::Assign => seq!['='],
        TokenV::Illegal => seq!['<', 'I', 'l', 'l', 'e', 'g', 'a', 'l', '>'],
        TokenV::Eof => seq!['E', 'o', 'F'],
        TokenV::Newline => seq!['\\', 'n'],
        TokenV::Whitespace => seq!['\'', ' ', '\''],
        TokenV::Equal => seq!['=', '='],
        TokenV::NotEqual => seq!['!', '='],
        TokenV::Plus => seq!['+'],
        TokenV::Minus => seq!['-'],
        TokenV::Asterisk => seq!['*'],
        TokenV::ForwardSlash => seq!['/'],
        TokenV::LessThan => seq!['<'],
        TokenV::LessThanEqual => seq!['<', '='],
        TokenV::GreaterThan => seq!['>'],
        TokenV::GreaterThanEqual => seq!['>', '='],
        TokenV::Let => seq!['l', 'e', 't'],
        TokenV::If => seq!['i', 'f'],
        TokenV::Then => seq!['t', 'h', 'e', 'n'],
        TokenV::Else => seq!['e', 'l', 's', 'e'],
        TokenV::While => seq!['w', 'h', 'i', 'l', 'e'],
        TokenV::Print => seq!['p', 'r', 'i', 'n', 't'],
        TokenV::LParen => seq!['('],
        TokenV::RParen => seq![')'],
        TokenV::LBrace => seq!['{'],
        TokenV::RBrace => seq!['}'],
        TokenV::SemiColon => seq![';'],
        _ => Seq::empty(),
    }
}

/// Appends the characters of `v` without its leading zeros to `s`.
fn push_without_leading_zeros(s: &mut String, v: &String)
    ensures
        final(s)@ == old(s)@ + without_leading_zeros(v@),
{
    let cs = str_chars(v.as_str());
    let n = cs.len();
    let mut i: usize = 0;
    proof {
        assert(cs@.subrange(0, n as int) =~= cs@);
    }
    while n - i > 1 && cs[i] == '0'
        invariant
            n == cs@.len(),
            cs@ == v@,
            i <= n,
            without_leading_zeros(cs@) == without_leading_zeros(cs@.subrange(i as int, n as int)),
        decreases n - i,
    {
        proof {
            assert(cs@.subrange(i as int, n as int).drop_first() =~= cs@.subrange(i + 1, n as int));
        }
        i = i + 1;
    }
    let ghost start = old(s)@;
    let ghost rest = cs@.subrange(i as int, n as int);
    assert(without_leading_zeros(rest) == rest);
    let mut j: usize = i;
    while j < n
        invariant
            n == cs@.len(),
            i <= j <= n,
            rest == cs@.subrange(i as int, n as int),
            s@ == start + cs@.subrange(i as int, j as int),
        decreases n - j,
    {
        push_char(s, cs[j]);
        proof {
            assert(cs@.subrange(i as int, j + 1) =~= cs@.subrange(i as int, j as int).push(cs@[j as int]));
        }
        j = j + 1;
    }
}

/// Decimal digits without the leading zeros that do not change their value;
/// a lone zero stays.
pub open spec fn without_leading_zeros(v: Seq<char>) -> Seq<char>
    decreases v.len(),
{
    if v.len() > 1 && v[0] == '0' {
        without_leading_zeros(v.drop_first())
    } else {
        v
    }
}

/// The human readable form of a token, as used in diagnostics; an integer
/// shows the number its digits denote, without leading zeros.
pub open spec fn spec_token_text(t: TokenV) -> Seq<char> {
    match t {
        TokenV::Ident(v) => seq!['I', 'd', 'e', 'n', 't', '('] + v + seq![')'],
        TokenV::Int(v) => seq!['I', 'n', 't', 'e', 'g', 'e', 'r', '('] + without_leading_zeros(v) + seq![')'],
        TokenV::Str(v) => seq!['S', 't', 'r', 'i', 'n', 'g', '('] + v + seq![')'],
        _ => spec_fixed_text(t),
    }
}

impl Token {
    /// The token that a single byte stands for.
    pub fn from_byte(ch: u8) -> (t: Token)
        ensures
            t@ == spec_token_of_byte(ch),
    {
        if ch == 61 { Token::Assign }
        else if ch == 43 { Token::Plus }
        else if ch == 45 { Token::Minus }
        else if ch == 42 { Token::Asterisk }
        else if ch == 47 { Token::ForwardSlash }
        else if ch == 60 { Token::LessThan }
        else if ch == 62 { Token::GreaterThan }
        else if ch == 10 { Token::Newline }
        else if ch == 0 { Token::Eof }
        else if ch == 40 { Token::LParen }
        else if ch == 41 { Token::RParen }
        else if ch == 123 { Token::LBrace }
        else if ch == 125 { Token::RBrace }
        else if ch == 59 { Token::SemiColon }
        else { Token::Illegal }
    }

    /// The token that a two-byte operator stands for.
    pub fn from_pair(a: u8, b: u8) -> (t: Token)
        ensures
            t@ == spec_token_of_pair(a, b),
    {
        if b != 61 { Token::Illegal }
        else if a == 61 { Token::Equal }
        else if a == 33 { Token::NotEqual }
        else if a == 60 { Token::LessThanEqual }
        else if a == 62 { Token::GreaterThanEqual }
        else { Token::Illegal }
    }

    /// The token that a word stands for (an operator, a keyword or an identifier).
    pub fn from_word(value: String) -> (t: Token)
        ensures
            t@ == spec_token_of_word(value@),
            t@ is Ident ==> t == Token::Ident(value),
    {
        proof {
            reveal_strlit("let");
            reveal_strlit("if");
            reveal_strlit("then");
            reveal_strlit("else");
            reveal_strlit("while");
            reveal_strlit("print");
        }
        let w = str_chars(value.as_str());
        if w.len() == 2 && w[1] == '=' {
            if w[0] == '=' {
                assert(w@ =~= seq!['=', '=']);
                return Token::Equal;
            } else if w[0] == '!' {
                assert(w@ =~= seq!['!', '=']);
                return Token::NotEqual;
            } else if w[0] == '<' {
                assert(w@ =~= seq!['<', '=']);
                return Token::LessThanEqual;
            } else if w[0] == '>' {
                assert(w@ =~= seq!['>', '=']);
                return Token::GreaterThanEqual;
            }
        }
        if eq_ignore_case(&w, "let") {
            Token::Let
        } else if eq_ignore_case(&w, "if") {
            Token::If
        } else if eq_ignore_case(&w, "then") {
            Token::Then
        } else if eq_ignore_case(&w, "else") {
            Token::Else
        } else if eq_ignore_case(&w, "while") {
            Token::While
        } else if eq_ignore_case(&w, "print") {
            Token::Print
        } else {
            Token::Ident(value)
        }
    }

    /// A copy of the token.
    pub fn duplicate(&self) -> (t: Token)
        ensures
            t@ == self@,
    {
        match self {
            Token::Ident(s) => Token::Ident(s.clone()),
            Token::Int(s) => Token::Int(s.clone()),
            Token::String(s) => Token::String(s.clone()),
            Token::Assign => Token::Assign,
            Token::Illegal => Token::Illegal,
            Token::Eof => Token::Eof,
            Token::Newline => Token::Newline,
            Token::Whitespace => Token::Whitespace,
            Token::Equal => Token::Equal,
            Token::NotEqual => Token::NotEqual,
            Token::Plus => Token::Plus,
            Token::Minus => Token::Minus,
            Token::Asterisk => Token::Asterisk,
            Token::ForwardSlash => Token::ForwardSlash,
            Token::LessThan => Token::LessThan,
            Token::LessThanEqual => Token::LessThanEqual,
            Token::GreaterThan => Token::GreaterThan,
            Token::GreaterThanEqual => Token::GreaterThanEqual,
            Token::Let => Token::Let,
            Token::If => Token::If,
            Token::Then => Token::Then,
            Token::Else => Token::Else,
            Token::While => Token::While,
            Token::Print => Token::Print,
            Token::LParen => Token::LParen,
            Token::RParen => Token::RParen,
            Token::LBrace => Token::LBrace,
            Token::RBrace => Token::RBrace,
            Token::SemiColon => Token::SemiColon,
        }
    }

    /// Whether two tokens are the same token, payloads compared by their text.
    pub fn same(&self, other: &Token) -> (r: bool)
        ensures
            r == (self@ == other@),
    {
        match self {
            Token::Ident(a) => match other { Token::Ident(b) => String::eq(a, b), _ => false },
            Token::Int(a) => match other { Token::Int(b) => String::eq(a, b), _ => false },
            Token::String(a) => match other { Token::String(b) => String::eq(a, b), _ => false },
            Token::Assign => matches!(other, Token::Assign),
            Token::Illegal => matches!(other, Token::Illegal),
            Token::Eof => matches!(other, Token::Eof),
            Token::Newline => matches!(other, Token::Newline),
            Token::Whitespace => matches!(other, Token::Whitespace),
            Token::Equal => matches!(other, Token::Equal),
            Token::NotEqual => matches!(other, Token::NotEqual),
            Token::Plus => matches!(other, Token::Plus),
            Token::Minus => matches!(other, Token::Minus),
            Token::Asterisk => matches!(other, Token::Asterisk),
            Token::ForwardSlash => matches!(other, Token::ForwardSlash),
            Token::LessThan => matches!(other, Token::LessThan),
            Token::LessThanEqual => matches!(other, Token::LessThanEqual),
            Token::GreaterThan => matches!(other, Token::GreaterThan),
            Token::GreaterThanEqual => matches!(other, Token::GreaterThanEqual),
            Token::Let => matches!(other, Token::Let),
            Token::If => matches!(other, Token::If),
            Token::Then => matches!(other, Token::Then),
            Token::Else => matches!(other, Token::Else),
            Token::While => matches!(other, Token::While),
            Token::Print => matches!(other, Token::Print),
            Token::LParen => matches!(other, Token::LParen),
            Token::RParen => matches!(other, Token::RParen),
            Token::LBrace => matches!(other, Token::LBrace),
            Token::RBrace => matches!(other, Token::RBrace),
            Token::SemiColon => matches!(other, Token::SemiColon),
        }
    }

    /// The text of a token that carries no text of its own.
    pub fn fixed_text(&self) -> (s: &'static str)
        ensures
            s@ == spec_fixed_text(self@),
    {
        match self {
            Token::Assign => { proof { reveal_strlit("="); } "=" }
            Token::Illegal => { proof { reveal_strlit("<Illegal>"); } "<Illegal>" }
            Token::Eof => { proof { reveal_strlit("EoF"); } "EoF" }
            Token::Newline => { proof { reveal_strlit("\\n"); } "\\n" }
            Token::Whitespace => { proof { reveal_strlit("' '"); } "' '" }
            Token::Equal => { proof { reveal_strlit("=="); } "==" }
            Token::NotEqual => { proof { reveal_strlit("!="); } "!=" }
            Token::Plus => { proof { reveal_strlit("+"); } "+" }
            Token::Minus => { proof { reveal_strlit("-"); } "-" }
            Token::Asterisk => { proof { reveal_strlit("*"); } "*" }
            Token::ForwardSlash => { proof { reveal_strlit("/"); } "/" }
            Token::LessThan => { proof { reveal_strlit("<"); } "<" }
            Token::LessThanEqual => { proof { reveal_strlit("<="); } "<=" }
            Token::GreaterThan => { proof { reveal_strlit(">"); } ">" }
            Token::GreaterThanEqual => { proof { reveal_strlit(">="); } ">=" }
            Token::Let => { proof { reveal_strlit("let"); } "let" }
            Token::If => { proof { reveal_strlit("if"); } "if" }
            Token::Then => { proof { reveal_strlit("then"); } "then" }
            Token::Else => { proof { reveal_strlit("else"); } "else" }
            Token::While => { proof { reveal_strlit("while"); } "while" }
            Token::Print => { proof { reveal_strlit("print"); } "print" }
            Token::LParen => { proof { reveal_strlit("("); } "(" }
            Token::RParen => { proof { reveal_strlit(")"); } ")" }
            Token::LBrace => { proof { reveal_strlit("{"); } "{" }
            Token::RBrace => { proof { reveal_strlit("}"); } "}" }
            Token::SemiColon => { proof { reveal_strlit(";"); } ";" }
            _ => { proof { reveal_strlit(""); } "" }
        }
    }

    /// The text of a token as it appears in diagnostics.
    pub fn to_text(&self) -> (s: String)
        ensures
            s@ == spec_token_text(self@),
    {
        match self {
            Token::Ident(v) => {
                let mut s = String::from_str("Ident(");
                s.append(v.as_str());
                s.append(")");
                proof { reveal_strlit("Ident("); reveal_strlit(")"); }
                s
            }
            Token::Int(v) => {
                let mut s = String::from_str("Integer(");
                push_without_leading_zeros(&mut s, v);
                s.append(")");
                proof { reveal_strlit("Integer("); reveal_strlit(")"); }
                s
            }
            Token::String(v) => {
                let mut s = String::from_str("String(");
                s.append(v.as_str());
                s.append(")");
                proof { reveal_strlit("String("); reveal_strlit(")"); }
                s
            }
            _ => {
                let mut s = String::new();
                push_str(&mut s, self.fixed_text());
                s
            }
        }
    }
}

impl From<u8> for Token {
    fn from(ch: u8) -> (t: Token) {
        Token::from_byte(ch)
    }
}

impl vstd::std_specs::convert::FromSpecImpl<u8> for Token {
    open spec fn obeys_from_spec() -> bool {
        true
    }

    open spec fn from_spec(ch: u8) -> Token {
        choose|t: Token| t@ == spec_token_of_byte(ch)
    }
}

impl From<String> for Token {
    fn from(value: String) -> (t: Token) {
        Token::from_word(value)
    }
}

impl vstd::std_specs::convert::FromSpecImpl<String> for Token {
    open spec fn obeys_from_spec() -> bool {
        true
    }

    open spec fn from_spec(value: String) -> Token {
        match spec_token_of_word(value@) {
            TokenV::Ident(_) => Token::Ident(value),
            v => choose|t: Token| t@ == v,
        }
    }
}

/// Operators and punctuation: the tokens whose text is the bytes they are
/// read from.
pub open spec fn is_symbol(t: TokenV) -> bool {
    ||| t == TokenV::Assign
    ||| t == TokenV::Equal
    ||| t == TokenV::NotEqual
    ||| t == TokenV::Plus
    ||| t == TokenV::Minus
    ||| t == TokenV::Asterisk
    ||| t == TokenV::ForwardSlash
    ||| t == TokenV::LessThan
    ||| t == TokenV::LessThanEqual
    ||| t == TokenV::GreaterThan
    ||| t == TokenV::GreaterThanEqual
    ||| t == TokenV::LParen
    ||| t == TokenV::RParen
    ||| t == TokenV::LBrace
    ||| t == TokenV::RBrace
    ||| t == TokenV::SemiColon
}

/// The keywords.
pub open spec fn is_keyword(t: TokenV) -> bool {
    ||| t == TokenV::Let
    ||| t == TokenV::If
    ||| t == TokenV::Then
    ||| t == TokenV::Else
    ||| t == TokenV::While
    ||| t == TokenV::Print
}

/// A two-byte operator is the token whose text is those two bytes, and the
/// same token as the word of those two characters.
pub proof fn law_pair_token_spells_its_bytes(a: u8, b: u8)
    ensures
        spec_token_of_pair(a, b) != TokenV::Illegal ==> {
            &&& is_symbol(spec_token_of_pair(a, b))
            &&& spec_fixed_text(spec_token_of_pair(a, b)) == seq![a as char, b as char]
            &&& spec_token_of_word(seq![a as char, b as char]) == spec_token_of_pair(a, b)
        },
{
}

/// A single byte that stands for an operator or punctuation is the token
/// whose text is that byte; the other bytes stand for the end of the input,
/// a newline or nothing valid.
pub proof fn law_byte_token_spells_its_byte(c: u8)
    ensures
        is_symbol(spec_token_of_byte(c)) ==> spec_fixed_text(spec_token_of_byte(c)) == seq![c as char],
        !is_symbol(spec_token_of_byte(c)) ==> (c == 0 && spec_token_of_byte(c) == TokenV::Eof)
            || (c == 10 && spec_token_of_byte(c) == TokenV::Newline) || spec_token_of_byte(c) == TokenV::Illegal,
{
}

/// A word is a keyword exactly when it spells that keyword's text (ignoring
/// ASCII case); any other word that is no operator is an identifier holding
/// the word.
pub proof fn law_word_token_spells_its_word(w: Seq<char>)
    ensures
        is_keyword(spec_token_of_word(w)) ==> ieq(w, spec_fixed_text(spec_token_of_word(w))),
        !is_keyword(spec_token_of_word(w)) && !is_symbol(spec_token_of_word(w)) ==> spec_token_of_word(w) == TokenV::Ident(w),
        is_symbol(spec_token_of_word(w)) ==> spec_fixed_text(spec_token_of_word(w)) == w,
{
}

/// Dropping leading zeros keeps the number that digits denote, leaves at
/// least one digit, and leaves no leading zero unless the number is zero.
pub proof fn law_leading_zeros_dropped(v: Seq<char>)
    requires
        v.len() > 0,
        crate::text::all_digits(v),
    ensures
        crate::text::decimal_value(without_leading_zeros(v)) == crate::text::decimal_value(v),
        without_leading_zeros(v).len() > 0,
        without_leading_zeros(v).len() > 1 ==> without_leading_zeros(v)[0] != '0',
        crate::text::all_digits(without_leading_zeros(v)),
    decreases v.len(),
{
    if v.len() > 1 && v[0] == '0' {
        let rest = v.drop_first();
        assert forall|i: int| 0 <= i < rest.len() implies 48 <= (#[trigger] rest[i] as u32) <= 57 by {
            assert(rest[i] == v[i + 1]);
        }
        law_leading_zeros_dropped(rest);
        lemma_decimal_value_zero_first(v);
    }
}

/// A leading zero adds nothing to the number that digits denote.
proof fn lemma_decimal_value_zero_first(v: Seq<char>)
    requires
        v.len() > 1,
        v[0] == '0',
    ensures
        crate::text::decimal_value(v) == crate::text::decimal_value(v.drop_first()),
    decreases v.len(),
{
    let d = v.drop_last();
    let t = v.drop_first();
    assert(crate::text::decimal_value(v) == 10 * crate::text::decimal_value(d) + ((v.last() as u32) - 48));
    assert(crate::text::decimal_value(t) == 10 * crate::text::decimal_value(t.drop_last()) + ((t.last() as u32) - 48));
    assert(t.last() == v.last());
    if v.len() == 2 {
        assert(d.drop_last() =~= Seq::<char>::empty());
        assert(t.drop_last() =~= Seq::<char>::empty());
        assert(crate::text::decimal_value(Seq::<char>::empty()) == 0);
        assert(d.last() == '0');
        assert(crate::text::decimal_value(d) == 10 * crate::text::decimal_value(d.drop_last()) + ((d.last() as u32) - 48));
        assert(('0' as u32) == 48);
    } else {
        lemma_decimal_value_zero_first(d);
        assert(d.drop_first() =~= t.drop_last());
    }
}

} // verus!
