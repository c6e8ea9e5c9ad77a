//! The tokens of the line-oriented dialect (labels, `goto`, `print`,
//! `input`, `if .. then .. endif`, `while .. repeat .. endwhile`), and the
//! single bytes that stand for one on their own.
use vstd::prelude::*;

verus! {

#[derive(Debug, PartialEq, Eq, Clone, Copy, Structural)]
pub enum Token {
    Illegal,
    Eof,
    Newline,

    Ident,
    Assign,

    Number,
    String,

    /// Operators
    Equal,
    NotEqual,
    Plus,
    Minus,
    Asterisk,
    ForwardSlash,
    LessThan,
    GreaterThan,

    /// Keywords
    Label,
    Goto,
    Print,
    Input,
    Let,
    If,
    Then,
    EndIf,
    While,
    Repeat,
    EndWhile,
}

/// The bytes that are a token on their own: `+ - * /`, a newline, and NUL
/// for the end of the input.
pub open spec fn is_token_byte(ch: u8) -> bool {
    ch == 43 || ch == 45 || ch == 42 || ch == 47 || ch == 10 || ch == 0
}

/// The token a single byte stands for.
pub open spec fn spec_token_of_byte(ch: u8) -> Token {
    if ch == 43 {
        Token::Plus
    } else if ch == 45 {
        Token::Minus
    } else if ch == 42 {
        Token::Asterisk
    } else if ch == 47 {
        Token::ForwardSlash
    } else if ch == 10 {
        Token::Newline
    } else {
        Token::Eof
    }
}

impl Token {
    /// The token a single byte stands for; only the bytes of
    /// `is_token_byte` stand for one.
    pub fn from_u8(ch: u8) -> (t: Token)
        requires
            is_token_byte(ch),
        ensures
            t == spec_token_of_byte(ch),
    {
        if ch == 43 {
            Token::Plus
        } else if ch == 45 {
            Token::Minus
        } else if ch == 42 {
            Token::Asterisk
        } else if ch == 47 {
            Token::ForwardSlash
        } else if ch == 10 {
            Token::Newline
        } else {
            Token::Eof
        }
    }
}

} // verus!
