//! Terminal escape sequences for coloured output.
use vstd::prelude::*;

verus! {

#[derive(Debug, Clone, Copy, PartialEq, Eq, Structural)]
pub enum Color {
    Red,
    Orange,
    Cyan,
    Magenta,
    Reset,
}

/// The escape sequence of a colour (bold), or the one that resets the style.
pub open spec fn color_code(c: Color) -> Seq<char> {
    match c {
        Color::Red => "\x1b[31m\x1b[1m"@,
        Color::Orange => "\x1b[33m\x1b[1m"@,
        Color::Cyan => "\x1b[36m\x1b[1m"@,
        Color::Magenta => "\x1b[35m\x1b[1m"@,
        Color::Reset => "\x1b[0m"@,
    }
}

impl Color {
    /// The escape sequence of this colour.
    pub fn as_ref(&self) -> (s: &'static str)
        ensures
            s@ == color_code(*self),
    {
        match self {
            Color::Red => "\x1b[31m\x1b[1m",
            Color::Orange => "\x1b[33m\x1b[1m",
            Color::Cyan => "\x1b[36m\x1b[1m",
            Color::Magenta => "\x1b[35m\x1b[1m",
            Color::Reset => "\x1b[0m",
        }
    }
}

} // verus!
