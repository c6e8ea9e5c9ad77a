//! Primitive values read straight from a token.
use vstd::prelude::*;

use super::parser::Parser;
use crate::lexer::{Token, TokenV};
use crate::text::{all_digits, decimal_value, parse_decimal};

verus! {

pub enum Primitive {
    Int(i64),
}

pub enum Literal {
    String(String),
}

impl Primitive {
    /// Reads the integer token under the cursor and moves past it.
    pub fn parse(parser: &mut Parser) -> (p: Primitive)
        requires
            old(parser).wf(),
            old(parser).current_token@ matches TokenV::Int(v) && all_digits(v) && decimal_value(v) <= i64::MAX,
        ensures
            final(parser).wf(),
            final(parser).current_token@ == old(parser).next_token@,
            final(parser).measure() < old(parser).measure(),
            old(parser).current_token@ matches TokenV::Int(v) && p == Primitive::Int(decimal_value(v) as i64),
    {
        let primitive = match &parser.current_token {
            Token::Int(value) => {
                let n = parse_decimal(value.as_str(), 0x7fff_ffff_ffff_ffff);
                Primitive::Int(n.unwrap() as i64)
            },
            _ => Primitive::Int(0),
        };
        parser.step();
        primitive
    }
}

impl Literal {
    /// Reads the string token under the cursor and moves past it.
    pub fn parse(parser: &mut Parser) -> (l: Literal)
        requires
            old(parser).wf(),
            old(parser).current_token@ is Str,
        ensures
            final(parser).wf(),
            final(parser).current_token@ == old(parser).next_token@,
            final(parser).measure() < old(parser).measure(),
            old(parser).current_token@ matches TokenV::Str(v) && l matches Literal::String(s) && s@ == v,
    {
        let literal = match &parser.current_token {
            Token::String(value) => Literal::String(value.clone()),
            _ => Literal::String(String::new()),
        };
        parser.step();
        literal
    }
}

} // verus!
