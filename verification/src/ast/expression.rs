//! Expressions of the statement syntax tree and how they are parsed.
//!
//! Grammar (an operator's right operand is the whole rest of the expression):
//! `expr := "-" expr | primary (binop expr)?`,
//! `primary := integer | string | identifier | "(" expr ")"`.
use vstd::prelude::*;

use super::parser::{ParseError, Parser, P};
use super::{consumed, progressed, Expr, ExprKind};
use crate::lexer::token::{is_symbol, spec_fixed_text};
use crate::lexer::{Token, TokenV};
use crate::text::{all_digits, decimal_value, parse_decimal};

use super::grammar::{kind_result, so_binary, so_group, so_primary, so_unary};
use crate::parser::grammar::kind;

verus! {

/// Binary operators.
#[derive(Debug, PartialEq, Eq, Clone, Copy, Structural)]
pub enum BinOp {
    Add,
    Sub,
    Mul,
    Div,
    Eq,
    NotEq,
    LessThan,
    LessThanEq,
    GreaterThan,
    GreaterThanEq,
}

/// The binary operator a token stands for, if any.
pub open spec fn spec_binop_of(t: TokenV) -> Option<BinOp> {
    match t {
        TokenV::Plus => Some(BinOp::Add),
        TokenV::Minus => Some(BinOp::Sub),
        TokenV::ForwardSlash => Some(BinOp::Div),
        TokenV::Asterisk => Some(BinOp::Mul),
        TokenV::GreaterThan => Some(BinOp::GreaterThan),
        TokenV::GreaterThanEqual => Some(BinOp::GreaterThanEq),
        TokenV::LessThan => Some(BinOp::LessThan),
        TokenV::LessThanEqual => Some(BinOp::LessThanEq),
        TokenV::Equal => Some(BinOp::Eq),
        TokenV::NotEqual => Some(BinOp::NotEq),
        _ => None,
    }
}

/// The binding strength of each binary operator.
pub open spec fn spec_precedence(op: BinOp) -> u8 {
    match op {
        BinOp::Add | BinOp::Sub => 1,
        BinOp::Mul | BinOp::Div => 2,
        BinOp::Eq | BinOp::NotEq => 3,
        BinOp::LessThan | BinOp::LessThanEq | BinOp::GreaterThan | BinOp::GreaterThanEq => 4,
    }
}

impl BinOp {
    /// Whether the token is a binary operator.
    pub fn token_match(token: &Token) -> (r: bool)
        ensures
            r == spec_binop_of(token@).is_some(),
    {
        match token {
            Token::Plus | Token::Minus | Token::Asterisk | Token::ForwardSlash | Token::Equal
            | Token::NotEqual | Token::LessThan | Token::LessThanEqual | Token::GreaterThan
            | Token::GreaterThanEqual => true,
            _ => false,
        }
    }

    /// The operator's binding strength.
    pub fn precedence(&self) -> (p: u8)
        ensures
            p == spec_precedence(*self),
    {
        match self {
            BinOp::Add | BinOp::Sub => 1,
            BinOp::Mul | BinOp::Div => 2,
            BinOp::Eq | BinOp::NotEq => 3,
            BinOp::LessThan | BinOp::LessThanEq | BinOp::GreaterThan | BinOp::GreaterThanEq => 4,
        }
    }
}

/// Unary operators.
#[derive(Debug, PartialEq, Eq, Clone, Copy, Structural)]
pub enum UnOp {
    Neg,
}

impl UnOp {
    /// Whether the token is a unary operator.
    pub fn token_match(token: &Token) -> (r: bool)
        ensures
            r == (token@ == TokenV::Minus),
    {
        matches!(token, Token::Minus)
    }
}

pub type Ident = String;

/// Literal values.
#[derive(Debug, PartialEq, Eq, Clone)]
pub enum Literal {
    String(String),
    Integer(isize),
}

/// Whether an integer token's text denotes a value that fits an `isize`.
pub open spec fn spec_int_fits(v: Seq<char>) -> bool {
    all_digits(v) && decimal_value(v) <= isize::MAX
}

/// `e` reports the unexpected token `t`.
pub open spec fn is_unexpected(e: ParseError, t: TokenV) -> bool {
    match e {
        ParseError::UnexpectedToken(x) => x@ == t,
        _ => false,
    }
}

/// The binary operator the current token stands for.
pub fn parse_binary_operator(parser: &Parser) -> (r: Option<BinOp>)
    ensures
        r == spec_binop_of(parser.current_token@),
{
    match &parser.current_token {
        Token::Plus => Some(BinOp::Add),
        Token::Minus => Some(BinOp::Sub),
        Token::ForwardSlash => Some(BinOp::Div),
        Token::Asterisk => Some(BinOp::Mul),
        Token::GreaterThan => Some(BinOp::GreaterThan),
        Token::GreaterThanEqual => Some(BinOp::GreaterThanEq),
        Token::LessThan => Some(BinOp::LessThan),
        Token::LessThanEqual => Some(BinOp::LessThanEq),
        Token::Equal => Some(BinOp::Eq),
        Token::NotEqual => Some(BinOp::NotEq),
        _ => None,
    }
}

/// The literal an integer or string token denotes.
pub fn literal_of(token: &Token) -> (r: Result<Literal, ParseError>)
    ensures
        match token@ {
            TokenV::Int(v) => match r {
                Ok(Literal::Integer(n)) => spec_int_fits(v) && n == decimal_value(v),
                Err(ParseError::InvalidInteger(t)) => !spec_int_fits(v) && t@ == v,
                _ => false,
            },
            TokenV::Str(v) => match r {
                Ok(Literal::String(s)) => s@ == v,
                _ => false,
            },
            _ => r is Err && is_unexpected(r->Err_0, token@),
        },
{
    match token {
        Token::Int(value) => match parse_decimal(value.as_str(), isize::MAX as u64) {
            Some(n) => Ok(Literal::Integer(n as isize)),
            None => Err(ParseError::InvalidInteger(value.clone())),
        },
        Token::String(value) => Ok(Literal::String(value.clone())),
        _ => Err(ParseError::UnexpectedToken(token.duplicate())),
    }
}

impl Expr {
    /// Parses binary operations whose operator binds more strongly than
    /// `precedence`, with `left` as the first left operand.
    pub fn parse_binary(parser: &mut Parser, left: ExprKind, precedence: u8) -> (r: Result<ExprKind, ParseError>)
        requires
            old(parser).wf(),
        ensures
            progressed(old(parser), final(parser)),
            final(parser).symbols@ == old(parser).symbols@,
            r is Ok ==> match spec_binop_of(final(parser).current_token@) {
                Some(op) => spec_precedence(op) <= precedence,
                None => true,
            },
            r is Ok ==> match spec_binop_of(old(parser).current_token@) {
                Some(op) => if spec_precedence(op) > precedence {
                    r->Ok_0 matches ExprKind::Binary(o, _, _) && o == op
                } else {
                    r->Ok_0 == left
                },
                None => r->Ok_0 == left,
            },
            (kind_result(r), final(parser).index@) == so_binary(old(parser).stream@, old(parser).index@,
                super::grammar::view_expr(Expr { kind: left }), precedence),
        decreases old(parser).measure(), 2nat,
    {
        proof {
            parser.lemma_tokens();
        }
        let operator = match parse_binary_operator(parser) {
            Some(op) => op,
            None => return Ok(left),
        };
        if operator.precedence() <= precedence {
            return Ok(left);
        }
        parser.step();
        // The right operand is the whole rest of the expression, so no
        // operator follows it.
        let right = Expr::parse(parser)?;
        Ok(ExprKind::Binary(operator, P(Expr { kind: left }), P(right)))
    }

    /// Parses a unary operation: the operator and the whole expression after it.
    pub fn parse_unary(parser: &mut Parser) -> (r: Result<ExprKind, ParseError>)
        requires
            old(parser).wf(),
        ensures
            progressed(old(parser), final(parser)),
            final(parser).symbols@ == old(parser).symbols@,
            r is Ok ==> consumed(old(parser), final(parser)),
            r is Ok ==> spec_binop_of(final(parser).current_token@) is None,
            old(parser).current_token@ == TokenV::Minus ==> (r is Err || r->Ok_0 is Unary),
            old(parser).current_token@ != TokenV::Minus ==> r is Err && is_unexpected(
                r->Err_0,
                old(parser).current_token@,
            ),
            (kind_result(r), final(parser).index@) == so_unary(old(parser).stream@, old(parser).index@),
        decreases old(parser).measure(), 2nat,
    {
        proof {
            parser.lemma_tokens();
        }
        let operator = match &parser.current_token {
            Token::Minus => UnOp::Neg,
            _ => return Err(ParseError::UnexpectedToken(parser.current_token.duplicate())),
        };
        parser.step();
        let expr = Expr::parse(parser)?;
        Ok(ExprKind::Unary(operator, P(expr)))
    }

    /// Parses a primary expression: a literal, an identifier or a parenthesised expression.
    pub fn parse_primary(parser: &mut Parser) -> (r: Result<ExprKind, ParseError>)
        requires
            old(parser).wf(),
        ensures
            progressed(old(parser), final(parser)),
            final(parser).symbols@ == old(parser).symbols@,
            r is Ok ==> consumed(old(parser), final(parser)),
            match old(parser).current_token@ {
                TokenV::Int(v) => match r {
                    Ok(ExprKind::Literal(Literal::Integer(n))) => spec_int_fits(v) && n == decimal_value(v),
                    Err(ParseError::InvalidInteger(t)) => !spec_int_fits(v) && t@ == v,
                    _ => false,
                },
                TokenV::Str(v) => r matches Ok(ExprKind::Literal(Literal::String(s))) && s@ == v,
                TokenV::Ident(v) => r matches Ok(ExprKind::Ident(s)) && s@ == v,
                TokenV::LParen => true,
                t => r is Err && is_unexpected(r->Err_0, t),
            },
            !(old(parser).current_token@ is LParen) && r is Ok ==> final(parser).current_token@
                == old(parser).next_token@,
            (kind_result(r), final(parser).index@) == so_primary(old(parser).stream@, old(parser).index@),
        decreases old(parser).measure(), 2nat,
    {
        proof {
            parser.lemma_tokens();
        }
        let token = parser.eat();
        match token {
            Token::Int(_) | Token::String(_) => {
                let lit = literal_of(&token)?;
                Ok(ExprKind::Literal(lit))
            },
            Token::LParen => Self::parse_group(parser),
            Token::Ident(symbol) => Ok(ExprKind::Ident(symbol)),
            _ => Err(ParseError::UnexpectedToken(token)),
        }
    }

    /// Parses the rest of a parenthesised expression, after its `(`.
    pub fn parse_group(parser: &mut Parser) -> (r: Result<ExprKind, ParseError>)
        requires
            old(parser).wf(),
        ensures
            progressed(old(parser), final(parser)),
            final(parser).symbols@ == old(parser).symbols@,
            r is Ok ==> consumed(old(parser), final(parser)),
            (kind_result(r), final(parser).index@) == so_group(old(parser).stream@, old(parser).index@),
        decreases old(parser).measure(), 4nat,
    {
        let expr = Expr::parse(parser)?;
        proof {
            parser.lemma_tokens();
        }
        if !parser.current_token(Token::RParen) {
            return Err(ParseError::Expected(Token::RParen, parser.current_token.duplicate()));
        }
        parser.step();
        Ok(expr.kind)
    }

    /// The literal that the current token denotes; the parser does not move.
    pub fn parse_literal(parser: &Parser) -> (r: Result<ExprKind, ParseError>)
        ensures
            match parser.current_token@ {
                TokenV::Int(v) => match r {
                    Ok(ExprKind::Literal(Literal::Integer(n))) => spec_int_fits(v) && n == decimal_value(v),
                    Err(ParseError::InvalidInteger(t)) => !spec_int_fits(v) && t@ == v,
                    _ => false,
                },
                TokenV::Str(v) => r matches Ok(ExprKind::Literal(Literal::String(s))) && s@ == v,
                t => r is Err && is_unexpected(r->Err_0, t),
            },
    {
        let lit = literal_of(&parser.current_token)?;
        Ok(ExprKind::Literal(lit))
    }
}

/// The symbol that writes an operator in source text.
pub open spec fn operator_symbol(op: BinOp) -> Seq<char> {
    match op {
        BinOp::Add => seq!['+'],
        BinOp::Sub => seq!['-'],
        BinOp::Mul => seq!['*'],
        BinOp::Div => seq!['/'],
        BinOp::Eq => seq!['=', '='],
        BinOp::NotEq => seq!['!', '='],
        BinOp::LessThan => seq!['<'],
        BinOp::LessThanEq => seq!['<', '='],
        BinOp::GreaterThan => seq!['>'],
        BinOp::GreaterThanEq => seq!['>', '='],
    }
}

/// A token stands for the operator that its text writes, and for no other:
/// `+` is addition, `<=` is "less than or equal", and so on; the other
/// tokens stand for no operator.
pub proof fn law_operator_of_its_symbol(t: TokenV, op: BinOp)
    ensures
        spec_binop_of(t) == Some(op) <==> (is_symbol(t) && spec_fixed_text(t) == operator_symbol(op)),
{
    if is_symbol(t) && spec_fixed_text(t) == operator_symbol(op) && spec_binop_of(t) != Some(op) {
        assert(spec_fixed_text(t).len() == operator_symbol(op).len());
        assert(spec_fixed_text(t)[0] == operator_symbol(op)[0]);
    }
}

/// Multiplication and division bind more strongly than addition and
/// subtraction, `==` and `!=` more strongly still, and the other
/// comparisons most strongly; operators of one group bind equally.
pub proof fn law_precedence_order()
    ensures
        spec_precedence(BinOp::Add) == spec_precedence(BinOp::Sub),
        spec_precedence(BinOp::Mul) == spec_precedence(BinOp::Div),
        spec_precedence(BinOp::Sub) < spec_precedence(BinOp::Mul),
        spec_precedence(BinOp::Div) < spec_precedence(BinOp::Eq),
        spec_precedence(BinOp::Eq) == spec_precedence(BinOp::NotEq),
        spec_precedence(BinOp::NotEq) < spec_precedence(BinOp::LessThan),
        spec_precedence(BinOp::LessThan) == spec_precedence(BinOp::LessThanEq),
        spec_precedence(BinOp::LessThan) == spec_precedence(BinOp::GreaterThan),
        spec_precedence(BinOp::LessThan) == spec_precedence(BinOp::GreaterThanEq),
{
}

} // verus!
