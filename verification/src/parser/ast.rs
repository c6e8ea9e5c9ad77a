//! The expression-oriented syntax tree built by the combinator parser.
use vstd::prelude::*;

use crate::lexer::token::{is_symbol, spec_fixed_text};
use crate::lexer::{Token, TokenV};
use crate::parser::ptr::P;
use crate::span::Span;

verus! {

/// Index of a definition in the resolver's table of definitions.
pub type DefinitionId = usize;

pub type Ident = String;

#[derive(Debug)]
pub enum Ast {
    Sequence(Sequence),
    Let(Definition),
    Assignment(Definition),
    If(If),
    While(While),
    Binary(Binary),
    Unary(Unary),
    Literal(Literal),
    Variable(Variable),
    Error,
}

#[derive(Debug)]
pub struct Sequence {
    pub statements: Vec<Ast>,
    pub span: Span,
}

#[derive(Debug)]
pub struct Pattern {
    pub name: Ident,
    pub span: Span,
}

#[derive(Debug)]
pub struct Definition {
    pub id: Option<DefinitionId>,
    pub pattern: Pattern,
    pub value: P<Ast>,
    pub span: Span,
}

#[derive(Debug)]
pub struct If {
    pub condition: P<Ast>,
    pub body: P<Ast>,
    pub span: Span,
}

#[derive(Debug)]
pub struct While {
    pub condition: P<Ast>,
    pub body: P<Ast>,
    pub span: Span,
}

#[derive(Debug)]
pub struct Binary {
    pub op: BinOp,
    pub left: P<Ast>,
    pub right: P<Ast>,
    pub span: Span,
}

#[derive(Debug, PartialEq, Eq, Clone, Copy, Structural)]
pub enum BinOp {
    Add,
    Sub,
    Mul,
    Div,
    Eq,
    NotEq,
    LessThan,
    LessThanEq,
    GreaterThan,
    GreaterThanEq,
}

#[derive(Debug)]
pub struct Unary {
    pub op: UnOp,
    pub operand: P<Ast>,
    pub span: Span,
}

#[derive(Debug, PartialEq, Eq, Clone, Copy, Structural)]
pub enum UnOp {
    Neg,
}

#[derive(Debug)]
pub struct Literal {
    pub kind: LiteralKind,
    pub span: Span,
}

#[derive(Debug)]
pub enum LiteralKind {
    Int(u64),
    String(String),
}

#[derive(Debug)]
pub struct Variable {
    pub pattern: Ident,
    pub definition: Option<DefinitionId>,
    pub span: Span,
}

/// The binary operator a token stands for, if any.
pub open spec fn spec_binop_of(t: TokenV) -> Option<BinOp> {
    match t {
        TokenV::Plus => Some(BinOp::Add),
        TokenV::Minus => Some(BinOp::Sub),
        TokenV::ForwardSlash => Some(BinOp::Div),
        TokenV::Asterisk => Some(BinOp::Mul),
        TokenV::GreaterThan => Some(BinOp::GreaterThan),
        TokenV::GreaterThanEqual => Some(BinOp::GreaterThanEq),
        TokenV::LessThan => Some(BinOp::LessThan),
        TokenV::LessThanEqual => Some(BinOp::LessThanEq),
        TokenV::Equal => Some(BinOp::Eq),
        TokenV::NotEqual => Some(BinOp::NotEq),
        _ => None,
    }
}

/// Binding strength: multiplication binds more strongly than addition,
/// comparisons more strongly than both, equality most strongly.
pub open spec fn spec_precedence(op: BinOp) -> u8 {
    match op {
        BinOp::Add | BinOp::Sub => 18,
        BinOp::Mul | BinOp::Div => 19,
        BinOp::Eq | BinOp::NotEq => 30,
        BinOp::LessThan | BinOp::LessThanEq | BinOp::GreaterThan | BinOp::GreaterThanEq => 29,
    }
}

impl Ast {
    pub fn sequence(statements: Vec<Ast>, span: Span) -> (a: Ast)
        ensures
            a == Ast::Sequence(Sequence { statements, span }),
    {
        Ast::Sequence(Sequence { statements, span })
    }

    pub fn definition(pattern: Pattern, value: Ast, span: Span) -> (a: Ast)
        ensures
            a matches Ast::Let(d) && d.id is None && d.pattern == pattern && *d.value.ptr == value && d.span == span,
    {
        Ast::Let(Definition { id: None, pattern, value: P(value), span })
    }

    pub fn assignment(pattern: Pattern, value: Ast, span: Span) -> (a: Ast)
        ensures
            a matches Ast::Assignment(d) && d.id is None && d.pattern == pattern && *d.value.ptr == value && d.span == span,
    {
        Ast::Assignment(Definition { id: None, pattern, value: P(value), span })
    }

    pub fn if_expr(condition: Ast, body: Ast, span: Span) -> (a: Ast)
        ensures
            a matches Ast::If(i) && *i.condition.ptr == condition && *i.body.ptr == body && i.span == span,
    {
        Ast::If(If { condition: P(condition), body: P(body), span })
    }

    pub fn while_expr(condition: Ast, body: Ast, span: Span) -> (a: Ast)
        ensures
            a matches Ast::While(w) && *w.condition.ptr == condition && *w.body.ptr == body && w.span == span,
    {
        Ast::While(While { condition: P(condition), body: P(body), span })
    }

    pub fn integer(value: u64, span: Span) -> (a: Ast)
        ensures
            a matches Ast::Literal(l) && l.kind == LiteralKind::Int(value) && l.span == span,
    {
        Ast::Literal(Literal { kind: LiteralKind::Int(value), span })
    }

    pub fn string(value: String, span: Span) -> (a: Ast)
        ensures
            a matches Ast::Literal(l) && l.kind == LiteralKind::String(value) && l.span == span,
    {
        Ast::Literal(Literal { kind: LiteralKind::String(value), span })
    }

    pub fn binary(op: BinOp, left: Ast, right: Ast, span: Span) -> (a: Ast)
        ensures
            a matches Ast::Binary(b) && b.op == op && *b.left.ptr == left && *b.right.ptr == right && b.span == span,
    {
        Ast::Binary(Binary { op, left: P(left), right: P(right), span })
    }

    pub fn unary(op: UnOp, oprand: Ast, span: Span) -> (a: Ast)
        ensures
            a matches Ast::Unary(u) && u.op == op && *u.operand.ptr == oprand && u.span == span,
    {
        Ast::Unary(Unary { op, operand: P(oprand), span })
    }

    pub fn variable(pattern: Ident, span: Span) -> (a: Ast)
        ensures
            a matches Ast::Variable(v) && v.pattern == pattern && v.definition is None && v.span == span,
    {
        Ast::Variable(Variable { pattern, definition: None, span })
    }
}

impl BinOp {
    /// Whether the token is a binary operator.
    pub fn token_match(token: &Token) -> (r: bool)
        ensures
            r == spec_binop_of(token@).is_some(),
    {
        match token {
            Token::Plus | Token::Minus | Token::Asterisk | Token::ForwardSlash | Token::Equal
            | Token::NotEqual | Token::LessThan | Token::LessThanEqual | Token::GreaterThan
            | Token::GreaterThanEqual => true,
            _ => false,
        }
    }

    /// The operator's binding strength.
    pub fn precedence(&self) -> (p: u8)
        ensures
            p == spec_precedence(*self),
    {
        match self {
            BinOp::Add | BinOp::Sub => 18,
            BinOp::Mul | BinOp::Div => 19,
            BinOp::Eq | BinOp::NotEq => 30,
            BinOp::LessThan | BinOp::LessThanEq | BinOp::GreaterThan | BinOp::GreaterThanEq => 29,
        }
    }
}

impl UnOp {
    /// Whether the token is a unary operator.
    pub fn token_match(token: &Token) -> (r: bool)
        ensures
            r == (token@ == TokenV::Minus),
    {
        matches!(token, Token::Minus)
    }
}

/// The symbol that writes an operator in source text.
pub open spec fn operator_symbol(op: BinOp) -> Seq<char> {
    match op {
        BinOp::Add => seq!['+'],
        BinOp::Sub => seq!['-'],
        BinOp::Mul => seq!['*'],
        BinOp::Div => seq!['/'],
        BinOp::Eq => seq!['=', '='],
        BinOp::NotEq => seq!['!', '='],
        BinOp::LessThan => seq!['<'],
        BinOp::LessThanEq => seq!['<', '='],
        BinOp::GreaterThan => seq!['>'],
        BinOp::GreaterThanEq => seq!['>', '='],
    }
}

/// A token stands for the operator that its text writes, and for no other:
/// `+` is addition, `<=` is "less than or equal", and so on; the other
/// tokens stand for no operator.
pub proof fn law_operator_of_its_symbol(t: TokenV, op: BinOp)
    ensures
        spec_binop_of(t) == Some(op) <==> (is_symbol(t) && spec_fixed_text(t) == operator_symbol(op)),
{
    if is_symbol(t) && spec_fixed_text(t) == operator_symbol(op) && spec_binop_of(t) != Some(op) {
        assert(spec_fixed_text(t).len() == operator_symbol(op).len());
        assert(spec_fixed_text(t)[0] == operator_symbol(op)[0]);
    }
}

/// Multiplication and division bind more strongly than addition and
/// subtraction, the comparisons more strongly still, and `==` and `!=`
/// most strongly; operators of one group bind equally.
pub proof fn law_precedence_order()
    ensures
        spec_precedence(BinOp::Add) == spec_precedence(BinOp::Sub),
        spec_precedence(BinOp::Mul) == spec_precedence(BinOp::Div),
        spec_precedence(BinOp::Sub) < spec_precedence(BinOp::Mul),
        spec_precedence(BinOp::Div) < spec_precedence(BinOp::LessThan),
        spec_precedence(BinOp::LessThan) == spec_precedence(BinOp::LessThanEq),
        spec_precedence(BinOp::LessThan) == spec_precedence(BinOp::GreaterThan),
        spec_precedence(BinOp::LessThan) == spec_precedence(BinOp::GreaterThanEq),
        spec_precedence(BinOp::GreaterThanEq) < spec_precedence(BinOp::Eq),
        spec_precedence(BinOp::Eq) == spec_precedence(BinOp::NotEq),
{
}

} // verus!
