//! The statement grammar as functions from a token stream to syntax trees
//! or errors: what the parsing functions build, stated over the tokens they
//! read. Parsing stops at the first error.
//!
//! Each function takes the stream and the index of the token to start at
//! (and the symbols declared so far, where `let` declares more), and gives
//! the result, the index of the parser's current token afterwards, and the
//! symbols declared afterwards.
use vstd::prelude::*;

use super::expression::{spec_binop_of, spec_int_fits, spec_precedence};
use super::parser::ParseError;
use super::{Ast, BinOp, Expr, ExprKind, Item, Literal, Stmt, StmtKind, UnOp};
use crate::lexer::TokenV;
use crate::parser::grammar::{kind, left, skip_newlines};
use crate::parser::Tok;
use crate::text::decimal_value;

verus! {

/// An expression as values.
pub enum ExprV {
    Binary(BinOp, Box<ExprV>, Box<ExprV>),
    Unary(UnOp, Box<ExprV>),
    Ident(Seq<char>),
    Int(int),
    Str(Seq<char>),
}

/// A statement as values.
pub enum StmtV {
    Let(Seq<char>, ExprV),
    If(ExprV, Seq<StmtV>),
    While(ExprV, Seq<StmtV>),
    Print(ExprV),
}

/// Why parsing stopped, as values.
pub enum ErrV {
    UnexpectedToken(TokenV),
    Expected(TokenV, TokenV),
    SymbolAlreadyDefined(Seq<char>),
    InvalidInteger(Seq<char>),
}

pub open spec fn view_expr(e: Expr) -> ExprV
    decreases e,
{
    match e.kind {
        ExprKind::Binary(op, l, r) => ExprV::Binary(op, Box::new(view_expr(*l.ptr)), Box::new(view_expr(*r.ptr))),
        ExprKind::Unary(op, x) => ExprV::Unary(op, Box::new(view_expr(*x.ptr))),
        ExprKind::Ident(s) => ExprV::Ident(s@),
        ExprKind::Literal(Literal::Integer(n)) => ExprV::Int(n as int),
        ExprKind::Literal(Literal::String(s)) => ExprV::Str(s@),
    }
}

pub open spec fn view_stmt(s: Stmt) -> StmtV
    decreases s, 0nat,
{
    match s.kind {
        StmtKind::Let(name, e) => StmtV::Let(name@, view_expr(e)),
        StmtKind::If(c, items) => StmtV::If(view_expr(c), view_items(items@)),
        StmtKind::While(c, items) => StmtV::While(view_expr(c), view_items(items@)),
        StmtKind::Print(p) => StmtV::Print(view_expr(p.expression)),
    }
}

/// The statements of items, in order.
pub open spec fn view_items(items: Seq<Item>) -> Seq<StmtV>
    decreases items, 0nat,
{
    if items.len() == 0 {
        Seq::empty()
    } else {
        proof {
            assert(decreases_to!(items => items.drop_last()));
            assert(decreases_to!(items => items.last()));
        }
        view_items(items.drop_last()).push(view_stmt(items.last().kind->Statement_0))
    }
}

pub open spec fn err_view(e: ParseError) -> ErrV {
    match e {
        ParseError::UnexpectedToken(t) => ErrV::UnexpectedToken(t@),
        ParseError::Expected(a, b) => ErrV::Expected(a@, b@),
        ParseError::SymbolAlreadyDefined(s) => ErrV::SymbolAlreadyDefined(s@),
        ParseError::InvalidInteger(s) => ErrV::InvalidInteger(s@),
    }
}

pub open spec fn expr_result(r: Result<Expr, ParseError>) -> Result<ExprV, ErrV> {
    match r {
        Ok(e) => Ok(view_expr(e)),
        Err(e) => Err(err_view(e)),
    }
}

pub open spec fn kind_result(r: Result<ExprKind, ParseError>) -> Result<ExprV, ErrV> {
    match r {
        Ok(k) => Ok(view_expr(Expr { kind: k })),
        Err(e) => Err(err_view(e)),
    }
}

pub open spec fn stmt_result(r: Result<Stmt, ParseError>) -> Result<StmtV, ErrV> {
    match r {
        Ok(st) => Ok(view_stmt(st)),
        Err(e) => Err(err_view(e)),
    }
}

pub open spec fn stmt_kind_result(r: Result<StmtKind, ParseError>) -> Result<StmtV, ErrV> {
    match r {
        Ok(k) => Ok(view_stmt(Stmt { kind: k })),
        Err(e) => Err(err_view(e)),
    }
}

pub open spec fn item_result(r: Result<Item, ParseError>) -> Result<StmtV, ErrV> {
    match r {
        Ok(it) => Ok(view_stmt(it.kind->Statement_0)),
        Err(e) => Err(err_view(e)),
    }
}

pub open spec fn ast_result(r: Result<Ast, ParseError>) -> Result<Seq<StmtV>, ErrV> {
    match r {
        Ok(a) => Ok(view_items(a.items@)),
        Err(e) => Err(err_view(e)),
    }
}

pub open spec fn block_result(r: Result<(Expr, Vec<Item>), ParseError>) -> Result<(ExprV, Seq<StmtV>), ErrV> {
    match r {
        Ok((c, items)) => Ok((view_expr(c), view_items(items@))),
        Err(e) => Err(err_view(e)),
    }
}

/// An `if` or a `while` statement from its block.
pub open spec fn with_block(r: (Result<(ExprV, Seq<StmtV>), ErrV>, nat, Seq<Seq<char>>), is_if: bool) -> (Result<StmtV, ErrV>, nat, Seq<Seq<char>>) {
    (match r.0 {
        Ok((c, items)) => Ok(if is_if { StmtV::If(c, items) } else { StmtV::While(c, items) }),
        Err(e) => Err(e),
    }, r.1, r.2)
}

/// `expr := (unary | primary) [binop expr]`: a binary operator takes the
/// whole rest of the expression as its right operand.
pub open spec fn so_expr(ts: Seq<Tok>, i: nat) -> (Result<ExprV, ErrV>, nat)
    decreases left(ts, i), 3nat,
{
    let (r, j) = if kind(ts, i) == TokenV::Minus { so_unary(ts, i) } else { so_primary(ts, i) };
    match r {
        Err(e) => (Err(e), j),
        Ok(k) => if j >= i && spec_binop_of(kind(ts, j)) is Some {
            so_binary(ts, j, k, 0)
        } else {
            (Ok(k), j)
        },
    }
}

/// `"-" expr`: the operator applies to the whole expression after it.
pub open spec fn so_unary(ts: Seq<Tok>, i: nat) -> (Result<ExprV, ErrV>, nat)
    decreases left(ts, i), 2nat,
{
    if kind(ts, i) == TokenV::Minus && i < ts.len() {
        let (r, j) = so_expr(ts, i + 1);
        (match r {
            Ok(e) => Ok(ExprV::Unary(UnOp::Neg, Box::new(e))),
            Err(e) => Err(e),
        }, j)
    } else {
        (Err(ErrV::UnexpectedToken(kind(ts, i))), i)
    }
}

/// An integer (that fits an `isize`), a string, an identifier or a group.
pub open spec fn so_primary(ts: Seq<Tok>, i: nat) -> (Result<ExprV, ErrV>, nat)
    decreases left(ts, i), 2nat,
{
    match kind(ts, i) {
        TokenV::Int(v) => (if spec_int_fits(v) {
            Ok(ExprV::Int(decimal_value(v)))
        } else {
            Err(ErrV::InvalidInteger(v))
        }, i + 1),
        TokenV::Str(v) => (Ok(ExprV::Str(v)), i + 1),
        TokenV::Ident(v) => (Ok(ExprV::Ident(v)), i + 1),
        TokenV::LParen => if i < ts.len() {
            so_group(ts, i + 1)
        } else {
            (Err(ErrV::UnexpectedToken(TokenV::LParen)), i + 1)
        },
        t => (Err(ErrV::UnexpectedToken(t)), i + 1),
    }
}

/// `expr ")"`, after the `(`.
pub open spec fn so_group(ts: Seq<Tok>, i: nat) -> (Result<ExprV, ErrV>, nat)
    decreases left(ts, i), 4nat,
{
    let (r, j) = so_expr(ts, i);
    match r {
        Err(e) => (Err(e), j),
        Ok(e) => if kind(ts, j) != TokenV::RParen {
            (Err(ErrV::Expected(TokenV::RParen, kind(ts, j))), j)
        } else {
            (Ok(e), j + 1)
        },
    }
}

/// An operator that binds more strongly than `precedence`, and the rest of
/// the expression as its right operand; else `lhs` alone.
pub open spec fn so_binary(ts: Seq<Tok>, i: nat, lhs: ExprV, precedence: u8) -> (Result<ExprV, ErrV>, nat)
    decreases left(ts, i), 1nat,
{
    match spec_binop_of(kind(ts, i)) {
        Some(op) => if spec_precedence(op) > precedence && i < ts.len() {
            let (r, j) = so_expr(ts, i + 1);
            (match r {
                Ok(right) => Ok(ExprV::Binary(op, Box::new(lhs), Box::new(right))),
                Err(e) => Err(e),
            }, j)
        } else {
            (Ok(lhs), i)
        },
        None => (Ok(lhs), i),
    }
}

/// `ident "=" expr` after the `let`: the name must not be declared yet, and
/// is declared afterwards.
pub open spec fn so_let(ts: Seq<Tok>, i: nat, syms: Seq<Seq<char>>) -> (Result<StmtV, ErrV>, nat, Seq<Seq<char>>)
    decreases left(ts, i), 4nat,
{
    match kind(ts, i) {
        TokenV::Ident(name) => if i < ts.len() {
            if kind(ts, i + 1) != TokenV::Assign {
                (Err(ErrV::Expected(TokenV::Assign, kind(ts, i + 1))), i + 1, syms)
            } else {
                let (r, j) = so_expr(ts, i + 2);
                match r {
                    Err(e) => (Err(e), j, syms),
                    Ok(e) => if syms.contains(name) {
                        (Err(ErrV::SymbolAlreadyDefined(name)), j, syms)
                    } else {
                        (Ok(StmtV::Let(name, e)), j, syms.push(name))
                    },
                }
            }
        } else {
            (Err(ErrV::UnexpectedToken(kind(ts, i))), i, syms)
        },
        t => (Err(ErrV::UnexpectedToken(t)), i, syms),
    }
}

/// `expr "{" newline* {statement}* "}"` after `if` or `while`.
pub open spec fn so_block(ts: Seq<Tok>, i: nat, syms: Seq<Seq<char>>) -> (Result<(ExprV, Seq<StmtV>), ErrV>, nat, Seq<Seq<char>>)
    decreases left(ts, i), 7nat,
{
    let (r, j) = so_expr(ts, i);
    match r {
        Err(e) => (Err(e), j, syms),
        Ok(c) => if kind(ts, j) != TokenV::LBrace {
            (Err(ErrV::Expected(TokenV::LBrace, kind(ts, j))), j, syms)
        } else {
            let k = skip_newlines(ts, j + 1);
            if k >= i {
                let (r2, m, s2) = so_items(ts, k, syms, TokenV::RBrace);
                match r2 {
                    Err(e) => (Err(e), m, s2),
                    Ok(items) => (Ok((c, items)), m + 1, s2),
                }
            } else {
                (Ok((c, Seq::empty())), k, syms)
            }
        },
    }
}

/// A statement without its `;`: the keyword decides its kind.
pub open spec fn so_kind(ts: Seq<Tok>, i: nat, syms: Seq<Seq<char>>) -> (Result<StmtV, ErrV>, nat, Seq<Seq<char>>)
    decreases left(ts, i), 4nat,
{
    if i < ts.len() {
        match kind(ts, i) {
            TokenV::Let => so_let(ts, i + 1, syms),
            TokenV::If => with_block(so_block(ts, i + 1, syms), true),
            TokenV::While => with_block(so_block(ts, i + 1, syms), false),
            TokenV::Print => {
                let (r, j) = so_expr(ts, i + 1);
                (match r {
                    Ok(e) => Ok(StmtV::Print(e)),
                    Err(e) => Err(e),
                }, j, syms)
            },
            t => (Err(ErrV::UnexpectedToken(t)), i + 1, syms),
        }
    } else {
        (Err(ErrV::UnexpectedToken(kind(ts, i))), i + 1, syms)
    }
}

/// A statement and the `;` that ends it.
pub open spec fn so_stmt(ts: Seq<Tok>, i: nat, syms: Seq<Seq<char>>) -> (Result<StmtV, ErrV>, nat, Seq<Seq<char>>)
    decreases left(ts, i), 5nat,
{
    let (r, j, s2) = so_kind(ts, i, syms);
    match r {
        Err(e) => (Err(e), j, s2),
        Ok(st) => if kind(ts, j) != TokenV::SemiColon {
            (Err(ErrV::Expected(TokenV::SemiColon, kind(ts, j))), j, s2)
        } else {
            (Ok(st), j + 1, s2)
        },
    }
}

/// Statements, each followed by any newlines, up to `end`.
pub open spec fn so_items(ts: Seq<Tok>, i: nat, syms: Seq<Seq<char>>, end: TokenV) -> (Result<Seq<StmtV>, ErrV>, nat, Seq<Seq<char>>)
    decreases left(ts, i), 6nat,
{
    if kind(ts, i) == end {
        (Ok(Seq::empty()), i, syms)
    } else {
        let (r, j, s2) = so_stmt(ts, i, syms);
        match r {
            Err(e) => (Err(e), j, s2),
            Ok(st) => {
                let k = skip_newlines(ts, j);
                if k > i && i < ts.len() {
                    let (r3, m, s3) = so_items(ts, k, s2, end);
                    (match r3 {
                        Ok(rest) => Ok(seq![st] + rest),
                        Err(e) => Err(e),
                    }, m, s3)
                } else {
                    (Ok(seq![st]), k, s2)
                }
            },
        }
    }
}

} // verus!
