//! The statement syntax tree: a program is a list of items, each a statement
//! ending in `;`. Grammar: `{(statement) ";" newline*}*`.
use vstd::prelude::*;

pub use self::expression::{BinOp, Ident, Literal, UnOp};
use self::expression::{is_unexpected, spec_binop_of};
use self::parser::{ParseError, Parser, P};
pub use self::statements::Print;
use crate::lexer::{Token, TokenV};
use crate::words::strs;
use self::grammar::{ast_result, item_result, so_items, so_kind, so_stmt, stmt_kind_result, stmt_result, view_items, view_stmt, StmtV};
use crate::parser::grammar::{kind, skip_newlines};

pub mod display;
pub mod evaluator;
pub mod expression;
pub mod grammar;
pub mod parser;
pub mod statement;
pub mod statements;
pub mod types;
pub mod visitor;

verus! {

/// A parsed program: the items up to the closing delimiter.
#[derive(Debug, PartialEq, Eq)]
pub struct Ast {
    pub items: Vec<Item>,
}

#[derive(Debug, PartialEq, Eq)]
pub struct Item {
    pub kind: ItemKind,
}

#[derive(Debug, PartialEq, Eq)]
pub enum ItemKind {
    Statement(Stmt),
}

#[derive(Debug, PartialEq, Eq)]
pub struct Stmt {
    pub kind: StmtKind,
}

#[derive(Debug, PartialEq, Eq)]
pub enum StmtKind {
    /// "let" (identifier) "=" (expression)
    Let(Ident, Expr),
    /// "if" (condition) "{" newline* {statement}* "}"
    If(Expr, Vec<Item>),
    /// "while" (condition) "{" newline* {statement}* "}"
    While(Expr, Vec<Item>),
    /// "print" (expression)
    Print(Print),
}

#[derive(Debug, PartialEq, Eq)]
pub struct Expr {
    pub kind: ExprKind,
}

#[derive(Debug, PartialEq, Eq)]
pub enum ExprKind {
    Binary(BinOp, P<Expr>, P<Expr>),
    Unary(UnOp, P<Expr>),
    Ident(String),
    Literal(Literal),
}

/// What every parsing function keeps: the parser stays well formed, the
/// progress measure never grows and declared symbols are never forgotten.
pub open spec fn progressed(before: &Parser, after: &Parser) -> bool {
    &&& after.wf()
    &&& after.measure() <= before.measure()
    &&& before.symbols@.len() <= after.symbols@.len()
    &&& after.stream@ == before.stream@
    &&& before.index@ <= after.index@
}

/// Parsing that succeeded consumed at least one token.
pub open spec fn consumed(before: &Parser, after: &Parser) -> bool {
    after.measure() < before.measure()
}

/// A construct that the statement parser can read from its current token.
pub trait Parse<'a>: Sized {
    /// Reads the construct, or gives the reason it cannot be read.
    fn parse(parser: &mut Parser<'a>) -> (r: Result<Self, ParseError>)
        requires
            old(parser).wf(),
        ensures
            progressed(old(parser), final(parser)),
            r is Ok ==> consumed(old(parser), final(parser));
}

impl<'a> Parse<'a> for Item {
    fn parse(parser: &mut Parser<'a>) -> (r: Result<Item, ParseError>)
        ensures
            (item_result(r), final(parser).index@, strs(final(parser).symbols@))
                == so_stmt(old(parser).stream@, old(parser).index@, strs(old(parser).symbols@)),
    {
        Item::parse_item(parser)
    }
}

impl<'a> Parse<'a> for Stmt {
    fn parse(parser: &mut Parser<'a>) -> (r: Result<Stmt, ParseError>)
        ensures
            (stmt_result(r), final(parser).index@, strs(final(parser).symbols@))
                == so_stmt(old(parser).stream@, old(parser).index@, strs(old(parser).symbols@)),
    {
        Stmt::parse_stmt(parser)
    }
}

impl<'a> Parse<'a> for Expr {
    fn parse(parser: &mut Parser<'a>) -> (r: Result<Expr, ParseError>)
        ensures
            final(parser).symbols@ == old(parser).symbols@,
            (self::grammar::expr_result(r), final(parser).index@) == self::grammar::so_expr(old(parser).stream@, old(parser).index@),
    {
        Expr::parse(parser)
    }
}

impl Ast {
    /// Parses statements until the current token is `end_delim`, skipping
    /// newlines after each statement.
    pub fn parse(parser: &mut Parser, end_delim: Token) -> (r: Result<Ast, ParseError>)
        requires
            old(parser).wf(),
        ensures
            progressed(old(parser), final(parser)),
            r is Ok ==> final(parser).current_token@ == end_delim@,
            old(parser).current_token@ == end_delim@ ==> (r matches Ok(a) && a.items@.len() == 0),
            (ast_result(r), final(parser).index@, strs(final(parser).symbols@))
                == so_items(old(parser).stream@, old(parser).index@, strs(old(parser).symbols@), end_delim@),
        decreases old(parser).measure(), 8nat,
    {
        let ghost ts = parser.stream@;
        let ghost i0 = parser.index@;
        let ghost s0 = strs(parser.symbols@);
        let mut items: Vec<Item> = Vec::new();
        proof {
            assert(view_items(items@) =~= Seq::<StmtV>::empty());
            let r = so_items(ts, i0, s0, end_delim@);
            match r.0 {
                Ok(rest) => {
                    assert(Seq::<StmtV>::empty() + rest =~= rest);
                },
                Err(_) => {},
            }
        }
        while !parser.current_token(end_delim.duplicate())
            invariant
                progressed(old(parser), parser),
                items@.len() == 0 ==> parser.current_token@ == old(parser).current_token@,
                old(parser).current_token@ == end_delim@ ==> items@.len() == 0,
                ts == parser.stream@,
                i0 == old(parser).index@,
                s0 == strs(old(parser).symbols@),
                so_items(ts, i0, s0, end_delim@) == ({
                    let r = so_items(ts, parser.index@, strs(parser.symbols@), end_delim@);
                    (match r.0 {
                        Ok(rest) => Ok(view_items(items@) + rest),
                        Err(e) => Err(e),
                    }, r.1, r.2)
                }),
            decreases parser.measure(),
        {
            let ghost m0 = parser.measure();
            let ghost cur = parser.index@;
            let ghost sc = strs(parser.symbols@);
            let ghost before = view_items(items@);
            proof {
                parser.lemma_tokens();
                assert(kind(ts, cur) != end_delim@);
            }
            let item = Item::parse_item(parser)?;
            let ghost j = parser.index@;
            let ghost s2 = strs(parser.symbols@);
            let ghost sym_vec = parser.symbols@;
            proof {
                lemma_view_items_push(items@, item);
            }
            items.push(item);
            while parser.current_token(Token::Newline)
                invariant
                    progressed(old(parser), parser),
                    parser.measure() < m0,
                    ts == parser.stream@,
                    j <= parser.index@,
                    skip_newlines(ts, j) == skip_newlines(ts, parser.index@),
                    parser.symbols@ == sym_vec,
                decreases parser.measure(),
            {
                proof {
                    parser.lemma_tokens();
                }
                parser.step();
            }
            proof {
                parser.lemma_tokens();
                let k = parser.index@;
                let st = view_stmt(item.kind->Statement_0);
                assert(so_stmt(ts, cur, sc) == (Ok::<StmtV, self::grammar::ErrV>(st), j, s2));
                assert(k == skip_newlines(ts, j));
                assert(k >= j);
                assert(k > cur && cur < ts.len());
                let r = so_items(ts, k, s2, end_delim@);
                assert(so_items(ts, cur, sc, end_delim@) == (match r.0 {
                    Ok(rest) => Ok(seq![st] + rest),
                    Err(e) => Err(e),
                }, r.1, r.2));
                match r.0 {
                    Ok(rest) => {
                        assert(before.push(st) + rest =~= before + (seq![st] + rest));
                    },
                    Err(_) => {},
                }
            }
        }
        proof {
            parser.lemma_tokens();
            assert(view_items(items@) + Seq::<StmtV>::empty() =~= view_items(items@));
        }
        Ok(Ast { items })
    }
}

proof fn lemma_view_items_push(v: Seq<Item>, x: Item)
    ensures
        view_items(v.push(x)) == view_items(v).push(view_stmt(x.kind->Statement_0)),
{
    assert(v.push(x).drop_last() =~= v);
}

impl Item {
    /// Parses one item: a statement.
    pub fn parse_item(parser: &mut Parser) -> (r: Result<Item, ParseError>)
        requires
            old(parser).wf(),
        ensures
            progressed(old(parser), final(parser)),
            r is Ok ==> consumed(old(parser), final(parser)),
            (item_result(r), final(parser).index@, strs(final(parser).symbols@))
                == so_stmt(old(parser).stream@, old(parser).index@, strs(old(parser).symbols@)),
            final(parser).index@ > old(parser).index@,
            r is Ok ==> old(parser).current_token@ != TokenV::Eof,
        decreases old(parser).measure(), 7nat,
    {
        let stmt = Stmt::parse_stmt(parser)?;
        Ok(Item { kind: ItemKind::Statement(stmt) })
    }
}

impl Stmt {
    /// Parses a statement and the `;` that ends it.
    pub fn parse_stmt(parser: &mut Parser) -> (r: Result<Stmt, ParseError>)
        requires
            old(parser).wf(),
        ensures
            progressed(old(parser), final(parser)),
            r is Ok ==> consumed(old(parser), final(parser)),
            (stmt_result(r), final(parser).index@, strs(final(parser).symbols@))
                == so_stmt(old(parser).stream@, old(parser).index@, strs(old(parser).symbols@)),
            final(parser).index@ > old(parser).index@,
            r is Ok ==> old(parser).current_token@ != TokenV::Eof,
        decreases old(parser).measure(), 6nat,
    {
        let kind = Stmt::parse_kind(parser)?;
        proof {
            parser.lemma_tokens();
        }
        if !parser.current_token(Token::SemiColon) {
            return Err(ParseError::Expected(Token::SemiColon, parser.current_token.duplicate()));
        }
        parser.step();
        Ok(Stmt { kind })
    }

    /// Parses a statement without its terminating `;`: the keyword decides its kind.
    pub fn parse_kind(parser: &mut Parser) -> (r: Result<StmtKind, ParseError>)
        requires
            old(parser).wf(),
        ensures
            progressed(old(parser), final(parser)),
            r is Ok ==> consumed(old(parser), final(parser)),
            old(parser).current_token@ == TokenV::Let ==> (r is Err || r matches Ok(
                StmtKind::Let(_, _),
            )),
            old(parser).current_token@ == TokenV::If ==> (r is Err || r matches Ok(
                StmtKind::If(_, _),
            )),
            old(parser).current_token@ == TokenV::While ==> (r is Err || r matches Ok(
                StmtKind::While(_, _),
            )),
            old(parser).current_token@ == TokenV::Print ==> (r is Err || r matches Ok(
                StmtKind::Print(_),
            )),
            !(old(parser).current_token@ is Let || old(parser).current_token@ is If
                || old(parser).current_token@ is While || old(parser).current_token@ is Print)
                ==> r is Err && is_unexpected(r->Err_0, old(parser).current_token@),
            (stmt_kind_result(r), final(parser).index@, strs(final(parser).symbols@))
                == so_kind(old(parser).stream@, old(parser).index@, strs(old(parser).symbols@)),
            final(parser).index@ > old(parser).index@,
        decreases old(parser).measure(), 5nat,
    {
        proof {
            parser.lemma_tokens();
        }
        let token = parser.eat();
        match token {
            Token::Let => Self::parse_let(parser),
            Token::If => Self::parse_if(parser),
            Token::While => Self::parse_while(parser),
            Token::Print => {
                let expression = Expr::parse(parser)?;
                Ok(StmtKind::Print(Print { expression }))
            },
            _ => Err(ParseError::UnexpectedToken(token)),
        }
    }
}

impl Expr {
    /// Parses an expression: a unary expression, or a primary one that may be
    /// the left operand of a binary operator whose right operand is the rest.
    pub fn parse(parser: &mut Parser) -> (r: Result<Expr, ParseError>)
        requires
            old(parser).wf(),
        ensures
            progressed(old(parser), final(parser)),
            final(parser).symbols@ == old(parser).symbols@,
            r is Ok ==> consumed(old(parser), final(parser)),
            r is Ok ==> spec_binop_of(final(parser).current_token@) is None,
            r is Ok && old(parser).current_token@ == TokenV::Minus ==> r->Ok_0.kind is Unary,
            r is Ok && old(parser).current_token@ != TokenV::Minus
                && spec_binop_of(old(parser).next_token@) is Some
                && !(old(parser).current_token@ is LParen) ==> r->Ok_0.kind is Binary,
            (self::grammar::expr_result(r), final(parser).index@) == self::grammar::so_expr(old(parser).stream@, old(parser).index@),
        decreases old(parser).measure(), 3nat,
    {
        proof {
            parser.lemma_tokens();
        }
        let kind = if UnOp::token_match(&parser.current_token) {
            Self::parse_unary(parser)?
        } else {
            Self::parse_primary(parser)?
        };
        proof {
            parser.lemma_tokens();
        }
        let kind = if BinOp::token_match(&parser.current_token) {
            Self::parse_binary(parser, kind, 0)?
        } else {
            kind
        };
        Ok(Expr { kind })
    }
}

} // verus!
