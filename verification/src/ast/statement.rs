//! Parsing of `let`, `if` and `while` statements.
use vstd::prelude::*;

use super::expression::is_unexpected;
use super::parser::{ParseError, Parser};
use super::{consumed, progressed, Ast, Expr, Stmt, StmtKind};
use crate::lexer::{Token, TokenV};
use crate::parser::grammar::{kind, skip_newlines};
use crate::words::{lemma_strs_push, strs};
use super::grammar::{block_result, so_block, so_let, stmt_kind_result, with_block};

verus! {

/// Whether `name` is among the declared symbols.
pub fn is_declared(symbols: &Vec<String>, name: &String) -> (r: bool)
    ensures
        r == exists|i: int| 0 <= i < symbols@.len() && (#[trigger] symbols@[i])@ == name@,
{
    let mut i: usize = 0;
    while i < symbols.len()
        invariant
            i <= symbols@.len(),
            forall|j: int| 0 <= j < i ==> (#[trigger] symbols@[j])@ != name@,
        decreases symbols.len() - i,
    {
        if String::eq(&symbols[i], name) {
            return true;
        }
        i = i + 1;
    }
    false
}

impl Stmt {
    /// Parses the condition and the braced block of an `if` or `while`,
    /// after its keyword.
    fn parse_block(parser: &mut Parser) -> (r: Result<(Expr, Vec<super::Item>), ParseError>)
        requires
            old(parser).wf(),
        ensures
            progressed(old(parser), final(parser)),
            r is Ok ==> consumed(old(parser), final(parser)),
            (block_result(r), final(parser).index@, strs(final(parser).symbols@))
                == so_block(old(parser).stream@, old(parser).index@, strs(old(parser).symbols@)),
        decreases old(parser).measure(), 4nat,
    {
        let ghost ts = parser.stream@;
        let condition = Expr::parse(parser)?;
        proof {
            parser.lemma_tokens();
        }
        if !parser.current_token(Token::LBrace) {
            return Err(ParseError::Expected(Token::LBrace, parser.current_token.duplicate()));
        }
        parser.step();
        let ghost j = parser.index@;
        // Newlines after the opening brace are optional
        while parser.current_token(Token::Newline)
            invariant
                progressed(old(parser), parser),
                consumed(old(parser), parser),
                ts == parser.stream@,
                j <= parser.index@,
                skip_newlines(ts, j) == skip_newlines(ts, parser.index@),
                strs(parser.symbols@) == strs(old(parser).symbols@),
            decreases parser.measure(),
        {
            proof {
                parser.lemma_tokens();
            }
            parser.step();
        }
        proof {
            parser.lemma_tokens();
        }
        let resolution = Ast::parse(parser, Token::RBrace)?.items;
        parser.step();
        Ok((condition, resolution))
    }

    /// Grammar: "if" (condition) "{" newline* {statement}* "}"
    pub fn parse_if(parser: &mut Parser) -> (r: Result<StmtKind, ParseError>)
        requires
            old(parser).wf(),
        ensures
            progressed(old(parser), final(parser)),
            r is Ok ==> consumed(old(parser), final(parser)),
            r is Ok ==> r->Ok_0 is If,
            (stmt_kind_result(r), final(parser).index@, strs(final(parser).symbols@))
                == with_block(so_block(old(parser).stream@, old(parser).index@, strs(old(parser).symbols@)), true),
        decreases old(parser).measure(), 5nat,
    {
        let (condition, resolution) = Self::parse_block(parser)?;
        Ok(StmtKind::If(condition, resolution))
    }

    /// Grammar: "while" (condition) "{" newline* {statement}* "}"
    pub fn parse_while(parser: &mut Parser) -> (r: Result<StmtKind, ParseError>)
        requires
            old(parser).wf(),
        ensures
            progressed(old(parser), final(parser)),
            r is Ok ==> consumed(old(parser), final(parser)),
            r is Ok ==> r->Ok_0 is While,
            (stmt_kind_result(r), final(parser).index@, strs(final(parser).symbols@))
                == with_block(so_block(old(parser).stream@, old(parser).index@, strs(old(parser).symbols@)), false),
        decreases old(parser).measure(), 5nat,
    {
        let (condition, resolution) = Self::parse_block(parser)?;
        Ok(StmtKind::While(condition, resolution))
    }

    /// Grammar: "let" (ident) "=" (expression); the identifier must not be declared yet.
    pub fn parse_let(parser: &mut Parser) -> (r: Result<StmtKind, ParseError>)
        requires
            old(parser).wf(),
        ensures
            progressed(old(parser), final(parser)),
            r is Ok ==> consumed(old(parser), final(parser)),
            match old(parser).current_token@ {
                TokenV::Ident(name) => match r {
                    Ok(StmtKind::Let(n, _)) => n@ == name
                        && !(exists|i: int| 0 <= i < old(parser).symbols@.len() && (#[trigger] old(parser).symbols@[i])@ == name)
                        && final(parser).symbols@.last()@ == name,
                    Ok(_) => false,
                    Err(_) => true,
                },
                t => r is Err && is_unexpected(r->Err_0, t),
            },
            (stmt_kind_result(r), final(parser).index@, strs(final(parser).symbols@))
                == so_let(old(parser).stream@, old(parser).index@, strs(old(parser).symbols@)),
        decreases old(parser).measure(), 5nat,
    {
        proof {
            parser.lemma_tokens();
        }
        let ident = match &parser.current_token {
            Token::Ident(value) => value.clone(),
            _ => return Err(ParseError::UnexpectedToken(parser.current_token.duplicate())),
        };
        parser.step();
        proof {
            parser.lemma_tokens();
        }
        if !parser.current_token(Token::Assign) {
            return Err(ParseError::Expected(Token::Assign, parser.current_token.duplicate()));
        }
        parser.step();
        let expression = Expr::parse(parser)?;
        proof {
            assert(strs(parser.symbols@).contains(ident@) == exists|i: int| 0 <= i < parser.symbols@.len() && (#[trigger] parser.symbols@[i])@ == ident@) by {
                if strs(parser.symbols@).contains(ident@) {
                    let i = choose|i: int| 0 <= i < strs(parser.symbols@).len() && strs(parser.symbols@)[i] == ident@;
                    assert(parser.symbols@[i]@ == ident@);
                }
                if exists|i: int| 0 <= i < parser.symbols@.len() && (#[trigger] parser.symbols@[i])@ == ident@ {
                    let i = choose|i: int| 0 <= i < parser.symbols@.len() && (#[trigger] parser.symbols@[i])@ == ident@;
                    assert(strs(parser.symbols@)[i] == ident@);
                }
            }
        }
        if is_declared(&parser.symbols, &ident) {
            return Err(ParseError::SymbolAlreadyDefined(ident));
        }
        let declared = ident.clone();
        proof {
            lemma_strs_push(parser.symbols@, declared);
        }
        parser.symbols.push(declared);
        Ok(StmtKind::Let(ident, expression))
    }
}

} // verus!
