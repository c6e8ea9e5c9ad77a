//! Recursive-descent combinators for the expression-oriented grammar:
//!
//! `sequence := {statement ";" newline*}*`,
//! `statement := "let" ident "=" expr | ident "=" expr | ("if" | "while") expr "{" newline* sequence "}"`,
//! `expr := unary_or_primary (binop expr)*` with operator precedence,
//! `unary_or_primary := "-" unary_or_primary | integer | string | ident | "(" expr ")"`.
use vstd::prelude::*;

use super::ast::{spec_binop_of, spec_precedence, Ast, BinOp, Ident, LiteralKind, Pattern, UnOp};
use super::grammar::{
    kind, past, skip_newlines, sp_assignment, sp_binary, sp_condition_block, sp_expr, sp_group, sp_if, sp_let,
    sp_operand, sp_primary, sp_sequence, sp_statement, sp_statements, sp_unary, sp_unary_or_primary, sp_while,
    join, span_at, unbound, view_all, view_ast, AstV,
};
use super::{added, extends, lemma_added_concat, lemma_added_none, lemma_added_one, progressed, reported_at, Parser};
use crate::diagnostics::{quoted, reported, DiagV, DiagnosticKind};
use crate::lexer::token::spec_token_text;
use crate::lexer::{Token, TokenV};
use crate::span::Span;
use crate::text::{all_digits, decimal_value, parse_decimal};

verus! {

/// Parses statements until the current token is `end_delim` or the end of the input.
pub fn parse_sequence(parser: &mut Parser, end_delim: Token) -> (a: Ast)
    requires
        old(parser).wf(),
    ensures
        progressed(old(parser), final(parser)),
        unbound(a),
        a is Sequence,
        final(parser).current_token.0@ == end_delim@ || final(parser).current_token.0@ == TokenV::Eof,
        (old(parser).current_token.0@ == end_delim@ || old(parser).current_token.0@ == TokenV::Eof)
            ==> a->Sequence_0.statements@.len() == 0,
        (view_ast(a), final(parser).index@, added(old(parser), final(parser)))
            == sp_sequence(old(parser).stream@, old(parser).index@, end_delim@),
    decreases old(parser).measure(), 8nat,
{
    let ghost ts = parser.stream@;
    let ghost i0 = parser.index@;
    proof {
        parser.lemma_tokens();
    }
    let start_span = parser.current_span();
    let mut statements: Vec<Ast> = Vec::new();
    proof {
        assert(view_all(statements@) =~= Seq::<AstV>::empty());
        let r = sp_statements(ts, i0, end_delim@);
        assert(Seq::<AstV>::empty() + r.0 =~= r.0);
        lemma_added_none(old(parser), parser);
        assert(Seq::<DiagV>::empty() + r.2 =~= r.2);
    }
    while !parser.current_token_is(&end_delim) && !parser.current_token_is(&Token::Eof)
        invariant
            progressed(old(parser), parser),
            (old(parser).current_token.0@ == end_delim@ || old(parser).current_token.0@ == TokenV::Eof)
                ==> statements@.len() == 0,
            statements@.len() == 0 ==> parser.current_token.0@ == old(parser).current_token.0@,
            forall|j: int| 0 <= j < statements@.len() ==> unbound(#[trigger] statements@[j]),
            ts == parser.stream@,
            i0 == old(parser).index@,
            sp_statements(ts, i0, end_delim@) == ({
                let r = sp_statements(ts, parser.index@, end_delim@);
                (view_all(statements@) + r.0, r.1, added(old(parser), parser) + r.2)
            }),
        decreases parser.measure(),
    {
        let ghost m0 = parser.measure();
        let ghost cur = parser.index@;
        let ghost before = view_all(statements@);
        let ghost pc = *parser;
        proof {
            parser.lemma_tokens();
        }
        let stmt = parse_statement(parser);
        let ghost j = parser.index@;
        let ghost ps = *parser;
        proof {
            lemma_view_all_push(statements@, stmt);
        }
        statements.push(stmt);
        while parser.current_token_is(&Token::Newline)
            invariant
                progressed(old(parser), parser),
                parser.measure() < m0,
                ts == parser.stream@,
                j <= parser.index@,
                skip_newlines(ts, j) == skip_newlines(ts, parser.index@),
                parser.diags() == ps.diags(),
            decreases parser.measure(),
        {
            proof {
                parser.lemma_tokens();
            }
            parser.step();
        }
        proof {
            parser.lemma_tokens();
            let k = parser.index@;
            let s1 = view_ast(stmt);
            let r = sp_statements(ts, k, end_delim@);
            let d1 = added(&pc, &ps);
            assert(sp_statements(ts, cur, end_delim@) == (seq![s1] + r.0, r.1, d1 + r.2));
            assert(before.push(s1) + r.0 =~= before + (seq![s1] + r.0));
            lemma_added_none(&ps, parser);
            lemma_added_concat(&pc, &ps, parser);
            lemma_added_concat(old(parser), &pc, parser);
            assert(added(&pc, parser) =~= d1);
            assert(added(old(parser), &pc) + (d1 + r.2) =~= added(old(parser), parser) + r.2);
        }
    }
    proof {
        parser.lemma_tokens();
        assert(view_all(statements@) + Seq::<AstV>::empty() =~= view_all(statements@));
        assert(added(old(parser), parser) + Seq::<DiagV>::empty() =~= added(old(parser), parser));
    }
    Ast::sequence(statements, Span::join(start_span, parser.current_span()))
}

proof fn lemma_view_all_push(v: Seq<Ast>, x: Ast)
    ensures
        view_all(v.push(x)) == view_all(v).push(view_ast(x)),
{
    assert(v.push(x).drop_last() =~= v);
}

/// Parses one statement and expects the `;` after it. A token that cannot
/// start a statement is reported.
#[verifier::rlimit(80)]
pub fn parse_statement(parser: &mut Parser) -> (a: Ast)
    requires
        old(parser).wf(),
    ensures
        progressed(old(parser), final(parser)),
        unbound(a),
        old(parser).current_token.0@ != TokenV::Eof ==> final(parser).measure() < old(parser).measure(),
        match old(parser).current_token.0@ {
            TokenV::Let => a is Let || a is Error,
            TokenV::Ident(name) => a matches Ast::Assignment(d) && d.pattern.name@ == name
                && d.pattern.span == old(parser).current_token.1,
            TokenV::If => a is If,
            TokenV::While => a is While,
            t => a is Error && reported_at(
                final(parser).diags(),
                old(parser).diags().len() as int,
                DiagnosticKind::Error,
                "unknown statement "@ + quoted(spec_token_text(t)),
                old(parser).current_token.1,
            ),
        },
        (view_ast(a), final(parser).index@, added(old(parser), final(parser)))
            == sp_statement(old(parser).stream@, old(parser).index@),
        final(parser).index@ > old(parser).index@,
    decreases old(parser).measure(), 7nat,
{
    proof {
        parser.lemma_tokens();
    }
    let ghost ts = parser.stream@;
    let ghost i = parser.index@;
    let (token, span) = parser.consume();
    let ghost p1 = *parser;
    let stmt = match token {
        Token::Let => parse_let(parser),
        Token::Ident(ident) => parse_assignment(parser, Pattern { name: ident, span }),
        Token::If => parse_if(parser),
        Token::While => parse_while(parser),
        _ => {
            parser.diagnostics.unknown_statement(&token, &span);
            proof {
                lemma_added_one(&p1, parser, DiagnosticKind::Error,
                    "unknown statement "@ + quoted(spec_token_text(token@)), span);
            }
            Ast::Error
        },
    };
    let ghost p2 = *parser;
    parser.expect(Token::SemiColon);
    proof {
        let r = sp_statement(ts, i);
        let inner = if i < ts.len() {
            match kind(ts, i) {
                TokenV::Let => sp_let(ts, i + 1),
                TokenV::Ident(name) => sp_assignment(ts, i + 1, name, span),
                TokenV::If => sp_if(ts, i + 1),
                TokenV::While => sp_while(ts, i + 1),
                _ => (AstV::Error, i + 1, seq![(DiagnosticKind::Error, "unknown statement "@ + quoted(spec_token_text(kind(ts, i))), span)]),
            }
        } else {
            (AstV::Error, i + 1, seq![(DiagnosticKind::Error, "unknown statement "@ + quoted(spec_token_text(kind(ts, i))), span)])
        };
        assert(added(&p1, &p2) == inner.2);
        lemma_added_concat(old(parser), &p1, &p2);
        lemma_added_concat(old(parser), &p2, parser);
        assert(added(old(parser), &p1) + inner.2 =~= inner.2);
    }
    stmt
}

/// Parses an expression: a unary or primary expression, followed by binary
/// operations when an operator comes next.
pub fn parse_expression(parser: &mut Parser) -> (a: Ast)
    requires
        old(parser).wf(),
    ensures
        progressed(old(parser), final(parser)),
        unbound(a),
        spec_binop_of(final(parser).current_token.0@) is None,
        (view_ast(a), final(parser).index@, added(old(parser), final(parser)))
            == sp_expr(old(parser).stream@, old(parser).index@),
    decreases old(parser).measure(), 4nat,
{
    let mut expr = parse_unary_or_primary(parser);
    let ghost p1 = *parser;
    proof {
        parser.lemma_tokens();
    }
    if BinOp::token_match(parser.current_token()) {
        expr = parse_binary(parser, expr, 0);
    }
    proof {
        lemma_added_concat(old(parser), &p1, parser);
        if !(spec_binop_of(p1.current_token.0@) is Some) {
            lemma_added_none(&p1, parser);
            assert(added(old(parser), &p1) + Seq::<DiagV>::empty() =~= added(old(parser), &p1));
        }
    }
    expr
}

/// Grammar: "let" (identifier) "=" (expression), after the `let`.
pub fn parse_let(parser: &mut Parser) -> (a: Ast)
    requires
        old(parser).wf(),
    ensures
        progressed(old(parser), final(parser)),
        unbound(a),
        match old(parser).current_token.0@ {
            TokenV::Ident(name) => a matches Ast::Let(d) && d.pattern.name@ == name
                && d.pattern.span == old(parser).current_token.1,
            t => a is Error && reported(
                old(parser).diags(),
                final(parser).diags(),
                DiagnosticKind::Error,
                "expected identifier, found "@ + quoted(spec_token_text(t)),
                old(parser).current_token.1,
            ),
        },
        (view_ast(a), final(parser).index@, added(old(parser), final(parser)))
            == sp_let(old(parser).stream@, old(parser).index@),
    decreases old(parser).measure(), 9nat,
{
    proof {
        parser.lemma_tokens();
    }
    let start_span = parser.current_span();
    let name = match parser.current_token() {
        Token::Ident(value) => value.clone(),
        value => {
            let v = value.duplicate();
            parser.diagnostics.expected_identifier(&v, &start_span);
            proof {
                lemma_added_one(old(parser), parser, DiagnosticKind::Error,
                    "expected identifier, found "@ + quoted(spec_token_text(v@)), start_span);
            }
            return Ast::Error;
        },
    };
    let pattern = Pattern { name, span: start_span };
    parser.step();
    let ghost p1 = *parser;
    parser.expect(Token::Assign);
    let ghost p2 = *parser;
    let value = parse_expression(parser);
    proof {
        parser.lemma_tokens();
        lemma_added_concat(old(parser), &p1, &p2);
        lemma_added_concat(old(parser), &p2, parser);
        assert(added(old(parser), &p1) + added(&p1, &p2) =~= added(&p1, &p2));
    }
    Ast::definition(pattern, value, Span::join(start_span, parser.current_span()))
}

/// Grammar: (variable) "=" (expression), after the variable.
pub fn parse_assignment(parser: &mut Parser, pattern: Pattern) -> (a: Ast)
    requires
        old(parser).wf(),
    ensures
        progressed(old(parser), final(parser)),
        unbound(a),
        a matches Ast::Assignment(d) && d.pattern == pattern,
        (view_ast(a), final(parser).index@, added(old(parser), final(parser)))
            == sp_assignment(old(parser).stream@, old(parser).index@, pattern.name@, pattern.span),
    decreases old(parser).measure(), 9nat,
{
    proof {
        parser.lemma_tokens();
    }
    let start_span = parser.current_span();
    parser.expect(Token::Assign);
    let ghost p1 = *parser;
    let value = parse_expression(parser);
    proof {
        parser.lemma_tokens();
        lemma_added_concat(old(parser), &p1, parser);
    }
    Ast::assignment(pattern, value, Span::join(start_span, parser.current_span()))
}

/// Parses a condition and the braced block after it, for `if` and `while`.
fn parse_condition_block(parser: &mut Parser) -> (r: (Ast, Ast))
    requires
        old(parser).wf(),
    ensures
        progressed(old(parser), final(parser)),
        unbound(r.0),
        unbound(r.1),
        r.1 is Sequence,
        (view_ast(r.0), view_ast(r.1), final(parser).index@, added(old(parser), final(parser)))
            == sp_condition_block(old(parser).stream@, old(parser).index@),
    decreases old(parser).measure(), 9nat,
{
    let ghost ts = parser.stream@;
    let condition = parse_expression(parser);
    let ghost p1 = *parser;
    parser.expect(Token::LBrace);
    let ghost j = parser.index@;
    let ghost p2 = *parser;
    // Newlines after the opening brace are optional
    while parser.current_token_is(&Token::Newline)
        invariant
            progressed(old(parser), parser),
            ts == parser.stream@,
            j <= parser.index@,
            skip_newlines(ts, j) == skip_newlines(ts, parser.index@),
            parser.diags() == p2.diags(),
        decreases parser.measure(),
    {
        proof {
            parser.lemma_tokens();
        }
        parser.step();
    }
    proof {
        parser.lemma_tokens();
    }
    let ghost p3 = *parser;
    let resolution = parse_sequence(parser, Token::RBrace);
    let ghost p4 = *parser;
    parser.expect(Token::RBrace);
    proof {
        lemma_added_none(&p2, &p3);
        lemma_added_concat(old(parser), &p1, &p2);
        lemma_added_concat(old(parser), &p2, &p3);
        lemma_added_concat(old(parser), &p3, &p4);
        lemma_added_concat(old(parser), &p4, parser);
        let (d, e1, d2, e2) = (added(old(parser), &p1), added(&p1, &p2), added(&p3, &p4), added(&p4, parser));
        assert(d + e1 + Seq::<DiagV>::empty() + d2 + e2 =~= d + e1 + d2 + e2);
    }
    (condition, resolution)
}

/// Grammar: "if" (condition) "{" newline* {statement}* "}", after the `if`.
pub fn parse_if(parser: &mut Parser) -> (a: Ast)
    requires
        old(parser).wf(),
    ensures
        progressed(old(parser), final(parser)),
        unbound(a),
        a matches Ast::If(i) && *i.body.ptr is Sequence,
        (view_ast(a), final(parser).index@, added(old(parser), final(parser)))
            == sp_if(old(parser).stream@, old(parser).index@),
    decreases old(parser).measure(), 10nat,
{
    proof {
        parser.lemma_tokens();
    }
    let start_span = parser.current_span();
    let (condition, resolution) = parse_condition_block(parser);
    proof {
        parser.lemma_tokens();
    }
    Ast::if_expr(condition, resolution, Span::join(start_span, parser.current_span()))
}

/// Grammar: "while" (condition) "{" newline* {statement}* "}", after the `while`.
pub fn parse_while(parser: &mut Parser) -> (a: Ast)
    requires
        old(parser).wf(),
    ensures
        progressed(old(parser), final(parser)),
        unbound(a),
        a matches Ast::While(w) && *w.body.ptr is Sequence,
        (view_ast(a), final(parser).index@, added(old(parser), final(parser)))
            == sp_while(old(parser).stream@, old(parser).index@),
    decreases old(parser).measure(), 10nat,
{
    proof {
        parser.lemma_tokens();
    }
    let start_span = parser.current_span();
    let (condition, resolution) = parse_condition_block(parser);
    proof {
        parser.lemma_tokens();
    }
    Ast::while_expr(condition, resolution, Span::join(start_span, parser.current_span()))
}

/// A unary expression when the current token is `-`, else a primary one.
pub fn parse_unary_or_primary(parser: &mut Parser) -> (a: Ast)
    requires
        old(parser).wf(),
    ensures
        progressed(old(parser), final(parser)),
        unbound(a),
        old(parser).current_token.0@ == TokenV::Minus ==> a is Unary,
        (view_ast(a), final(parser).index@, added(old(parser), final(parser)))
            == sp_unary_or_primary(old(parser).stream@, old(parser).index@),
        final(parser).index@ > old(parser).index@,
    decreases old(parser).measure(), 3nat,
{
    proof {
        parser.lemma_tokens();
    }
    if UnOp::token_match(parser.current_token()) {
        parse_unary(parser)
    } else {
        parse_primary(parser)
    }
}

/// Grammar: "-" (unary or primary). Blanks after the `-` are reported.
pub fn parse_unary(parser: &mut Parser) -> (a: Ast)
    requires
        old(parser).wf(),
    ensures
        progressed(old(parser), final(parser)),
        unbound(a),
        old(parser).current_token.0@ == TokenV::Minus ==> (a matches Ast::Unary(u) && u.op == UnOp::Neg),
        old(parser).current_token.0@ != TokenV::Minus ==> a is Error && *final(parser) == *old(parser),
        (view_ast(a), final(parser).index@, added(old(parser), final(parser)))
            == sp_unary(old(parser).stream@, old(parser).index@),
        old(parser).current_token.0@ == TokenV::Minus ==> final(parser).index@ > old(parser).index@,
    decreases old(parser).measure(), 2nat,
{
    proof {
        parser.lemma_tokens();
        lemma_added_none(old(parser), parser);
    }
    let start_span = parser.current_span();
    let operator = match parser.current_token() {
        Token::Minus => UnOp::Neg,
        _ => return Ast::Error,
    };
    parser.expect_flush();
    let ghost p1 = *parser;
    let operand = parse_unary_or_primary(parser);
    proof {
        parser.lemma_tokens();
        lemma_added_concat(old(parser), &p1, parser);
    }
    Ast::unary(operator, operand, Span::join(start_span, parser.current_span()))
}

/// Whether an integer token's text denotes a `u64`.
pub open spec fn spec_fits_u64(v: Seq<char>) -> bool {
    all_digits(v) && decimal_value(v) <= u64::MAX
}

/// Grammar: integer | string | identifier | "(" expression ")". Anything else
/// is reported as a missing expression.
pub fn parse_primary(parser: &mut Parser) -> (a: Ast)
    requires
        old(parser).wf(),
    ensures
        progressed(old(parser), final(parser)),
        unbound(a),
        match old(parser).current_token.0@ {
            TokenV::Int(v) => if spec_fits_u64(v) {
                a matches Ast::Literal(l) && l.kind == LiteralKind::Int(decimal_value(v) as u64)
                    && l.span == old(parser).current_token.1
            } else {
                a is Error && reported(old(parser).diags(), final(parser).diags(), DiagnosticKind::Error,
                    "invalid integer literal "@ + quoted(spec_token_text(TokenV::Int(v))), old(parser).current_token.1)
            },
            TokenV::Str(v) => a matches Ast::Literal(l) && (l.kind matches LiteralKind::String(s) && s@ == v)
                && l.span == old(parser).current_token.1,
            TokenV::Ident(v) => a matches Ast::Variable(x) && x.pattern@ == v && x.definition is None
                && x.span == old(parser).current_token.1,
            TokenV::LParen => true,
            t => a is Error && reported(old(parser).diags(), final(parser).diags(), DiagnosticKind::Error,
                "expected expression, found "@ + quoted(spec_token_text(t)), old(parser).current_token.1),
        },
        !(old(parser).current_token.0@ is LParen) ==> final(parser).current_token.0@ == old(parser).next_token.0@,
        (view_ast(a), final(parser).index@, added(old(parser), final(parser)))
            == sp_primary(old(parser).stream@, old(parser).index@),
        final(parser).index@ > old(parser).index@,
    decreases old(parser).measure(), 2nat,
{
    proof {
        parser.lemma_tokens();
    }
    let (token, span) = parser.consume();
    let ghost p1 = *parser;
    let a = match token {
        Token::Int(value) => match parse_decimal(value.as_str(), u64::MAX) {
            Some(v) => Ast::integer(v, span),
            None => {
                let t = Token::Int(value);
                parser.diagnostics.invalid_integer(&t, &span);
                proof {
                    lemma_added_one(&p1, parser, DiagnosticKind::Error,
                        "invalid integer literal "@ + quoted(spec_token_text(t@)), span);
                }
                Ast::Error
            },
        },
        Token::String(value) => Ast::string(value, span),
        Token::LParen => parse_group(parser),
        Token::Ident(symbol) => Ast::variable(symbol, span),
        _ => {
            parser.diagnostics.expected_expression(&token, &span);
            proof {
                lemma_added_one(&p1, parser, DiagnosticKind::Error,
                    "expected expression, found "@ + quoted(spec_token_text(token@)), span);
            }
            Ast::Error
        },
    };
    proof {
        lemma_added_concat(old(parser), &p1, parser);
        assert(added(old(parser), &p1) + added(&p1, parser) =~= added(&p1, parser));
        if parser.diags() == p1.diags() {
            lemma_added_none(&p1, parser);
        }
    }
    a
}

/// Grammar: (expression) ")", after the `(`.
pub fn parse_group(parser: &mut Parser) -> (a: Ast)
    requires
        old(parser).wf(),
    ensures
        progressed(old(parser), final(parser)),
        unbound(a),
        (view_ast(a), final(parser).index@, added(old(parser), final(parser)))
            == sp_group(old(parser).stream@, old(parser).index@),
    decreases old(parser).measure(), 5nat,
{
    let expr = parse_expression(parser);
    let ghost p1 = *parser;
    parser.expect(Token::RParen);
    proof {
        lemma_added_concat(old(parser), &p1, parser);
    }
    expr
}

/// Parses binary operations whose operators bind at least as strongly as
/// `precedence`, with `left` as the first left operand. An operator after a
/// right operand that binds more strongly than the one before takes that
/// operand as its own left operand; one that binds as strongly or less
/// applies to everything before it, so `a - b - c` is `(a - b) - c`.
pub fn parse_binary(parser: &mut Parser, left: Ast, precedence: u8) -> (a: Ast)
    requires
        old(parser).wf(),
    ensures
        progressed(old(parser), final(parser)),
        unbound(left) ==> unbound(a),
        match spec_binop_of(final(parser).current_token.0@) {
            Some(op) => spec_precedence(op) < precedence,
            None => true,
        },
        match spec_binop_of(old(parser).current_token.0@) {
            Some(op) => if spec_precedence(op) >= precedence {
                a is Binary && final(parser).measure() < old(parser).measure()
                    && final(parser).index@ > old(parser).index@
            } else {
                a == left && *final(parser) == *old(parser)
            },
            None => a == left && *final(parser) == *old(parser),
        },
        (view_ast(a), final(parser).index@, added(old(parser), final(parser)))
            == sp_binary(old(parser).stream@, old(parser).index@, view_ast(left), precedence, old(parser).current_token.1),
    decreases old(parser).measure(), 2nat,
{
    let ghost ts = parser.stream@;
    let ghost i0 = parser.index@;
    proof {
        parser.lemma_tokens();
    }
    let start_span = parser.current_span();
    let mut acc = left;
    let mut first = true;
    loop
        invariant
            progressed(old(parser), parser),
            first ==> acc == left && *parser == *old(parser),
            !first ==> acc is Binary && parser.measure() < old(parser).measure() && parser.index@ > i0,
            unbound(left) ==> unbound(acc),
            !first ==> match spec_binop_of(old(parser).current_token.0@) {
                Some(op) => spec_precedence(op) >= precedence,
                None => false,
            },
            ts == old(parser).stream@,
            i0 == old(parser).index@,
            start_span == old(parser).current_token.1,
            sp_binary(ts, i0, view_ast(left), precedence, start_span) == ({
                let r = sp_binary(ts, parser.index@, view_ast(acc), precedence, start_span);
                (r.0, r.1, added(old(parser), parser) + r.2)
            }),
        ensures
            progressed(old(parser), parser),
            match spec_binop_of(parser.current_token.0@) {
                Some(op) => spec_precedence(op) < precedence,
                None => true,
            },
            first ==> acc == left && *parser == *old(parser),
            !first ==> acc is Binary && parser.measure() < old(parser).measure() && parser.index@ > i0,
            unbound(left) ==> unbound(acc),
            !first ==> match spec_binop_of(old(parser).current_token.0@) {
                Some(op) => spec_precedence(op) >= precedence,
                None => false,
            },
            sp_binary(ts, i0, view_ast(left), precedence, start_span)
                == (view_ast(acc), parser.index@, added(old(parser), parser)),
        decreases parser.measure(),
    {
        let ghost m0 = parser.measure();
        let ghost idx = parser.index@;
        let ghost pc = *parser;
        let ghost acc0 = view_ast(acc);
        proof {
            parser.lemma_tokens();
            assert(added(old(parser), parser) + Seq::<DiagV>::empty() =~= added(old(parser), parser));
        }
        let operator = match parse_binary_operator(parser) {
            Some(op) => op,
            None => break,
        };
        if operator.precedence() < precedence {
            break;
        }
        parser.step();
        let ghost ps = *parser;
        let mut right = parse_unary_or_primary(parser);
        let ghost j0 = parser.index@;
        let ghost right0 = view_ast(right);
        let ghost pj0 = *parser;
        loop
            invariant
                progressed(old(parser), parser),
                extends(pj0.diags(), parser.diags()),
                parser.measure() < old(parser).measure(),
                parser.measure() < m0,
                ts == parser.stream@,
                idx < j0 <= parser.index@,
                unbound(right),
                sp_operand(ts, j0, right0, operator) == ({
                    let r = sp_operand(ts, parser.index@, view_ast(right), operator);
                    (r.0, r.1, added(&pj0, parser) + r.2)
                }),
            ensures
                progressed(old(parser), parser),
                extends(pj0.diags(), parser.diags()),
                parser.measure() < old(parser).measure(),
                parser.measure() < m0,
                idx < j0 <= parser.index@,
                unbound(right),
                sp_operand(ts, j0, right0, operator) == (view_ast(right), parser.index@, added(&pj0, parser)),
            decreases parser.measure(),
        {
            let ghost jc = parser.index@;
            let ghost rc = view_ast(right);
            let ghost pcc = *parser;
            proof {
                parser.lemma_tokens();
                assert(added(&pj0, parser) + Seq::<DiagV>::empty() =~= added(&pj0, parser));
            }
            let inner_operator = match parse_binary_operator(parser) {
                Some(op) => op,
                None => break,
            };
            let greater_precedence = inner_operator.precedence() > operator.precedence();
            if !greater_precedence {
                break;
            }
            right = parse_binary(parser, right, inner_operator.precedence());
            proof {
                let r = sp_operand(ts, parser.index@, view_ast(right), operator);
                let d = added(&pcc, parser);
                assert(sp_operand(ts, jc, rc, operator) == (r.0, r.1, d + r.2));
                lemma_added_concat(&pj0, &pcc, parser);
                assert(added(&pj0, &pcc) + (d + r.2) =~= added(&pj0, parser) + r.2);
            }
        }
        proof {
            parser.lemma_tokens();
            let r = sp_binary(ts, parser.index@,
                AstV::Binary(operator, Box::new(acc0), Box::new(view_ast(right)), join(start_span, span_at(ts, parser.index@))),
                precedence, start_span);
            let d1 = added(&ps, &pj0);
            let d2 = added(&pj0, parser);
            assert(sp_binary(ts, idx, acc0, precedence, start_span) == (r.0, r.1, d1 + d2 + r.2));
            lemma_added_concat(&ps, &pj0, parser);
            lemma_added_concat(&pc, &ps, parser);
            lemma_added_concat(old(parser), &pc, parser);
            assert(added(old(parser), &pc) + (d1 + d2 + r.2) =~= added(old(parser), parser) + r.2);
        }
        acc = Ast::binary(operator, acc, right, Span::join(start_span, parser.current_span()));
        first = false;
    }
    acc
}

/// The binary operator the current token stands for.
pub fn parse_binary_operator(parser: &Parser) -> (r: Option<BinOp>)
    ensures
        r == spec_binop_of(parser.current_token.0@),
{
    match parser.current_token() {
        Token::Plus => Some(BinOp::Add),
        Token::Minus => Some(BinOp::Sub),
        Token::ForwardSlash => Some(BinOp::Div),
        Token::Asterisk => Some(BinOp::Mul),
        Token::GreaterThan => Some(BinOp::GreaterThan),
        Token::GreaterThanEqual => Some(BinOp::GreaterThanEq),
        Token::LessThan => Some(BinOp::LessThan),
        Token::LessThanEqual => Some(BinOp::LessThanEq),
        Token::Equal => Some(BinOp::Eq),
        Token::NotEqual => Some(BinOp::NotEq),
        _ => None,
    }
}

} // verus!
