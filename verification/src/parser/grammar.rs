//! The grammar as functions from a token stream to syntax trees: what the
//! parsing functions build, stated over the tokens they read.
//!
//! Each function takes the stream and the index of the token to start at,
//! and gives the tree (as values, with the span of each node), the index of
//! the first token after it, and the diagnostics it reports, in order. A parsing function steps past any token it does not
//! expect, except the end of the input for the closing tokens it requires.
use vstd::prelude::*;

use super::ast::{spec_binop_of, spec_precedence, Ast, BinOp, LiteralKind, UnOp};
use super::{at, Tok};
use crate::diagnostics::{quoted, DiagV, DiagnosticKind};
use crate::lexer::token::spec_token_text;
use crate::span::Span;
use crate::lexer::TokenV;
use crate::text::decimal_value;

verus! {

/// A syntax tree as values, each node with its span (and a definition with
/// the span of its name).
pub enum AstV {
    Sequence(Seq<AstV>, Span),
    Let(Seq<char>, Span, Box<AstV>, Span),
    Assignment(Seq<char>, Span, Box<AstV>, Span),
    If(Box<AstV>, Box<AstV>, Span),
    While(Box<AstV>, Box<AstV>, Span),
    Binary(BinOp, Box<AstV>, Box<AstV>, Span),
    Unary(UnOp, Box<AstV>, Span),
    Int(u64, Span),
    Str(Seq<char>, Span),
    Variable(Seq<char>, Span),
    Error,
}

/// The span of a token.
pub open spec fn tspan(t: Tok) -> Span {
    Span { start: t.1 as usize, end: t.2 as usize }
}

/// The span of the token at index `i`.
pub open spec fn span_at(ts: Seq<Tok>, i: nat) -> Span {
    tspan(at(ts, i))
}

/// The span from the earlier start to the end of the span that starts later,
/// as `Span::join` computes it.
pub open spec fn join(a: Span, b: Span) -> Span {
    Span {
        start: if b.start < a.start { b.start } else { a.start },
        end: if b.start >= a.start { b.end } else { a.end },
    }
}

/// The values of a syntax tree.
pub open spec fn view_ast(a: Ast) -> AstV
    decreases a,
{
    match a {
        Ast::Sequence(s) => AstV::Sequence(view_all(s.statements@), s.span),
        Ast::Let(d) => AstV::Let(d.pattern.name@, d.pattern.span, Box::new(view_ast(*d.value.ptr)), d.span),
        Ast::Assignment(d) => AstV::Assignment(d.pattern.name@, d.pattern.span, Box::new(view_ast(*d.value.ptr)), d.span),
        Ast::If(i) => AstV::If(Box::new(view_ast(*i.condition.ptr)), Box::new(view_ast(*i.body.ptr)), i.span),
        Ast::While(w) => AstV::While(Box::new(view_ast(*w.condition.ptr)), Box::new(view_ast(*w.body.ptr)), w.span),
        Ast::Binary(b) => AstV::Binary(b.op, Box::new(view_ast(*b.left.ptr)), Box::new(view_ast(*b.right.ptr)), b.span),
        Ast::Unary(u) => AstV::Unary(u.op, Box::new(view_ast(*u.operand.ptr)), u.span),
        Ast::Literal(l) => match l.kind {
            LiteralKind::Int(v) => AstV::Int(v, l.span),
            LiteralKind::String(s) => AstV::Str(s@, l.span),
        },
        Ast::Variable(v) => AstV::Variable(v.pattern@, v.span),
        Ast::Error => AstV::Error,
    }
}

/// No definition in `a` has an id and no variable a definition: the tree
/// is as parsing leaves it, before names are resolved.
pub open spec fn unbound(a: Ast) -> bool
    decreases a,
{
    match a {
        Ast::Sequence(s) => forall|i: int| 0 <= i < s.statements@.len() ==> {
            proof {
                assert(decreases_to!(s.statements@ => s.statements@[i]));
            }
            unbound(#[trigger] s.statements@[i])
        },
        Ast::Let(d) => d.id is None && unbound(*d.value.ptr),
        Ast::Assignment(d) => d.id is None && unbound(*d.value.ptr),
        Ast::If(i) => unbound(*i.condition.ptr) && unbound(*i.body.ptr),
        Ast::While(w) => unbound(*w.condition.ptr) && unbound(*w.body.ptr),
        Ast::Binary(b) => unbound(*b.left.ptr) && unbound(*b.right.ptr),
        Ast::Unary(u) => unbound(*u.operand.ptr),
        Ast::Variable(v) => v.definition is None,
        _ => true,
    }
}

/// The values of statements, in order.
pub open spec fn view_all(stmts: Seq<Ast>) -> Seq<AstV>
    decreases stmts,
{
    if stmts.len() == 0 {
        Seq::empty()
    } else {
        proof {
            assert(decreases_to!(stmts => stmts.drop_last()));
        }
        view_all(stmts.drop_last()).push(view_ast(stmts.last()))
    }
}

/// The kind of token at index `i`.
pub open spec fn kind(ts: Seq<Tok>, i: nat) -> TokenV {
    at(ts, i).0
}

/// How many tokens are left from index `i` on: what every step of the
/// grammar past a token decreases.
pub open spec fn left(ts: Seq<Tok>, i: nat) -> nat {
    if i < ts.len() { (ts.len() - i) as nat } else { 0 }
}

/// The index after a required token at `i`: one more, unless the input ended.
pub open spec fn past(ts: Seq<Tok>, i: nat) -> nat {
    if kind(ts, i) != TokenV::Eof { i + 1 } else { i }
}

/// The diagnostic for a required token `t` at `i`, unless it is there.
pub open spec fn expect_d(ts: Seq<Tok>, i: nat, t: TokenV) -> Seq<DiagV> {
    if kind(ts, i) == t {
        Seq::empty()
    } else {
        seq![(DiagnosticKind::Error, "expected: "@ + quoted(spec_token_text(t)) + ", found: "@
            + quoted(spec_token_text(kind(ts, i))), span_at(ts, i))]
    }
}

/// The diagnostic for blanks between the token at `i` and the next one, if any.
pub open spec fn flush_d(ts: Seq<Tok>, i: nat) -> Seq<DiagV> {
    let (a, b) = (span_at(ts, i), span_at(ts, i + 1));
    if Span::spec_difference(a, b) > 1 {
        seq![(DiagnosticKind::Error, "expected: "@ + quoted(spec_token_text(kind(ts, i))) + ", found: "@
            + quoted(spec_token_text(TokenV::Whitespace)), Span { start: (a.end + 1) as usize, end: (b.start - 1) as usize })]
    } else {
        Seq::empty()
    }
}

/// The diagnostic `prefix` + the quoted token at `i`, at its span.
pub open spec fn token_d(ts: Seq<Tok>, i: nat, prefix: Seq<char>) -> Seq<DiagV> {
    seq![(DiagnosticKind::Error, prefix + quoted(spec_token_text(kind(ts, i))), span_at(ts, i))]
}

/// `expr := unary_or_primary (binop expr)*`.
pub open spec fn sp_expr(ts: Seq<Tok>, i: nat) -> (AstV, nat, Seq<DiagV>)
    decreases left(ts, i), 5nat,
{
    let (e, j, d) = sp_unary_or_primary(ts, i);
    if j >= i && spec_binop_of(kind(ts, j)) is Some {
        let (b, k, d2) = sp_binary(ts, j, e, 0, span_at(ts, j));
        (b, k, d + d2)
    } else {
        (e, j, d)
    }
}

/// A unary expression when the token is `-`, else a primary one.
pub open spec fn sp_unary_or_primary(ts: Seq<Tok>, i: nat) -> (AstV, nat, Seq<DiagV>)
    decreases left(ts, i), 4nat,
{
    if kind(ts, i) == TokenV::Minus {
        sp_unary(ts, i)
    } else {
        sp_primary(ts, i)
    }
}

/// `"-" unary_or_primary`, with no blanks after the `-`.
pub open spec fn sp_unary(ts: Seq<Tok>, i: nat) -> (AstV, nat, Seq<DiagV>)
    decreases left(ts, i), 3nat,
{
    if kind(ts, i) == TokenV::Minus && i < ts.len() {
        let (o, j, d) = sp_unary_or_primary(ts, i + 1);
        (AstV::Unary(UnOp::Neg, Box::new(o), join(span_at(ts, i), span_at(ts, j))), j, flush_d(ts, i) + d)
    } else {
        (AstV::Error, i, Seq::empty())
    }
}

/// An integer (that fits a `u64`), a string, an identifier, or a group; any
/// other token is an error.
pub open spec fn sp_primary(ts: Seq<Tok>, i: nat) -> (AstV, nat, Seq<DiagV>)
    decreases left(ts, i), 3nat,
{
    match kind(ts, i) {
        TokenV::Int(v) => if crate::text::all_digits(v) && decimal_value(v) <= u64::MAX {
            (AstV::Int(decimal_value(v) as u64, span_at(ts, i)), i + 1, Seq::empty())
        } else {
            (AstV::Error, i + 1, token_d(ts, i, "invalid integer literal "@))
        },
        TokenV::Str(v) => (AstV::Str(v, span_at(ts, i)), i + 1, Seq::empty()),
        TokenV::Ident(v) => (AstV::Variable(v, span_at(ts, i)), i + 1, Seq::empty()),
        TokenV::LParen => if i < ts.len() {
            sp_group(ts, i + 1)
        } else {
            (AstV::Error, i + 1, Seq::empty())
        },
        _ => (AstV::Error, i + 1, token_d(ts, i, "expected expression, found "@)),
    }
}

/// `expr ")"`, after the `(`.
pub open spec fn sp_group(ts: Seq<Tok>, i: nat) -> (AstV, nat, Seq<DiagV>)
    decreases left(ts, i), 6nat,
{
    let (e, j, d) = sp_expr(ts, i);
    (e, past(ts, j), d + expect_d(ts, j, TokenV::RParen))
}

/// Binary operations whose operators bind at least as strongly as
/// `precedence`, with `acc` as the first left operand; each operation spans
/// from `start` to the token after its right operand.
pub open spec fn sp_binary(ts: Seq<Tok>, i: nat, acc: AstV, precedence: u8, start: Span) -> (AstV, nat, Seq<DiagV>)
    decreases left(ts, i), 1nat,
{
    match spec_binop_of(kind(ts, i)) {
        Some(op) => if spec_precedence(op) >= precedence && i < ts.len() {
            let (right, j, d) = sp_unary_or_primary(ts, i + 1);
            if j > i {
                let (right2, k, d2) = sp_operand(ts, j, right, op);
                let node = AstV::Binary(op, Box::new(acc), Box::new(right2), join(start, span_at(ts, k)));
                if k > i {
                    let (r, m, d3) = sp_binary(ts, k, node, precedence, start);
                    (r, m, d + d2 + d3)
                } else {
                    (node, k, d + d2)
                }
            } else {
                (AstV::Binary(op, Box::new(acc), Box::new(right), join(start, span_at(ts, j))), j, d)
            }
        } else {
            (acc, i, Seq::empty())
        },
        None => (acc, i, Seq::empty()),
    }
}

/// The right operand of `op`: the operand `right` extended by the operations
/// after it whose operators bind more strongly than `op`.
pub open spec fn sp_operand(ts: Seq<Tok>, j: nat, right: AstV, op: BinOp) -> (AstV, nat, Seq<DiagV>)
    decreases left(ts, j), 2nat,
{
    match spec_binop_of(kind(ts, j)) {
        Some(inner) => if spec_precedence(inner) > spec_precedence(op) {
            let (r2, k, d) = sp_binary(ts, j, right, spec_precedence(inner), span_at(ts, j));
            if k > j && j < ts.len() {
                let (r3, m, d2) = sp_operand(ts, k, r2, op);
                (r3, m, d + d2)
            } else {
                (r2, k, d)
            }
        } else {
            (right, j, Seq::empty())
        },
        None => (right, j, Seq::empty()),
    }
}

/// The index of the first token at or after `i` that is not a newline.
pub open spec fn skip_newlines(ts: Seq<Tok>, i: nat) -> nat
    decreases left(ts, i),
{
    if kind(ts, i) == TokenV::Newline && i < ts.len() {
        skip_newlines(ts, i + 1)
    } else {
        i
    }
}

/// `ident "=" expr`, after the `let`; anything but an identifier is an error
/// that reads nothing.
pub open spec fn sp_let(ts: Seq<Tok>, i: nat) -> (AstV, nat, Seq<DiagV>)
    decreases left(ts, i), 6nat,
{
    match kind(ts, i) {
        TokenV::Ident(name) => if i < ts.len() {
            let (v, j, d) = sp_expr(ts, past(ts, i + 1));
            (AstV::Let(name, span_at(ts, i), Box::new(v), join(span_at(ts, i), span_at(ts, j))), j,
                expect_d(ts, i + 1, TokenV::Assign) + d)
        } else {
            (AstV::Error, i, Seq::empty())
        },
        _ => (AstV::Error, i, token_d(ts, i, "expected identifier, found "@)),
    }
}

/// `"=" expr`, after the variable `name` (whose span is `name_span`).
pub open spec fn sp_assignment(ts: Seq<Tok>, i: nat, name: Seq<char>, name_span: Span) -> (AstV, nat, Seq<DiagV>)
    decreases left(ts, i), 6nat,
{
    let (v, j, d) = sp_expr(ts, past(ts, i));
    (AstV::Assignment(name, name_span, Box::new(v), join(span_at(ts, i), span_at(ts, j))), j,
        expect_d(ts, i, TokenV::Assign) + d)
}

/// `expr "{" newline* sequence "}"`: the condition, the block, the index
/// after, and the diagnostics.
pub open spec fn sp_condition_block(ts: Seq<Tok>, i: nat) -> (AstV, AstV, nat, Seq<DiagV>)
    decreases left(ts, i), 10nat,
{
    let (c, j, d) = sp_expr(ts, i);
    let k = skip_newlines(ts, past(ts, j));
    if k >= i {
        let (body, m, d2) = sp_sequence(ts, k, TokenV::RBrace);
        (c, body, past(ts, m), d + expect_d(ts, j, TokenV::LBrace) + d2 + expect_d(ts, m, TokenV::RBrace))
    } else {
        (c, AstV::Sequence(Seq::empty(), span_at(ts, k)), k, d)
    }
}

/// `"if" expr "{" newline* sequence "}"`, after the `if`.
pub open spec fn sp_if(ts: Seq<Tok>, i: nat) -> (AstV, nat, Seq<DiagV>)
    decreases left(ts, i), 11nat,
{
    let (c, b, j, d) = sp_condition_block(ts, i);
    (AstV::If(Box::new(c), Box::new(b), join(span_at(ts, i), span_at(ts, j))), j, d)
}

/// `"while" expr "{" newline* sequence "}"`, after the `while`.
pub open spec fn sp_while(ts: Seq<Tok>, i: nat) -> (AstV, nat, Seq<DiagV>)
    decreases left(ts, i), 11nat,
{
    let (c, b, j, d) = sp_condition_block(ts, i);
    (AstV::While(Box::new(c), Box::new(b), join(span_at(ts, i), span_at(ts, j))), j, d)
}

/// A statement and the `;` after it; a token that cannot start a statement
/// is an error.
pub open spec fn sp_statement(ts: Seq<Tok>, i: nat) -> (AstV, nat, Seq<DiagV>)
    decreases left(ts, i), 7nat,
{
    let (s, j, d) = if i < ts.len() {
        match kind(ts, i) {
            TokenV::Let => sp_let(ts, i + 1),
            TokenV::Ident(name) => sp_assignment(ts, i + 1, name, span_at(ts, i)),
            TokenV::If => sp_if(ts, i + 1),
            TokenV::While => sp_while(ts, i + 1),
            _ => (AstV::Error, i + 1, token_d(ts, i, "unknown statement "@)),
        }
    } else {
        (AstV::Error, i + 1, token_d(ts, i, "unknown statement "@))
    };
    (s, past(ts, j), d + expect_d(ts, j, TokenV::SemiColon))
}

/// Statements, each followed by any newlines, up to `end` or the end of the input.
pub open spec fn sp_statements(ts: Seq<Tok>, i: nat, end: TokenV) -> (Seq<AstV>, nat, Seq<DiagV>)
    decreases left(ts, i), 8nat,
{
    if kind(ts, i) == end || kind(ts, i) == TokenV::Eof {
        (Seq::empty(), i, Seq::empty())
    } else {
        let (s, j, d) = sp_statement(ts, i);
        let k = skip_newlines(ts, j);
        if k > i && i < ts.len() {
            let (rest, m, d2) = sp_statements(ts, k, end);
            (seq![s] + rest, m, d + d2)
        } else {
            (seq![s], k, d)
        }
    }
}

/// `sequence := {statement ";" newline*}*`, up to `end` or the end of the input.
pub open spec fn sp_sequence(ts: Seq<Tok>, i: nat, end: TokenV) -> (AstV, nat, Seq<DiagV>)
    decreases left(ts, i), 9nat,
{
    let (stmts, j, d) = sp_statements(ts, i, end);
    (AstV::Sequence(stmts, join(span_at(ts, i), span_at(ts, j))), j, d)
}

/// The operator and operands of a binary node, without spans.
pub open spec fn operation(v: AstV) -> Option<(BinOp, AstV, AstV)> {
    match v {
        AstV::Binary(op, l, r, _) => Some((op, *l, *r)),
        _ => None,
    }
}

/// The name of a variable node.
pub open spec fn variable_name(v: AstV) -> Option<Seq<char>> {
    match v {
        AstV::Variable(n, _) => Some(n),
        _ => None,
    }
}

/// `x op1 y op2 z` with three identifiers: when `op2` binds more strongly
/// than `op1`, it takes `y` as its left operand: `x op1 (y op2 z)`, and
/// nothing is reported.
pub proof fn law_stronger_operator_binds_first(ts: Seq<Tok>, i: nat, x: Seq<char>, y: Seq<char>, z: Seq<char>, op1: BinOp, op2: BinOp)
    requires
        i + 5 < ts.len(),
        kind(ts, i) == TokenV::Ident(x),
        spec_binop_of(kind(ts, i + 1)) == Some(op1),
        kind(ts, i + 2) == TokenV::Ident(y),
        spec_binop_of(kind(ts, i + 3)) == Some(op2),
        kind(ts, i + 4) == TokenV::Ident(z),
        spec_binop_of(kind(ts, i + 5)) is None,
        spec_precedence(op2) > spec_precedence(op1),
    ensures
        sp_expr(ts, i).1 == i + 5,
        sp_expr(ts, i).2 == Seq::<DiagV>::empty(),
        match operation(sp_expr(ts, i).0) {
            Some((o1, l, r)) => o1 == op1 && variable_name(l) == Some(x) && match operation(r) {
                Some((o2, rl, rr)) => o2 == op2 && variable_name(rl) == Some(y) && variable_name(rr) == Some(z),
                None => false,
            },
            None => false,
        },
{
    let e = Seq::<DiagV>::empty();
    assert(e + e =~= e);
    let vx = AstV::Variable(x, span_at(ts, i));
    let vy = AstV::Variable(y, span_at(ts, i + 2));
    let vz = AstV::Variable(z, span_at(ts, i + 4));
    let p = spec_precedence(op2);
    let yz = AstV::Binary(op2, Box::new(vy), Box::new(vz), join(span_at(ts, i + 3), span_at(ts, i + 5)));
    assert(sp_unary_or_primary(ts, i) == (vx, i + 1, e));
    assert(sp_unary_or_primary(ts, i + 2) == (vy, i + 3, e));
    assert(sp_unary_or_primary(ts, i + 4) == (vz, i + 5, e));
    assert(sp_operand(ts, i + 5, vz, op2) == (vz, i + 5, e));
    assert(sp_binary(ts, i + 5, yz, p, span_at(ts, i + 3)) == (yz, i + 5, e));
    assert(sp_binary(ts, i + 3, vy, p, span_at(ts, i + 3)) == (yz, i + 5, e));
    assert(sp_operand(ts, i + 5, yz, op1) == (yz, i + 5, e));
    assert(sp_operand(ts, i + 3, vy, op1) == (yz, i + 5, e));
    let all = AstV::Binary(op1, Box::new(vx), Box::new(yz), join(span_at(ts, i + 1), span_at(ts, i + 5)));
    assert(sp_binary(ts, i + 5, all, 0, span_at(ts, i + 1)) == (all, i + 5, e));
    assert(sp_binary(ts, i + 1, vx, 0, span_at(ts, i + 1)) == (all, i + 5, e));
}

/// `x op1 y op2 z` with three identifiers: when `op2` binds as strongly as
/// `op1` or less, it applies to everything before it: `(x op1 y) op2 z`, and
/// nothing is reported. So operators of equal strength group to the left.
pub proof fn law_not_stronger_operator_applies_last(ts: Seq<Tok>, i: nat, x: Seq<char>, y: Seq<char>, z: Seq<char>, op1: BinOp, op2: BinOp)
    requires
        i + 5 < ts.len(),
        kind(ts, i) == TokenV::Ident(x),
        spec_binop_of(kind(ts, i + 1)) == Some(op1),
        kind(ts, i + 2) == TokenV::Ident(y),
        spec_binop_of(kind(ts, i + 3)) == Some(op2),
        kind(ts, i + 4) == TokenV::Ident(z),
        spec_binop_of(kind(ts, i + 5)) is None,
        spec_precedence(op2) <= spec_precedence(op1),
    ensures
        sp_expr(ts, i).1 == i + 5,
        sp_expr(ts, i).2 == Seq::<DiagV>::empty(),
        match operation(sp_expr(ts, i).0) {
            Some((o2, l, r)) => o2 == op2 && variable_name(r) == Some(z) && match operation(l) {
                Some((o1, ll, lr)) => o1 == op1 && variable_name(ll) == Some(x) && variable_name(lr) == Some(y),
                None => false,
            },
            None => false,
        },
{
    let e = Seq::<DiagV>::empty();
    assert(e + e =~= e);
    let vx = AstV::Variable(x, span_at(ts, i));
    let vy = AstV::Variable(y, span_at(ts, i + 2));
    let vz = AstV::Variable(z, span_at(ts, i + 4));
    let start = span_at(ts, i + 1);
    let xy = AstV::Binary(op1, Box::new(vx), Box::new(vy), join(start, span_at(ts, i + 3)));
    let all = AstV::Binary(op2, Box::new(xy), Box::new(vz), join(start, span_at(ts, i + 5)));
    assert(sp_unary_or_primary(ts, i) == (vx, i + 1, e));
    assert(sp_unary_or_primary(ts, i + 2) == (vy, i + 3, e));
    assert(sp_unary_or_primary(ts, i + 4) == (vz, i + 5, e));
    assert(sp_operand(ts, i + 3, vy, op1) == (vy, i + 3, e));
    assert(sp_operand(ts, i + 5, vz, op2) == (vz, i + 5, e));
    assert(sp_binary(ts, i + 5, all, 0, start) == (all, i + 5, e));
    assert(sp_binary(ts, i + 3, xy, 0, start) == (all, i + 5, e));
    assert(sp_binary(ts, i + 1, vx, 0, start) == (all, i + 5, e));
}

/// `if` and `while` read their condition and block alike: the same
/// condition, the same body, up to the same token, with the same
/// diagnostics; only the kind of node differs.
pub proof fn law_if_while_alike(ts: Seq<Tok>, i: nat)
    ensures
        sp_if(ts, i).1 == sp_while(ts, i).1,
        sp_if(ts, i).2 == sp_while(ts, i).2,
        match (sp_if(ts, i).0, sp_while(ts, i).0) {
            (AstV::If(c1, b1, s1), AstV::While(c2, b2, s2)) => c1 == c2 && b1 == b2 && s1 == s2,
            _ => false,
        },
{
}

/// `let x = e` defines `x` with the same value, read up to the same token
/// and with the same diagnostics, as the assignment `x = e` assigns.
pub proof fn law_let_like_assignment(ts: Seq<Tok>, i: nat, name: Seq<char>)
    requires
        kind(ts, i) == TokenV::Ident(name),
        i < ts.len(),
    ensures
        sp_let(ts, i).1 == sp_assignment(ts, i + 1, name, span_at(ts, i)).1,
        sp_let(ts, i).2 == sp_assignment(ts, i + 1, name, span_at(ts, i)).2,
        match (sp_let(ts, i).0, sp_assignment(ts, i + 1, name, span_at(ts, i)).0) {
            (AstV::Let(n1, ns1, v1, _), AstV::Assignment(n2, ns2, v2, _)) => n1 == name && n2 == name && ns1 == ns2 && v1 == v2,
            _ => false,
        },
{
}

} // verus!
