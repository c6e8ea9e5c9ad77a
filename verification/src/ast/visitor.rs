//! Walking a statement tree with a visitor.
//!
//! `Walkable::walk` hands a node's parts to the visitor methods of their
//! kinds; the visitor decides whether to walk further down.
use vstd::prelude::*;

use super::{Ast, Expr, ExprKind, Item, ItemKind, Literal, Stmt, StmtKind};

verus! {

/// A value that a visitor can walk.
pub trait Walkable {
    fn walk<V: Visitor>(&self, visitor: &mut V);
}

/// A pass over a statement tree: each method is called on a node of its kind.
pub trait Visitor: Sized {
    fn visit_ast(&mut self, ast: &Ast);

    fn visit_item(&mut self, item: &Item);

    fn visit_item_kind(&mut self, kind: &ItemKind);

    fn visit_stmt(&mut self, stmt: &Stmt);

    fn visit_stmt_kind(&mut self, stmt: &StmtKind);

    fn visit_expr(&mut self, expr: &Expr);

    fn visit_expr_kind(&mut self, expr: &ExprKind);

    fn visit_literal(&mut self, lit: &Literal);
}

impl Walkable for Item {
    /// Hands over the item's kind.
    fn walk<V: Visitor>(&self, visitor: &mut V) {
        visitor.visit_item_kind(&self.kind);
    }
}

impl Walkable for ItemKind {
    /// Hands over the statement.
    fn walk<V: Visitor>(&self, visitor: &mut V) {
        match self {
            ItemKind::Statement(stmt) => visitor.visit_stmt(stmt),
        }
    }
}

impl Walkable for Stmt {
    /// Hands over the statement's kind.
    fn walk<V: Visitor>(&self, visitor: &mut V) {
        visitor.visit_stmt_kind(&self.kind);
    }
}

/// Hands each item of `items` to the visitor, in order.
fn visit_items<V: Visitor>(items: &Vec<Item>, visitor: &mut V) {
    let mut i: usize = 0;
    while i < items.len()
        invariant
            i <= items@.len(),
        decreases items@.len() - i,
    {
        visitor.visit_item(&items[i]);
        i = i + 1;
    }
}

impl Walkable for StmtKind {
    /// Hands over the expressions of the statement, and for a block its
    /// items, in order.
    fn walk<V: Visitor>(&self, visitor: &mut V) {
        match self {
            StmtKind::If(cond, body) => {
                visitor.visit_expr(cond);
                visit_items(body, visitor);
            },
            StmtKind::While(cond, body) => {
                visitor.visit_expr(cond);
                visit_items(body, visitor);
            },
            StmtKind::Let(_, expr) => visitor.visit_expr(expr),
            StmtKind::Print(print) => visitor.visit_expr(&print.expression),
        }
    }
}

impl Walkable for Expr {
    /// Hands over the expression's kind.
    fn walk<V: Visitor>(&self, visitor: &mut V) {
        visitor.visit_expr_kind(&self.kind);
    }
}

impl Walkable for ExprKind {
    /// Hands over the literal or the operands; a name has none.
    fn walk<V: Visitor>(&self, visitor: &mut V) {
        match self {
            ExprKind::Literal(value) => visitor.visit_literal(value),
            ExprKind::Binary(_, lhs, rhs) => {
                visitor.visit_expr(&lhs.ptr);
                visitor.visit_expr(&rhs.ptr);
            },
            ExprKind::Unary(_, expr) => visitor.visit_expr(&expr.ptr),
            ExprKind::Ident(_) => {},
        }
    }
}

impl Walkable for Literal {
    /// A literal has nothing to walk.
    fn walk<V: Visitor>(&self, _visitor: &mut V) {
    }
}

} // verus!
