//! Walking a syntax tree with a visitor.
//!
//! `Walkable::walk` hands a node to the visitor method of its kind; the
//! visitor decides whether and in which order to walk the node's children.
use vstd::prelude::*;

use super::ast::{Ast, Binary, Definition, Ident, If, Literal, Sequence, Unary, Variable, While};

verus! {

/// A value that a visitor can walk.
pub trait Walkable {
    fn walk<V: Visitor>(&self, visitor: &mut V);
}

/// A pass over a syntax tree: each method is called on a node of its kind.
pub trait Visitor: Sized {
    fn visit_ast(&mut self, ast: &Ast);

    fn visit_sequence(&mut self, seq: &Sequence);

    fn visit_binary(&mut self, bin: &Binary);

    fn visit_unary(&mut self, un: &Unary);

    fn visit_literal(&mut self, lit: &Literal);

    fn visit_definition(&mut self, def: &Definition);

    fn visit_assignment(&mut self, def: &Definition);

    fn visit_if(&mut self, if_expr: &If);

    fn visit_while(&mut self, while_expr: &While);

    fn visit_variable(&mut self, var: &Variable);
}

impl Walkable for Ast {
    /// Hands the node to the visitor method of its kind; an error node is
    /// handed to none.
    fn walk<V: Visitor>(&self, visitor: &mut V) {
        match self {
            Ast::Sequence(seq) => visitor.visit_sequence(seq),
            Ast::Let(def) => visitor.visit_definition(def),
            Ast::Assignment(def) => visitor.visit_assignment(def),
            Ast::If(if_expr) => visitor.visit_if(if_expr),
            Ast::While(while_expr) => visitor.visit_while(while_expr),
            Ast::Literal(lit) => visitor.visit_literal(lit),
            Ast::Binary(bin) => visitor.visit_binary(bin),
            Ast::Unary(un) => visitor.visit_unary(un),
            Ast::Variable(var) => visitor.visit_variable(var),
            Ast::Error => {},
        }
    }
}

impl Walkable for Ident {
    /// A name has nothing to walk.
    fn walk<V: Visitor>(&self, _visitor: &mut V) {
    }
}

} // verus!
