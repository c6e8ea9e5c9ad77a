//! Indented rendering of the statement syntax tree.
use vstd::prelude::*;

use super::{Ast, BinOp, Expr, ExprKind, Item, ItemKind, Literal, Stmt, StmtKind};
use crate::parser::display::{nl, pad};
use crate::text::push_str;
use crate::words::{decimal_string, decimal_text};

verus! {

/// The keyword of a statement.
pub open spec fn keyword(k: StmtKind) -> Seq<char> {
    match k {
        StmtKind::Let(..) => "let"@,
        StmtKind::If(..) => "if"@,
        StmtKind::While(..) => "while"@,
        StmtKind::Print(..) => "print"@,
    }
}

/// The name of an operator, as `{:?}` writes it.
pub open spec fn op_name(op: BinOp) -> Seq<char> {
    match op {
        BinOp::Add => "Add"@,
        BinOp::Sub => "Sub"@,
        BinOp::Mul => "Mul"@,
        BinOp::Div => "Div"@,
        BinOp::Eq => "Eq"@,
        BinOp::NotEq => "NotEq"@,
        BinOp::LessThan => "LessThan"@,
        BinOp::LessThanEq => "LessThanEq"@,
        BinOp::GreaterThan => "GreaterThan"@,
        BinOp::GreaterThanEq => "GreaterThanEq"@,
    }
}

/// An integer in decimal, with a minus sign when negative.
pub open spec fn signed_text(i: int) -> Seq<char> {
    if i < 0 {
        "-"@ + decimal_text((-i) as nat)
    } else {
        decimal_text(i as nat)
    }
}

pub open spec fn literal_text(l: Literal) -> Seq<char> {
    match l {
        Literal::Integer(i) => signed_text(i as int),
        Literal::String(s) => s@,
    }
}

/// The renderings of items, one after the other, at indentation `n`.
pub open spec fn shown_items(items: Seq<Item>, n: nat) -> Seq<char>
    decreases items, 0nat,
{
    if items.len() == 0 {
        Seq::empty()
    } else {
        proof {
            assert(decreases_to!(items => items.drop_last()));
            assert(decreases_to!(items => items.last()));
        }
        shown_items(items.drop_last(), n) + shown_stmt(items.last().kind->Statement_0, n)
    }
}

/// A statement: its keyword, what it holds one level deeper, and a newline.
pub open spec fn shown_stmt(s: Stmt, n: nat) -> Seq<char>
    decreases s, 0nat,
{
    pad(n) + "Statement: "@ + keyword(s.kind) + match s.kind {
        StmtKind::Let(_, e) => shown_expr(e, n + 1),
        StmtKind::If(c, items) => shown_expr(c, n + 1) + shown_items(items@, n + 1),
        StmtKind::While(c, items) => shown_expr(c, n + 1) + shown_items(items@, n + 1),
        StmtKind::Print(p) => shown_expr(p.expression, n + 1),
    } + nl()
}

/// An expression on a line of its own.
pub open spec fn shown_expr(e: Expr, n: nat) -> Seq<char>
    decreases e, 0nat,
{
    nl() + pad(n) + "Expression: "@ + match e.kind {
        ExprKind::Unary(_, x) => nl() + pad(n + 1) + "Unary: Neg"@ + shown_expr(*x.ptr, n + 1),
        ExprKind::Binary(op, l, r) => nl() + pad(n + 1) + "Binary: "@ + op_name(op)
            + shown_expr(*l.ptr, n + 1) + shown_expr(*r.ptr, n + 1),
        ExprKind::Literal(lit) => literal_text(lit),
        ExprKind::Ident(s) => s@,
    }
}

/// Rendering items at indentation `n` never indents past `limit`.
pub open spec fn items_fit(items: Seq<Item>, n: int, limit: int) -> bool
    decreases items, 0nat,
{
    forall|i: int| 0 <= i < items.len() ==> {
        proof {
            assert(decreases_to!(items => items[i]));
        }
        stmt_fits(#[trigger] items[i].kind->Statement_0, n, limit)
    }
}

pub open spec fn stmt_fits(s: Stmt, n: int, limit: int) -> bool
    decreases s, 0nat,
{
    n + 1 <= limit && match s.kind {
        StmtKind::Let(_, e) => expr_fits(e, n + 1, limit),
        StmtKind::If(c, items) => expr_fits(c, n + 1, limit) && items_fit(items@, n + 1, limit),
        StmtKind::While(c, items) => expr_fits(c, n + 1, limit) && items_fit(items@, n + 1, limit),
        StmtKind::Print(p) => expr_fits(p.expression, n + 1, limit),
    }
}

pub open spec fn expr_fits(e: Expr, n: int, limit: int) -> bool
    decreases e, 0nat,
{
    n + 1 <= limit && match e.kind {
        ExprKind::Unary(_, x) => expr_fits(*x.ptr, n + 1, limit),
        ExprKind::Binary(_, l, r) => expr_fits(*l.ptr, n + 1, limit) && expr_fits(*r.ptr, n + 1, limit),
        _ => true,
    }
}

pub struct AstDisplay {
    pub ident: usize,
    pub result: String,
}

fn op_text(op: BinOp) -> (s: &'static str)
    ensures
        s@ == op_name(op),
{
    match op {
        BinOp::Add => "Add",
        BinOp::Sub => "Sub",
        BinOp::Mul => "Mul",
        BinOp::Div => "Div",
        BinOp::Eq => "Eq",
        BinOp::NotEq => "NotEq",
        BinOp::LessThan => "LessThan",
        BinOp::LessThanEq => "LessThanEq",
        BinOp::GreaterThan => "GreaterThan",
        BinOp::GreaterThanEq => "GreaterThanEq",
    }
}

proof fn lemma_items_fit(items: Seq<Item>, n: int, limit: int, i: int)
    requires
        items_fit(items, n, limit),
        0 <= i < items.len(),
    ensures
        stmt_fits(items[i].kind->Statement_0, n, limit),
{
    assert(stmt_fits(items[i].kind->Statement_0, n, limit));
}

impl AstDisplay {
    pub fn new() -> (d: AstDisplay)
        ensures
            d.ident == 0,
            d.result@ == Seq::<char>::empty(),
    {
        AstDisplay { ident: 0, result: String::new() }
    }

    /// Renders the program after what was rendered so far, and returns all of it.
    pub fn build(&mut self, ast: &Ast) -> (r: String)
        requires
            items_fit(ast.items@, old(self).ident as int, usize::MAX as int),
        ensures
            final(self).result@ == old(self).result@ + shown_items(ast.items@, old(self).ident as nat),
            final(self).ident == old(self).ident,
            r@ == final(self).result@,
    {
        self.visit_items(&ast.items);
        self.result.clone()
    }

    fn add_newline(&mut self)
        ensures
            final(self).result@ == old(self).result@ + nl(),
            final(self).ident == old(self).ident,
    {
        push_str(&mut self.result, "\n");
        proof {
            reveal_strlit("\n");
        }
        assert(self.result@ =~= old(self).result@ + nl());
    }

    fn add_padding(&mut self)
        ensures
            final(self).result@ == old(self).result@ + pad(old(self).ident as nat),
            final(self).ident == old(self).ident,
    {
        let mut i: usize = 0;
        while i < self.ident
            invariant
                i <= self.ident,
                self.ident == old(self).ident,
                self.result@ == old(self).result@ + pad(i as nat),
            decreases self.ident - i,
        {
            push_str(&mut self.result, "  ");
            i = i + 1;
            assert(self.result@ =~= old(self).result@ + pad(i as nat));
        }
    }

    /// Renders items in order.
    pub fn visit_items(&mut self, items: &Vec<Item>)
        requires
            items_fit(items@, old(self).ident as int, usize::MAX as int),
        ensures
            final(self).result@ == old(self).result@ + shown_items(items@, old(self).ident as nat),
            final(self).ident == old(self).ident,
        decreases items@, 1nat,
    {
        let ghost n = self.ident as nat;
        let ghost r0 = self.result@;
        let mut i: usize = 0;
        proof {
            assert(items@.take(0) =~= Seq::<Item>::empty());
        }
        while i < items.len()
            invariant
                i <= items@.len(),
                self.ident == n,
                items_fit(items@, n as int, usize::MAX as int),
                self.result@ == r0 + shown_items(items@.take(i as int), n),
            decreases items.len() - i,
        {
            proof {
                lemma_items_fit(items@, n as int, usize::MAX as int, i as int);
                assert(items@.take(i + 1).drop_last() =~= items@.take(i as int));
                assert(decreases_to!(items@ => items@[i as int]));
            }
            match &items[i].kind {
                ItemKind::Statement(stmt) => self.visit_stmt(stmt),
            }
            i = i + 1;
        }
        assert(items@.take(i as int) =~= items@);
    }

    /// Renders a statement.
    pub fn visit_stmt(&mut self, stmt: &Stmt)
        requires
            stmt_fits(*stmt, old(self).ident as int, usize::MAX as int),
        ensures
            final(self).result@ == old(self).result@ + shown_stmt(*stmt, old(self).ident as nat),
            final(self).ident == old(self).ident,
        decreases stmt, 1nat,
    {
        let ghost r0 = self.result@;
        let ghost n = self.ident as nat;
        self.add_padding();
        push_str(&mut self.result, "Statement: ");
        self.ident = self.ident + 1;
        let ghost r1 = self.result@;
        match &stmt.kind {
            StmtKind::Let(_, e) => {
                push_str(&mut self.result, "let");
                self.visit_expr(e);
            },
            StmtKind::If(c, items) => {
                push_str(&mut self.result, "if");
                self.visit_expr(c);
                self.visit_items(items);
            },
            StmtKind::While(c, items) => {
                push_str(&mut self.result, "while");
                self.visit_expr(c);
                self.visit_items(items);
            },
            StmtKind::Print(p) => {
                push_str(&mut self.result, "print");
                self.visit_expr(&p.expression);
            },
        }
        self.add_newline();
        self.ident = self.ident - 1;
        assert(self.result@ =~= r0 + shown_stmt(*stmt, n));
    }

    /// Renders an expression on a line of its own.
    pub fn visit_expr(&mut self, expr: &Expr)
        requires
            expr_fits(*expr, old(self).ident as int, usize::MAX as int),
        ensures
            final(self).result@ == old(self).result@ + shown_expr(*expr, old(self).ident as nat),
            final(self).ident == old(self).ident,
        decreases expr, 1nat,
    {
        let ghost r0 = self.result@;
        let ghost n = self.ident as nat;
        self.add_newline();
        self.add_padding();
        push_str(&mut self.result, "Expression: ");
        self.ident = self.ident + 1;
        match &expr.kind {
            ExprKind::Unary(_, x) => {
                self.add_newline();
                self.add_padding();
                push_str(&mut self.result, "Unary: Neg");
                self.visit_expr(&x.ptr);
            },
            ExprKind::Binary(op, l, r) => {
                self.add_newline();
                self.add_padding();
                push_str(&mut self.result, "Binary: ");
                push_str(&mut self.result, op_text(*op));
                self.visit_expr(&l.ptr);
                self.visit_expr(&r.ptr);
            },
            ExprKind::Literal(lit) => {
                self.visit_literal(lit);
            },
            ExprKind::Ident(s) => {
                push_str(&mut self.result, s.as_str());
            },
        }
        self.ident = self.ident - 1;
        assert(self.result@ =~= r0 + shown_expr(*expr, n));
    }

    /// Renders a literal's value.
    pub fn visit_literal(&mut self, lit: &Literal)
        ensures
            final(self).result@ == old(self).result@ + literal_text(*lit),
            final(self).ident == old(self).ident,
    {
        match lit {
            Literal::Integer(i) => {
                if *i < 0 {
                    push_str(&mut self.result, "-");
                    let m = (-(*i as i128)) as u64;
                    push_str(&mut self.result, decimal_string(m).as_str());
                } else {
                    push_str(&mut self.result, decimal_string(*i as u64).as_str());
                }
            },
            Literal::String(s) => {
                push_str(&mut self.result, s.as_str());
            },
        }
    }
}

/// Each operator is shown by its own name: the names of two different
/// operators differ, and each starts with a capital letter.
pub proof fn law_operator_names_distinct(a: BinOp, b: BinOp)
    ensures
        a != b ==> op_name(a) != op_name(b),
        op_name(a).len() > 0 && 'A' <= op_name(a)[0] <= 'Z',
{
    reveal_strlit("Add");
    reveal_strlit("Sub");
    reveal_strlit("Mul");
    reveal_strlit("Div");
    reveal_strlit("Eq");
    reveal_strlit("NotEq");
    reveal_strlit("LessThan");
    reveal_strlit("LessThanEq");
    reveal_strlit("GreaterThan");
    reveal_strlit("GreaterThanEq");
    if a != b && op_name(a) == op_name(b) {
        assert(op_name(a).len() == op_name(b).len());
        assert(op_name(a)[0] == op_name(b)[0]);
    }
}

} // verus!
