//! Indented, coloured rendering of the syntax tree.
use vstd::prelude::*;

use super::ast::{Ast, BinOp, Binary, Definition, If, Literal, LiteralKind, Sequence, Unary, Variable, While};
use crate::escape_codes::{color_code, Color};
use crate::text::{push_char, push_str};
use crate::words::{decimal_string, decimal_text};

verus! {

/// Two spaces for each level of indentation.
pub open spec fn pad(n: nat) -> Seq<char>
    decreases n,
{
    if n == 0 {
        Seq::empty()
    } else {
        pad((n - 1) as nat) + "  "@
    }
}

pub open spec fn nl() -> Seq<char> {
    seq!['\n']
}

/// The header of a statement.
pub open spec fn statement_header() -> Seq<char> {
    color_code(Color::Magenta) + "Statement:"@ + color_code(Color::Reset) + " "@
}

/// The header of an expression labelled `text`.
pub open spec fn expression_header(text: Seq<char>) -> Seq<char> {
    color_code(Color::Cyan) + text + ":"@ + color_code(Color::Reset) + " "@
}

/// The name of an operator, as `{:?}` writes it.
pub open spec fn binop_name(op: BinOp) -> Seq<char> {
    match op {
        BinOp::Add => "Add"@,
        BinOp::Sub => "Sub"@,
        BinOp::Mul => "Mul"@,
        BinOp::Div => "Div"@,
        BinOp::Eq => "Eq"@,
        BinOp::NotEq => "NotEq"@,
        BinOp::LessThan => "LessThan"@,
        BinOp::LessThanEq => "LessThanEq"@,
        BinOp::GreaterThan => "GreaterThan"@,
        BinOp::GreaterThanEq => "GreaterThanEq"@,
    }
}

/// The rendering of a node at indentation `n`.
pub open spec fn shown(a: Ast, n: nat) -> Seq<char>
    decreases a,
{
    match a {
        Ast::Sequence(s) => shown_all(s.statements@, n),
        Ast::Let(d) => nl() + pad(n) + statement_header() + "Declare "@ + d.pattern.name@
            + nl() + pad(n + 1) + expression_header("Expression"@) + shown(*d.value.ptr, n + 1)
            + nl() + pad(n),
        Ast::Assignment(d) => nl() + pad(n) + statement_header() + "Assign "@ + d.pattern.name@
            + nl() + pad(n + 1) + expression_header("Expression"@) + shown(*d.value.ptr, n + 1)
            + nl() + pad(n),
        Ast::Binary(b) => nl() + pad(n + 1) + expression_header("Left"@) + shown(*b.left.ptr, n + 1)
            + nl() + pad(n + 1) + expression_header("Op"@) + binop_name(b.op)
            + nl() + pad(n + 1) + expression_header("Right"@) + shown(*b.right.ptr, n + 1)
            + nl() + pad(n),
        Ast::Unary(u) => nl() + pad(n) + expression_header("Expression"@)
            + nl() + pad(n + 1) + "Value: "@ + shown(*u.operand.ptr, n + 1)
            + nl() + pad(n),
        Ast::Literal(l) => match l.kind {
            LiteralKind::Int(i) => decimal_text(i as nat),
            LiteralKind::String(s) => s@,
        },
        Ast::Variable(v) => v.pattern@,
        Ast::While(w) => nl() + pad(n) + statement_header() + "While"@
            + nl() + pad(n + 1) + expression_header("Expression"@) + shown(*w.condition.ptr, n + 1)
            + nl() + pad(n + 1) + color_code(Color::Magenta) + "Then:"@ + color_code(Color::Reset) + " "@
            + shown(*w.body.ptr, n + 2),
        Ast::If(i) => nl() + pad(n) + statement_header() + "If"@
            + nl() + pad(n + 1) + expression_header("Expression"@) + shown(*i.condition.ptr, n + 1)
            + nl() + pad(n + 1) + color_code(Color::Magenta) + "Then:"@ + color_code(Color::Reset) + " "@
            + shown(*i.body.ptr, n + 2),
        Ast::Error => Seq::empty(),
    }
}

/// The renderings of statements one after the other.
pub open spec fn shown_all(stmts: Seq<Ast>, n: nat) -> Seq<char>
    decreases stmts,
{
    if stmts.len() == 0 {
        Seq::empty()
    } else {
        proof {
            assert(decreases_to!(stmts => stmts.drop_last()));
        }
        shown_all(stmts.drop_last(), n) + shown(stmts.last(), n)
    }
}

/// Rendering a node starting at indentation `n` never indents past `limit`.
pub open spec fn fits(a: Ast, n: int, limit: int) -> bool
    decreases a,
{
    match a {
        Ast::Sequence(s) => forall|i: int| 0 <= i < s.statements@.len() ==> {
            proof {
                assert(decreases_to!(s.statements@ => s.statements@[i]));
            }
            fits(#[trigger] s.statements@[i], n, limit)
        },
        Ast::Let(d) => n + 1 <= limit && fits(*d.value.ptr, n + 1, limit),
        Ast::Assignment(d) => n + 1 <= limit && fits(*d.value.ptr, n + 1, limit),
        Ast::Binary(b) => n + 1 <= limit && fits(*b.left.ptr, n + 1, limit) && fits(*b.right.ptr, n + 1, limit),
        Ast::Unary(u) => n + 1 <= limit && fits(*u.operand.ptr, n + 1, limit),
        Ast::While(w) => n + 2 <= limit && fits(*w.condition.ptr, n + 1, limit) && fits(*w.body.ptr, n + 2, limit),
        Ast::If(i) => n + 2 <= limit && fits(*i.condition.ptr, n + 1, limit) && fits(*i.body.ptr, n + 2, limit),
        _ => true,
    }
}

proof fn lemma_fits_statement(s: Sequence, n: int, limit: int, i: int)
    requires
        fits(Ast::Sequence(s), n, limit),
        0 <= i < s.statements@.len(),
    ensures
        fits(s.statements@[i], n, limit),
{
    let a = Ast::Sequence(s);
    match a {
        Ast::Sequence(t) => {
            assert(t == s);
            assert(fits(t.statements@[i], n, limit));
        },
        _ => {},
    }
}

/// Whether rendering `a` starting at indentation `n` stays within `limit`.
pub fn fits_within(a: &Ast, n: usize, limit: usize) -> (r: bool)
    ensures
        r == fits(*a, n as int, limit as int),
    decreases a, 1nat,
{
    match a {
        Ast::Sequence(s) => fits_within_sequence(s, n, limit),
        Ast::Let(d) => n < limit && fits_within(&d.value.ptr, n + 1, limit),
        Ast::Assignment(d) => n < limit && fits_within(&d.value.ptr, n + 1, limit),
        Ast::Binary(b) => n < limit && fits_within(&b.left.ptr, n + 1, limit) && fits_within(&b.right.ptr, n + 1, limit),
        Ast::Unary(u) => n < limit && fits_within(&u.operand.ptr, n + 1, limit),
        Ast::While(w) => n < limit && limit - n >= 2 && fits_within(&w.condition.ptr, n + 1, limit)
            && fits_within(&w.body.ptr, n + 2, limit),
        Ast::If(i) => n < limit && limit - n >= 2 && fits_within(&i.condition.ptr, n + 1, limit)
            && fits_within(&i.body.ptr, n + 2, limit),
        _ => true,
    }
}

fn fits_within_sequence(s: &Sequence, n: usize, limit: usize) -> (r: bool)
    ensures
        r == fits(Ast::Sequence(*s), n as int, limit as int),
    decreases s, 0nat,
{
    let mut i: usize = 0;
    while i < s.statements.len()
        invariant
            i <= s.statements@.len(),
            forall|j: int| 0 <= j < i ==> fits(#[trigger] s.statements@[j], n as int, limit as int),
        decreases s.statements.len() - i,
    {
        proof {
            assert(decreases_to!(s => s.statements));
            assert(decreases_to!(s.statements => s.statements@));
            assert(decreases_to!(s.statements@ => s.statements@[i as int]));
        }
        if !fits_within(&s.statements[i], n, limit) {
            proof {
                if fits(Ast::Sequence(*s), n as int, limit as int) {
                    lemma_fits_statement(*s, n as int, limit as int, i as int);
                }
            }
            return false;
        }
        i = i + 1;
    }
    true
}

/// How a binary node renders: its left operand, its operator, its right operand.
proof fn lemma_shown_binary(b: Binary, n: nat)
    ensures
        shown(Ast::Binary(b), n)
            == (nl() + pad(n + 1) + expression_header("Left"@) + shown(*b.left.ptr, n + 1))
            + (nl() + pad(n + 1) + expression_header("Op"@) + binop_name(b.op))
            + (nl() + pad(n + 1) + expression_header("Right"@) + shown(*b.right.ptr, n + 1) + nl() + pad(n)),
{
    let l = nl() + pad(n + 1) + expression_header("Left"@) + shown(*b.left.ptr, n + 1);
    let o = nl() + pad(n + 1) + expression_header("Op"@) + binop_name(b.op);
    let r = nl() + pad(n + 1) + expression_header("Right"@) + shown(*b.right.ptr, n + 1) + nl() + pad(n);
    assert(shown(Ast::Binary(b), n) =~= l + o + r);
}

pub struct AstDisplay {
    pub ident: usize,
    pub result: String,
}

/// The name of an operator, as `{:?}` writes it.
fn binop_text(op: BinOp) -> (s: &'static str)
    ensures
        s@ == binop_name(op),
{
    match op {
        BinOp::Add => "Add",
        BinOp::Sub => "Sub",
        BinOp::Mul => "Mul",
        BinOp::Div => "Div",
        BinOp::Eq => "Eq",
        BinOp::NotEq => "NotEq",
        BinOp::LessThan => "LessThan",
        BinOp::LessThanEq => "LessThanEq",
        BinOp::GreaterThan => "GreaterThan",
        BinOp::GreaterThanEq => "GreaterThanEq",
    }
}

impl AstDisplay {
    pub fn new() -> (d: AstDisplay)
        ensures
            d.ident == 0,
            d.result@ == Seq::<char>::empty(),
    {
        AstDisplay { ident: 0, result: String::new() }
    }

    /// Renders the tree after what was rendered so far, and returns all of it.
    pub fn build(&mut self, ast: &Ast) -> (r: String)
        requires
            fits(*ast, old(self).ident as int, usize::MAX as int),
        ensures
            final(self).result@ == old(self).result@ + shown(*ast, old(self).ident as nat),
            final(self).ident == old(self).ident,
            r@ == final(self).result@,
    {
        self.visit_ast(ast);
        self.result.clone()
    }

    fn add_newline(&mut self)
        ensures
            final(self).result@ == old(self).result@ + nl(),
            final(self).ident == old(self).ident,
    {
        push_char(&mut self.result, '\n');
        assert(self.result@ =~= old(self).result@ + nl());
    }

    fn add_padding(&mut self)
        ensures
            final(self).result@ == old(self).result@ + pad(old(self).ident as nat),
            final(self).ident == old(self).ident,
    {
        let mut i: usize = 0;
        while i < self.ident
            invariant
                i <= self.ident,
                self.ident == old(self).ident,
                self.result@ == old(self).result@ + pad(i as nat),
            decreases self.ident - i,
        {
            push_str(&mut self.result, "  ");
            i = i + 1;
            assert(self.result@ =~= old(self).result@ + pad(i as nat));
        }
    }

    fn add_statement_header(&mut self)
        ensures
            final(self).result@ == old(self).result@ + statement_header(),
            final(self).ident == old(self).ident,
    {
        push_str(&mut self.result, Color::Magenta.as_ref());
        push_str(&mut self.result, "Statement:");
        push_str(&mut self.result, Color::Reset.as_ref());
        push_str(&mut self.result, " ");
        assert(self.result@ =~= old(self).result@ + statement_header());
    }

    fn add_expression_header(&mut self, text: &str)
        ensures
            final(self).result@ == old(self).result@ + expression_header(text@),
            final(self).ident == old(self).ident,
    {
        push_str(&mut self.result, Color::Cyan.as_ref());
        push_str(&mut self.result, text);
        push_str(&mut self.result, ":");
        push_str(&mut self.result, Color::Reset.as_ref());
        push_str(&mut self.result, " ");
        assert(self.result@ =~= old(self).result@ + expression_header(text@));
    }

    /// Renders a node at the current indentation.
    pub fn visit_ast(&mut self, ast: &Ast)
        requires
            fits(*ast, old(self).ident as int, usize::MAX as int),
        ensures
            final(self).result@ == old(self).result@ + shown(*ast, old(self).ident as nat),
            final(self).ident == old(self).ident,
        decreases ast, 1nat,
    {
        match ast {
            Ast::Sequence(s) => self.visit_sequence(s),
            Ast::Let(d) => self.visit_definition(d),
            Ast::Assignment(d) => self.visit_assignment(d),
            Ast::Binary(b) => self.visit_binary(b),
            Ast::Unary(u) => self.visit_unary(u),
            Ast::Literal(l) => self.visit_literal(l),
            Ast::Variable(v) => self.visit_variable(v),
            Ast::While(w) => self.visit_while(w),
            Ast::If(i) => self.visit_if(i),
            Ast::Error => {
                assert(self.result@ =~= old(self).result@ + shown(*ast, old(self).ident as nat));
            },
        }
    }

    fn visit_sequence(&mut self, s: &Sequence)
        requires
            fits(Ast::Sequence(*s), old(self).ident as int, usize::MAX as int),
        ensures
            final(self).result@ == old(self).result@ + shown(Ast::Sequence(*s), old(self).ident as nat),
            final(self).ident == old(self).ident,
        decreases s, 0nat,
    {
        let ghost n = self.ident as nat;
        let ghost r0 = self.result@;
        let mut i: usize = 0;
        proof {
            assert(s.statements@.take(0) =~= Seq::<Ast>::empty());
        }
        while i < s.statements.len()
            invariant
                i <= s.statements@.len(),
                self.ident == n,
                fits(Ast::Sequence(*s), n as int, usize::MAX as int),
                self.result@ == r0 + shown_all(s.statements@.take(i as int), n),
            decreases s.statements.len() - i,
        {
            proof {
                assert(decreases_to!(s => s.statements));
                assert(decreases_to!(s.statements => s.statements@));
                assert(decreases_to!(s.statements@ => s.statements@[i as int]));
                lemma_fits_statement(*s, n as int, usize::MAX as int, i as int);
                assert(s.statements@.take(i + 1).drop_last() =~= s.statements@.take(i as int));
            }
            self.visit_ast(&s.statements[i]);
            i = i + 1;
        }
        assert(s.statements@.take(i as int) =~= s.statements@);
    }

    fn visit_definition(&mut self, d: &Definition)
        requires
            fits(Ast::Let(*d), old(self).ident as int, usize::MAX as int),
        ensures
            final(self).result@ == old(self).result@ + shown(Ast::Let(*d), old(self).ident as nat),
            final(self).ident == old(self).ident,
        decreases d, 0nat,
    {
        let ghost r0 = self.result@;
        self.add_newline();
        self.add_padding();
        self.ident = self.ident + 1;
        self.add_statement_header();
        push_str(&mut self.result, "Declare ");
        push_str(&mut self.result, d.pattern.name.as_str());
        self.add_newline();
        self.add_padding();
        self.add_expression_header("Expression");
        self.visit_ast(&d.value.ptr);
        self.ident = self.ident - 1;
        self.add_newline();
        self.add_padding();
        assert(self.result@ =~= r0 + shown(Ast::Let(*d), old(self).ident as nat));
    }

    fn visit_assignment(&mut self, d: &Definition)
        requires
            fits(Ast::Assignment(*d), old(self).ident as int, usize::MAX as int),
        ensures
            final(self).result@ == old(self).result@ + shown(Ast::Assignment(*d), old(self).ident as nat),
            final(self).ident == old(self).ident,
        decreases d, 0nat,
    {
        let ghost r0 = self.result@;
        self.add_newline();
        self.add_padding();
        self.add_statement_header();
        push_str(&mut self.result, "Assign ");
        push_str(&mut self.result, d.pattern.name.as_str());
        self.ident = self.ident + 1;
        self.add_newline();
        self.add_padding();
        self.add_expression_header("Expression");
        self.visit_ast(&d.value.ptr);
        self.ident = self.ident - 1;
        self.add_newline();
        self.add_padding();
        assert(self.result@ =~= r0 + shown(Ast::Assignment(*d), old(self).ident as nat));
    }

    fn visit_binary(&mut self, b: &Binary)
        requires
            fits(Ast::Binary(*b), old(self).ident as int, usize::MAX as int),
        ensures
            final(self).result@ == old(self).result@ + shown(Ast::Binary(*b), old(self).ident as nat),
            final(self).ident == old(self).ident,
        decreases b, 0nat,
    {
        let ghost r0 = self.result@;
        let ghost n = self.ident as nat;
        self.ident = self.ident + 1;
        self.add_newline();
        self.add_padding();
        self.add_expression_header("Left");
        self.visit_ast(&b.left.ptr);
        let ghost left = nl() + pad(n + 1) + expression_header("Left"@) + shown(*b.left.ptr, n + 1);
        assert(self.result@ =~= r0 + left);
        let ghost r1 = self.result@;
        self.add_newline();
        self.add_padding();
        self.add_expression_header("Op");
        push_str(&mut self.result, binop_text(b.op));
        let ghost op = nl() + pad(n + 1) + expression_header("Op"@) + binop_name(b.op);
        assert(self.result@ =~= r1 + op);
        let ghost r2 = self.result@;
        self.add_newline();
        self.add_padding();
        self.add_expression_header("Right");
        self.visit_ast(&b.right.ptr);
        self.ident = self.ident - 1;
        self.add_newline();
        self.add_padding();
        let ghost right = nl() + pad(n + 1) + expression_header("Right"@) + shown(*b.right.ptr, n + 1) + nl() + pad(n);
        assert(self.result@ =~= r2 + right);
        proof {
            lemma_shown_binary(*b, n);
        }
        assert(self.result@ =~= r0 + (left + op + right));
    }

    fn visit_unary(&mut self, u: &Unary)
        requires
            fits(Ast::Unary(*u), old(self).ident as int, usize::MAX as int),
        ensures
            final(self).result@ == old(self).result@ + shown(Ast::Unary(*u), old(self).ident as nat),
            final(self).ident == old(self).ident,
        decreases u, 0nat,
    {
        let ghost r0 = self.result@;
        self.add_newline();
        self.add_padding();
        self.add_expression_header("Expression");
        self.ident = self.ident + 1;
        self.add_newline();
        self.add_padding();
        push_str(&mut self.result, "Value: ");
        self.visit_ast(&u.operand.ptr);
        self.ident = self.ident - 1;
        self.add_newline();
        self.add_padding();
        assert(self.result@ =~= r0 + shown(Ast::Unary(*u), old(self).ident as nat));
    }

    fn visit_literal(&mut self, l: &Literal)
        ensures
            final(self).result@ == old(self).result@ + shown(Ast::Literal(*l), old(self).ident as nat),
            final(self).ident == old(self).ident,
    {
        match &l.kind {
            LiteralKind::Int(i) => {
                let t = decimal_string(*i);
                push_str(&mut self.result, t.as_str());
            },
            LiteralKind::String(s) => {
                push_str(&mut self.result, s.as_str());
            },
        }
    }

    fn visit_variable(&mut self, v: &Variable)
        ensures
            final(self).result@ == old(self).result@ + shown(Ast::Variable(*v), old(self).ident as nat),
            final(self).ident == old(self).ident,
    {
        push_str(&mut self.result, v.pattern.as_str());
    }

    #[verifier::rlimit(50)]
    fn visit_while(&mut self, w: &While)
        requires
            fits(Ast::While(*w), old(self).ident as int, usize::MAX as int),
        ensures
            final(self).result@ == old(self).result@ + shown(Ast::While(*w), old(self).ident as nat),
            final(self).ident == old(self).ident,
        decreases w, 0nat,
    {
        let ghost r0 = self.result@;
        self.add_newline();
        self.add_padding();
        self.add_statement_header();
        push_str(&mut self.result, "While");
        self.ident = self.ident + 1;
        self.add_newline();
        self.add_padding();
        self.add_expression_header("Expression");
        self.visit_ast(&w.condition.ptr);
        self.add_newline();
        self.add_padding();
        self.add_then_header();
        self.ident = self.ident + 1;
        self.visit_ast(&w.body.ptr);
        self.ident = self.ident - 2;
        assert(self.result@ =~= r0 + shown(Ast::While(*w), old(self).ident as nat));
    }

    #[verifier::rlimit(50)]
    fn visit_if(&mut self, i: &If)
        requires
            fits(Ast::If(*i), old(self).ident as int, usize::MAX as int),
        ensures
            final(self).result@ == old(self).result@ + shown(Ast::If(*i), old(self).ident as nat),
            final(self).ident == old(self).ident,
        decreases i, 0nat,
    {
        let ghost r0 = self.result@;
        self.add_newline();
        self.add_padding();
        self.add_statement_header();
        push_str(&mut self.result, "If");
        self.ident = self.ident + 1;
        self.add_newline();
        self.add_padding();
        self.add_expression_header("Expression");
        self.visit_ast(&i.condition.ptr);
        self.add_newline();
        self.add_padding();
        self.add_then_header();
        self.ident = self.ident + 1;
        self.visit_ast(&i.body.ptr);
        self.ident = self.ident - 2;
        assert(self.result@ =~= r0 + shown(Ast::If(*i), old(self).ident as nat));
    }

    fn add_then_header(&mut self)
        ensures
            final(self).result@ == old(self).result@ + color_code(Color::Magenta) + "Then:"@ + color_code(Color::Reset) + " "@,
            final(self).ident == old(self).ident,
    {
        push_str(&mut self.result, Color::Magenta.as_ref());
        push_str(&mut self.result, "Then:");
        push_str(&mut self.result, Color::Reset.as_ref());
        push_str(&mut self.result, " ");
    }
}

/// Each operator is shown by its own name: the names of two different
/// operators differ, and each starts with a capital letter.
pub proof fn law_operator_names_distinct(a: BinOp, b: BinOp)
    ensures
        a != b ==> binop_name(a) != binop_name(b),
        binop_name(a).len() > 0 && 'A' <= binop_name(a)[0] <= 'Z',
{
    reveal_strlit("Add");
    reveal_strlit("Sub");
    reveal_strlit("Mul");
    reveal_strlit("Div");
    reveal_strlit("Eq");
    reveal_strlit("NotEq");
    reveal_strlit("LessThan");
    reveal_strlit("LessThanEq");
    reveal_strlit("GreaterThan");
    reveal_strlit("GreaterThanEq");
    if a != b && binop_name(a) == binop_name(b) {
        assert(binop_name(a).len() == binop_name(b).len());
        assert(binop_name(a)[0] == binop_name(b)[0]);
    }
}

} // verus!
