//! Constant evaluation of integer expressions.
//!
//! The evaluator walks the tree in order and remembers the last value it
//! computed. A variable and a string leave it as it is; an overflow or a
//! comparison has no value; an operation on something without a value has
//! none either. A division by zero (or of the least integer by -1) is left
//! out: the walk must not reach one.
use vstd::prelude::*;

use super::ast::{Ast, BinOp, Definition, If, LiteralKind, Sequence, UnOp, Unary, While};

verus! {

/// The value of `l op r`, when it has one.
pub open spec fn spec_apply(op: BinOp, l: isize, r: isize) -> Option<isize> {
    match op {
        BinOp::Add => l.checked_add(r),
        BinOp::Sub => l.checked_sub(r),
        BinOp::Mul => l.checked_mul(r),
        BinOp::Div => l.checked_div(r),
        _ => None,
    }
}

/// The last value after walking `a`, when the last value before was `last`.
pub open spec fn spec_eval(a: Ast, last: Option<isize>) -> Option<isize>
    decreases a, 0nat,
{
    match a {
        Ast::Sequence(s) => spec_eval_list(s.statements@, s.statements@.len() as int, last),
        Ast::Let(d) => spec_eval(*d.value.ptr, last),
        Ast::Assignment(d) => spec_eval(*d.value.ptr, last),
        Ast::If(i) => spec_eval(*i.body.ptr, spec_eval(*i.condition.ptr, last)),
        Ast::While(w) => spec_eval(*w.body.ptr, spec_eval(*w.condition.ptr, last)),
        Ast::Binary(b) => match spec_eval(*b.left.ptr, last) {
            None => None,
            Some(l) => match spec_eval(*b.right.ptr, Some(l)) {
                None => None,
                Some(r) => spec_apply(b.op, l, r),
            },
        },
        Ast::Unary(u) => match spec_eval(*u.operand.ptr, last) {
            None => None,
            Some(v) => match u.op {
                UnOp::Neg => 0isize.checked_sub(v),
            },
        },
        Ast::Literal(l) => match l.kind {
            LiteralKind::Int(i) => if i <= isize::MAX { Some(i as isize) } else { None },
            LiteralKind::String(_) => last,
        },
        Ast::Variable(_) => last,
        Ast::Error => last,
    }
}

/// A division of `l` by `r` that has no quotient: by zero, or of the least
/// integer by -1.
pub open spec fn bad_division(l: isize, r: isize) -> bool {
    r == 0 || (l == isize::MIN && r == -1)
}

/// Whether walking `a`, when the last value before was `last`, reaches a
/// division that has no quotient.
pub open spec fn reaches_bad_division(a: Ast, last: Option<isize>) -> bool
    decreases a, 0nat,
{
    match a {
        Ast::Sequence(s) => reaches_bad_division_list(s.statements@, s.statements@.len() as int, last),
        Ast::Let(d) => reaches_bad_division(*d.value.ptr, last),
        Ast::Assignment(d) => reaches_bad_division(*d.value.ptr, last),
        Ast::If(i) => reaches_bad_division(*i.condition.ptr, last)
            || reaches_bad_division(*i.body.ptr, spec_eval(*i.condition.ptr, last)),
        Ast::While(w) => reaches_bad_division(*w.condition.ptr, last)
            || reaches_bad_division(*w.body.ptr, spec_eval(*w.condition.ptr, last)),
        Ast::Binary(b) => reaches_bad_division(*b.left.ptr, last) || match spec_eval(*b.left.ptr, last) {
            None => false,
            Some(l) => reaches_bad_division(*b.right.ptr, Some(l)) || (b.op == BinOp::Div && match spec_eval(*b.right.ptr, Some(l)) {
                None => false,
                Some(r) => bad_division(l, r),
            }),
        },
        Ast::Unary(u) => reaches_bad_division(*u.operand.ptr, last),
        _ => false,
    }
}

/// Whether walking the first `n` statements of `list` reaches a division
/// that has no quotient.
pub open spec fn reaches_bad_division_list(list: Seq<Ast>, n: int, last: Option<isize>) -> bool
    decreases list, n,
{
    if n <= 0 || n > list.len() {
        false
    } else {
        reaches_bad_division_list(list, n - 1, last)
            || reaches_bad_division(list[n - 1], spec_eval_list(list, n - 1, last))
    }
}

proof fn lemma_no_bad_division_prefix(list: Seq<Ast>, n: int, i: int, last: Option<isize>)
    requires
        0 <= i < n <= list.len(),
        !reaches_bad_division_list(list, n, last),
    ensures
        !reaches_bad_division(list[i], spec_eval_list(list, i, last)),
    decreases n,
{
    if i < n - 1 {
        lemma_no_bad_division_prefix(list, n - 1, i, last);
    }
}

/// The last value after walking the first `n` statements of `list`.
pub open spec fn spec_eval_list(list: Seq<Ast>, n: int, last: Option<isize>) -> Option<isize>
    decreases list, n,
{
    if n <= 0 || n > list.len() {
        last
    } else {
        spec_eval(list[n - 1], spec_eval_list(list, n - 1, last))
    }
}

/// Evaluates integer expressions; `last_value` holds the last value computed.
#[derive(Default)]
pub struct AstEvaluator {
    pub last_value: Option<isize>,
}

impl AstEvaluator {
    pub fn new() -> (e: AstEvaluator)
        ensures
            e.last_value is None,
    {
        AstEvaluator { last_value: None }
    }

    /// Walks the tree, updating the last value.
    pub fn visit_ast(&mut self, ast: &Ast)
        requires
            !reaches_bad_division(*ast, old(self).last_value),
        ensures
            final(self).last_value == spec_eval(*ast, old(self).last_value),
        decreases ast,
    {
        match ast {
            Ast::Sequence(seq) => {
                let ghost list = seq.statements@;
                let mut i: usize = 0;
                while i < seq.statements.len()
                    invariant
                        list == seq.statements@,
                        *ast == Ast::Sequence(*seq),
                        i <= list.len(),
                        self.last_value == spec_eval_list(list, i as int, old(self).last_value),
                        !reaches_bad_division_list(list, list.len() as int, old(self).last_value),
                    decreases list.len() - i,
                {
                    proof {
                        assert(decreases_to!(seq.statements@ => seq.statements@[i as int]));
                        assert(decreases_to!(seq.statements => seq.statements@));
                        assert(decreases_to!(*seq => seq.statements));
                        assert(decreases_to!(*ast => (*ast)->Sequence_0));
                        assert(decreases_to!(*ast => seq.statements@[i as int]));
                        lemma_no_bad_division_prefix(list, list.len() as int, i as int, old(self).last_value);
                    }
                    self.visit_ast(&seq.statements[i]);
                    i = i + 1;
                }
            },
            Ast::Let(def) => self.visit_ast(&def.value.ptr),
            Ast::Assignment(def) => self.visit_ast(&def.value.ptr),
            Ast::If(if_expr) => {
                self.visit_ast(&if_expr.condition.ptr);
                self.visit_ast(&if_expr.body.ptr);
            },
            Ast::While(while_expr) => {
                self.visit_ast(&while_expr.condition.ptr);
                self.visit_ast(&while_expr.body.ptr);
            },
            Ast::Binary(bin) => {
                self.visit_ast(&bin.left.ptr);
                let left = match self.last_value {
                    Some(value) => value,
                    None => return,
                };
                self.visit_ast(&bin.right.ptr);
                let right = match self.last_value {
                    Some(value) => value,
                    None => return,
                };
                self.last_value = match bin.op {
                    BinOp::Add => left.checked_add(right),
                    BinOp::Sub => left.checked_sub(right),
                    BinOp::Mul => left.checked_mul(right),
                    BinOp::Div => left.checked_div(right),
                    _ => None,
                };
            },
            Ast::Unary(un) => {
                self.visit_ast(&un.operand.ptr);
                let value = match self.last_value {
                    Some(value) => value,
                    None => return,
                };
                self.last_value = match un.op {
                    UnOp::Neg => 0isize.checked_sub(value),
                };
            },
            Ast::Literal(lit) => match &lit.kind {
                LiteralKind::Int(i) => {
                    self.last_value = if *i <= isize::MAX as u64 { Some(*i as isize) } else { None };
                },
                LiteralKind::String(_) => {},
            },
            Ast::Variable(_) => {},
            Ast::Error => {},
        }
    }
}

/// `if` and `while` walk their condition and then their body, as a sequence
/// of the two would; a definition or assignment walks its value; a
/// sequence walks its statements in order.
pub proof fn law_walk_order(i: If, w: While, d: Definition, q: Sequence, last: Option<isize>)
    ensures
        spec_eval(Ast::If(i), last) == spec_eval_list(seq![*i.condition.ptr, *i.body.ptr], 2, last),
        spec_eval(Ast::While(w), last) == spec_eval_list(seq![*w.condition.ptr, *w.body.ptr], 2, last),
        spec_eval(Ast::Let(d), last) == spec_eval(*d.value.ptr, last),
        spec_eval(Ast::Sequence(q), last) == spec_eval_list(q.statements@, q.statements@.len() as int, last),
{
    let ls = seq![*i.condition.ptr, *i.body.ptr];
    assert(spec_eval_list(ls, 1, last) == spec_eval(ls[0], spec_eval_list(ls, 0, last)));
    let lw = seq![*w.condition.ptr, *w.body.ptr];
    assert(spec_eval_list(lw, 1, last) == spec_eval(lw[0], spec_eval_list(lw, 0, last)));
}

/// A list of statements is walked one after another: the value after the
/// first `n + 1` statements is that of statement `n` walked from the value
/// after the first `n`.
pub proof fn law_list_walks_in_order(list: Seq<Ast>, n: int, last: Option<isize>)
    requires
        0 <= n < list.len(),
    ensures
        spec_eval_list(list, n + 1, last) == spec_eval(list[n], spec_eval_list(list, n, last)),
        spec_eval_list(list, 0, last) == last,
{
}

/// The operators compute what arithmetic on integers gives, when the result
/// fits in an `isize`; otherwise, and for the comparisons, there is no value.
/// Division truncates towards zero: the remainder is smaller than the
/// divisor and has the sign of the dividend.
pub proof fn law_operator_meaning(op: BinOp, l: isize, r: isize)
    ensures
        spec_apply(BinOp::Add, l, r) == if isize::MIN <= l + r <= isize::MAX { Some((l + r) as isize) } else { None::<isize> },
        spec_apply(BinOp::Sub, l, r) == if isize::MIN <= l - r <= isize::MAX { Some((l - r) as isize) } else { None::<isize> },
        spec_apply(BinOp::Mul, l, r) == if isize::MIN <= l * r <= isize::MAX { Some((l * r) as isize) } else { None::<isize> },
        r == 0 ==> spec_apply(BinOp::Div, l, r) is None,
        spec_apply(BinOp::Div, l, r) matches Some(q) ==> {
            let m = l - q * r;
            &&& r != 0
            &&& -(r as int) < m < r as int || (r as int) < m < -(r as int)
            &&& (m == 0 || (m < 0) == (l < 0))
        },
        (op != BinOp::Add && op != BinOp::Sub && op != BinOp::Mul && op != BinOp::Div) ==> spec_apply(op, l, r) is None,
{
    if spec_apply(BinOp::Div, l, r) is Some {
        let q = spec_apply(BinOp::Div, l, r)->Some_0;
        let x = l as int;
        let d = r as int;
        let m = x - q * d;
        if x == 0 {
            assert(q == 0);
            assert(m == 0);
        } else if x > 0 && d > 0 {
            assert(q == x / d);
            assert(0 <= x - (x / d) * d < d) by (nonlinear_arith) requires x > 0, d > 0;
        } else if x < 0 && d < 0 {
            assert(q == (-x) / (-d));
            assert(0 <= (-x) - ((-x) / (-d)) * (-d) < -d) by (nonlinear_arith) requires x < 0, d < 0;
            assert(x - q * d == -((-x) - q * (-d))) by (nonlinear_arith);
        } else if x < 0 {
            assert(q == ((-x) / d) * -1);
            assert(0 <= (-x) - ((-x) / d) * d < d) by (nonlinear_arith) requires x < 0, d > 0;
            assert(x - q * d == -((-x) - ((-x) / d) * d)) by (nonlinear_arith) requires q == ((-x) / d) * -1;
        } else {
            assert(q == (x / (-d)) * -1);
            assert(0 <= x - (x / (-d)) * (-d) < -d) by (nonlinear_arith) requires x > 0, d < 0;
            assert(x - q * d == x - (x / (-d)) * (-d)) by (nonlinear_arith) requires q == (x / (-d)) * -1;
        }
        assert(-d < m < d || d < m < -d);
        assert(m == 0 || (m < 0) == (x < 0));
    }
}

/// Negation gives the negated value of its operand, when that fits.
pub proof fn law_negation_meaning(u: Unary, last: Option<isize>)
    requires
        u.op == UnOp::Neg,
    ensures
        spec_eval(Ast::Unary(u), last) == match spec_eval(*u.operand.ptr, last) {
            Some(v) => if v > isize::MIN { Some((-v) as isize) } else { None::<isize> },
            None => None::<isize>,
        },
{
}

} // verus!
