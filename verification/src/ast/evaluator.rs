//! Constant evaluation of the statement tree's integer expressions.
//!
//! The evaluator walks an expression in order and remembers the last value
//! it computed: a literal integer sets it; a binary operation computes from
//! its operands' values; the operand of a unary operation and an identifier
//! or a string leave it as they find it. An overflow, a comparison, or an
//! operand without a value gives no value. A division by zero (or of the
//! least integer by -1) is left out: the walk must not reach one.
use vstd::prelude::*;

use super::{BinOp, Expr, ExprKind, Literal};

verus! {

/// The value of `l op r`, when it has one.
pub open spec fn spec_apply(op: BinOp, l: isize, r: isize) -> Option<isize> {
    match op {
        BinOp::Add => l.checked_add(r),
        BinOp::Sub => l.checked_sub(r),
        BinOp::Mul => l.checked_mul(r),
        BinOp::Div => l.checked_div(r),
        _ => None,
    }
}

/// The last value after walking `e`, when the last value before was `last`.
pub open spec fn spec_eval(e: Expr, last: Option<isize>) -> Option<isize>
    decreases e,
{
    match e.kind {
        ExprKind::Binary(op, l, r) => match spec_eval(*l.ptr, last) {
            None => None,
            Some(a) => match spec_eval(*r.ptr, Some(a)) {
                None => None,
                Some(b) => spec_apply(op, a, b),
            },
        },
        ExprKind::Unary(_, x) => spec_eval(*x.ptr, last),
        ExprKind::Literal(Literal::Integer(i)) => Some(i),
        ExprKind::Literal(Literal::String(_)) => last,
        ExprKind::Ident(_) => last,
    }
}

/// A division of `l` by `r` that has no quotient: by zero, or of the least
/// integer by -1.
pub open spec fn bad_division(l: isize, r: isize) -> bool {
    r == 0 || (l == isize::MIN && r == -1)
}

/// Whether walking `e`, when the last value before was `last`, reaches a
/// division that has no quotient.
pub open spec fn reaches_bad_division(e: Expr, last: Option<isize>) -> bool
    decreases e,
{
    match e.kind {
        ExprKind::Binary(op, l, r) => reaches_bad_division(*l.ptr, last) || match spec_eval(*l.ptr, last) {
            None => false,
            Some(a) => reaches_bad_division(*r.ptr, Some(a)) || (op == BinOp::Div && match spec_eval(*r.ptr, Some(a)) {
                None => false,
                Some(b) => bad_division(a, b),
            }),
        },
        ExprKind::Unary(_, x) => reaches_bad_division(*x.ptr, last),
        _ => false,
    }
}

/// How many nodes an expression has.
pub open spec fn size(e: Expr) -> nat
    decreases e,
{
    1 + match e.kind {
        ExprKind::Binary(_, l, r) => size(*l.ptr) + size(*r.ptr),
        ExprKind::Unary(_, x) => size(*x.ptr),
        _ => 0,
    }
}

/// Evaluates integer expressions; `last_value` holds the last value computed.
pub struct AstEvaluator {
    pub last_value: Option<isize>,
}

impl AstEvaluator {
    pub fn new() -> (e: AstEvaluator)
        ensures
            e.last_value is None,
    {
        AstEvaluator { last_value: None }
    }

    /// Walks an expression, updating the last value.
    pub fn visit_expr(&mut self, expr: &Expr)
        requires
            !reaches_bad_division(*expr, old(self).last_value),
        ensures
            final(self).last_value == spec_eval(*expr, old(self).last_value),
        decreases size(*expr) + 1,
    {
        match &expr.kind {
            ExprKind::Binary(op, lhs, rhs) => self.visit_binary(op, &lhs.ptr, &rhs.ptr),
            ExprKind::Unary(_, x) => self.visit_expr(&x.ptr),
            ExprKind::Literal(lit) => self.visit_literal(lit),
            ExprKind::Ident(_) => {},
        }
    }

    /// Evaluates both operands in order, then the operation.
    pub fn visit_binary(&mut self, op: &BinOp, lhs: &Expr, rhs: &Expr)
        requires
            !reaches_bad_division(*lhs, old(self).last_value),
            spec_eval(*lhs, old(self).last_value) matches Some(a) ==> {
                &&& !reaches_bad_division(*rhs, Some(a))
                &&& (*op == BinOp::Div ==> !(spec_eval(*rhs, Some(a)) matches Some(b) && bad_division(a, b)))
            },
        ensures
            final(self).last_value == match spec_eval(*lhs, old(self).last_value) {
                None => None,
                Some(a) => match spec_eval(*rhs, Some(a)) {
                    None => None,
                    Some(b) => spec_apply(*op, a, b),
                },
            },
        decreases size(*lhs) + size(*rhs) + 1,
    {
        self.visit_expr(lhs);
        let left = match self.last_value {
            Some(v) => v,
            None => return,
        };
        self.visit_expr(rhs);
        let right = match self.last_value {
            Some(v) => v,
            None => return,
        };
        self.last_value = match op {
            BinOp::Add => left.checked_add(right),
            BinOp::Sub => left.checked_sub(right),
            BinOp::Mul => left.checked_mul(right),
            BinOp::Div => left.checked_div(right),
            _ => None,
        };
    }

    /// An integer literal sets the last value.
    pub fn visit_literal(&mut self, lit: &Literal)
        ensures
            final(self).last_value == match *lit {
                Literal::Integer(i) => Some(i),
                Literal::String(_) => old(self).last_value,
            },
    {
        if let Literal::Integer(i) = lit {
            self.last_value = Some(*i);
        }
    }
}

/// The operators compute what arithmetic on integers gives, when the result
/// fits in an `isize`; otherwise, and for the comparisons, there is no value.
/// Division truncates towards zero: the remainder is smaller than the
/// divisor and has the sign of the dividend.
pub proof fn law_operator_meaning(op: BinOp, l: isize, r: isize)
    ensures
        spec_apply(BinOp::Add, l, r) == if isize::MIN <= l + r <= isize::MAX { Some((l + r) as isize) } else { None::<isize> },
        spec_apply(BinOp::Sub, l, r) == if isize::MIN <= l - r <= isize::MAX { Some((l - r) as isize) } else { None::<isize> },
        spec_apply(BinOp::Mul, l, r) == if isize::MIN <= l * r <= isize::MAX { Some((l * r) as isize) } else { None::<isize> },
        r == 0 ==> spec_apply(BinOp::Div, l, r) is None,
        spec_apply(BinOp::Div, l, r) matches Some(q) ==> {
            let m = l - q * r;
            &&& r != 0
            &&& -(r as int) < m < r as int || (r as int) < m < -(r as int)
            &&& (m == 0 || (m < 0) == (l < 0))
        },
        (op != BinOp::Add && op != BinOp::Sub && op != BinOp::Mul && op != BinOp::Div) ==> spec_apply(op, l, r) is None,
{
    if spec_apply(BinOp::Div, l, r) is Some {
        let q = spec_apply(BinOp::Div, l, r)->Some_0;
        let x = l as int;
        let d = r as int;
        let m = x - q * d;
        if x == 0 {
            assert(q == 0);
            assert(m == 0);
        } else if x > 0 && d > 0 {
            assert(q == x / d);
            assert(0 <= x - (x / d) * d < d) by (nonlinear_arith) requires x > 0, d > 0;
        } else if x < 0 && d < 0 {
            assert(q == (-x) / (-d));
            assert(0 <= (-x) - ((-x) / (-d)) * (-d) < -d) by (nonlinear_arith) requires x < 0, d < 0;
            assert(x - q * d == -((-x) - q * (-d))) by (nonlinear_arith);
        } else if x < 0 {
            assert(q == ((-x) / d) * -1);
            assert(0 <= (-x) - ((-x) / d) * d < d) by (nonlinear_arith) requires x < 0, d > 0;
            assert(x - q * d == -((-x) - ((-x) / d) * d)) by (nonlinear_arith) requires q == ((-x) / d) * -1;
        } else {
            assert(q == (x / (-d)) * -1);
            assert(0 <= x - (x / (-d)) * (-d) < -d) by (nonlinear_arith) requires x > 0, d < 0;
            assert(x - q * d == x - (x / (-d)) * (-d)) by (nonlinear_arith) requires q == (x / (-d)) * -1;
        }
        assert(-d < m < d || d < m < -d);
        assert(m == 0 || (m < 0) == (x < 0));
    }
}

} // verus!
