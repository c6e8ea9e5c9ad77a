//! The syntax tree with definitions and variables in the form that binding
//! fills in: `let` and assignment become one kind of definition.
use vstd::prelude::*;

use crate::parser::ast::{Ast, Binary, If, Literal, Unary, While};
use crate::parser::ptr::P;

verus! {

pub enum BoundAst {
    Definition(Definition),
    Variable(Variable),
    Sequence(Sequence),
    If(If),
    While(While),
    Binary(Binary),
    Unary(Unary),
    Literal(Literal),
    Error,
}

pub struct Sequence {
    pub statements: Vec<BoundAst>,
}

pub struct Definition {
    pub id: usize,
    pub pattern: Pattern,
    pub value: P<BoundAst>,
    pub uses: usize,
}

pub struct Variable {
    pub pattern: String,
    pub definition: usize,
}

pub struct Pattern {
    pub name: String,
}

/// `b` is `a` in bound form: statements and definition values converted in
/// turn, definitions and variables with id, uses and link zero, and the other
/// nodes carried over as they are.
pub open spec fn binds(a: Ast, b: BoundAst) -> bool
    decreases a,
{
    match a {
        Ast::Sequence(s) => b matches BoundAst::Sequence(t) && t.statements@.len() == s.statements@.len()
            && forall|i: int| 0 <= i < s.statements@.len() ==> {
                proof {
                    assert(decreases_to!(s.statements@ => s.statements@[i]));
                }
                binds(#[trigger] s.statements@[i], t.statements@[i])
            },
        Ast::Let(d) => b matches BoundAst::Definition(e) && e.id == 0 && e.uses == 0
            && e.pattern.name == d.pattern.name && binds(*d.value.ptr, *e.value.ptr),
        Ast::Assignment(d) => b matches BoundAst::Definition(e) && e.id == 0 && e.uses == 0
            && e.pattern.name == d.pattern.name && binds(*d.value.ptr, *e.value.ptr),
        Ast::Variable(v) => b matches BoundAst::Variable(w) && w.pattern == v.pattern && w.definition == 0,
        Ast::If(i) => b == BoundAst::If(i),
        Ast::While(w) => b == BoundAst::While(w),
        Ast::Binary(x) => b == BoundAst::Binary(x),
        Ast::Unary(u) => b == BoundAst::Unary(u),
        Ast::Literal(l) => b == BoundAst::Literal(l),
        Ast::Error => b is Error,
    }
}

impl Ast {
    /// Converts the tree into bound form.
    pub fn into_bound(self) -> (b: BoundAst)
        ensures
            binds(self, b),
        decreases self,
    {
        let ghost a0 = self;
        match self {
            Ast::Sequence(seq) => {
                let ghost sv = seq;
                let ghost orig = seq.statements@;
                let mut rest = seq.statements;
                let mut out: Vec<BoundAst> = Vec::new();
                while rest.len() > 0
                    invariant
                        a0 == self,
                        a0 == Ast::Sequence(sv),
                        orig == sv.statements@,
                        out@.len() <= orig.len(),
                        rest@ == orig.subrange(out@.len() as int, orig.len() as int),
                        forall|j: int| 0 <= j < out@.len() ==> binds(#[trigger] orig[j], out@[j]),
                    decreases rest@.len(),
                {
                    let stmt = rest.remove(0);
                    let ghost k = out@.len() as int;
                    proof {
                        assert(stmt == orig[k]);
                        assert(decreases_to!(a0 => a0->Sequence_0));
                        assert(a0->Sequence_0 == sv);
                        assert(decreases_to!(sv => sv.statements));
                        assert(decreases_to!(sv.statements => sv.statements@));
                        assert(decreases_to!(sv.statements@ => orig[k]));
                    }
                    let b = stmt.into_bound();
                    out.push(b);
                    proof {
                        assert(rest@ =~= orig.subrange(out@.len() as int, orig.len() as int));
                    }
                }
                BoundAst::Sequence(Sequence { statements: out })
            },
            Ast::Let(def) => {
                let value = def.value.into_inner().into_bound();
                BoundAst::Definition(Definition { id: 0, pattern: Pattern { name: def.pattern.name }, value: P(value), uses: 0 })
            },
            Ast::Assignment(def) => {
                let value = def.value.into_inner().into_bound();
                BoundAst::Definition(Definition { id: 0, pattern: Pattern { name: def.pattern.name }, value: P(value), uses: 0 })
            },
            Ast::Variable(var) => BoundAst::Variable(Variable { pattern: var.pattern, definition: 0 }),
            Ast::Binary(bin) => BoundAst::Binary(bin),
            Ast::Unary(un) => BoundAst::Unary(un),
            Ast::If(if_expr) => BoundAst::If(if_expr),
            Ast::While(while_expr) => BoundAst::While(while_expr),
            Ast::Literal(lit) => BoundAst::Literal(lit),
            Ast::Error => BoundAst::Error,
        }
    }
}

} // verus!
