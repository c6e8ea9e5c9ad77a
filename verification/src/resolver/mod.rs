//! Name resolution: links every variable to the definition it refers to and
//! checks that symbols are declared before use.
//!
//! Each sequence opens a scope. A `let` or an assignment first resolves its
//! value, then records a new definition and declares it in the innermost
//! scope; a variable refers to the definition of its name in the innermost
//! scope that declares it.
//!
//! Scoping is strict: a `let` of a name that is already visible is reported
//! (`symbol_already_declared`) and declares nothing, as is an assignment to a
//! name that is not visible (`undeclared_assignment`). A variable whose name
//! is not visible is reported too (`undeclared_reference`), and once the whole
//! program is resolved, each definition that no variable uses is warned about.
use vstd::prelude::*;

use self::scope::Scope;
use crate::diagnostics::{diag_v, quoted, reported, DiagV, Diagnostic, DiagnosticBag, DiagnosticKind};
use crate::span::Span;
use crate::parser::ast::{Ast, BinOp, Binary, Definition, DefinitionId, If, Literal, LiteralKind, Pattern, Sequence, UnOp, Unary, Variable, While};
use crate::parser::grammar::{view_all, view_ast};
use crate::parser::extends;
use crate::parser::ptr::P;

pub mod bound_ast;
pub mod scope;

verus! {

/// What the resolver knows of a definition.
#[derive(Debug)]
pub struct DefinitionInfo {
    pub pattern: Pattern,
    /// The defined value, as resolved.
    pub value: P<Ast>,
    pub uses: u32,
}

pub struct NameResolver {
    pub diagnostics: DiagnosticBag,
    pub definitions: Vec<DefinitionInfo>,
    pub scopes: Vec<Scope>,
}

/// What the resolver holds, as values: the names declared in each open scope
/// (the innermost last), each definition's name, span and number of uses,
/// and the diagnostics.
#[verifier::ext_equal]
pub struct ResState {
    pub scopes: Seq<Map<Seq<char>, DefinitionId>>,
    pub defs: Seq<(Seq<char>, Span, u32)>,
    pub diags: Seq<DiagV>,
}

pub open spec fn def_view(d: DefinitionInfo) -> (Seq<char>, Span, u32) {
    (d.pattern.name@, d.pattern.span, d.uses)
}

/// A resolved syntax tree as values: definitions with their ids, variables
/// with the definitions they refer to.
pub enum RV {
    Sequence(Seq<RV>),
    Let(Option<DefinitionId>, Seq<char>, Box<RV>),
    Assignment(Option<DefinitionId>, Seq<char>, Box<RV>),
    If(Box<RV>, Box<RV>),
    While(Box<RV>, Box<RV>),
    Binary(BinOp, Box<RV>, Box<RV>),
    Unary(UnOp, Box<RV>),
    Int(u64),
    Str(Seq<char>),
    Variable(Seq<char>, Option<DefinitionId>),
    Error,
}

pub open spec fn resolved_view(a: Ast) -> RV
    decreases a,
{
    match a {
        Ast::Sequence(s) => RV::Sequence(resolved_all(s.statements@)),
        Ast::Let(d) => RV::Let(d.id, d.pattern.name@, Box::new(resolved_view(*d.value.ptr))),
        Ast::Assignment(d) => RV::Assignment(d.id, d.pattern.name@, Box::new(resolved_view(*d.value.ptr))),
        Ast::If(i) => RV::If(Box::new(resolved_view(*i.condition.ptr)), Box::new(resolved_view(*i.body.ptr))),
        Ast::While(w) => RV::While(Box::new(resolved_view(*w.condition.ptr)), Box::new(resolved_view(*w.body.ptr))),
        Ast::Binary(b) => RV::Binary(b.op, Box::new(resolved_view(*b.left.ptr)), Box::new(resolved_view(*b.right.ptr))),
        Ast::Unary(u) => RV::Unary(u.op, Box::new(resolved_view(*u.operand.ptr))),
        Ast::Literal(l) => match l.kind {
            LiteralKind::Int(v) => RV::Int(v),
            LiteralKind::String(t) => RV::Str(t@),
        },
        Ast::Variable(v) => RV::Variable(v.pattern@, v.definition),
        Ast::Error => RV::Error,
    }
}

pub open spec fn resolved_all(stmts: Seq<Ast>) -> Seq<RV>
    decreases stmts,
{
    if stmts.len() == 0 {
        Seq::empty()
    } else {
        proof {
            assert(decreases_to!(stmts => stmts.drop_last()));
        }
        resolved_all(stmts.drop_last()).push(resolved_view(stmts.last()))
    }
}

/// The definition `name` refers to in scopes given as maps: its entry in the
/// innermost one that declares it.
pub open spec fn innermost_in(scopes: Seq<Map<Seq<char>, DefinitionId>>, name: Seq<char>) -> Option<DefinitionId>
    decreases scopes.len(),
{
    if scopes.len() == 0 {
        None
    } else if scopes.last().contains_key(name) {
        Some(scopes.last()[name])
    } else {
        innermost_in(scopes.drop_last(), name)
    }
}

/// One more use, saturating at `u32::MAX`.
pub open spec fn one_more(n: u32) -> u32 {
    if n == u32::MAX { n } else { (n + 1) as u32 }
}

/// Resolving a node: the state afterwards and the resolved tree.
pub open spec fn res_define(st: ResState, a: Ast) -> (ResState, RV)
    decreases a,
{
    match a {
        Ast::Sequence(s) => {
            proof {
                assert(decreases_to!(a => a->Sequence_0));
                assert(decreases_to!(s => s.statements));
                assert(decreases_to!(s.statements => s.statements@));
            }
            let st1 = ResState { scopes: st.scopes.push(Map::empty()), ..st };
            let (st2, vs) = res_define_all(st1, s.statements@);
            (ResState { scopes: st2.scopes.drop_last(), ..st2 }, RV::Sequence(vs))
        },
        Ast::Let(d) => {
            let (st1, v) = res_define(st, *d.value.ptr);
            let name = d.pattern.name@;
            if innermost_in(st1.scopes, name) is Some {
                (ResState {
                    diags: st1.diags.push((DiagnosticKind::Error, "symbol: "@ + quoted(name) + " already exists in scope"@, d.pattern.span)),
                    ..st1
                }, RV::Let(None, name, Box::new(v)))
            } else {
                let id = st1.defs.len() as DefinitionId;
                (ResState {
                    defs: st1.defs.push((name, d.pattern.span, 0u32)),
                    scopes: st1.scopes.update(st1.scopes.len() - 1, st1.scopes.last().insert(name, id)),
                    ..st1
                }, RV::Let(Some(id), name, Box::new(v)))
            }
        },
        Ast::Assignment(d) => {
            let (st1, v) = res_define(st, *d.value.ptr);
            let name = d.pattern.name@;
            if innermost_in(st1.scopes, name) is None {
                (ResState {
                    diags: st1.diags.push((DiagnosticKind::Error, "undeclared symbol: "@ + quoted(name) + ""@, d.pattern.span)),
                    ..st1
                }, RV::Assignment(None, name, Box::new(v)))
            } else {
                let id = st1.defs.len() as DefinitionId;
                (ResState {
                    defs: st1.defs.push((name, d.pattern.span, 0u32)),
                    scopes: st1.scopes.update(st1.scopes.len() - 1, st1.scopes.last().insert(name, id)),
                    ..st1
                }, RV::Assignment(Some(id), name, Box::new(v)))
            }
        },
        Ast::If(i) => {
            let (st1, c) = res_define(st, *i.condition.ptr);
            let (st2, b) = res_define(st1, *i.body.ptr);
            (st2, RV::If(Box::new(c), Box::new(b)))
        },
        Ast::While(w) => {
            let (st1, c) = res_define(st, *w.condition.ptr);
            let (st2, b) = res_define(st1, *w.body.ptr);
            (st2, RV::While(Box::new(c), Box::new(b)))
        },
        Ast::Binary(b) => {
            let (st1, l) = res_define(st, *b.left.ptr);
            let (st2, r) = res_define(st1, *b.right.ptr);
            (st2, RV::Binary(b.op, Box::new(l), Box::new(r)))
        },
        Ast::Unary(u) => {
            let (st1, o) = res_define(st, *u.operand.ptr);
            (st1, RV::Unary(u.op, Box::new(o)))
        },
        Ast::Variable(v) => match innermost_in(st.scopes, v.pattern@) {
            Some(id) => (ResState {
                defs: st.defs.update(id as int, (st.defs[id as int].0, st.defs[id as int].1, one_more(st.defs[id as int].2))),
                ..st
            }, RV::Variable(v.pattern@, Some(id))),
            None => (ResState {
                diags: st.diags.push((DiagnosticKind::Error, "symbol: "@ + quoted(v.pattern@) + " is never declared"@, v.span)),
                ..st
            }, RV::Variable(v.pattern@, None)),
        },
        _ => (st, resolved_view(a)),
    }
}

/// Resolving statements in order.
pub open spec fn res_define_all(st: ResState, stmts: Seq<Ast>) -> (ResState, Seq<RV>)
    decreases stmts,
{
    if stmts.len() == 0 {
        (st, Seq::empty())
    } else {
        proof {
            assert(decreases_to!(stmts => stmts.drop_last()));
            assert(decreases_to!(stmts => stmts.last()));
        }
        let (st1, vs) = res_define_all(st, stmts.drop_last());
        let (st2, v) = res_define(st1, stmts.last());
        (st2, vs.push(v))
    }
}

/// The warnings for the definitions that nothing uses, in order.
pub open spec fn unused_warnings(defs: Seq<(Seq<char>, Span, u32)>) -> Seq<(DiagnosticKind, Seq<char>, Span)>
    decreases defs.len(),
{
    if defs.len() == 0 {
        Seq::empty()
    } else {
        let d = defs.last();
        unused_warnings(defs.drop_last()) + if d.2 == 0 {
            seq![(DiagnosticKind::Warning, "unused variable: "@ + quoted(d.0), d.1)]
        } else {
            Seq::empty()
        }
    }
}

/// Every definition and every resolved variable in `a` refers to an entry
/// of `defs` with the same name.
pub open spec fn all_bound(a: Ast, defs: Seq<DefinitionInfo>) -> bool
    decreases a,
{
    match a {
        Ast::Sequence(s) => forall|i: int| 0 <= i < s.statements@.len() ==> {
            proof {
                assert(decreases_to!(s.statements@ => s.statements@[i]));
            }
            all_bound(#[trigger] s.statements@[i], defs)
        },
        Ast::Let(d) => (d.id is None || def_bound(d.id, d.pattern.name@, defs)) && all_bound(*d.value.ptr, defs),
        Ast::Assignment(d) => (d.id is None || def_bound(d.id, d.pattern.name@, defs)) && all_bound(*d.value.ptr, defs),
        Ast::If(i) => all_bound(*i.condition.ptr, defs) && all_bound(*i.body.ptr, defs),
        Ast::While(w) => all_bound(*w.condition.ptr, defs) && all_bound(*w.body.ptr, defs),
        Ast::Binary(b) => all_bound(*b.left.ptr, defs) && all_bound(*b.right.ptr, defs),
        Ast::Unary(u) => all_bound(*u.operand.ptr, defs),
        Ast::Variable(v) => v.definition is None || def_bound(v.definition, v.pattern@, defs),
        _ => true,
    }
}

/// `id` names an entry of `defs` whose name is `name`.
pub open spec fn def_bound(id: Option<DefinitionId>, name: Seq<char>, defs: Seq<DefinitionInfo>) -> bool {
    match id {
        Some(k) => 0 <= k < defs.len() && defs[k as int].pattern.name@ == name,
        None => false,
    }
}

/// `after` starts with the entries of `before`, names unchanged.
pub open spec fn defs_extend(before: Seq<DefinitionInfo>, after: Seq<DefinitionInfo>) -> bool {
    &&& before.len() <= after.len()
    &&& forall|i: int| 0 <= i < before.len() ==> (#[trigger] after[i]).pattern.name@ == before[i].pattern.name@
}

pub proof fn lemma_all_bound_extend(a: Ast, d1: Seq<DefinitionInfo>, d2: Seq<DefinitionInfo>)
    requires
        all_bound(a, d1),
        defs_extend(d1, d2),
    ensures
        all_bound(a, d2),
    decreases a,
{
    match a {
        Ast::Sequence(s) => {
            assert forall|i: int| 0 <= i < s.statements@.len() implies all_bound(#[trigger] s.statements@[i], d2) by {
                assert(decreases_to!(s.statements@ => s.statements@[i]));
                lemma_all_bound_extend(s.statements@[i], d1, d2);
            }
        },
        Ast::Let(d) => lemma_all_bound_extend(*d.value.ptr, d1, d2),
        Ast::Assignment(d) => lemma_all_bound_extend(*d.value.ptr, d1, d2),
        Ast::If(i) => {
            lemma_all_bound_extend(*i.condition.ptr, d1, d2);
            lemma_all_bound_extend(*i.body.ptr, d1, d2);
        },
        Ast::While(w) => {
            lemma_all_bound_extend(*w.condition.ptr, d1, d2);
            lemma_all_bound_extend(*w.body.ptr, d1, d2);
        },
        Ast::Binary(b) => {
            lemma_all_bound_extend(*b.left.ptr, d1, d2);
            lemma_all_bound_extend(*b.right.ptr, d1, d2);
        },
        Ast::Unary(u) => lemma_all_bound_extend(*u.operand.ptr, d1, d2),
        _ => {},
    }
}

/// `b` is `a` with, at most, definition ids and variable links filled in.
pub open spec fn same_shape(a: Ast, b: Ast) -> bool
    decreases a,
{
    match a {
        Ast::Sequence(s) => b matches Ast::Sequence(t) && t.span == s.span
            && t.statements@.len() == s.statements@.len()
            && forall|i: int| 0 <= i < s.statements@.len() ==> {
                proof {
                    assert(decreases_to!(s.statements@ => s.statements@[i]));
                }
                same_shape(#[trigger] s.statements@[i], t.statements@[i])
            },
        Ast::Let(d) => b matches Ast::Let(e) && e.pattern == d.pattern && e.span == d.span
            && same_shape(*d.value.ptr, *e.value.ptr),
        Ast::Assignment(d) => b matches Ast::Assignment(e) && e.pattern == d.pattern && e.span == d.span
            && same_shape(*d.value.ptr, *e.value.ptr),
        Ast::If(i) => b matches Ast::If(j) && j.span == i.span
            && same_shape(*i.condition.ptr, *j.condition.ptr) && same_shape(*i.body.ptr, *j.body.ptr),
        Ast::While(w) => b matches Ast::While(x) && x.span == w.span
            && same_shape(*w.condition.ptr, *x.condition.ptr) && same_shape(*w.body.ptr, *x.body.ptr),
        Ast::Binary(l) => b matches Ast::Binary(m) && m.op == l.op && m.span == l.span
            && same_shape(*l.left.ptr, *m.left.ptr) && same_shape(*l.right.ptr, *m.right.ptr),
        Ast::Unary(u) => b matches Ast::Unary(v) && v.op == u.op && v.span == u.span
            && same_shape(*u.operand.ptr, *v.operand.ptr),
        Ast::Variable(v) => b matches Ast::Variable(w) && w.pattern == v.pattern && w.span == v.span,
        Ast::Literal(_) => b == a,
        Ast::Error => b is Error,
    }
}

/// Every name declared in `scopes` is mapped to an entry of `defs` with that name.
pub open spec fn scopes_ok(scopes: Seq<Scope>, defs: Seq<DefinitionInfo>) -> bool {
    forall|i: int, n: Seq<char>| #![trigger scopes[i].variables@[n]]
        0 <= i < scopes.len() && scopes[i].variables@.contains_key(n)
            ==> scopes[i].variables@[n] < defs.len()
            && defs[scopes[i].variables@[n] as int].pattern.name@ == n
}

/// The definition `name` refers to: its entry in the innermost scope that declares it.
pub open spec fn innermost(scopes: Seq<Scope>, name: Seq<char>) -> Option<DefinitionId>
    decreases scopes.len(),
{
    if scopes.len() == 0 {
        None
    } else if scopes.last().variables@.contains_key(name) {
        Some(scopes.last().variables@[name])
    } else {
        innermost(scopes.drop_last(), name)
    }
}

pub proof fn lemma_innermost_ok(scopes: Seq<Scope>, defs: Seq<DefinitionInfo>, name: Seq<char>)
    requires
        scopes_ok(scopes, defs),
    ensures
        innermost(scopes, name) matches Some(id) ==> id < defs.len() && defs[id as int].pattern.name@ == name,
    decreases scopes.len(),
{
    if scopes.len() > 0 {
        if scopes.last().variables@.contains_key(name) {
            assert(scopes[scopes.len() - 1].variables@[name] < defs.len());
        } else {
            let s2 = scopes.drop_last();
            assert forall|i: int, n: Seq<char>| #![trigger s2[i].variables@[n]]
                0 <= i < s2.len() && s2[i].variables@.contains_key(n)
                implies s2[i].variables@[n] < defs.len() && defs[s2[i].variables@[n] as int].pattern.name@ == n by {
                assert(s2[i] == scopes[i]);
                assert(scopes[i].variables@[n] < defs.len());
            }
            lemma_innermost_ok(s2, defs, name);
        }
    }
}

/// The innermost declaration among the first `k + 1` scopes is that of scope `k`, if it has one.
pub proof fn lemma_innermost_take(scopes: Seq<Scope>, k: int, name: Seq<char>)
    requires
        0 <= k < scopes.len(),
    ensures
        innermost(scopes.take(k + 1), name) == if scopes[k].variables@.contains_key(name) {
            Some(scopes[k].variables@[name])
        } else {
            innermost(scopes.take(k), name)
        },
{
    assert(scopes.take(k + 1).drop_last() =~= scopes.take(k));
    assert(scopes.take(k + 1).last() == scopes[k]);
}

/// A name just declared in the innermost scope refers to that declaration.
pub proof fn law_lookup_after_define(before: Seq<Scope>, after: Seq<Scope>, name: Seq<char>, id: DefinitionId)
    requires
        before.len() > 0,
        after.len() == before.len(),
        after.drop_last() == before.drop_last(),
        after.last().variables@ == before.last().variables@.insert(name, id),
    ensures
        innermost(after, name) == Some(id),
{
}

/// Strict scoping: a `let` of a name that an open scope already declares
/// (once its value is resolved) defines nothing, leaves the scopes as they
/// are and reports that the symbol exists.
pub proof fn law_no_shadowing(st: ResState, d: Definition)
    requires
        innermost_in(res_define(st, *d.value.ptr).0.scopes, d.pattern.name@) is Some,
    ensures
        ({
            let after_value = res_define(st, *d.value.ptr).0;
            let after = res_define(st, Ast::Let(d)).0;
            &&& after.defs == after_value.defs
            &&& after.scopes == after_value.scopes
            &&& after.diags == after_value.diags.push((DiagnosticKind::Error,
                "symbol: "@ + quoted(d.pattern.name@) + " already exists in scope"@, d.pattern.span))
            &&& res_define(st, Ast::Let(d)).1 matches RV::Let(None, _, _)
        }),
{
}

/// The state after `define_symbol` of each definition of `defs` in turn:
/// each one is recorded under the next id and declared in the innermost scope.
pub open spec fn define_all(st: ResState, defs: Seq<(Seq<char>, Span, u32)>) -> ResState
    decreases defs.len(),
{
    if defs.len() == 0 {
        st
    } else {
        let s = define_all(st, defs.drop_last());
        ResState {
            defs: s.defs.push(defs.last()),
            scopes: s.scopes.update(s.scopes.len() - 1, s.scopes.last().insert(defs.last().0, s.defs.len() as DefinitionId)),
            ..s
        }
    }
}

proof fn lemma_define_all_len(st: ResState, defs: Seq<(Seq<char>, Span, u32)>)
    requires
        st.scopes.len() > 0,
    ensures
        define_all(st, defs).scopes.len() == st.scopes.len(),
    decreases defs.len(),
{
    if defs.len() > 0 {
        lemma_define_all_len(st, defs.drop_last());
    }
}

/// `push_scope`, then `define_symbol` any number of times, then `pop_scope`:
/// the scopes are those from before, so every name refers to what it
/// referred to before; the definitions made in between stay recorded after
/// the earlier ones, and no diagnostic is added.
pub proof fn law_scope_round_trip(st: ResState, defs: Seq<(Seq<char>, Span, u32)>, name: Seq<char>)
    ensures
        ({
            let inside = define_all(ResState { scopes: st.scopes.push(Map::empty()), ..st }, defs);
            &&& inside.scopes.drop_last() == st.scopes
            &&& innermost_in(inside.scopes.drop_last(), name) == innermost_in(st.scopes, name)
            &&& inside.defs == st.defs + defs
            &&& inside.diags == st.diags
        }),
    decreases defs.len(),
{
    let pushed = ResState { scopes: st.scopes.push(Map::empty()), ..st };
    if defs.len() == 0 {
        assert(st.scopes.push(Map::empty()).drop_last() =~= st.scopes);
        assert(st.defs + defs =~= st.defs);
    } else {
        law_scope_round_trip(st, defs.drop_last(), name);
        let s = define_all(pushed, defs.drop_last());
        lemma_define_all_len(pushed, defs.drop_last());
        assert(s.scopes.update(s.scopes.len() - 1, s.scopes.last().insert(defs.last().0, s.defs.len() as DefinitionId)).drop_last()
            =~= s.scopes.drop_last());
        assert(st.defs + defs =~= (st.defs + defs.drop_last()).push(defs.last()));
    }
}

/// Closing a scope makes the names declared in it refer to what they
/// referred to before it was opened.
pub proof fn law_lookup_after_pop(outer: Seq<Scope>, inner: Scope, name: Seq<char>)
    ensures
        innermost(outer.push(inner), name) == if inner.variables@.contains_key(name) {
            Some(inner.variables@[name])
        } else {
            innermost(outer, name)
        },
{
    assert(outer.push(inner).drop_last() =~= outer);
}

proof fn lemma_reported_extends(before: Seq<Diagnostic>, after: Seq<Diagnostic>, kind: DiagnosticKind, message: Seq<char>, span: Span)
    requires
        reported(before, after, kind, message, span),
    ensures
        extends(before, after),
{
    assert forall|i: int| 0 <= i < before.len() implies #[trigger] after[i] == before[i] by {
        assert(after.drop_last()[i] == after[i]);
    }
}

proof fn lemma_innermost_in(scopes: Seq<Scope>, name: Seq<char>)
    ensures
        innermost(scopes, name) == innermost_in(scopes.map_values(|sc: Scope| sc.variables@), name),
    decreases scopes.len(),
{
    let maps = scopes.map_values(|sc: Scope| sc.variables@);
    if scopes.len() > 0 {
        assert(maps.last() == scopes.last().variables@);
        assert(maps.drop_last() =~= scopes.drop_last().map_values(|sc: Scope| sc.variables@));
        lemma_innermost_in(scopes.drop_last(), name);
    }
}

proof fn lemma_diags_reported(before: Seq<Diagnostic>, after: Seq<Diagnostic>, kind: DiagnosticKind, message: Seq<char>, span: Span)
    requires
        reported(before, after, kind, message, span),
    ensures
        after.map_values(|d: Diagnostic| diag_v(d)) == before.map_values(|d: Diagnostic| diag_v(d)).push((kind, message, span)),
{
    assert(after.map_values(|d: Diagnostic| diag_v(d)) =~= before.map_values(|d: Diagnostic| diag_v(d)).push((kind, message, span))) by {
        assert forall|i: int| 0 <= i < before.len() implies after[i] == before[i] by {
            assert(after.drop_last()[i] == after[i]);
        }
    }
}

proof fn lemma_resolved_all_push(v: Seq<Ast>, x: Ast)
    ensures
        resolved_all(v.push(x)) == resolved_all(v).push(resolved_view(x)),
{
    assert(v.push(x).drop_last() =~= v);
}

/// Statements with the same views one by one have the same views together.
proof fn lemma_views_pointwise(a: Seq<Ast>, b: Seq<Ast>)
    requires
        a.len() == b.len(),
        forall|i: int| 0 <= i < a.len() ==> view_ast(#[trigger] a[i]) == view_ast(b[i]) && resolved_view(a[i]) == resolved_view(b[i]),
    ensures
        view_all(a) == view_all(b),
        resolved_all(a) == resolved_all(b),
    decreases a.len(),
{
    if a.len() > 0 {
        lemma_views_pointwise(a.drop_last(), b.drop_last());
        assert(view_ast(a[a.len() - 1]) == view_ast(b[b.len() - 1]));
    }
}

/// A copy of a tree: the same values, spans, ids and links.
pub fn clone_ast(a: &Ast) -> (r: Ast)
    ensures
        view_ast(r) == view_ast(*a),
        resolved_view(r) == resolved_view(*a),
    decreases a, 1nat,
{
    match a {
        Ast::Sequence(s) => Ast::Sequence(clone_sequence(s)),
        Ast::Let(d) => Ast::Let(clone_definition(d)),
        Ast::Assignment(d) => Ast::Assignment(clone_definition(d)),
        Ast::If(i) => Ast::If(If { condition: P(clone_ast(&i.condition.ptr)), body: P(clone_ast(&i.body.ptr)), span: i.span }),
        Ast::While(w) => Ast::While(While { condition: P(clone_ast(&w.condition.ptr)), body: P(clone_ast(&w.body.ptr)), span: w.span }),
        Ast::Binary(b) => Ast::Binary(Binary { op: b.op, left: P(clone_ast(&b.left.ptr)), right: P(clone_ast(&b.right.ptr)), span: b.span }),
        Ast::Unary(u) => Ast::Unary(Unary { op: u.op, operand: P(clone_ast(&u.operand.ptr)), span: u.span }),
        Ast::Literal(l) => Ast::Literal(Literal {
            kind: match &l.kind {
                LiteralKind::Int(v) => LiteralKind::Int(*v),
                LiteralKind::String(t) => LiteralKind::String(t.clone()),
            },
            span: l.span,
        }),
        Ast::Variable(v) => Ast::Variable(Variable { pattern: v.pattern.clone(), definition: v.definition, span: v.span }),
        Ast::Error => Ast::Error,
    }
}

fn clone_definition(d: &Definition) -> (r: Definition)
    ensures
        view_ast(Ast::Let(r)) == view_ast(Ast::Let(*d)),
        resolved_view(Ast::Let(r)) == resolved_view(Ast::Let(*d)),
        view_ast(Ast::Assignment(r)) == view_ast(Ast::Assignment(*d)),
        resolved_view(Ast::Assignment(r)) == resolved_view(Ast::Assignment(*d)),
    decreases d, 0nat,
{
    Definition { id: d.id, pattern: clone_pattern(&d.pattern), value: P(clone_ast(&d.value.ptr)), span: d.span }
}

fn clone_sequence(s: &Sequence) -> (r: Sequence)
    ensures
        view_ast(Ast::Sequence(r)) == view_ast(Ast::Sequence(*s)),
        resolved_view(Ast::Sequence(r)) == resolved_view(Ast::Sequence(*s)),
    decreases s, 0nat,
{
    let mut out: Vec<Ast> = Vec::new();
    let mut i: usize = 0;
    while i < s.statements.len()
        invariant
            i <= s.statements@.len(),
            out@.len() == i,
            forall|j: int| 0 <= j < i ==> view_ast(#[trigger] out@[j]) == view_ast(s.statements@[j])
                && resolved_view(out@[j]) == resolved_view(s.statements@[j]),
        decreases s.statements.len() - i,
    {
        proof {
            assert(decreases_to!(s => s.statements));
            assert(decreases_to!(s.statements => s.statements@));
            assert(decreases_to!(s.statements@ => s.statements@[i as int]));
        }
        let c = clone_ast(&s.statements[i]);
        out.push(c);
        i = i + 1;
    }
    proof {
        lemma_views_pointwise(out@, s.statements@);
    }
    Sequence { statements: out, span: s.span }
}

/// Copies a pattern.
pub fn clone_pattern(p: &Pattern) -> (q: Pattern)
    ensures
        q.name@ == p.name@,
        q.span == p.span,
{
    Pattern { name: p.name.clone(), span: p.span }
}

/// A node that name resolution walks.
pub trait ResolveVisitor: Sized {
    /// Whether resolving the node needs an open scope to declare in (all but
    /// a sequence, which opens its own).
    spec fn needs_open_scope(&self) -> bool;

    /// Resolves the node in place, as `NameResolver::define` does.
    fn define(&mut self, resolver: &mut NameResolver)
        requires
            old(resolver).wf(),
            old(self).needs_open_scope() ==> old(resolver).scopes@.len() > 0,
        ensures
            final(resolver).wf(),
            final(resolver).scopes@.len() == old(resolver).scopes@.len();
}

impl ResolveVisitor for Ast {
    open spec fn needs_open_scope(&self) -> bool {
        !(*self is Sequence)
    }

    fn define(&mut self, resolver: &mut NameResolver)
        ensures
            (final(resolver).state(), resolved_view(*final(self))) == res_define(old(resolver).state(), *old(self)),
    {
        let mut node = Ast::Error;
        std::mem::swap(self, &mut node);
        *self = resolver.define(node);
    }
}

impl ResolveVisitor for Definition {
    open spec fn needs_open_scope(&self) -> bool {
        true
    }

    fn define(&mut self, resolver: &mut NameResolver)
        ensures
            (final(resolver).state(), resolved_view(Ast::Let(*final(self)))) == res_define(old(resolver).state(), Ast::Let(*old(self))),
    {
        let mut def = Definition { id: None, pattern: Pattern { name: String::new(), span: Span { start: 0, end: 0 } }, value: P(Ast::Error), span: Span { start: 0, end: 0 } };
        std::mem::swap(self, &mut def);
        match resolver.define(Ast::Let(def)) {
            Ast::Let(d) => {
                *self = d;
            },
            _ => {},
        }
    }
}

impl ResolveVisitor for Variable {
    open spec fn needs_open_scope(&self) -> bool {
        true
    }

    fn define(&mut self, resolver: &mut NameResolver)
        ensures
            (final(resolver).state(), resolved_view(Ast::Variable(*final(self)))) == res_define(old(resolver).state(), Ast::Variable(*old(self))),
    {
        let mut var = Variable { pattern: String::new(), definition: None, span: Span { start: 0, end: 0 } };
        std::mem::swap(self, &mut var);
        match resolver.define(Ast::Variable(var)) {
            Ast::Variable(v) => {
                *self = v;
            },
            _ => {},
        }
    }
}

impl NameResolver {
    /// The resolver's invariant: every scope maps names to existing definitions.
    pub open spec fn wf(&self) -> bool {
        scopes_ok(self.scopes@, self.definitions@)
    }

    /// What the resolver holds, as values.
    pub open spec fn state(&self) -> ResState {
        ResState {
            scopes: self.scopes@.map_values(|sc: Scope| sc.variables@),
            defs: self.definitions@.map_values(|d: DefinitionInfo| def_view(d)),
            diags: self.diagnostics.diagnostics@.map_values(|d: Diagnostic| diag_v(d)),
        }
    }

    pub fn new(diagnostics: DiagnosticBag) -> (r: NameResolver)
        ensures
            r.wf(),
            r.diagnostics == diagnostics,
            r.definitions@.len() == 0,
            r.scopes@.len() == 0,
    {
        NameResolver { diagnostics, definitions: Vec::new(), scopes: Vec::new() }
    }

    /// Resolves a program (a sequence) and then warns about unused definitions.
    pub fn resolve(&mut self, ast: &mut Ast)
        requires
            old(self).wf(),
            *old(ast) is Sequence || old(self).scopes@.len() > 0,
        ensures
            final(self).wf(),
            same_shape(*old(ast), *final(ast)),
            all_bound(*final(ast), final(self).definitions@),
            defs_extend(old(self).definitions@, final(self).definitions@),
            extends(old(self).diagnostics.diagnostics@, final(self).diagnostics.diagnostics@),
            ({
                let (st, rv) = res_define(old(self).state(), *old(ast));
                &&& resolved_view(*final(ast)) == rv
                &&& final(self).state() == (ResState { diags: st.diags + unused_warnings(st.defs), ..st })
            }),
    {
        let mut tmp = Ast::Error;
        std::mem::swap(ast, &mut tmp);
        *ast = self.define(tmp);
        let ghost defs = self.definitions@;
        self.check_references();
        proof {
            lemma_all_bound_extend(*ast, defs, self.definitions@);
        }
    }

    /// Resolves one node: a sequence opens a scope for its statements, a
    /// definition resolves its value and is then recorded and declared in the
    /// innermost scope (or reported), and a variable is linked to the innermost
    /// declaration of its name (counting one more use of it), or reported.
    pub fn define(&mut self, a: Ast) -> (r: Ast)
        requires
            old(self).wf(),
            a is Sequence || old(self).scopes@.len() > 0,
        ensures
            final(self).wf(),
            final(self).scopes@.len() == old(self).scopes@.len(),
            forall|i: int| 0 <= i < old(self).scopes@.len() - 1 ==> final(self).scopes@[i] == old(self).scopes@[i],
            a is Sequence ==> final(self).scopes@ == old(self).scopes@,
            (final(self).state(), resolved_view(r)) == res_define(old(self).state(), a),
            same_shape(a, r),
            all_bound(r, final(self).definitions@),
            defs_extend(old(self).definitions@, final(self).definitions@),
            extends(old(self).diagnostics.diagnostics@, final(self).diagnostics.diagnostics@),
            a matches Ast::Let(d) ==> r matches Ast::Let(e) && match e.id {
                Some(id) => id + 1 == final(self).definitions@.len()
                    && innermost(final(self).scopes@, d.pattern.name@) == Some(id)
                    && view_ast(*final(self).definitions@[id as int].value.ptr) == view_ast(*e.value.ptr)
                    && resolved_view(*final(self).definitions@[id as int].value.ptr) == resolved_view(*e.value.ptr),
                None => final(self).diagnostics.diagnostics@.len() > 0
                    && final(self).diagnostics.diagnostics@.last().message@ == "symbol: "@ + quoted(d.pattern.name@) + " already exists in scope"@,
            },
            a matches Ast::Assignment(d) ==> r matches Ast::Assignment(e) && match e.id {
                Some(id) => id + 1 == final(self).definitions@.len()
                    && innermost(final(self).scopes@, d.pattern.name@) == Some(id)
                    && view_ast(*final(self).definitions@[id as int].value.ptr) == view_ast(*e.value.ptr)
                    && resolved_view(*final(self).definitions@[id as int].value.ptr) == resolved_view(*e.value.ptr),
                None => final(self).diagnostics.diagnostics@.len() > 0
                    && final(self).diagnostics.diagnostics@.last().message@ == "undeclared symbol: "@ + quoted(d.pattern.name@) + ""@,
            },
            a matches Ast::Variable(v) ==> r matches Ast::Variable(w)
                && w.definition == innermost(old(self).scopes@, v.pattern@)
                && match w.definition {
                    Some(id) => final(self).definitions@[id as int].uses
                        == if old(self).definitions@[id as int].uses == u32::MAX { u32::MAX as int } else { old(self).definitions@[id as int].uses + 1 },
                    None => reported(old(self).diagnostics.diagnostics@, final(self).diagnostics.diagnostics@,
                        DiagnosticKind::Error, "symbol: "@ + quoted(v.pattern@) + " is never declared"@, v.span),
                },
        decreases a,
    {
        let ghost a0 = a;
        match a {
            Ast::Sequence(s) => {
                let ghost orig = s.statements@;
                let ghost sv = s;
                let Sequence { statements, span } = s;
                let mut rest = statements;
                let mut out: Vec<Ast> = Vec::new();
                let ghost st0 = self.state();
                self.push_scope();
                let ghost st1 = self.state();
                proof {
                    assert(orig.take(0) =~= Seq::<Ast>::empty());
                    assert(resolved_all(out@) =~= Seq::<RV>::empty());
                }
                while rest.len() > 0
                    invariant
                        a0 == a,
                        st1 == (ResState { scopes: st0.scopes.push(Map::empty()), ..st0 }),
                        st0 == old(self).state(),
                        (self.state(), resolved_all(out@)) == res_define_all(st1, orig.take(out@.len() as int)),
                        a0 == Ast::Sequence(sv),
                        orig == sv.statements@,
                        self.wf(),
                        self.scopes@.len() == old(self).scopes@.len() + 1,
                        self.scopes@.drop_last() == old(self).scopes@,
                        out@.len() <= orig.len(),
                        rest@ == orig.subrange(out@.len() as int, orig.len() as int),
                        forall|j: int| 0 <= j < out@.len() ==> same_shape(#[trigger] orig[j], out@[j]),
                        forall|j: int| 0 <= j < out@.len() ==> all_bound(#[trigger] out@[j], self.definitions@),
                        defs_extend(old(self).definitions@, self.definitions@),
                        extends(old(self).diagnostics.diagnostics@, self.diagnostics.diagnostics@),
                    decreases rest@.len(),
                {
                    let stmt = rest.remove(0);
                    let ghost k = out@.len() as int;
                    proof {
                        assert(stmt == orig[k]);
                        assert(a0 == Ast::Sequence(sv));
                        assert(decreases_to!(a0 => a0->Sequence_0));
                        assert(a0->Sequence_0 == sv);
                        assert(decreases_to!(sv => sv.statements));
                        assert(decreases_to!(sv.statements => sv.statements@));
                        assert(decreases_to!(sv.statements@ => orig[k]));
                        assert(decreases_to!(a0 => stmt));
                    }
                    let ghost before = self.definitions@;
                    let ghost scopes_before = self.scopes@;
                    let ghost diags_before = self.diagnostics.diagnostics@;
                    let ghost out_before = out@;
                    let r = self.define(stmt);
                    proof {
                        lemma_resolved_all_push(out_before, r);
                        assert(orig.take(k + 1).drop_last() =~= orig.take(k));
                        assert(orig.take(k + 1).last() == stmt);
                        assert forall|j: int| 0 <= j < out@.len() implies all_bound(#[trigger] out@[j], self.definitions@) by {
                            lemma_all_bound_extend(out@[j], before, self.definitions@);
                        }
                        assert(self.scopes@.drop_last() =~= old(self).scopes@) by {
                            assert forall|i: int| 0 <= i < old(self).scopes@.len() implies
                                self.scopes@[i] == old(self).scopes@[i] by {
                                assert(scopes_before[i] == old(self).scopes@[i]);
                            }
                        }
                    }
                    out.push(r);
                    proof {
                        assert(rest@ =~= orig.subrange(out@.len() as int, orig.len() as int));
                    }
                }
                proof {
                    assert(out@.len() == orig.len());
                    assert(orig.take(orig.len() as int) =~= orig);
                }
                self.pop_scope();
                Ast::Sequence(Sequence { statements: out, span })
            },
            Ast::Let(d) => {
                let Definition { id: _, pattern, value, span } = d;
                let v = self.define(value.into_inner());
                let ghost scopes1 = self.scopes@;
                let ghost diags1 = self.diagnostics.diagnostics@;
                match self.lookup_symbol(&pattern.name) {
                    Some(_) => {
                        self.diagnostics.symbol_already_declared(&pattern.name, &pattern.span);
                        proof {
                            lemma_reported_extends(diags1, self.diagnostics.diagnostics@, DiagnosticKind::Error,
                                "symbol: "@ + quoted(pattern.name@) + " already exists in scope"@, pattern.span);
                        }
                        Ast::Let(Definition { id: None, pattern, value: P(v), span })
                    },
                    None => {
                        let info = DefinitionInfo { pattern: clone_pattern(&pattern), value: P(clone_ast(&v)), uses: 0 };
                        let ghost defs1 = self.definitions@;
                        let id = self.define_symbol(&pattern.name, info);
                        proof {
                            assert forall|i: int| 0 <= i < old(self).scopes@.len() - 1 implies self.scopes@[i] == old(self).scopes@[i] by {
                                assert(self.scopes@.drop_last()[i] == scopes1.drop_last()[i]);
                                assert(scopes1[i] == old(self).scopes@[i]);
                            }
                            lemma_all_bound_extend(v, defs1, self.definitions@);
                        }
                        Ast::Let(Definition { id: Some(id), pattern, value: P(v), span })
                    },
                }
            },
            Ast::Assignment(d) => {
                let Definition { id: _, pattern, value, span } = d;
                let v = self.define(value.into_inner());
                let ghost scopes1 = self.scopes@;
                let ghost diags1 = self.diagnostics.diagnostics@;
                match self.lookup_symbol(&pattern.name) {
                    None => {
                        self.diagnostics.undeclared_assignment(&pattern.name, &pattern.span);
                        proof {
                            lemma_reported_extends(diags1, self.diagnostics.diagnostics@, DiagnosticKind::Error,
                                "undeclared symbol: "@ + quoted(pattern.name@) + ""@, pattern.span);
                        }
                        Ast::Assignment(Definition { id: None, pattern, value: P(v), span })
                    },
                    Some(_) => {
                        let info = DefinitionInfo { pattern: clone_pattern(&pattern), value: P(clone_ast(&v)), uses: 0 };
                        let ghost defs1 = self.definitions@;
                        let id = self.define_symbol(&pattern.name, info);
                        proof {
                            assert forall|i: int| 0 <= i < old(self).scopes@.len() - 1 implies self.scopes@[i] == old(self).scopes@[i] by {
                                assert(self.scopes@.drop_last()[i] == scopes1.drop_last()[i]);
                                assert(scopes1[i] == old(self).scopes@[i]);
                            }
                            lemma_all_bound_extend(v, defs1, self.definitions@);
                        }
                        Ast::Assignment(Definition { id: Some(id), pattern, value: P(v), span })
                    },
                }
            },
            Ast::If(i) => {
                let If { condition, body, span } = i;
                let c = self.define(condition.into_inner());
                let ghost defs1 = self.definitions@;
                let b = self.define(body.into_inner());
                proof {
                    lemma_all_bound_extend(c, defs1, self.definitions@);
                }
                Ast::If(If { condition: P(c), body: P(b), span })
            },
            Ast::While(w) => {
                let While { condition, body, span } = w;
                let c = self.define(condition.into_inner());
                let ghost defs1 = self.definitions@;
                let b = self.define(body.into_inner());
                proof {
                    lemma_all_bound_extend(c, defs1, self.definitions@);
                }
                Ast::While(While { condition: P(c), body: P(b), span })
            },
            Ast::Binary(bin) => {
                let Binary { op, left, right, span } = bin;
                let l = self.define(left.into_inner());
                let ghost defs1 = self.definitions@;
                let rr = self.define(right.into_inner());
                proof {
                    lemma_all_bound_extend(l, defs1, self.definitions@);
                }
                Ast::Binary(Binary { op, left: P(l), right: P(rr), span })
            },
            Ast::Unary(un) => {
                let Unary { op, operand, span } = un;
                let o = self.define(operand.into_inner());
                Ast::Unary(Unary { op, operand: P(o), span })
            },
            Ast::Variable(var) => {
                let Variable { pattern, definition: _, span } = var;
                match self.lookup_symbol(&pattern) {
                    Some(id) => {
                        let uses = self.definitions[id].uses;
                        self.definitions[id].uses = uses.saturating_add(1);
                        proof {
                            assert forall|i: int, n: Seq<char>| #![trigger self.scopes@[i].variables@[n]]
                                0 <= i < self.scopes@.len() && self.scopes@[i].variables@.contains_key(n)
                                implies self.scopes@[i].variables@[n] < self.definitions@.len()
                                && self.definitions@[self.scopes@[i].variables@[n] as int].pattern.name@ == n by {
                                assert(old(self).scopes@[i].variables@[n] < old(self).definitions@.len());
                            }
                        }
                        Ast::Variable(Variable { pattern, definition: Some(id), span })
                    },
                    None => {
                        self.diagnostics.undeclared_reference(&pattern, &span);
                        proof {
                            lemma_reported_extends(old(self).diagnostics.diagnostics@, self.diagnostics.diagnostics@,
                                DiagnosticKind::Error, "symbol: "@ + quoted(pattern@) + " is never declared"@, span);
                        }
                        Ast::Variable(Variable { pattern, definition: None, span })
                    },
                }
            },
            Ast::Literal(lit) => Ast::Literal(lit),
            Ast::Error => Ast::Error,
        }
    }

    /// Warns about every definition that no variable uses.
    pub fn check_references(&mut self)
        ensures
            final(self).definitions == old(self).definitions,
            final(self).scopes == old(self).scopes,
            extends(old(self).diagnostics.diagnostics@, final(self).diagnostics.diagnostics@),
            final(self).state() == (ResState {
                diags: old(self).state().diags + unused_warnings(old(self).state().defs),
                ..old(self).state()
            }),
    {
        let ghost d0 = old(self).state().diags;
        let ghost defs = old(self).state().defs;
        let mut i: usize = 0;
        proof {
            assert(defs.take(0) =~= Seq::<(Seq<char>, Span, u32)>::empty());
            assert(d0 + unused_warnings(defs.take(0)) =~= d0);
        }
        while i < self.definitions.len()
            invariant
                self.definitions == old(self).definitions,
                self.scopes == old(self).scopes,
                i <= self.definitions@.len(),
                extends(old(self).diagnostics.diagnostics@, self.diagnostics.diagnostics@),
                defs == self.state().defs,
                self.state().diags == d0 + unused_warnings(defs.take(i as int)),
            decreases self.definitions.len() - i,
        {
            proof {
                assert(defs.take(i + 1).drop_last() =~= defs.take(i as int));
                assert(defs.take(i + 1).last() == def_view(self.definitions@[i as int]));
            }
            if self.definitions[i].uses == 0 {
                let def = &self.definitions[i];
                let ghost d0v = self.diagnostics.diagnostics@;
                self.diagnostics.unused_variable(&def.pattern.name, &def.pattern.span);
                proof {
                    lemma_reported_extends(d0v, self.diagnostics.diagnostics@, DiagnosticKind::Warning,
                        "unused variable: "@ + quoted(def.pattern.name@), def.pattern.span);
                    lemma_diags_reported(d0v, self.diagnostics.diagnostics@, DiagnosticKind::Warning,
                        "unused variable: "@ + quoted(def.pattern.name@), def.pattern.span);
                    assert(self.state().diags =~= d0 + unused_warnings(defs.take(i + 1)));
                }
            } else {
                proof {
                    assert(self.state().diags =~= d0 + unused_warnings(defs.take(i + 1)));
                }
            }
            i = i + 1;
        }
        proof {
            assert(defs.take(i as int) =~= defs);
        }
    }

    /// Records a definition with no uses yet.
    pub fn push_definition(&mut self, def: &Definition)
        requires
            old(self).wf(),
        ensures
            final(self).wf(),
            final(self).definitions@.len() == old(self).definitions@.len() + 1,
            final(self).definitions@.drop_last() == old(self).definitions@,
            defs_extend(old(self).definitions@, final(self).definitions@),
            final(self).definitions@.last().pattern.name@ == def.pattern.name@,
            final(self).definitions@.last().pattern.span == def.pattern.span,
            view_ast(*final(self).definitions@.last().value.ptr) == view_ast(*def.value.ptr),
            resolved_view(*final(self).definitions@.last().value.ptr) == resolved_view(*def.value.ptr),
            final(self).definitions@.last().uses == 0,
            final(self).scopes == old(self).scopes,
            final(self).diagnostics == old(self).diagnostics,
    {
        let value = P(clone_ast(&def.value.ptr));
        self.definitions.push(DefinitionInfo { pattern: clone_pattern(&def.pattern), value, uses: 0 });
        proof {
            assert(self.definitions@.drop_last() =~= old(self).definitions@);
        }
    }

    /// Records the definition made by an assignment, with no uses yet.
    pub fn push_assignment(&mut self, def: &Definition)
        requires
            old(self).wf(),
        ensures
            final(self).wf(),
            final(self).definitions@.len() == old(self).definitions@.len() + 1,
            final(self).definitions@.drop_last() == old(self).definitions@,
            defs_extend(old(self).definitions@, final(self).definitions@),
            final(self).definitions@.last().pattern.name@ == def.pattern.name@,
            final(self).definitions@.last().pattern.span == def.pattern.span,
            view_ast(*final(self).definitions@.last().value.ptr) == view_ast(*def.value.ptr),
            resolved_view(*final(self).definitions@.last().value.ptr) == resolved_view(*def.value.ptr),
            final(self).definitions@.last().uses == 0,
            final(self).scopes == old(self).scopes,
            final(self).diagnostics == old(self).diagnostics,
    {
        self.push_definition(def);
    }

    /// Opens a new innermost scope.
    pub fn push_scope(&mut self)
        requires
            old(self).wf(),
        ensures
            final(self).wf(),
            final(self).scopes@.len() == old(self).scopes@.len() + 1,
            final(self).scopes@.drop_last() == old(self).scopes@,
            final(self).scopes@.last().variables@ == Map::<Seq<char>, DefinitionId>::empty(),
            final(self).definitions == old(self).definitions,
            final(self).diagnostics == old(self).diagnostics,
            final(self).state() == (ResState { scopes: old(self).state().scopes.push(Map::empty()), ..old(self).state() }),
    {
        self.scopes.push(Scope::new());
        proof {
            assert(self.scopes@.drop_last() =~= old(self).scopes@);
            assert(self.state().scopes =~= old(self).state().scopes.push(Map::empty()));
        }
    }

    /// Closes the innermost scope.
    pub fn pop_scope(&mut self)
        requires
            old(self).wf(),
        ensures
            final(self).wf(),
            final(self).scopes@ == if old(self).scopes@.len() > 0 { old(self).scopes@.drop_last() } else { old(self).scopes@ },
            final(self).definitions == old(self).definitions,
            final(self).diagnostics == old(self).diagnostics,
            old(self).scopes@.len() > 0 ==> final(self).state() == (ResState { scopes: old(self).state().scopes.drop_last(), ..old(self).state() }),
    {
        self.scopes.pop();
        proof {
            if old(self).scopes@.len() > 0 {
                assert(self.state().scopes =~= old(self).state().scopes.drop_last());
            }
        }
    }

    /// Records a definition and declares it in the innermost scope; returns its id.
    pub fn define_symbol(&mut self, name: &str, info: DefinitionInfo) -> (id: DefinitionId)
        requires
            old(self).wf(),
            old(self).scopes@.len() > 0,
            info.pattern.name@ == name@,
        ensures
            final(self).wf(),
            id == old(self).definitions@.len(),
            final(self).definitions@ == old(self).definitions@.push(info),
            final(self).scopes@.len() == old(self).scopes@.len(),
            final(self).scopes@.drop_last() == old(self).scopes@.drop_last(),
            final(self).scopes@.last().variables@ == old(self).scopes@.last().variables@.insert(name@, id),
            final(self).diagnostics == old(self).diagnostics,
            final(self).state() == (ResState {
                defs: old(self).state().defs.push(def_view(info)),
                scopes: old(self).state().scopes.update(old(self).state().scopes.len() - 1,
                    old(self).state().scopes.last().insert(name@, id)),
                ..old(self).state()
            }),
    {
        let id = self.definitions.len();
        self.definitions.push(info);
        let mut scope = self.scopes.pop().unwrap();
        scope.define_symbol(name, id);
        self.scopes.push(scope);
        proof {
            assert(self.state().defs =~= old(self).state().defs.push(def_view(info)));
            assert(self.state().scopes =~= old(self).state().scopes.update(old(self).state().scopes.len() - 1,
                old(self).state().scopes.last().insert(name@, id))) by {
                assert forall|i: int| 0 <= i < self.scopes@.len() - 1 implies self.scopes@[i] == old(self).scopes@[i] by {
                    assert(self.scopes@.drop_last()[i] == old(self).scopes@.drop_last()[i]);
                }
            }
            assert(self.scopes@.drop_last() =~= old(self).scopes@.drop_last());
            assert forall|i: int, n: Seq<char>| #![trigger self.scopes@[i].variables@[n]]
                0 <= i < self.scopes@.len() && self.scopes@[i].variables@.contains_key(n)
                implies self.scopes@[i].variables@[n] < self.definitions@.len()
                && self.definitions@[self.scopes@[i].variables@[n] as int].pattern.name@ == n by {
                if i < self.scopes@.len() - 1 {
                    assert(self.scopes@[i] == old(self).scopes@[i]);
                    assert(old(self).scopes@[i].variables@[n] < old(self).definitions@.len());
                } else if n != name@ {
                    assert(old(self).scopes@[i].variables@.contains_key(n));
                    assert(old(self).scopes@[i].variables@[n] < old(self).definitions@.len());
                }
            }
        }
        id
    }

    /// The definition a name refers to: its declaration in the innermost scope that has one.
    pub fn lookup_symbol(&self, name: &str) -> (r: Option<DefinitionId>)
        requires
            self.wf(),
        ensures
            r == innermost(self.scopes@, name@),
            r == innermost_in(self.state().scopes, name@),
            r matches Some(id) ==> id < self.definitions@.len() && self.definitions@[id as int].pattern.name@ == name@,
    {
        proof {
            lemma_innermost_in(self.scopes@, name@);
            lemma_innermost_ok(self.scopes@, self.definitions@, name@);
            assert(self.scopes@.take(self.scopes@.len() as int) =~= self.scopes@);
        }
        let mut i = self.scopes.len();
        while i > 0
            invariant
                self.wf(),
                i <= self.scopes@.len(),
                innermost(self.scopes@, name@) == innermost(self.scopes@.take(i as int), name@),
            decreases i,
        {
            proof {
                lemma_innermost_take(self.scopes@, i - 1, name@);
            }
            i = i - 1;
            if let Some(id) = self.scopes[i].lookup_symbol(name) {
                assert(innermost(self.scopes@, name@) == Some(*id));
                proof {
                    lemma_innermost_ok(self.scopes@, self.definitions@, name@);
                    lemma_innermost_in(self.scopes@, name@);
                }
                return Some(*id);
            }
        }
        proof {
            assert(self.scopes@.take(0) =~= Seq::<Scope>::empty());
        }
        None
    }
}

/// Every name declared in an open scope refers to a recorded definition.
pub open spec fn ids_in_range(st: ResState) -> bool {
    forall|k: int, name: Seq<char>| 0 <= k < st.scopes.len() && #[trigger] st.scopes[k].contains_key(name)
        ==> st.scopes[k][name] < st.defs.len()
}

proof fn lemma_innermost_in_range(st: ResState, name: Seq<char>)
    requires
        ids_in_range(st),
    ensures
        innermost_in(st.scopes, name) matches Some(id) ==> id < st.defs.len(),
    decreases st.scopes.len(),
{
    if st.scopes.len() > 0 {
        let n = st.scopes.len() - 1;
        if !st.scopes.last().contains_key(name) {
            let inner = ResState { scopes: st.scopes.drop_last(), ..st };
            assert forall|k: int, nm: Seq<char>| 0 <= k < inner.scopes.len() && #[trigger] inner.scopes[k].contains_key(nm)
                implies inner.scopes[k][nm] < inner.defs.len() by {
                assert(inner.scopes[k] == st.scopes[k]);
            }
            lemma_innermost_in_range(inner, name);
        } else {
            assert(st.scopes[n].contains_key(name));
        }
    }
}

proof fn lemma_push_in_range(st: ResState)
    requires
        ids_in_range(st),
    ensures
        ids_in_range(ResState { scopes: st.scopes.push(Map::empty()), ..st }),
{
    let p = ResState { scopes: st.scopes.push(Map::empty()), ..st };
    assert forall|k: int, nm: Seq<char>| 0 <= k < p.scopes.len() && #[trigger] p.scopes[k].contains_key(nm)
        implies p.scopes[k][nm] < p.defs.len() by {
        if k < st.scopes.len() {
            assert(p.scopes[k] == st.scopes[k]);
        }
    }
}

proof fn lemma_drop_in_range(st: ResState)
    requires
        ids_in_range(st),
        st.scopes.len() > 0,
    ensures
        ids_in_range(ResState { scopes: st.scopes.drop_last(), ..st }),
{
    let p = ResState { scopes: st.scopes.drop_last(), ..st };
    assert forall|k: int, nm: Seq<char>| 0 <= k < p.scopes.len() && #[trigger] p.scopes[k].contains_key(nm)
        implies p.scopes[k][nm] < p.defs.len() by {
        assert(p.scopes[k] == st.scopes[k]);
    }
}

proof fn lemma_declare_in_range(st: ResState, name: Seq<char>, span: Span)
    requires
        ids_in_range(st),
        st.scopes.len() > 0,
    ensures
        ids_in_range(ResState {
            defs: st.defs.push((name, span, 0u32)),
            scopes: st.scopes.update(st.scopes.len() - 1, st.scopes.last().insert(name, st.defs.len() as DefinitionId)),
            ..st
        }),
{
    let id = st.defs.len() as DefinitionId;
    let p = ResState {
        defs: st.defs.push((name, span, 0u32)),
        scopes: st.scopes.update(st.scopes.len() - 1, st.scopes.last().insert(name, id)),
        ..st
    };
    assert forall|k: int, nm: Seq<char>| 0 <= k < p.scopes.len() && #[trigger] p.scopes[k].contains_key(nm)
        implies p.scopes[k][nm] < p.defs.len() by {
        if k < st.scopes.len() - 1 {
            assert(p.scopes[k] == st.scopes[k]);
        } else if nm != name {
            assert(st.scopes[k].contains_key(nm));
        }
    }
}

/// What resolving keeps of a state: the number of open scopes and all but
/// the innermost, the names and spans of the definitions recorded before
/// (later ones are added after them), and the diagnostics reported before.
pub open spec fn res_keeps(st: ResState, r: ResState) -> bool {
    &&& r.scopes.len() == st.scopes.len()
    &&& r.scopes.drop_last() == st.scopes.drop_last()
    &&& st.defs.len() <= r.defs.len()
    &&& forall|j: int| 0 <= j < st.defs.len() ==> (#[trigger] r.defs[j]).0 == st.defs[j].0 && r.defs[j].1 == st.defs[j].1
    &&& r.diags.len() >= st.diags.len()
    &&& r.diags.subrange(0, st.diags.len() as int) == st.diags
}

proof fn lemma_res_keeps_trans(a: ResState, b: ResState, c: ResState)
    requires
        res_keeps(a, b),
        res_keeps(b, c),
    ensures
        res_keeps(a, c),
{
    assert(c.diags.subrange(0, a.diags.len() as int) =~= b.diags.subrange(0, a.diags.len() as int));
    assert forall|j: int| 0 <= j < a.defs.len() implies (#[trigger] c.defs[j]).0 == a.defs[j].0 && c.defs[j].1 == a.defs[j].1 by {
        assert(b.defs[j].0 == a.defs[j].0);
    }
}

/// Resolving a node keeps what `res_keeps` says: it declares names only in
/// the innermost scope, and a block's own scope is closed again.
pub proof fn lemma_res_define_keeps(st: ResState, a: Ast)
    requires
        st.scopes.len() > 0,
        ids_in_range(st),
    ensures
        res_keeps(st, res_define(st, a).0),
        ids_in_range(res_define(st, a).0),
    decreases a,
{
    let r = res_define(st, a).0;
    match a {
        Ast::Sequence(s) => {
            assert(decreases_to!(a => a->Sequence_0));
            assert(decreases_to!(s => s.statements));
            assert(decreases_to!(s.statements => s.statements@));
            let st1 = ResState { scopes: st.scopes.push(Map::empty()), ..st };
            lemma_push_in_range(st);
            lemma_res_define_all_keeps(st1, s.statements@);
            let st2 = res_define_all(st1, s.statements@).0;
            lemma_drop_in_range(st2);
            assert(st1.scopes.drop_last() =~= st.scopes);
            assert(r == ResState { scopes: st2.scopes.drop_last(), ..st2 });
            assert(r.scopes =~= st.scopes);
            assert forall|j: int| 0 <= j < st.defs.len() implies (#[trigger] r.defs[j]).0 == st.defs[j].0 && r.defs[j].1 == st.defs[j].1 by {
                assert(st2.defs[j].0 == st1.defs[j].0);
            }
        },
        Ast::Let(d) => {
            lemma_res_define_keeps(st, *d.value.ptr);
            let st1 = res_define(st, *d.value.ptr).0;
            lemma_declare_in_range(st1, d.pattern.name@, d.pattern.span);
            assert(st1.scopes.drop_last() =~= st1.scopes.update(st1.scopes.len() - 1, Map::empty()).drop_last());
            assert(r.diags.subrange(0, st1.diags.len() as int) =~= st1.diags);
            assert(r.scopes.drop_last() =~= st1.scopes.drop_last());
            assert(res_keeps(st1, r));
            lemma_res_keeps_trans(st, st1, r);
            assert(res_keeps(st, r));
        },
        Ast::Assignment(d) => {
            lemma_res_define_keeps(st, *d.value.ptr);
            let st1 = res_define(st, *d.value.ptr).0;
            lemma_declare_in_range(st1, d.pattern.name@, d.pattern.span);
            assert(st1.scopes.drop_last() =~= st1.scopes.update(st1.scopes.len() - 1, Map::empty()).drop_last());
            assert(r.diags.subrange(0, st1.diags.len() as int) =~= st1.diags);
            assert(r.scopes.drop_last() =~= st1.scopes.drop_last());
            assert(res_keeps(st1, r));
            lemma_res_keeps_trans(st, st1, r);
            assert(res_keeps(st, r));
        },
        Ast::If(i) => {
            lemma_res_define_keeps(st, *i.condition.ptr);
            let st1 = res_define(st, *i.condition.ptr).0;
            lemma_res_define_keeps(st1, *i.body.ptr);
            lemma_res_keeps_trans(st, st1, r);
            assert(res_keeps(st, r));
        },
        Ast::While(w) => {
            lemma_res_define_keeps(st, *w.condition.ptr);
            let st1 = res_define(st, *w.condition.ptr).0;
            lemma_res_define_keeps(st1, *w.body.ptr);
            lemma_res_keeps_trans(st, st1, r);
            assert(res_keeps(st, r));
        },
        Ast::Binary(b) => {
            lemma_res_define_keeps(st, *b.left.ptr);
            let st1 = res_define(st, *b.left.ptr).0;
            lemma_res_define_keeps(st1, *b.right.ptr);
            lemma_res_keeps_trans(st, st1, r);
            assert(res_keeps(st, r));
        },
        Ast::Unary(u) => {
            lemma_res_define_keeps(st, *u.operand.ptr);
            assert(res_keeps(st, r));
        },
        Ast::Variable(v) => {
            lemma_innermost_in_range(st, v.pattern@);
            assert(r.diags.subrange(0, st.diags.len() as int) =~= st.diags);
            assert forall|j: int| 0 <= j < st.defs.len() implies (#[trigger] r.defs[j]).0 == st.defs[j].0 && r.defs[j].1 == st.defs[j].1 by {
                match innermost_in(st.scopes, v.pattern@) {
                    Some(id) => {
                        if j == id as int {
                            assert(r.defs[j] == (st.defs[j].0, st.defs[j].1, one_more(st.defs[j].2)));
                        } else {
                            assert(r.defs[j] == st.defs[j]);
                        }
                    },
                    None => {},
                }
            }
            assert(res_keeps(st, r));
        },
        _ => {
            assert(r.diags.subrange(0, st.diags.len() as int) =~= st.diags);
            assert(res_keeps(st, r));
        },
    }
}

proof fn lemma_res_define_all_keeps(st: ResState, stmts: Seq<Ast>)
    requires
        st.scopes.len() > 0,
        ids_in_range(st),
    ensures
        res_keeps(st, res_define_all(st, stmts).0),
        ids_in_range(res_define_all(st, stmts).0),
    decreases stmts,
{
    if stmts.len() == 0 {
        assert(st.diags.subrange(0, st.diags.len() as int) =~= st.diags);
    } else {
        assert(decreases_to!(stmts => stmts.drop_last()));
        assert(decreases_to!(stmts => stmts.last()));
        lemma_res_define_all_keeps(st, stmts.drop_last());
        let st1 = res_define_all(st, stmts.drop_last()).0;
        lemma_res_define_keeps(st1, stmts.last());
        lemma_res_keeps_trans(st, st1, res_define_all(st, stmts).0);
    }
}

/// Names declared inside a block do not outlive it: after resolving a
/// sequence the open scopes are exactly those before, the definitions
/// recorded before keep their names and spans, and no diagnostic is
/// withdrawn.
pub proof fn law_block_scope_closes(st: ResState, s: Sequence)
    requires
        ids_in_range(st),
    ensures
        ({
            let r = res_define(st, Ast::Sequence(s)).0;
            &&& r.scopes == st.scopes
            &&& st.defs.len() <= r.defs.len()
            &&& forall|j: int| 0 <= j < st.defs.len() ==> (#[trigger] r.defs[j]).0 == st.defs[j].0 && r.defs[j].1 == st.defs[j].1
            &&& r.diags.subrange(0, st.diags.len() as int) == st.diags
        }),
{
    let st1 = ResState { scopes: st.scopes.push(Map::empty()), ..st };
    lemma_push_in_range(st);
    lemma_res_define_all_keeps(st1, s.statements@);
    assert(st1.scopes.drop_last() =~= st.scopes);
    let r = res_define(st, Ast::Sequence(s)).0;
    assert(r.scopes =~= st.scopes);
}

} // verus!
