//! The compiler's shared store: the definitions found so far, numbered in
//! the order they were recorded, and the diagnostics.
use vstd::prelude::*;

use crate::diagnostics::DiagnosticBag;
use crate::parser::ast::{DefinitionId, Pattern};
use crate::resolver::clone_pattern;
use crate::span::Span;

verus! {

/// A definition as values: its name and span.
pub open spec fn pattern_view(p: Pattern) -> (Seq<char>, Span) {
    (p.name@, p.span)
}

/// The definition with id `id` in a table, if there is one.
pub open spec fn spec_lookup(table: Seq<(Seq<char>, Span)>, id: int) -> Option<(Seq<char>, Span)> {
    if 0 <= id < table.len() { Some(table[id]) } else { None }
}

/// After a definition is recorded, its id looks it up, and every other id
/// looks up what it did before.
pub proof fn law_lookup_after_push(table: Seq<(Seq<char>, Span)>, d: (Seq<char>, Span), id: int)
    ensures
        spec_lookup(table.push(d), table.len() as int) == Some(d),
        id != table.len() ==> spec_lookup(table.push(d), id) == spec_lookup(table, id),
{
}

pub struct Cache {
    /// The definitions by id; ids are handed out from zero up, so the id of a
    /// definition is its index.
    pub definitions: Vec<Pattern>,
    pub diagnostics: DiagnosticBag,
}

impl Cache {
    /// The definitions as values, by id.
    pub open spec fn table(&self) -> Seq<(Seq<char>, Span)> {
        self.definitions@.map_values(|p: Pattern| pattern_view(p))
    }

    pub fn new(diagnostics: DiagnosticBag) -> (c: Cache)
        ensures
            c.definitions@.len() == 0,
            c.diagnostics == diagnostics,
    {
        Cache { definitions: Vec::new(), diagnostics }
    }

    /// The diagnostics, to report into.
    pub fn diagnostics(&mut self) -> (d: &mut DiagnosticBag)
        ensures
            *d == old(self).diagnostics,
            final(self).diagnostics == *final(d),
            final(self).definitions == old(self).definitions,
    {
        &mut self.diagnostics
    }

    /// A copy of the definition with the given id, if there is one.
    pub fn lookup(&self, id: &DefinitionId) -> (r: Option<Pattern>)
        ensures
            match r {
                Some(p) => spec_lookup(self.table(), *id as int) == Some(pattern_view(p)),
                None => spec_lookup(self.table(), *id as int) is None,
            },
    {
        if *id < self.definitions.len() {
            Some(clone_pattern(&self.definitions[*id]))
        } else {
            None
        }
    }

    /// Records a copy of a definition under the next id, and returns that id.
    pub fn push_definition(&mut self, definition: &Pattern) -> (id: DefinitionId)
        ensures
            id == old(self).definitions@.len(),
            final(self).definitions@.len() == old(self).definitions@.len() + 1,
            final(self).definitions@.drop_last() == old(self).definitions@,
            final(self).definitions@.last().name@ == definition.name@,
            final(self).definitions@.last().span == definition.span,
            final(self).table() == old(self).table().push(pattern_view(*definition)),
            final(self).diagnostics == old(self).diagnostics,
    {
        let id = self.definitions.len();
        self.definitions.push(clone_pattern(definition));
        proof {
            assert(self.definitions@.drop_last() =~= old(self).definitions@);
            assert(self.table() =~= old(self).table().push(pattern_view(*definition)));
        }
        id
    }
}

} // verus!
