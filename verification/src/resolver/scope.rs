//! A lexical scope: the symbols declared in one block.
use vstd::hash_map::StringHashMap;
use vstd::prelude::*;

use crate::parser::ast::DefinitionId;

verus! {

pub struct Scope {
    pub variables: StringHashMap<DefinitionId>,
}

impl Scope {
    /// An empty scope.
    pub fn new() -> (s: Scope)
        ensures
            s.variables@ == Map::<Seq<char>, DefinitionId>::empty(),
    {
        Scope { variables: StringHashMap::new() }
    }

    /// The definition a name stands for in this scope.
    pub fn lookup_symbol(&self, name: &str) -> (r: Option<&DefinitionId>)
        ensures
            match r {
                Some(id) => self.variables@.contains_key(name@) && *id == self.variables@[name@],
                None => !self.variables@.contains_key(name@),
            },
    {
        self.variables.get(name)
    }

    /// Declares `name` in this scope as definition `id`, replacing an earlier declaration.
    pub fn define_symbol(&mut self, name: &str, id: DefinitionId)
        ensures
            final(self).variables@ == old(self).variables@.insert(name@, id),
    {
        self.variables.insert(String::from_str(name), id);
    }
}

} // verus!
