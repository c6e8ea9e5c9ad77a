//! The owned pointer used for the children of syntax tree nodes.
use vstd::prelude::*;

verus! {

/// Owned smart pointer to a node of a syntax tree.
#[derive(Debug, PartialEq, Eq)]
pub struct P<T> {
    pub ptr: Box<T>,
}

/// Boxes a node of a syntax tree.
#[allow(non_snake_case)]
pub fn P<T>(value: T) -> (p: P<T>)
    ensures
        *p.ptr == value,
{
    P { ptr: Box::new(value) }
}

impl<T> P<T> {
    /// The node the pointer owns.
    pub fn into_inner(self) -> (v: T)
        ensures
            v == *self.ptr,
    {
        *self.ptr
    }
}

} // verus!
