//! Comparison threaded through a scope context.
//!
//! `PartialEqWith` compares two values under a scope context that equates
//! corresponding binder identities of the two sides; with an empty context
//! this is alpha-equivalence. `EqWith` marks the types on which the
//! comparison is an equivalence for well-formed, independently built values.

use vstd::prelude::*;

use crate::id::Id;
use crate::scope::ScopeMap;

verus! {

/// Equality up to the binder pairings recorded in a scope context.
pub trait PartialEqWith<Rhs = Self>: Sized {
    /// What the comparison returns under scope context `m`.
    spec fn eq_with_model(&self, other: &Rhs, m: Seq<(Id, Id)>) -> bool;

    /// Compare under `ids`: a variable identity on the left is first
    /// resolved through the context, then matched exactly against the right.
    /// The scope context is handed back exactly as it was received.
    fn eq_with(&self, other: &Rhs, ids: &mut ScopeMap) -> (r: bool)
        ensures
            final(ids)@ == old(ids)@,
            r == self.eq_with_model(other, old(ids)@),
    ;

    /// The logical negation of `eq_with`; no separate algorithm.
    fn ne_with(&self, other: &Rhs, ids: &mut ScopeMap) -> (r: bool)
        ensures
            final(ids)@ == old(ids)@,
            r == !self.eq_with_model(other, old(ids)@),
    {
        !self.eq_with(other, ids)
    }
}

/// Marker for types whose `PartialEqWith` comparison is reflexive and, for
/// independently built well-formed values, symmetric.
pub trait EqWith: PartialEqWith<Self> {}

} // verus!
