//! Deep copy threaded through a scope context.
//!
//! `CloneWith` is the copying counterpart of `PartialEqWith`: a copy is made
//! under a scope context that maps the original's binder identities to the
//! identities of their freshly allocated counterparts, so a bound variable in
//! the copy refers to the copy of its binder while a free variable keeps its
//! identity unchanged.

use vstd::prelude::*;

use crate::id::{Id, IdGen};
use crate::scope::ScopeMap;

verus! {

/// Deep copy with consistent rebinding, under an explicit scope context and
/// an identity generator for the fresh binders of the copy.
pub trait CloneWith: Sized {
    /// How many fresh identities one copy of this value draws from the
    /// generator: one per binder it contains.
    spec fn fresh_needed(&self) -> nat;

    /// The copy this value yields under scope context `m` when the
    /// generator's counter stands at `n`.
    spec fn clone_with_model(&self, m: Seq<(Id, Id)>, n: nat) -> Self;

    /// Copy this value. Every binder in the copy receives a fresh identity
    /// from `gen`; every variable bound within the copied value is remapped
    /// to the copy of its binder; a variable free in the copied value keeps
    /// the identity it resolves to under `ids`. The scope context is handed
    /// back exactly as it was received.
    fn clone_with(&self, ids: &mut ScopeMap, gen: &mut IdGen) -> (r: Self)
        requires
            old(gen).next + self.fresh_needed() <= u64::MAX,
        ensures
            final(ids)@ == old(ids)@,
            final(gen).next == old(gen).next + self.fresh_needed(),
            r == self.clone_with_model(old(ids)@, old(gen).next as nat),
    ;
}

} // verus!
