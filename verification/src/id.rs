//! Binder identities and the generator that allocates them.
//!
//! Every `Abs` node carries an `Id` that is distinct from the identity of
//! every other live binder; an `IdGen` hands identities out one at a time
//! from a monotonically increasing counter, so an identity drawn from a
//! generator can never collide with one drawn from it earlier.

use vstd::prelude::*;

verus! {

/// An identity token for one binder (or one externally supplied free name).
///
/// Equality is exact match of the underlying counter value; identities have
/// no meaningful order and are not stable across sessions.
#[derive(Clone, Copy, PartialEq, Eq, Structural, Debug, Hash)]
pub struct Id {
    pub value: u64,
}

/// The allocator for identities: a monotonically increasing counter.
///
/// All identities ever drawn from a generator are below its current `next`,
/// which is what makes a freshly drawn identity distinct from every identity
/// already present in trees built from the same generator.
#[derive(Debug)]
pub struct IdGen {
    pub next: u64,
}

impl IdGen {
    /// A fresh generator; no identity has been drawn from it yet.
    pub fn new() -> (g: IdGen)
        ensures
            g.next == 0,
    {
        IdGen { next: 0 }
    }

    /// Draw one fresh identity: the current counter value, which is then
    /// advanced so the same identity is never handed out twice.
    pub fn fresh(&mut self) -> (i: Id)
        requires
            old(self).next < u64::MAX,
        ensures
            i.value == old(self).next,
            final(self).next == old(self).next + 1,
    {
        let i = Id { value: self.next };
        self.next = self.next + 1;
        i
    }
}

} // verus!
