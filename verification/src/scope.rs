//! The transient scope context threaded through deep copy and
//! alpha-equivalence.
//!
//! A `ScopeMap` relates one tree's binder identities to a counterpart's.
//! It is used with a strict stack discipline: an entry is pushed on entering
//! an `Abs` node's body and popped immediately after, on every path, so the
//! context a caller handed in is restored exactly when the callee returns.

use vstd::prelude::*;

use crate::id::Id;

verus! {

/// Resolve an identity through a scope context: the value of the most
/// recently pushed entry whose key matches, or the identity itself when no
/// entry matches (the free-variable case).
pub open spec fn resolve_spec(m: Seq<(Id, Id)>, i: Id) -> Id
    decreases m.len(),
{
    if m.len() == 0 {
        i
    } else if m.last().0 == i {
        m.last().1
    } else {
        resolve_spec(m.drop_last(), i)
    }
}

/// The scope context: a stack of (key, value) identity pairs.
#[derive(Debug)]
pub struct ScopeMap {
    entries: Vec<(Id, Id)>,
}

impl View for ScopeMap {
    type V = Seq<(Id, Id)>;

    closed spec fn view(&self) -> Seq<(Id, Id)> {
        self.entries@
    }
}

impl ScopeMap {
    /// An empty scope context, as created at every top-level entry point.
    pub fn new() -> (m: ScopeMap)
        ensures
            m@ == Seq::<(Id, Id)>::empty(),
    {
        ScopeMap { entries: Vec::new() }
    }

    /// The number of entries currently in scope.
    pub fn len(&self) -> (n: usize)
        ensures
            n == self@.len(),
    {
        self.entries.len()
    }

    /// Whether the context is empty, as it must again be after any
    /// top-level clone or equality call returns.
    pub fn is_empty(&self) -> (r: bool)
        ensures
            r == (self@.len() == 0),
    {
        self.entries.len() == 0
    }

    /// Enter one binder pairing: push (key, value) onto the stack.
    pub fn push(&mut self, k: Id, v: Id)
        ensures
            final(self)@ == old(self)@.push((k, v)),
    {
        self.entries.push((k, v));
    }

    /// Leave the most recently entered binder pairing: pop the top entry.
    pub fn pop(&mut self)
        requires
            old(self)@.len() > 0,
        ensures
            final(self)@ == old(self)@.drop_last(),
    {
        let _ = self.entries.pop();
        proof {
            assert(self@ =~= old(self)@.drop_last());
        }
    }

    /// Resolve an identity through the context, most recent entry first;
    /// an identity with no matching entry resolves to itself.
    pub fn resolve(&self, i: Id) -> (r: Id)
        ensures
            r == resolve_spec(self@, i),
    {
        proof {
            assert(self@.take(self@.len() as int) =~= self@);
        }
        let mut j: usize = self.entries.len();
        while j > 0
            invariant
                j <= self@.len(),
                resolve_spec(self@, i) == resolve_spec(self@.take(j as int), i),
            decreases j,
        {
            j = j - 1;
            let (k, v) = self.entries[j];
            if k == i {
                proof {
                    assert(self@.take(j as int + 1).last() == (k, v));
                }
                return v;
            }
            proof {
                assert(self@.take(j as int + 1).drop_last() =~= self@.take(j as int));
            }
        }
        proof {
            assert(self@.take(0).len() == 0);
        }
        i
    }
}

} // verus!
