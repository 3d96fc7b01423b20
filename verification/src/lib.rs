//! A term representation for a lambda-calculus-style language.
//!
//! Expressions are trees of variable references, single-variable binders
//! (abstractions) and applications. Each binder carries an identity drawn
//! from a monotonically increasing generator, so no two live binders ever
//! share an identity. On that scheme the library provides three operations:
//! deep copy with consistent rebinding (`clone_expr`), equality up to
//! alpha-renaming (`equals`), and capture-avoiding in-place substitution
//! (`subst`). Because binder identities are globally unique, substitution
//! never needs to rename anything: a replacement's free variables cannot
//! collide with a binder already present in the receiver.

use vstd::prelude::*;

pub mod clone_with;
pub mod cmp_with;
pub mod id;
pub mod laws;
pub mod scope;

pub use crate::clone_with::CloneWith;
pub use crate::cmp_with::{EqWith, PartialEqWith};
pub use crate::id::{Id, IdGen};
pub use crate::scope::{resolve_spec, ScopeMap};

use crate::laws::{lemma_clone_at_count, lemma_subst_at_lower};

verus! {

/// An expression: a variable reference, a binder, or an application.
#[derive(Debug)]
pub enum Expr {
    Var(VarExpr),
    Abs(AbsExpr),
    App(AppExpr),
}

/// A variable reference: the identity of the binder it refers to. If no
/// enclosing `Abs` in the tree carries that identity, the variable is free.
#[derive(Debug)]
pub struct VarExpr {
    pub id: Id,
}

/// A binder: one identity, fixed at construction, and the body it scopes.
#[derive(Debug)]
pub struct AbsExpr {
    pub id: Id,
    pub body: Box<Expr>,
}

/// An application of a function part to an argument part, processed
/// left to right.
#[derive(Debug)]
pub struct AppExpr {
    pub lhs: Box<Expr>,
    pub rhs: Box<Expr>,
}

/// The number of binders in an expression: how many fresh identities a deep
/// copy of it draws from the generator.
pub open spec fn abs_count(e: Expr) -> nat
    decreases e,
{
    match e {
        Expr::Var(_) => 0,
        Expr::Abs(x) => 1 + abs_count(*x.body),
        Expr::App(x) => abs_count(*x.lhs) + abs_count(*x.rhs),
    }
}

/// The set of binder identities occurring anywhere in an expression.
pub open spec fn abs_ids(e: Expr) -> Set<Id>
    decreases e,
{
    match e {
        Expr::Var(_) => Set::empty(),
        Expr::Abs(x) => abs_ids(*x.body).insert(x.id),
        Expr::App(x) => abs_ids(*x.lhs).union(abs_ids(*x.rhs)),
    }
}

/// The set of identities referenced by the variables of an expression,
/// bound and free alike.
pub open spec fn var_ids(e: Expr) -> Set<Id>
    decreases e,
{
    match e {
        Expr::Var(x) => Set::empty().insert(x.id),
        Expr::Abs(x) => var_ids(*x.body),
        Expr::App(x) => var_ids(*x.lhs).union(var_ids(*x.rhs)),
    }
}

/// No two binders within the expression share an identity. Trees built from
/// one generator satisfy this by construction; it is the invariant that
/// makes substitution capture-free.
pub open spec fn distinct_binders(e: Expr) -> bool
    decreases e,
{
    match e {
        Expr::Var(_) => true,
        Expr::Abs(x) => !abs_ids(*x.body).contains(x.id) && distinct_binders(*x.body),
        Expr::App(x) => abs_ids(*x.lhs).disjoint(abs_ids(*x.rhs)) && distinct_binders(*x.lhs)
            && distinct_binders(*x.rhs),
    }
}

/// Every identity in the expression, binder or variable, was drawn before
/// the generator's counter reached `n`: the tree was built from a generator
/// that now stands at or beyond `n`.
pub open spec fn ids_below(e: Expr, n: nat) -> bool {
    (forall|i: Id| #[trigger] abs_ids(e).contains(i) ==> i.value < n) && (forall|i: Id|
        #[trigger] var_ids(e).contains(i) ==> i.value < n)
}

/// Alpha-equivalence under a scope context `m` pairing the left side's
/// binder identities with the right side's: identical shape, and every
/// variable aligned once the left identity is resolved through the context.
pub open spec fn alpha_eq_at(a: Expr, b: Expr, m: Seq<(Id, Id)>) -> bool
    decreases a,
{
    match (a, b) {
        (Expr::Var(x), Expr::Var(y)) => resolve_spec(m, x.id) == y.id,
        (Expr::Abs(x), Expr::Abs(y)) => alpha_eq_at(*x.body, *y.body, m.push((x.id, y.id))),
        (Expr::App(x), Expr::App(y)) => alpha_eq_at(*x.lhs, *y.lhs, m) && alpha_eq_at(
            *x.rhs,
            *y.rhs,
            m,
        ),
        _ => false,
    }
}

/// Alpha-equivalence: equality up to consistent renaming of bound
/// variables, i.e. `alpha_eq_at` under the empty scope context.
pub open spec fn alpha_eq(a: Expr, b: Expr) -> bool {
    alpha_eq_at(a, b, Seq::<(Id, Id)>::empty())
}

/// The deep copy of `e` under scope context `m` with the generator's
/// counter at `n`, together with the counter after the copy. Every binder
/// of the copy takes the next counter value in traversal order; a variable
/// resolves through the context, keeping its identity when unmapped.
pub open spec fn clone_at(e: Expr, m: Seq<(Id, Id)>, n: nat) -> (Expr, nat)
    decreases e,
{
    match e {
        Expr::Var(x) => (Expr::Var(VarExpr { id: resolve_spec(m, x.id) }), n),
        Expr::Abs(x) => {
            let f = Id { value: n as u64 };
            let b = clone_at(*x.body, m.push((x.id, f)), n + 1);
            (Expr::Abs(AbsExpr { id: f, body: Box::new(b.0) }), b.1)
        },
        Expr::App(x) => {
            let l = clone_at(*x.lhs, m, n);
            let r = clone_at(*x.rhs, m, l.1);
            (Expr::App(AppExpr { lhs: Box::new(l.0), rhs: Box::new(r.0) }), r.1)
        },
    }
}

/// The number of variables in `e` that reference identity `t`: how many
/// copies of a replacement a substitution for `t` installs.
pub open spec fn occ_count(e: Expr, t: Id) -> nat
    decreases e,
{
    match e {
        Expr::Var(x) => if x.id == t {
            1nat
        } else {
            0nat
        },
        Expr::Abs(x) => occ_count(*x.body, t),
        Expr::App(x) => occ_count(*x.lhs, t) + occ_count(*x.rhs, t),
    }
}

/// The result of substituting independent copies of `r` for every variable
/// referencing `t` in `e`, with the generator's counter at `n`, together
/// with the counter afterwards. Binder identities of `e` are untouched;
/// each installed copy of `r` receives fresh binder identities.
pub open spec fn subst_at(e: Expr, t: Id, r: Expr, n: nat) -> (Expr, nat)
    decreases e,
{
    match e {
        Expr::Var(x) => if x.id == t {
            clone_at(r, Seq::<(Id, Id)>::empty(), n)
        } else {
            (e, n)
        },
        Expr::Abs(x) => {
            let b = subst_at(*x.body, t, r, n);
            (Expr::Abs(AbsExpr { id: x.id, body: Box::new(b.0) }), b.1)
        },
        Expr::App(x) => {
            let l = subst_at(*x.lhs, t, r, n);
            let q = subst_at(*x.rhs, t, r, l.1);
            (Expr::App(AppExpr { lhs: Box::new(l.0), rhs: Box::new(q.0) }), q.1)
        },
    }
}

impl CloneWith for Expr {
    open spec fn fresh_needed(&self) -> nat {
        abs_count(*self)
    }

    open spec fn clone_with_model(&self, m: Seq<(Id, Id)>, n: nat) -> Expr {
        clone_at(*self, m, n).0
    }

    fn clone_with(&self, ids: &mut ScopeMap, gen: &mut IdGen) -> (r: Self)
        decreases *self,
    {
        let ghost m0 = ids@;
        let ghost n0 = gen.next as nat;
        proof {
            assert(self.fresh_needed() == abs_count(*self));
        }
        match self {
            Expr::Var(x) => {
                proof {
                    assert(x.fresh_needed() == 0);
                }
                let v = x.clone_with(ids, gen);
                proof {
                    assert(x.clone_with_model(m0, n0) == (VarExpr {
                        id: resolve_spec(m0, x.id),
                    }));
                    assert(clone_at(*self, m0, n0).0 == Expr::Var(VarExpr {
                        id: resolve_spec(m0, x.id),
                    }));
                    assert(self.clone_with_model(m0, n0) == clone_at(*self, m0, n0).0);
                }
                Expr::Var(v)
            },
            Expr::Abs(x) => {
                proof {
                    assert(x.fresh_needed() == 1 + abs_count(*x.body));
                }
                let v = x.clone_with(ids, gen);
                proof {
                    let f = Id { value: n0 as u64 };
                    assert(x.clone_with_model(m0, n0) == (AbsExpr {
                        id: f,
                        body: Box::new(clone_at(*x.body, m0.push((x.id, f)), n0 + 1).0),
                    }));
                    assert(self.clone_with_model(m0, n0) == clone_at(*self, m0, n0).0);
                }
                Expr::Abs(v)
            },
            Expr::App(x) => {
                proof {
                    assert(x.fresh_needed() == abs_count(*x.lhs) + abs_count(*x.rhs));
                }
                let v = x.clone_with(ids, gen);
                proof {
                    lemma_clone_at_count(*x.lhs, m0, n0);
                    assert(clone_at(*x.lhs, m0, n0).1 == n0 + abs_count(*x.lhs));
                    assert(x.clone_with_model(m0, n0) == (AppExpr {
                        lhs: Box::new(clone_at(*x.lhs, m0, n0).0),
                        rhs: Box::new(clone_at(*x.rhs, m0, n0 + abs_count(*x.lhs)).0),
                    }));
                    assert(self.clone_with_model(m0, n0) == clone_at(*self, m0, n0).0);
                }
                Expr::App(v)
            },
        }
    }
}

impl PartialEqWith for Expr {
    open spec fn eq_with_model(&self, other: &Expr, m: Seq<(Id, Id)>) -> bool {
        alpha_eq_at(*self, *other, m)
    }

    fn eq_with(&self, other: &Expr, ids: &mut ScopeMap) -> (r: bool)
        decreases *self,
    {
        let ghost m0 = ids@;
        match (self, other) {
            (Expr::Var(x), Expr::Var(y)) => {
                let r = x.eq_with(y, ids);
                proof {
                    assert(x.eq_with_model(y, m0) == (resolve_spec(m0, x.id) == y.id));
                    assert(self.eq_with_model(other, m0) == alpha_eq_at(*self, *other, m0));
                }
                r
            },
            (Expr::Abs(x), Expr::Abs(y)) => {
                let r = x.eq_with(y, ids);
                proof {
                    assert(x.eq_with_model(y, m0) == alpha_eq_at(
                        *x.body,
                        *y.body,
                        m0.push((x.id, y.id)),
                    ));
                    assert(self.eq_with_model(other, m0) == alpha_eq_at(*self, *other, m0));
                }
                r
            },
            (Expr::App(x), Expr::App(y)) => {
                let r = x.eq_with(y, ids);
                proof {
                    assert(x.eq_with_model(y, m0) == (alpha_eq_at(*x.lhs, *y.lhs, m0)
                        && alpha_eq_at(*x.rhs, *y.rhs, m0)));
                    assert(self.eq_with_model(other, m0) == alpha_eq_at(*self, *other, m0));
                }
                r
            },
            _ => {
                proof {
                    assert(self.eq_with_model(other, m0) == alpha_eq_at(*self, *other, m0));
                }
                false
            },
        }
    }
}

impl EqWith for Expr {

}

impl CloneWith for VarExpr {
    open spec fn fresh_needed(&self) -> nat {
        0
    }

    open spec fn clone_with_model(&self, m: Seq<(Id, Id)>, n: nat) -> VarExpr {
        VarExpr { id: resolve_spec(m, self.id) }
    }

    fn clone_with(&self, ids: &mut ScopeMap, gen: &mut IdGen) -> (r: Self) {
        proof {
            assert(self.clone_with_model(old(ids)@, old(gen).next as nat) == (VarExpr {
                id: resolve_spec(old(ids)@, self.id),
            }));
        }
        VarExpr { id: ids.resolve(self.id) }
    }
}

impl PartialEqWith for VarExpr {
    open spec fn eq_with_model(&self, other: &VarExpr, m: Seq<(Id, Id)>) -> bool {
        resolve_spec(m, self.id) == other.id
    }

    fn eq_with(&self, other: &VarExpr, ids: &mut ScopeMap) -> (r: bool) {
        proof {
            assert(self.eq_with_model(other, old(ids)@) == (resolve_spec(old(ids)@, self.id)
                == other.id));
        }
        let converted_id = ids.resolve(self.id);
        converted_id == other.id
    }
}

impl EqWith for VarExpr {

}

impl CloneWith for AbsExpr {
    open spec fn fresh_needed(&self) -> nat {
        1 + abs_count(*self.body)
    }

    open spec fn clone_with_model(&self, m: Seq<(Id, Id)>, n: nat) -> AbsExpr {
        let f = Id { value: n as u64 };
        AbsExpr { id: f, body: Box::new(clone_at(*self.body, m.push((self.id, f)), n + 1).0) }
    }

    fn clone_with(&self, ids: &mut ScopeMap, gen: &mut IdGen) -> (r: Self)
        decreases *self,
    {
        let ghost m0 = ids@;
        let ghost n0 = gen.next as nat;
        proof {
            assert(self.fresh_needed() == 1 + abs_count(*self.body));
            assert((&*self.body).fresh_needed() == abs_count(*self.body));
        }
        let old_id = self.raw_id();
        let new_id = gen.fresh();
        ids.push(old_id, new_id);
        let body = (&*self.body).clone_with(ids, gen);
        ids.pop();
        proof {
            assert(ids@ =~= m0);
            assert((&*self.body).clone_with_model(m0.push((self.id, new_id)), n0 + 1)
                == clone_at(*self.body, m0.push((self.id, new_id)), n0 + 1).0);
            assert(self.clone_with_model(m0, n0) == (AbsExpr {
                id: new_id,
                body: Box::new(clone_at(*self.body, m0.push((self.id, new_id)), n0 + 1).0),
            }));
        }
        AbsExpr { id: new_id, body: Box::new(body) }
    }
}

impl PartialEqWith for AbsExpr {
    open spec fn eq_with_model(&self, other: &AbsExpr, m: Seq<(Id, Id)>) -> bool {
        alpha_eq_at(*self.body, *other.body, m.push((self.id, other.id)))
    }

    fn eq_with(&self, other: &AbsExpr, ids: &mut ScopeMap) -> (r: bool)
        decreases *self,
    {
        let ghost m0 = ids@;
        ids.push(self.raw_id(), other.raw_id());
        let ret = (&*self.body).eq_with(&*other.body, ids);
        ids.pop();
        proof {
            assert(ids@ =~= m0);
            assert((&*self.body).eq_with_model(&*other.body, m0.push((self.id, other.id)))
                == alpha_eq_at(*self.body, *other.body, m0.push((self.id, other.id))));
            assert(self.eq_with_model(other, m0) == alpha_eq_at(
                *self.body,
                *other.body,
                m0.push((self.id, other.id)),
            ));
        }
        ret
    }
}

impl EqWith for AbsExpr {

}

impl AbsExpr {
    /// Two-phase construction: reserve an identity from the generator
    /// first, build the body against it (it may reference the identity),
    /// then install the body here.
    pub fn new(id: Id, body: Expr) -> (r: AbsExpr)
        ensures
            r.id == id,
            *r.body == body,
    {
        AbsExpr { id, body: Box::new(body) }
    }

    /// The identity of this binder.
    pub fn raw_id(&self) -> (i: Id)
        ensures
            i == self.id,
    {
        self.id
    }

    /// The body this binder scopes.
    pub fn raw_body(&self) -> (b: &Expr)
        ensures
            *b == *self.body,
    {
        &self.body
    }

    /// Mutable access to the body, as substitution beneath the binder
    /// needs; the binder's own identity stays untouched.
    pub fn raw_body_mut(&mut self) -> (b: &mut Expr)
        ensures
            *b == *old(self).body,
            final(self).id == old(self).id,
            *final(self).body == *final(b),
    {
        &mut self.body
    }
}

impl CloneWith for AppExpr {
    open spec fn fresh_needed(&self) -> nat {
        abs_count(*self.lhs) + abs_count(*self.rhs)
    }

    open spec fn clone_with_model(&self, m: Seq<(Id, Id)>, n: nat) -> AppExpr {
        AppExpr {
            lhs: Box::new(clone_at(*self.lhs, m, n).0),
            rhs: Box::new(clone_at(*self.rhs, m, n + abs_count(*self.lhs)).0),
        }
    }

    fn clone_with(&self, ids: &mut ScopeMap, gen: &mut IdGen) -> (r: Self)
        decreases *self,
    {
        let ghost m0 = ids@;
        let ghost n0 = gen.next as nat;
        proof {
            assert(self.fresh_needed() == abs_count(*self.lhs) + abs_count(*self.rhs));
            assert((&*self.lhs).fresh_needed() == abs_count(*self.lhs));
            assert((&*self.rhs).fresh_needed() == abs_count(*self.rhs));
        }
        let lhs = (&*self.lhs).clone_with(ids, gen);
        let ghost n1 = gen.next as nat;
        let rhs = (&*self.rhs).clone_with(ids, gen);
        proof {
            assert((&*self.lhs).clone_with_model(m0, n0) == clone_at(*self.lhs, m0, n0).0);
            assert((&*self.rhs).clone_with_model(m0, n1) == clone_at(*self.rhs, m0, n1).0);
            assert(n1 == n0 + abs_count(*self.lhs));
            assert(clone_at(*self.rhs, m0, n1).0 == clone_at(
                *self.rhs,
                m0,
                n0 + abs_count(*self.lhs),
            ).0);
            assert(self.clone_with_model(m0, n0) == (AppExpr {
                lhs: Box::new(clone_at(*self.lhs, m0, n0).0),
                rhs: Box::new(clone_at(*self.rhs, m0, n0 + abs_count(*self.lhs)).0),
            }));
        }
        AppExpr { lhs: Box::new(lhs), rhs: Box::new(rhs) }
    }
}

impl PartialEqWith for AppExpr {
    open spec fn eq_with_model(&self, other: &AppExpr, m: Seq<(Id, Id)>) -> bool {
        alpha_eq_at(*self.lhs, *other.lhs, m) && alpha_eq_at(*self.rhs, *other.rhs, m)
    }

    fn eq_with(&self, other: &AppExpr, ids: &mut ScopeMap) -> (r: bool)
        decreases *self,
    {
        let ghost m0 = ids@;
        let l = (&*self.lhs).eq_with(&*other.lhs, ids);
        let r = l && (&*self.rhs).eq_with(&*other.rhs, ids);
        proof {
            assert((&*self.lhs).eq_with_model(&*other.lhs, m0) == alpha_eq_at(
                *self.lhs,
                *other.lhs,
                m0,
            ));
            assert((&*self.rhs).eq_with_model(&*other.rhs, m0) == alpha_eq_at(
                *self.rhs,
                *other.rhs,
                m0,
            ));
            assert(self.eq_with_model(other, m0) == (alpha_eq_at(*self.lhs, *other.lhs, m0)
                && alpha_eq_at(*self.rhs, *other.rhs, m0)));
        }
        r
    }
}

impl EqWith for AppExpr {

}

impl Expr {
    /// Deep copy with entirely fresh binder identities: the copy is
    /// alpha-equivalent to the receiver, fully independent of it, and no
    /// binder identity leaks from the original into the copy.
    pub fn clone_expr(&self, gen: &mut IdGen) -> (r: Expr)
        requires
            old(gen).next + abs_count(*self) <= u64::MAX,
        ensures
            r == clone_at(*self, Seq::<(Id, Id)>::empty(), old(gen).next as nat).0,
            final(gen).next == old(gen).next + abs_count(*self),
    {
        proof {
            assert(self.fresh_needed() == abs_count(*self));
        }
        let mut ids = ScopeMap::new();
        let r = self.clone_with(&mut ids, gen);
        proof {
            assert(self.clone_with_model(Seq::<(Id, Id)>::empty(), old(gen).next as nat)
                == clone_at(*self, Seq::<(Id, Id)>::empty(), old(gen).next as nat).0);
        }
        r
    }

    /// Alpha-equivalence test: identical shape, every variable aligned once
    /// corresponding binder identities are equated.
    pub fn equals(&self, other: &Expr) -> (r: bool)
        ensures
            r == alpha_eq(*self, *other),
    {
        let mut ids = ScopeMap::new();
        let r = self.eq_with(other, &mut ids);
        proof {
            assert(self.eq_with_model(other, Seq::<(Id, Id)>::empty()) == alpha_eq_at(
                *self,
                *other,
                Seq::<(Id, Id)>::empty(),
            ));
        }
        r
    }

    /// In-place capture-avoiding substitution: every variable referencing
    /// `id` is replaced by an independent copy of `r` with fresh binder
    /// identities; every other node, including every binder's identity, is
    /// left untouched. No renaming is ever needed because no two live
    /// binders share an identity, so `r`'s free variables cannot be
    /// captured by a binder of the receiver.
    pub fn subst(&mut self, id: Id, r: &Expr, gen: &mut IdGen)
        requires
            subst_at(*old(self), id, *r, old(gen).next as nat).1 <= u64::MAX,
        ensures
            *final(self) == subst_at(*old(self), id, *r, old(gen).next as nat).0,
            final(gen).next == subst_at(*old(self), id, *r, old(gen).next as nat).1,
    {
        let mut tmp = Expr::Var(VarExpr { id: Id { value: 0 } });
        core::mem::swap(self, &mut tmp);
        let out = Expr::subst_owned(tmp, id, r, gen);
        *self = out;
    }

    /// The recursion behind `subst`, on an owned tree.
    fn subst_owned(e: Expr, t: Id, r: &Expr, gen: &mut IdGen) -> (out: Expr)
        requires
            subst_at(e, t, *r, old(gen).next as nat).1 <= u64::MAX,
        ensures
            out == subst_at(e, t, *r, old(gen).next as nat).0,
            final(gen).next == subst_at(e, t, *r, old(gen).next as nat).1,
        decreases e,
    {
        let ghost n0 = gen.next as nat;
        match e {
            Expr::Var(x) => {
                if x.id == t {
                    proof {
                        lemma_clone_at_count(*r, Seq::<(Id, Id)>::empty(), n0);
                        assert(r.fresh_needed() == abs_count(*r));
                    }
                    let mut ids = ScopeMap::new();
                    let c = r.clone_with(&mut ids, gen);
                    proof {
                        assert(r.clone_with_model(Seq::<(Id, Id)>::empty(), n0) == clone_at(
                            *r,
                            Seq::<(Id, Id)>::empty(),
                            n0,
                        ).0);
                    }
                    c
                } else {
                    Expr::Var(x)
                }
            },
            Expr::Abs(x) => {
                let AbsExpr { id, body } = x;
                let b = Expr::subst_owned(*body, t, r, gen);
                Expr::Abs(AbsExpr { id, body: Box::new(b) })
            },
            Expr::App(x) => {
                proof {
                    lemma_subst_at_lower(*x.rhs, t, *r, subst_at(*x.lhs, t, *r, n0).1);
                }
                let AppExpr { lhs, rhs } = x;
                let l = Expr::subst_owned(*lhs, t, r, gen);
                let q = Expr::subst_owned(*rhs, t, r, gen);
                Expr::App(AppExpr { lhs: Box::new(l), rhs: Box::new(q) })
            },
        }
    }
}

} // verus!
