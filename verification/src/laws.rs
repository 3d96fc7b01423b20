//! The guarantees of the three operations, stated and proved over the
//! specification model: a copy is alpha-equivalent to its original yet
//! shares no binder identity with it, equality is reflexive and — for
//! independently built trees — symmetric, substitution for an absent
//! identity is a no-op, and the copies one substitution installs are
//! independent of one another.

use vstd::prelude::*;

use crate::id::Id;
use crate::scope::resolve_spec;
use crate::{abs_count, abs_ids, alpha_eq, alpha_eq_at, clone_at, ids_below, occ_count, subst_at};
use crate::var_ids;
use crate::{distinct_binders, AbsExpr, AppExpr, Expr, VarExpr};

verus! {

/// Some entry of the context has `k` as its key.
pub open spec fn has_key(m: Seq<(Id, Id)>, k: Id) -> bool {
    exists|j: int| 0 <= j < m.len() && (#[trigger] m[j]).0 == k
}

/// Some entry of the context has `v` as its value.
pub open spec fn has_val(m: Seq<(Id, Id)>, v: Id) -> bool {
    exists|j: int| 0 <= j < m.len() && (#[trigger] m[j]).1 == v
}

/// No two entries of the context share a key.
pub open spec fn distinct_keys(m: Seq<(Id, Id)>) -> bool {
    forall|j1: int, j2: int|
        0 <= j1 < j2 < m.len() ==> (#[trigger] m[j1]).0 != (#[trigger] m[j2]).0
}

/// No two entries of the context share a value.
pub open spec fn distinct_vals(m: Seq<(Id, Id)>) -> bool {
    forall|j1: int, j2: int|
        0 <= j1 < j2 < m.len() ==> (#[trigger] m[j1]).1 != (#[trigger] m[j2]).1
}

/// The context read the other way round: every (key, value) entry becomes
/// (value, key).
pub open spec fn transpose(m: Seq<(Id, Id)>) -> Seq<(Id, Id)> {
    m.map_values(|p: (Id, Id)| (p.1, p.0))
}

/// A deep copy draws exactly one fresh identity per binder of the
/// original: the counter after a copy is the counter before it plus the
/// original's binder count.
pub proof fn lemma_clone_at_count(e: Expr, m: Seq<(Id, Id)>, n: nat)
    ensures
        clone_at(e, m, n).1 == n + abs_count(e),
    decreases e,
{
    match e {
        Expr::Var(_) => {},
        Expr::Abs(x) => {
            lemma_clone_at_count(*x.body, m.push((x.id, Id { value: n as u64 })), n + 1);
        },
        Expr::App(x) => {
            lemma_clone_at_count(*x.lhs, m, n);
            lemma_clone_at_count(*x.rhs, m, n + abs_count(*x.lhs));
        },
    }
}

/// Substitution never moves the generator's counter backwards.
pub proof fn lemma_subst_at_lower(e: Expr, t: Id, r: Expr, n: nat)
    ensures
        subst_at(e, t, r, n).1 >= n,
    decreases e,
{
    match e {
        Expr::Var(x) => {
            if x.id == t {
                lemma_clone_at_count(r, Seq::<(Id, Id)>::empty(), n);
            }
        },
        Expr::Abs(x) => {
            lemma_subst_at_lower(*x.body, t, r, n);
        },
        Expr::App(x) => {
            lemma_subst_at_lower(*x.lhs, t, r, n);
            lemma_subst_at_lower(*x.rhs, t, r, subst_at(*x.lhs, t, r, n).1);
        },
    }
}

/// Law: substitution draws exactly one batch of fresh identities per
/// occurrence of the target — the counter advances by the occurrence count
/// times the replacement's binder count.
pub proof fn lemma_subst_at_count(e: Expr, t: Id, r: Expr, n: nat)
    ensures
        subst_at(e, t, r, n).1 == n + occ_count(e, t) * abs_count(r),
    decreases e,
{
    match e {
        Expr::Var(x) => {
            if x.id == t {
                lemma_clone_at_count(r, Seq::<(Id, Id)>::empty(), n);
                assert(occ_count(e, t) == 1);
                assert(occ_count(e, t) * abs_count(r) == abs_count(r)) by (nonlinear_arith)
                    requires
                        occ_count(e, t) == 1,
                ;
            } else {
                assert(occ_count(e, t) == 0);
                assert(occ_count(e, t) * abs_count(r) == 0) by (nonlinear_arith)
                    requires
                        occ_count(e, t) == 0,
                ;
            }
        },
        Expr::Abs(x) => {
            lemma_subst_at_count(*x.body, t, r, n);
            assert(occ_count(e, t) == occ_count(*x.body, t));
        },
        Expr::App(x) => {
            lemma_subst_at_count(*x.lhs, t, r, n);
            lemma_subst_at_count(*x.rhs, t, r, subst_at(*x.lhs, t, r, n).1);
            assert((occ_count(*x.lhs, t) + occ_count(*x.rhs, t)) * abs_count(r) == occ_count(
                *x.lhs,
                t,
            ) * abs_count(r) + occ_count(*x.rhs, t) * abs_count(r)) by (nonlinear_arith);
        },
    }
}

/// An identity no entry has as its key resolves to itself.
proof fn lemma_resolve_unmatched(m: Seq<(Id, Id)>, i: Id)
    requires
        !has_key(m, i),
    ensures
        resolve_spec(m, i) == i,
    decreases m.len(),
{
    if m.len() > 0 {
        assert(m[m.len() - 1] == m.last());
        assert forall|j: int| 0 <= j < m.drop_last().len() implies (#[trigger] m.drop_last()[j]).0
            != i by {
            assert(m.drop_last()[j] == m[j]);
        }
        lemma_resolve_unmatched(m.drop_last(), i);
    }
}

/// An identity some entry has as its key resolves to a value it is paired
/// with: the pair (key, resolved value) stands in the context.
proof fn lemma_resolve_in(m: Seq<(Id, Id)>, i: Id)
    requires
        has_key(m, i),
    ensures
        m.contains((i, resolve_spec(m, i))),
    decreases m.len(),
{
    if m.last().0 == i {
        assert(m[m.len() - 1] == (i, resolve_spec(m, i)));
    } else {
        let j = choose|j: int| 0 <= j < m.len() && (#[trigger] m[j]).0 == i;
        assert(m.drop_last()[j] == m[j]);
        assert(has_key(m.drop_last(), i));
        lemma_resolve_in(m.drop_last(), i);
        let k = choose|k: int|
            0 <= k < m.drop_last().len() && (#[trigger] m.drop_last()[k]) == (
            i,
            resolve_spec(m.drop_last(), i),
            );
        assert(m[k] == m.drop_last()[k]);
    }
}

/// Under distinct keys, a pair that stands in the context determines what
/// its key resolves to.
proof fn lemma_resolve_found(m: Seq<(Id, Id)>, i: Id, v: Id)
    requires
        distinct_keys(m),
        m.contains((i, v)),
    ensures
        resolve_spec(m, i) == v,
    decreases m.len(),
{
    let j = choose|j: int| 0 <= j < m.len() && m[j] == (i, v);
    if m.last().0 == i {
        assert(m[m.len() - 1].0 == i);
        if j < m.len() - 1 {
            assert(false);
        }
        assert(m.last() == (i, v));
    } else {
        assert(j < m.len() - 1);
        assert forall|j1: int, j2: int| 0 <= j1 < j2 < m.drop_last().len() implies (
        #[trigger] m.drop_last()[j1]).0 != (#[trigger] m.drop_last()[j2]).0 by {
            assert(m.drop_last()[j1] == m[j1]);
            assert(m.drop_last()[j2] == m[j2]);
        }
        assert(m.drop_last()[j] == m[j]);
        assert(m.drop_last().contains((i, v)));
        lemma_resolve_found(m.drop_last(), i, v);
    }
}

/// A context all of whose entries pair an identity with itself resolves
/// every identity to itself.
proof fn lemma_resolve_identity(m: Seq<(Id, Id)>, i: Id)
    requires
        forall|j: int| 0 <= j < m.len() ==> (#[trigger] m[j]).0 == m[j].1,
    ensures
        resolve_spec(m, i) == i,
    decreases m.len(),
{
    if m.len() > 0 {
        assert(m[m.len() - 1] == m.last());
        assert forall|j: int| 0 <= j < m.drop_last().len() implies (#[trigger] m.drop_last()[j]).0
            == m.drop_last()[j].1 by {
            assert(m.drop_last()[j] == m[j]);
        }
        lemma_resolve_identity(m.drop_last(), i);
    }
}

/// Comparing a tree against itself succeeds under any context that pairs
/// every identity with itself.
proof fn lemma_alpha_eq_at_refl(e: Expr, m: Seq<(Id, Id)>)
    requires
        forall|j: int| 0 <= j < m.len() ==> (#[trigger] m[j]).0 == m[j].1,
    ensures
        alpha_eq_at(e, e, m),
    decreases e,
{
    match e {
        Expr::Var(x) => {
            lemma_resolve_identity(m, x.id);
        },
        Expr::Abs(x) => {
            let m1 = m.push((x.id, x.id));
            assert forall|j: int| 0 <= j < m1.len() implies (#[trigger] m1[j]).0 == m1[j].1 by {
                if j < m.len() {
                    assert(m1[j] == m[j]);
                } else {
                    assert(m1[j] == (x.id, x.id));
                }
            }
            lemma_alpha_eq_at_refl(*x.body, m1);
        },
        Expr::App(x) => {
            lemma_alpha_eq_at_refl(*x.lhs, m);
            lemma_alpha_eq_at_refl(*x.rhs, m);
        },
    }
}

/// Law: equality is reflexive — every expression equals itself.
pub proof fn lemma_equals_reflexive(e: Expr)
    ensures
        alpha_eq(e, e),
{
    lemma_alpha_eq_at_refl(e, Seq::<(Id, Id)>::empty());
}

/// A deep copy compares equal to its original under the very context the
/// copy was made with.
proof fn lemma_clone_at_alpha(e: Expr, m: Seq<(Id, Id)>, n: nat)
    ensures
        alpha_eq_at(e, clone_at(e, m, n).0, m),
    decreases e,
{
    match e {
        Expr::Var(_) => {},
        Expr::Abs(x) => {
            let f = Id { value: n as u64 };
            lemma_clone_at_alpha(*x.body, m.push((x.id, f)), n + 1);
        },
        Expr::App(x) => {
            lemma_clone_at_alpha(*x.lhs, m, n);
            lemma_clone_at_alpha(*x.rhs, m, clone_at(*x.lhs, m, n).1);
        },
    }
}

/// Law: a deep copy is alpha-equivalent to its original.
pub proof fn lemma_clone_alpha_equal(e: Expr, n: nat)
    ensures
        alpha_eq(e, clone_at(e, Seq::<(Id, Id)>::empty(), n).0),
{
    lemma_clone_at_alpha(e, Seq::<(Id, Id)>::empty(), n);
}

/// Every binder identity of a copy made at counter `n` lies in the range
/// the copy's draws covered, and the copy's binders are pairwise distinct.
proof fn lemma_clone_at_fresh(e: Expr, m: Seq<(Id, Id)>, n: nat)
    requires
        n + abs_count(e) <= u64::MAX,
    ensures
        forall|i: Id| #[trigger]
            abs_ids(clone_at(e, m, n).0).contains(i) ==> n <= i.value < n + abs_count(e),
        distinct_binders(clone_at(e, m, n).0),
    decreases e,
{
    let c = clone_at(e, m, n).0;
    match e {
        Expr::Var(_) => {},
        Expr::Abs(x) => {
            let f = Id { value: n as u64 };
            assert(f.value == n);
            lemma_clone_at_fresh(*x.body, m.push((x.id, f)), n + 1);
            let bc = clone_at(*x.body, m.push((x.id, f)), n + 1).0;
            assert(c == Expr::Abs(AbsExpr { id: f, body: Box::new(bc) }));
            assert(abs_ids(c) == abs_ids(bc).insert(f));
            assert forall|i: Id| #[trigger] abs_ids(c).contains(i) implies n <= i.value < n
                + abs_count(e) by {
                if i != f {
                    assert(abs_ids(bc).contains(i));
                }
            }
            assert(!abs_ids(bc).contains(f));
            assert(distinct_binders(c));
        },
        Expr::App(x) => {
            lemma_clone_at_count(*x.lhs, m, n);
            lemma_clone_at_fresh(*x.lhs, m, n);
            lemma_clone_at_fresh(*x.rhs, m, n + abs_count(*x.lhs));
            let lc = clone_at(*x.lhs, m, n).0;
            let rc = clone_at(*x.rhs, m, n + abs_count(*x.lhs)).0;
            assert(c == Expr::App(AppExpr { lhs: Box::new(lc), rhs: Box::new(rc) }));
            assert(abs_ids(c) == abs_ids(lc).union(abs_ids(rc)));
            assert forall|i: Id| #[trigger] abs_ids(c).contains(i) implies n <= i.value < n
                + abs_count(e) by {
                if !abs_ids(lc).contains(i) {
                    assert(abs_ids(rc).contains(i));
                }
            }
            assert forall|i: Id| !(#[trigger] abs_ids(lc).contains(i) && abs_ids(rc).contains(
                i,
            )) by {
                if abs_ids(lc).contains(i) && abs_ids(rc).contains(i) {
                    assert(i.value < n + abs_count(*x.lhs));
                    assert(i.value >= n + abs_count(*x.lhs));
                }
            }
            assert(abs_ids(lc).disjoint(abs_ids(rc)));
            assert(distinct_binders(c));
        },
    }
}

/// Law: no binder identity leaks between an original and its copy — the
/// copy's binder identities are entirely fresh and pairwise distinct.
pub proof fn lemma_clone_fresh_binders(e: Expr, n: nat)
    requires
        ids_below(e, n),
        n + abs_count(e) <= u64::MAX,
    ensures
        abs_ids(e).disjoint(abs_ids(clone_at(e, Seq::<(Id, Id)>::empty(), n).0)),
        distinct_binders(clone_at(e, Seq::<(Id, Id)>::empty(), n).0),
{
    lemma_clone_at_fresh(e, Seq::<(Id, Id)>::empty(), n);
    let c = clone_at(e, Seq::<(Id, Id)>::empty(), n).0;
    assert forall|i: Id| !(#[trigger] abs_ids(e).contains(i) && abs_ids(c).contains(i)) by {
        if abs_ids(e).contains(i) && abs_ids(c).contains(i) {
            assert(i.value < n);
            assert(i.value >= n);
        }
    }
}

/// The walk behind symmetry: when a comparison succeeds under a context
/// whose keys and values are distinct, none of whose entries names a
/// binder of either side, and which cannot map a variable of the left side
/// only through its value column, then the comparison the other way round
/// succeeds under the transposed context.
proof fn lemma_alpha_eq_at_sym(a: Expr, b: Expr, m: Seq<(Id, Id)>)
    requires
        alpha_eq_at(a, b, m),
        distinct_keys(m),
        distinct_vals(m),
        forall|p: (Id, Id)| #[trigger]
            m.contains(p) ==> !abs_ids(a).contains(p.0) && !abs_ids(b).contains(p.1),
        distinct_binders(a),
        distinct_binders(b),
        forall|i: Id| #[trigger] var_ids(a).contains(i) && has_val(m, i) ==> has_key(m, i),
        var_ids(a).disjoint(abs_ids(b)),
    ensures
        alpha_eq_at(b, a, transpose(m)),
    decreases a,
{
    let mt = transpose(m);
    assert(mt.len() == m.len());
    assert forall|j: int| 0 <= j < m.len() implies (#[trigger] mt[j]) == (m[j].1, m[j].0) by {}
    match (a, b) {
        (Expr::Var(x), Expr::Var(y)) => {
            assert(var_ids(a).contains(x.id));
            if has_key(m, x.id) {
                lemma_resolve_in(m, x.id);
                let j = choose|j: int| 0 <= j < m.len() && m[j] == (x.id, y.id);
                assert(mt[j] == (y.id, x.id));
                assert(mt.contains((y.id, x.id)));
                assert forall|j1: int, j2: int| 0 <= j1 < j2 < mt.len() implies (
                #[trigger] mt[j1]).0 != (#[trigger] mt[j2]).0 by {
                    assert(mt[j1] == (m[j1].1, m[j1].0));
                    assert(mt[j2] == (m[j2].1, m[j2].0));
                }
                lemma_resolve_found(mt, y.id, x.id);
            } else {
                lemma_resolve_unmatched(m, x.id);
                assert(y.id == x.id);
                if has_val(m, x.id) {
                    assert(has_key(m, x.id));
                }
                assert forall|j: int| 0 <= j < mt.len() implies (#[trigger] mt[j]).0 != y.id by {
                    assert(mt[j] == (m[j].1, m[j].0));
                    if m[j].1 == x.id {
                        assert(has_val(m, x.id));
                    }
                }
                lemma_resolve_unmatched(mt, y.id);
            }
        },
        (Expr::Abs(x), Expr::Abs(y)) => {
            let m1 = m.push((x.id, y.id));
            assert(abs_ids(a).contains(x.id));
            assert(abs_ids(b).contains(y.id));
            assert forall|j: int| 0 <= j < m.len() implies (#[trigger] m[j]).0 != x.id && m[j].1
                != y.id by {
                assert(m.contains(m[j]));
            }
            assert forall|j: int| 0 <= j < m1.len() implies (#[trigger] m1[j]) == (if j < m.len() {
                m[j]
            } else {
                (x.id, y.id)
            }) by {}
            assert(distinct_keys(m1));
            assert(distinct_vals(m1));
            assert forall|p: (Id, Id)| #[trigger]
                m1.contains(p) implies !abs_ids(*x.body).contains(p.0) && !abs_ids(
                *y.body,
            ).contains(p.1) by {
                let j = choose|j: int| 0 <= j < m1.len() && m1[j] == p;
                if j < m.len() {
                    assert(m.contains(p));
                    assert(!abs_ids(a).contains(p.0));
                    assert(!abs_ids(b).contains(p.1));
                    assert(abs_ids(a).contains(p.0) || !abs_ids(*x.body).contains(p.0));
                    assert(abs_ids(b).contains(p.1) || !abs_ids(*y.body).contains(p.1));
                } else {
                    assert(p == (x.id, y.id));
                    assert(!abs_ids(*x.body).contains(x.id));
                    assert(!abs_ids(*y.body).contains(y.id));
                }
            }
            assert forall|i: Id| #[trigger]
                var_ids(*x.body).contains(i) && has_val(m1, i) implies has_key(m1, i) by {
                assert(var_ids(a).contains(i));
                let j = choose|j: int| 0 <= j < m1.len() && (#[trigger] m1[j]).1 == i;
                if j < m.len() {
                    assert(m1[j] == m[j]);
                    assert(has_val(m, i));
                    assert(has_key(m, i));
                    let k = choose|k: int| 0 <= k < m.len() && (#[trigger] m[k]).0 == i;
                    assert(m1[k].0 == i);
                } else {
                    assert(i == y.id);
                    assert(abs_ids(b).contains(i));
                    assert(!var_ids(a).contains(i));
                }
            }
            assert forall|i: Id| !(#[trigger] var_ids(*x.body).contains(i) && abs_ids(
                *y.body,
            ).contains(i)) by {
                if var_ids(*x.body).contains(i) && abs_ids(*y.body).contains(i) {
                    assert(var_ids(a).contains(i));
                    assert(abs_ids(b).contains(i));
                }
            }
            assert(var_ids(*x.body).disjoint(abs_ids(*y.body)));
            lemma_alpha_eq_at_sym(*x.body, *y.body, m1);
            assert(transpose(m1) =~= mt.push((y.id, x.id)));
        },
        (Expr::App(x), Expr::App(y)) => {
            assert forall|p: (Id, Id)| #[trigger]
                m.contains(p) implies !abs_ids(*x.lhs).contains(p.0) && !abs_ids(*y.lhs).contains(
                p.1,
            ) && !abs_ids(*x.rhs).contains(p.0) && !abs_ids(*y.rhs).contains(p.1) by {
                assert(!abs_ids(a).contains(p.0));
                assert(!abs_ids(b).contains(p.1));
            }
            assert forall|i: Id| #[trigger]
                var_ids(*x.lhs).contains(i) && has_val(m, i) implies has_key(m, i) by {
                assert(var_ids(a).contains(i));
            }
            assert forall|i: Id| #[trigger]
                var_ids(*x.rhs).contains(i) && has_val(m, i) implies has_key(m, i) by {
                assert(var_ids(a).contains(i));
            }
            assert forall|i: Id| !(#[trigger] var_ids(*x.lhs).contains(i) && abs_ids(
                *y.lhs,
            ).contains(i)) by {
                if var_ids(*x.lhs).contains(i) && abs_ids(*y.lhs).contains(i) {
                    assert(var_ids(a).contains(i));
                    assert(abs_ids(b).contains(i));
                }
            }
            assert forall|i: Id| !(#[trigger] var_ids(*x.rhs).contains(i) && abs_ids(
                *y.rhs,
            ).contains(i)) by {
                if var_ids(*x.rhs).contains(i) && abs_ids(*y.rhs).contains(i) {
                    assert(var_ids(a).contains(i));
                    assert(abs_ids(b).contains(i));
                }
            }
            assert(var_ids(*x.lhs).disjoint(abs_ids(*y.lhs)));
            assert(var_ids(*x.rhs).disjoint(abs_ids(*y.rhs)));
            lemma_alpha_eq_at_sym(*x.lhs, *y.lhs, m);
            lemma_alpha_eq_at_sym(*x.rhs, *y.rhs, m);
        },
        _ => {
            assert(false);
        },
    }
}

/// Law: equality is symmetric for well-formed trees built independently —
/// trees whose binders are internally distinct and whose variables do not
/// reference the other tree's binders, as holds for any two trees built
/// from one generator.
pub proof fn lemma_equals_symmetric(a: Expr, b: Expr)
    requires
        distinct_binders(a),
        distinct_binders(b),
        var_ids(a).disjoint(abs_ids(b)),
        var_ids(b).disjoint(abs_ids(a)),
    ensures
        alpha_eq(a, b) == alpha_eq(b, a),
{
    let m0 = Seq::<(Id, Id)>::empty();
    if alpha_eq(a, b) {
        lemma_alpha_eq_at_sym(a, b, m0);
        assert(transpose(m0) =~= m0);
    }
    if alpha_eq(b, a) {
        lemma_alpha_eq_at_sym(b, a, m0);
        assert(transpose(m0) =~= m0);
    }
}

/// Law: a copy is alpha-equivalent to its original also when compared the
/// other way round, for a well-formed original all of whose identities
/// were drawn before the copy began.
pub proof fn lemma_clone_equal_back(e: Expr, n: nat)
    requires
        distinct_binders(e),
        ids_below(e, n),
        n + abs_count(e) <= u64::MAX,
    ensures
        alpha_eq(clone_at(e, Seq::<(Id, Id)>::empty(), n).0, e),
{
    let m0 = Seq::<(Id, Id)>::empty();
    let c = clone_at(e, m0, n).0;
    lemma_clone_at_alpha(e, m0, n);
    lemma_clone_at_fresh(e, m0, n);
    assert forall|i: Id| !(#[trigger] var_ids(e).contains(i) && abs_ids(c).contains(i)) by {
        if var_ids(e).contains(i) && abs_ids(c).contains(i) {
            assert(i.value < n);
            assert(i.value >= n);
        }
    }
    assert(var_ids(e).disjoint(abs_ids(c)));
    lemma_alpha_eq_at_sym(e, c, m0);
    assert(transpose(m0) =~= m0);
}

/// Law: substituting for an identity that no variable of the tree
/// references changes nothing — neither the tree nor the generator.
pub proof fn lemma_subst_absent(e: Expr, t: Id, r: Expr, n: nat)
    requires
        !var_ids(e).contains(t),
    ensures
        subst_at(e, t, r, n) == (e, n),
    decreases e,
{
    match e {
        Expr::Var(x) => {
            assert(var_ids(e).contains(x.id));
        },
        Expr::Abs(x) => {
            lemma_subst_absent(*x.body, t, r, n);
            assert(subst_at(e, t, r, n).0 == e);
        },
        Expr::App(x) => {
            assert(var_ids(e).contains(t) || !var_ids(*x.lhs).contains(t));
            assert(var_ids(e).contains(t) || !var_ids(*x.rhs).contains(t));
            lemma_subst_absent(*x.lhs, t, r, n);
            lemma_subst_absent(*x.rhs, t, r, n);
            assert(subst_at(e, t, r, n).0 == e);
        },
    }
}

/// Law: when one substitution installs two copies of the replacement —
/// as for an application of a variable on the target to that same
/// variable — each copy is alpha-equivalent to the replacement and the
/// two copies share no binder identity, so mutating one later can never
/// affect the other.
pub proof fn lemma_subst_two_occurrences(t: Id, r: Expr, n: nat)
    requires
        n + 2 * abs_count(r) <= u64::MAX,
    ensures
        ({
            let e = Expr::App(
                AppExpr {
                    lhs: Box::new(Expr::Var(VarExpr { id: t })),
                    rhs: Box::new(Expr::Var(VarExpr { id: t })),
                },
            );
            let c1 = clone_at(r, Seq::<(Id, Id)>::empty(), n).0;
            let c2 = clone_at(r, Seq::<(Id, Id)>::empty(), n + abs_count(r)).0;
            &&& subst_at(e, t, r, n).0 == Expr::App(
                AppExpr { lhs: Box::new(c1), rhs: Box::new(c2) },
            )
            &&& alpha_eq(r, c1)
            &&& alpha_eq(r, c2)
            &&& abs_ids(c1).disjoint(abs_ids(c2))
        }),
{
    let m0 = Seq::<(Id, Id)>::empty();
    lemma_clone_at_count(r, m0, n);
    lemma_clone_alpha_equal(r, n);
    lemma_clone_alpha_equal(r, n + abs_count(r));
    lemma_clone_at_fresh(r, m0, n);
    lemma_clone_at_fresh(r, m0, n + abs_count(r));
    let c1 = clone_at(r, m0, n).0;
    let c2 = clone_at(r, m0, n + abs_count(r)).0;
    let ev = Expr::Var(VarExpr { id: t });
    let e = Expr::App(AppExpr { lhs: Box::new(ev), rhs: Box::new(ev) });
    assert(subst_at(ev, t, r, n) == clone_at(r, m0, n));
    assert(subst_at(ev, t, r, n + abs_count(r)) == clone_at(r, m0, n + abs_count(r)));
    assert(subst_at(e, t, r, n).0 == Expr::App(AppExpr { lhs: Box::new(c1), rhs: Box::new(c2) }));
    assert forall|i: Id| !(#[trigger] abs_ids(c1).contains(i) && abs_ids(c2).contains(i)) by {
        if abs_ids(c1).contains(i) && abs_ids(c2).contains(i) {
            assert(i.value < n + abs_count(r));
            assert(i.value >= n + abs_count(r));
        }
    }
    assert(abs_ids(c1).disjoint(abs_ids(c2)));
}

} // verus!
