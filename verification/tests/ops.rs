use binders::{AbsExpr, AppExpr, CloneWith, Expr, Id, IdGen, PartialEqWith, ScopeMap, VarExpr};

fn var(id: Id) -> Expr {
    Expr::Var(VarExpr { id })
}

fn abs(gen: &mut IdGen, f: impl FnOnce(Id) -> Expr) -> Expr {
    let id = gen.fresh();
    Expr::Abs(AbsExpr::new(id, f(id)))
}

fn app(l: Expr, r: Expr) -> Expr {
    Expr::App(AppExpr {
        lhs: Box::new(l),
        rhs: Box::new(r),
    })
}

fn abs_id(e: &Expr) -> Id {
    match e {
        Expr::Abs(a) => a.raw_id(),
        _ => panic!("expected an abstraction"),
    }
}

#[test]
fn fresh_ids_are_distinct() {
    let mut gen = IdGen::new();
    let a = gen.fresh();
    let b = gen.fresh();
    let c = gen.fresh();
    assert_ne!(a, b);
    assert_ne!(b, c);
    assert_ne!(a, c);
    assert_eq!(a, Id { value: 0 });
}

#[test]
fn scope_map_resolves_most_recent_entry() {
    let mut gen = IdGen::new();
    let a = gen.fresh();
    let b = gen.fresh();
    let c = gen.fresh();
    let mut m = ScopeMap::new();
    assert!(m.is_empty());
    assert_eq!(m.resolve(a), a);
    m.push(a, b);
    assert_eq!(m.resolve(a), b);
    assert_eq!(m.resolve(b), b);
    m.push(a, c);
    assert_eq!(m.resolve(a), c);
    m.pop();
    assert_eq!(m.resolve(a), b);
    m.pop();
    assert!(m.is_empty());
    assert_eq!(m.len(), 0);
}

#[test]
fn clone_is_alpha_equal_with_fresh_ids() {
    let mut gen = IdGen::new();
    let f = gen.fresh();
    let e = abs(&mut gen, |x| app(var(f), var(x)));
    let c = e.clone_expr(&mut gen);
    assert!(e.equals(&c));
    assert!(c.equals(&e));
    assert_ne!(abs_id(&e), abs_id(&c));
}

#[test]
fn clone_keeps_free_variables() {
    let mut gen = IdGen::new();
    let f = gen.fresh();
    let c = var(f).clone_expr(&mut gen);
    match &c {
        Expr::Var(v) => assert_eq!(v.id, f),
        _ => panic!("expected a variable"),
    }
}

#[test]
fn mutating_a_clone_leaves_the_original_alone() {
    let mut gen = IdGen::new();
    let f = gen.fresh();
    let g = gen.fresh();
    let e = abs(&mut gen, |x| app(var(f), var(x)));
    let snapshot = e.clone_expr(&mut gen);
    let mut c = e.clone_expr(&mut gen);
    c.subst(f, &var(g), &mut gen);
    assert!(e.equals(&snapshot));
    assert!(!c.equals(&snapshot));
}

#[test]
fn equals_is_reflexive_and_symmetric() {
    let mut gen = IdGen::new();
    let f = gen.fresh();
    let e1 = abs(&mut gen, |x| app(var(x), var(f)));
    let e2 = abs(&mut gen, |y| app(var(y), var(f)));
    assert!(e1.equals(&e1));
    assert!(e2.equals(&e2));
    assert!(e1.equals(&e2));
    assert!(e2.equals(&e1));
    let d = abs(&mut gen, |y| app(var(f), var(y)));
    assert!(!e1.equals(&d));
    assert!(!d.equals(&e1));
}

#[test]
fn variant_mismatch_is_not_equal() {
    let mut gen = IdGen::new();
    let f = gen.fresh();
    let v = var(f);
    let a = abs(&mut gen, |x| var(x));
    let p = app(var(f), var(f));
    assert!(!v.equals(&a));
    assert!(!a.equals(&p));
    assert!(!p.equals(&v));
}

#[test]
fn ne_with_negates_eq_with() {
    let mut gen = IdGen::new();
    let f = gen.fresh();
    let e1 = abs(&mut gen, |x| var(x));
    let e2 = abs(&mut gen, |x| var(x));
    let d = abs(&mut gen, |_x| var(f));
    let mut ids = ScopeMap::new();
    assert!(!e1.ne_with(&e2, &mut ids));
    assert!(e1.ne_with(&d, &mut ids));
    assert!(ids.is_empty());
}

#[test]
fn scope_context_is_restored_after_calls() {
    let mut gen = IdGen::new();
    let f = gen.fresh();
    let e1 = abs(&mut gen, |x| var(x));
    let e2 = abs(&mut gen, |_x| var(f));
    let mut ids = ScopeMap::new();
    let _ = e1.eq_with(&e2, &mut ids);
    assert!(ids.is_empty());
    let _ = e1.eq_with(&var(f), &mut ids);
    assert!(ids.is_empty());
    let _ = e1.clone_with(&mut ids, &mut gen);
    assert!(ids.is_empty());
}

#[test]
fn subst_for_absent_identity_is_noop() {
    let mut gen = IdGen::new();
    let f = gen.fresh();
    let unrelated = gen.fresh();
    let mut e = abs(&mut gen, |x| app(var(x), var(f)));
    let snapshot = e.clone_expr(&mut gen);
    let counter_before = gen.next;
    e.subst(unrelated, &var(f), &mut gen);
    assert_eq!(gen.next, counter_before);
    assert!(e.equals(&snapshot));
}

#[test]
fn subst_replaces_a_free_variable() {
    let mut gen = IdGen::new();
    let f = gen.fresh();
    let k = abs(&mut gen, |_y| var(f));
    let mut e = var(f);
    e.subst(f, &k, &mut gen);
    assert!(e.equals(&k));
}

#[test]
fn subst_copies_are_independent() {
    let mut gen = IdGen::new();
    let f = gen.fresh();
    let g = gen.fresh();
    let mut e = abs(&mut gen, |x| app(var(x), var(x)));
    let r = abs(&mut gen, |_y| var(f));
    let x_id = abs_id(&e);
    e.subst(x_id, &r, &mut gen);
    match &mut e {
        Expr::Abs(a) => match a.raw_body_mut() {
            Expr::App(ap) => {
                assert!(ap.lhs.equals(&r));
                assert!(ap.rhs.equals(&r));
                assert_ne!(abs_id(&ap.lhs), abs_id(&ap.rhs));
                ap.lhs.subst(f, &var(g), &mut gen);
                assert!(!ap.lhs.equals(&r));
                assert!(ap.rhs.equals(&r));
            }
            _ => panic!("expected an application"),
        },
        _ => panic!("expected an abstraction"),
    }
}

#[test]
fn identity_function_scenario() {
    let mut gen = IdGen::new();
    let i = abs(&mut gen, |x| var(x));
    let c = i.clone_expr(&mut gen);
    assert!(i.equals(&c));
    let x = gen.fresh();
    let y = gen.fresh();
    let nested = Expr::Abs(AbsExpr::new(x, Expr::Abs(AbsExpr::new(y, var(x)))));
    assert!(!i.equals(&nested));
}

#[test]
fn beta_style_substitution_scenario() {
    let mut gen = IdGen::new();
    let f = gen.fresh();
    let k = abs(&mut gen, |_y| var(f));
    let mut e = abs(&mut gen, |x| app(var(f), var(x)));
    let x_id = abs_id(&e);
    match &mut e {
        Expr::Abs(a) => a.raw_body_mut().subst(x_id, &k, &mut gen),
        _ => panic!("expected an abstraction"),
    }
    let expected = app(var(f), abs(&mut gen, |_y| var(f)));
    match &e {
        Expr::Abs(a) => assert!(a.raw_body().equals(&expected)),
        _ => panic!("expected an abstraction"),
    }
}

#[test]
fn abs_new_fixes_identity_and_body() {
    let mut gen = IdGen::new();
    let f = gen.fresh();
    let id = gen.fresh();
    let mut a = AbsExpr::new(id, var(f));
    assert_eq!(a.raw_id(), id);
    assert!(a.raw_body().equals(&var(f)));
    *a.raw_body_mut() = var(id);
    assert_eq!(a.raw_id(), id);
    assert!(a.raw_body().equals(&var(id)));
}

#[test]
fn substitution_under_binders_never_captures() {
    let mut gen = IdGen::new();
    let f = gen.fresh();
    let mut e = abs(&mut gen, |x| app(var(f), var(x)));
    let r = abs(&mut gen, |_y| var(f));
    e.subst(f, &r, &mut gen);
    let expected = {
        let x = gen.fresh();
        let y = gen.fresh();
        Expr::Abs(AbsExpr::new(
            x,
            app(Expr::Abs(AbsExpr::new(y, var(f))), var(x)),
        ))
    };
    assert!(e.equals(&expected));
    assert!(expected.equals(&e));
}
