use typed_hir::hir::{Reference, Scheme, Substitution, Type, UnificationError, Variable};

fn int_ty() -> Type {
    Type::Constructor(Reference { def: 0 })
}

fn string() -> Type {
    Type::Constructor(Reference { def: 1 })
}

fn fun(a: Type, b: Type) -> Type {
    Type::Fun(Box::new(a), Box::new(b))
}

fn hole(s: &mut Substitution) -> (Variable, Type) {
    let v = s.fresh();
    (v, Type::Hole(v))
}

#[test]
fn fun_unification_binds_both_holes() {
    let mut s = Substitution::new();
    let (h, th) = hole(&mut s);
    let (h2, th2) = hole(&mut s);
    let r = fun(th, int_ty()).unify(fun(string(), th2), &mut s);
    assert!(r.is_ok());
    assert_eq!(h.value(&s), Some(string()));
    assert_eq!(h2.value(&s), Some(int_ty()));
}

#[test]
fn any_unifies_without_binding() {
    let mut s = Substitution::new();
    let (h, th) = hole(&mut s);
    assert!(Type::Any.unify(th.duplicate(), &mut s).is_ok());
    assert!(th.duplicate().unify(Type::Any, &mut s).is_ok());
    assert!(Type::Any.unify(fun(int_ty(), int_ty()), &mut s).is_ok());
    assert!(int_ty().unify(Type::Any, &mut s).is_ok());
    assert_eq!(h.value(&s), None);
}

#[test]
fn rebinding_a_bound_hole_fails_and_keeps_it() {
    let mut s = Substitution::new();
    let (h, th) = hole(&mut s);
    assert!(th.duplicate().unify(int_ty(), &mut s).is_ok());
    let r = th.unify(fun(int_ty(), int_ty()), &mut s);
    match r {
        Err(UnificationError::IncompatibleTypes(a, b)) => {
            assert_eq!(a, int_ty());
            assert_eq!(b, fun(int_ty(), int_ty()));
        }
        other => panic!("unexpected {:?}", other),
    }
    assert_eq!(h.value(&s), Some(int_ty()));
}

#[test]
fn different_constructors_are_reported() {
    let mut s = Substitution::new();
    let (_, th) = hole(&mut s);
    assert!(th.duplicate().unify(int_ty(), &mut s).is_ok());
    let r = th.unify(string(), &mut s);
    assert!(matches!(
        r,
        Err(UnificationError::IncompatibleConstructors(Reference { def: 0 }, Reference { def: 1 }))
    ));
}

#[test]
fn app_heads_must_agree() {
    let mut s = Substitution::new();
    let list = Reference { def: 7 };
    let vec = Reference { def: 8 };
    let (h, th) = hole(&mut s);
    let ok = Type::App(list, Box::new(th)).unify(Type::App(list, Box::new(int_ty())), &mut s);
    assert!(ok.is_ok());
    assert_eq!(h.value(&s), Some(int_ty()));
    let bad = Type::App(list, Box::new(int_ty())).unify(Type::App(vec, Box::new(int_ty())), &mut s);
    assert!(matches!(bad, Err(UnificationError::IncompatibleConstructors(a, b)) if a == list && b == vec));
}

#[test]
fn local_unifies_through_inner_type() {
    let mut s = Substitution::new();
    let (h, th) = hole(&mut s);
    let r = Type::Local(Box::new(th)).unify(Type::Local(Box::new(string())), &mut s);
    assert!(r.is_ok());
    assert_eq!(h.value(&s), Some(string()));
    let r = Type::Local(Box::new(int_ty())).unify(int_ty(), &mut s);
    assert!(matches!(r, Err(UnificationError::IncompatibleTypes(_, _))));
}

#[test]
fn mismatched_pair_lengths_unify_on_the_shorter() {
    let mut s = Substitution::new();
    let (h, th) = hole(&mut s);
    let r = Type::Pair(vec![th, int_ty(), string()]).unify(Type::Pair(vec![int_ty()]), &mut s);
    assert!(r.is_ok());
    assert_eq!(h.value(&s), Some(int_ty()));
    let r = Type::Tuple(vec![]).unify(Type::Tuple(vec![int_ty(), string()]), &mut s);
    assert!(r.is_ok());
}

#[test]
fn pair_stops_at_first_failure() {
    let mut s = Substitution::new();
    let (h, th) = hole(&mut s);
    let r = Type::Tuple(vec![int_ty(), th]).unify(Type::Tuple(vec![string(), int_ty()]), &mut s);
    assert!(matches!(r, Err(UnificationError::IncompatibleConstructors(_, _))));
    assert_eq!(h.value(&s), None);
}

#[test]
fn failure_keeps_earlier_bindings() {
    let mut s = Substitution::new();
    let (h, th) = hole(&mut s);
    let r = fun(th, int_ty()).unify(fun(string(), string()), &mut s);
    assert!(r.is_err());
    assert_eq!(h.value(&s), Some(string()));
}

#[test]
fn occurs_check_refuses_cycles() {
    let mut s = Substitution::new();
    let (h, th) = hole(&mut s);
    let r = th.duplicate().unify(fun(th.duplicate(), int_ty()), &mut s);
    assert!(matches!(r, Err(UnificationError::OccursCheck)));
    assert_eq!(h.value(&s), None);
    assert!(th.duplicate().unify(th, &mut s).is_ok());
    assert_eq!(h.value(&s), None);
}

#[test]
fn holes_chain_through_bindings() {
    let mut s = Substitution::new();
    let (a, ta) = hole(&mut s);
    let (b, tb) = hole(&mut s);
    assert!(ta.duplicate().unify(tb.duplicate(), &mut s).is_ok());
    assert_eq!(a.value(&s), Some(Type::Hole(b)));
    assert!(tb.unify(int_ty(), &mut s).is_ok());
    assert_eq!(b.value(&s), Some(int_ty()));
    assert!(matches!(ta.unify(string(), &mut s), Err(UnificationError::IncompatibleConstructors(_, _))));
}

#[test]
fn unification_outcome_is_symmetric_on_examples() {
    let cases: Vec<(fn() -> Type, fn() -> Type)> = vec![
        (|| fun(int_ty(), int_ty()), || fun(int_ty(), string())),
        (|| fun(int_ty(), int_ty()), || fun(int_ty(), int_ty())),
        (|| Type::Pair(vec![int_ty()]), || Type::Tuple(vec![int_ty()])),
        (|| Type::Local(Box::new(int_ty())), || Type::Local(Box::new(int_ty()))),
        (|| int_ty(), || string()),
        (|| Type::Any, || string()),
    ];
    for (a, b) in cases {
        let mut s1 = Substitution::new();
        let mut s2 = Substitution::new();
        let forward = a().unify(b(), &mut s1).is_ok();
        let backward = b().unify(a(), &mut s2).is_ok();
        assert_eq!(forward, backward);
    }
    let mut s1 = Substitution::new();
    let (_, h1) = hole(&mut s1);
    let mut s2 = Substitution::new();
    let (_, h2) = hole(&mut s2);
    assert!(h1.unify(fun(int_ty(), int_ty()), &mut s1).is_ok());
    assert!(fun(int_ty(), int_ty()).unify(h2, &mut s2).is_ok());
}

#[test]
fn generalize_numbers_holes_by_first_occurrence() {
    let mut s = Substitution::new();
    let (_, a) = hole(&mut s);
    let (_, b) = hole(&mut s);
    let t = fun(b.duplicate(), fun(a.duplicate(), b));
    let scheme = t.generalize(&s);
    assert_eq!(scheme.args, 2);
    assert_eq!(scheme.mono, fun(Type::Meta(0), fun(Type::Meta(1), Type::Meta(0))));
}

#[test]
fn generalize_looks_through_bound_holes() {
    let mut s = Substitution::new();
    let (_, a) = hole(&mut s);
    assert!(a.duplicate().unify(int_ty(), &mut s).is_ok());
    let scheme = a.generalize(&s);
    assert_eq!(scheme.args, 0);
    assert_eq!(scheme.mono, int_ty());
}

#[test]
fn instantiate_round_trips_generalize() {
    let mut s = Substitution::new();
    let (_, a) = hole(&mut s);
    let (_, b) = hole(&mut s);
    let t = Type::Pair(vec![a.duplicate(), b, a]);
    let scheme = t.generalize(&s);
    let inst = scheme.instantiate(&mut s);
    match inst {
        Type::Pair(v) => {
            assert_eq!(v.len(), 3);
            assert_eq!(v[0], v[2]);
            assert_ne!(v[0], v[1]);
            assert_eq!(v[0], Type::Hole(Variable { id: 2 }));
            assert_eq!(v[1], Type::Hole(Variable { id: 3 }));
        }
        other => panic!("unexpected {:?}", other),
    }
}

#[test]
fn instantiations_are_independent() {
    let mut s = Substitution::new();
    let scheme = Scheme { args: 1, mono: fun(Type::Meta(0), Type::Meta(0)) };
    let first = scheme.instantiate(&mut s);
    let second = scheme.instantiate(&mut s);
    let (x, y) = match (&first, &second) {
        (Type::Fun(x, _), Type::Fun(y, _)) => (x.duplicate(), y.duplicate()),
        _ => panic!("not functions"),
    };
    assert_ne!(x, y);
    assert!(first.unify(fun(int_ty(), int_ty()), &mut s).is_ok());
    match y {
        Type::Hole(v) => assert_eq!(v.value(&s), None),
        other => panic!("unexpected {:?}", other),
    }
}

#[test]
fn scheme_new_has_no_slots() {
    let scheme = Scheme::new(int_ty());
    assert_eq!(scheme.args, 0);
    assert_eq!(scheme.mono, int_ty());
}

#[test]
fn variable_update_binds_the_cell() {
    let mut s = Substitution::new();
    let v = s.fresh();
    assert_eq!(v.value(&s), None);
    v.update(&mut s, string());
    assert_eq!(v.value(&s), Some(string()));
}

#[test]
fn nesting_beyond_the_budget_is_too_deep() {
    let mut a = int_ty();
    let mut b = int_ty();
    for _ in 0..1001 {
        a = Type::Local(Box::new(a));
        b = Type::Local(Box::new(b));
    }
    let mut s = Substitution::new();
    let r = a.unify(b, &mut s);
    assert!(matches!(r, Err(UnificationError::TooDeep)));
}

#[test]
fn unbound_hole_is_bound_to_a_bound_hole() {
    let mut s = Substitution::new();
    let (h, th) = hole(&mut s);
    let (k, tk) = hole(&mut s);
    k.update(&mut s, Type::Any);
    assert!(th.unify(tk, &mut s).is_ok());
    assert_eq!(h.value(&s), Some(Type::Hole(k)));
}

#[test]
fn hole_aliased_to_itself_unifies_without_binding() {
    let mut s = Substitution::new();
    let (h, th) = hole(&mut s);
    let (k, tk) = hole(&mut s);
    k.update(&mut s, Type::Hole(h));
    assert!(th.unify(tk, &mut s).is_ok());
    assert_eq!(h.value(&s), None);
}

#[test]
fn hole_against_a_too_deep_type_is_too_deep() {
    let mut deep = int_ty();
    for _ in 0..1001 {
        deep = Type::Local(Box::new(deep));
    }
    let mut s = Substitution::new();
    let (h, th) = hole(&mut s);
    assert!(matches!(th.unify(deep, &mut s), Err(UnificationError::TooDeep)));
    assert_eq!(h.value(&s), None);
}

#[test]
fn cloned_types_and_schemes_are_equal() {
    let t = fun(int_ty(), Type::Pair(vec![string(), Type::Meta(0)]));
    assert_eq!(t.clone(), t);
    let scheme = Scheme { args: 1, mono: t };
    let copy = scheme.clone();
    assert_eq!(copy.args, 1);
    assert_eq!(copy.mono, scheme.mono);
}
