use typed_hir::hir::{Loc, Reference, Substitution, Term, TermKind, Type};
use typed_hir::lowering::{Diagnostic, LoweringCtx, UnresolvedSymbolError, UnresolvedTypeError, UnresolvedVariableError};
use typed_hir::syntax::{BinOp, Syntax};

#[test]
fn builtin_types_are_seeded() {
    let ctx = LoweringCtx::new();
    for (i, name) in ["int", "string", "unit", "local"].iter().enumerate() {
        let r = ctx.lookup_type(&name.to_string()).unwrap();
        assert_eq!(r.def, i);
        assert_eq!(ctx.definitions[i].name, *name);
    }
    assert_eq!(ctx.lookup_type(&"bool".to_string()), Err(UnresolvedTypeError));
    assert_eq!(ctx.lookup_variable(&"int".to_string()), Err(UnresolvedVariableError));
}

#[test]
fn shadowing_resolves_to_the_new_definition() {
    let mut ctx = LoweringCtx::new();
    let first = ctx.new_variable("x".to_string());
    let use_site = Loc { start: 3, end: 4 };
    ctx.definitions[first.def].references.push(use_site);
    let second = ctx.new_variable("x".to_string());
    assert_ne!(first, second);
    assert_eq!(ctx.lookup_variable(&"x".to_string()), Ok(second));
    assert_eq!(ctx.definitions[first.def].references, vec![use_site]);
    assert!(ctx.definitions[second.def].references.is_empty());
}

#[test]
fn fresh_names_never_repeat() {
    let mut ctx = LoweringCtx::new();
    let mut names = std::collections::HashSet::new();
    for i in 1..=10_000usize {
        let r = ctx.new_fresh_variable();
        let name = ctx.definitions[r.def].name.clone();
        assert_eq!(name, format!("_{}", i));
        assert!(names.insert(name.clone()));
        assert_eq!(ctx.lookup_variable(&name), Ok(r));
    }
    assert_eq!(ctx.counter, 10_000);
}

#[test]
fn definitions_take_the_current_position() {
    let mut ctx = LoweringCtx::new();
    ctx.src_pos = Loc { start: 10, end: 12 };
    let c = ctx.new_constructor("Cons".to_string());
    assert_eq!(ctx.definitions[c.def].loc, Loc { start: 10, end: 12 });
    let t = ctx.new_type("list".to_string());
    assert_eq!(ctx.lookup_type(&"list".to_string()), Ok(t));
}

#[test]
fn lookup_prefers_constructors() {
    let mut ctx = LoweringCtx::new();
    let v = ctx.new_variable("Nil".to_string());
    assert_eq!(ctx.lookup(&"Nil".to_string()), Ok(v));
    let c = ctx.new_constructor("Nil".to_string());
    assert_eq!(ctx.lookup(&"Nil".to_string()), Ok(c));
    assert_eq!(
        ctx.lookup(&"missing".to_string()),
        Err(UnresolvedSymbolError::UnresolvedVariableError(UnresolvedVariableError))
    );
}

#[test]
fn or_none_records_the_diagnostic() {
    let mut ctx = LoweringCtx::new();
    assert_eq!(ctx.or_none::<u8>(Ok(5)), Some(5));
    assert!(ctx.errors.is_empty());
    assert_eq!(ctx.or_none::<u8>(Err(Diagnostic::UnresolvedType(UnresolvedTypeError))), None);
    assert_eq!(ctx.errors.len(), 1);
    ctx.report_error(Diagnostic::RecursionBudget);
    assert_eq!(ctx.errors.len(), 2);
}

fn op(l: Syntax, o: BinOp, r: Syntax) -> Syntax {
    Syntax::BinOp(Box::new(l), o, Box::new(r))
}

#[test]
fn sep_by_peels_left_operands() {
    let mut ctx = LoweringCtx::new();
    let chain = op(Syntax::Int(1), BinOp::Comma, op(Syntax::Int(2), BinOp::Comma, Syntax::Int(3)));
    let wrapped = Syntax::SrcPos(Box::new(chain), Loc { start: 0, end: 5 });
    let out = ctx.sep_by(BinOp::Comma, wrapped).unwrap();
    assert_eq!(out, vec![Syntax::Int(1), Syntax::Int(2)]);
    let mixed = op(Syntax::Int(1), BinOp::Comma, op(Syntax::Int(2), BinOp::Add, Syntax::Int(3)));
    assert_eq!(ctx.sep_by(BinOp::Comma, mixed).unwrap(), vec![Syntax::Int(1)]);
    assert_eq!(ctx.sep_by(BinOp::Semicolon, Syntax::Int(4)).unwrap(), vec![]);
}

#[test]
fn sep_by_stops_when_the_budget_is_spent() {
    let mut ctx = LoweringCtx::new();
    for _ in 0..10_000 {
        assert!(ctx.sep_by(BinOp::Comma, Syntax::Int(0)).is_ok());
    }
    assert!(matches!(ctx.sep_by(BinOp::Comma, Syntax::Int(0)), Err(Diagnostic::RecursionBudget)));
}

#[test]
fn let_binding_generalizes_to_int() {
    let mut ctx = LoweringCtx::new();
    let mut s = Substitution::new();
    let int_ref = ctx.lookup_type(&"int".to_string()).unwrap();
    let x = ctx.new_variable("x".to_string());
    let var_ref = ctx.lookup_variable(&"x".to_string()).unwrap();
    let hole = s.fresh();
    let loc = Loc { start: 0, end: 14 };
    let bound = Term { value: TermKind::Int(1), src_pos: loc, type_repr: Type::Constructor(int_ref) };
    let body = Term { value: TermKind::Var(var_ref), src_pos: loc, type_repr: Type::Hole(hole) };
    let term = Term {
        value: TermKind::Let(x, Box::new(bound), Box::new(body)),
        src_pos: loc,
        type_repr: Type::Hole(hole),
    };
    match &term.value {
        TermKind::Let(def, _, body) => match &body.value {
            TermKind::Var(r) => assert_eq!(r, def),
            _ => panic!("body is not a variable"),
        },
        _ => panic!("not a let"),
    }
    assert!(term.type_repr.duplicate().unify(Type::Constructor(int_ref), &mut s).is_ok());
    let scheme = term.type_repr.generalize(&s);
    assert_eq!(scheme.args, 0);
    assert_eq!(scheme.mono, Type::Constructor(Reference { def: 0 }));
}

use typed_hir::syntax::TypeExpr;

fn meta(name: &str) -> TypeExpr {
    TypeExpr::Meta(name.to_string())
}

#[test]
fn surface_type_variables_share_holes_within_one_call() {
    let mut s = Substitution::new();
    let int_ref = Reference { def: 0 };
    let surface = TypeExpr::SrcPos(
        Box::new(TypeExpr::Fun(
            Box::new(meta("a")),
            Box::new(TypeExpr::Tuple(vec![meta("b"), meta("a"), TypeExpr::Hole, TypeExpr::Constructor(int_ref)])),
        )),
        Loc { start: 0, end: 9 },
    );
    let t = Type::from_surface(surface, &mut s);
    let expected = Type::Fun(
        Box::new(Type::Hole(typed_hir::hir::Variable { id: 0 })),
        Box::new(Type::Tuple(vec![
            Type::Hole(typed_hir::hir::Variable { id: 1 }),
            Type::Hole(typed_hir::hir::Variable { id: 0 }),
            Type::Hole(typed_hir::hir::Variable { id: 2 }),
            Type::Constructor(int_ref),
        ])),
    );
    assert_eq!(t, expected);
    assert_eq!(s.cells.len(), 3);
    let again = Type::from_surface(meta("a"), &mut s);
    assert_eq!(again, Type::Hole(typed_hir::hir::Variable { id: 3 }));
}

#[test]
fn surface_local_and_app_keep_their_shape() {
    let mut s = Substitution::new();
    let list = Reference { def: 5 };
    let t = Type::from_surface(
        TypeExpr::Local(Box::new(TypeExpr::App(list, Box::new(TypeExpr::Pair(vec![meta("x"), meta("x")]))))),
        &mut s,
    );
    let h = Type::Hole(typed_hir::hir::Variable { id: 0 });
    let expected = Type::Local(Box::new(Type::App(list, Box::new(Type::Pair(vec![h.duplicate(), h])))));
    assert_eq!(t, expected);
}

#[test]
fn default_context_matches_new() {
    let ctx = LoweringCtx::default();
    assert_eq!(ctx.definitions.len(), 4);
    assert_eq!(ctx.counter, 0);
    assert!(ctx.lookup_type(&"unit".to_string()).is_ok());
}
