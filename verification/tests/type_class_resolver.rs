use melbi::parser::Span;
use melbi::types::type_class::TypeClassId;
use melbi::types::type_class_resolver::{TypeClassConstraint, TypeClassResolver};
use melbi::types::types::Type;
use melbi::types::unification::unify::TypeMap;
use melbi::types::unification::Unification;

#[test]
fn test_indexable_array() {
    let resolver = TypeClassResolver::new();
    let mut unify = Unification::new();
    let arr = Type::Array(Box::new(Type::Int));
    let result = Type::TypeVar(0);
    assert!(resolver
        .resolve_indexable(&arr, &Type::Int, &result, &mut unify, &Span(0..1))
        .is_ok());
    assert_eq!(unify.resolve(&result), &Type::Int);
}

#[test]
fn test_indexable_map() {
    let resolver = TypeClassResolver::new();
    let mut unify = Unification::new();
    let map = Type::MapOf(Box::new(Type::Int), Box::new(Type::Str));
    let result = Type::TypeVar(0);
    assert!(resolver
        .resolve_indexable(&map, &Type::Int, &result, &mut unify, &Span(0..1))
        .is_ok());
    assert_eq!(unify.resolve(&result), &Type::Str);
}

#[test]
fn test_indexable_bytes_and_errors() {
    let resolver = TypeClassResolver::new();
    let mut unify = Unification::new();
    let idx = Type::TypeVar(1);
    let res = Type::TypeVar(2);
    assert!(resolver.resolve_indexable(&Type::Bytes, &idx, &res, &mut unify, &Span(0..1)).is_ok());
    assert_eq!(unify.resolve(&idx), &Type::Int);
    assert_eq!(unify.resolve(&res), &Type::Int);

    let err = resolver
        .resolve_indexable(&Type::Bool, &Type::Int, &Type::Int, &mut unify, &Span(3..4))
        .unwrap_err();
    assert_eq!(err.ty, "Bool");
    assert_eq!(err.type_class, TypeClassId::Indexable);
    assert_eq!(err.span, Span(3..4));

    let arr = Type::Array(Box::new(Type::Int));
    let err = resolver
        .resolve_indexable(&arr, &Type::Str, &Type::Int, &mut unify, &Span(5..6))
        .unwrap_err();
    assert_eq!(err.ty, "Array[Int]");

    // A container that is still a variable is left for later.
    assert!(resolver
        .resolve_indexable(&Type::TypeVar(9), &Type::Str, &Type::Int, &mut unify, &Span(0..0))
        .is_ok());
}

#[test]
fn test_numeric_constraint() {
    let resolver = TypeClassResolver::new();
    let mut unify = Unification::new();
    let result = Type::TypeVar(0);
    assert!(resolver
        .resolve_numeric(&Type::Int, &Type::Int, &result, &mut unify, &Span(0..1))
        .is_ok());
    assert_eq!(unify.resolve(&result), &Type::Int);
}

#[test]
fn test_numeric_errors() {
    let resolver = TypeClassResolver::new();
    let mut unify = Unification::new();
    let err = resolver
        .resolve_numeric(&Type::Str, &Type::Str, &Type::TypeVar(0), &mut unify, &Span(1..2))
        .unwrap_err();
    assert_eq!(err.ty, "Str");
    assert_eq!(err.type_class, TypeClassId::Numeric);
    let err = resolver
        .resolve_numeric(&Type::Int, &Type::Float, &Type::TypeVar(1), &mut unify, &Span(1..2))
        .unwrap_err();
    assert_eq!(err.ty, "Int");
    assert!(resolver
        .resolve_numeric(&Type::TypeVar(5), &Type::TypeVar(6), &Type::TypeVar(7), &mut unify, &Span(0..1))
        .is_ok());
}

#[test]
fn test_constraint_storage_and_copy() {
    let mut resolver = TypeClassResolver::default();
    resolver.add_numeric_constraint(Type::TypeVar(0), Type::Int, Type::TypeVar(1), Span(0..1));
    resolver.add_hashable_constraint(Type::TypeVar(2), Span(1..2));
    resolver.add_ord_constraint(Type::Str, Span(2..3));
    resolver.add_indexable_constraint(
        Type::Array(Box::new(Type::TypeVar(0))),
        Type::Int,
        Type::TypeVar(3),
        Span(3..4),
    );
    assert_eq!(resolver.constraint_set().len(), 4);

    let mut subst = TypeMap::new();
    subst.insert(0, Type::TypeVar(10));
    resolver.copy_constraints_with_subst(&subst);
    let cs = resolver.constraint_set();
    assert_eq!(cs.len(), 6);
    match &cs[4] {
        TypeClassConstraint::Numeric { left, right, result, span } => {
            assert_eq!(left, &Type::TypeVar(10));
            assert_eq!(right, &Type::Int);
            assert_eq!(result, &Type::TypeVar(1));
            assert_eq!(span, &Span(0..1));
        }
        other => panic!("unexpected {:?}", other),
    }
    match &cs[5] {
        TypeClassConstraint::Indexable { container, .. } => {
            assert_eq!(container, &Type::Array(Box::new(Type::TypeVar(10))));
        }
        other => panic!("unexpected {:?}", other),
    }

    resolver.clear();
    assert_eq!(resolver.constraint_set().len(), 0);
}

/// Scalars can be map keys and ordered; nothing else can.
fn scalar_instances(t: &Type, _class: TypeClassId) -> bool {
    matches!(t, Type::Int | Type::Float | Type::Bool | Type::Str | Type::Bytes)
}

#[test]
fn resolve_all_ok_when_every_constraint_holds() {
    let mut resolver = TypeClassResolver::new();
    resolver.add_indexable_constraint(
        Type::Array(Box::new(Type::Int)),
        Type::TypeVar(0),
        Type::TypeVar(1),
        Span(0..1),
    );
    resolver.add_numeric_constraint(Type::TypeVar(1), Type::Int, Type::TypeVar(2), Span(2..3));
    resolver.add_hashable_constraint(Type::TypeVar(2), Span(4..5));
    resolver.add_ord_constraint(Type::TypeVar(3), Span(6..7));
    let mut unify = Unification::new();
    assert_eq!(resolver.resolve_all(&mut unify, &scalar_instances), Ok(()));
    assert_eq!(unify.resolve(&Type::TypeVar(0)), &Type::Int);
    assert_eq!(unify.resolve(&Type::TypeVar(2)), &Type::Int);
}

#[test]
fn resolve_all_goes_on_past_failures_and_lists_them_in_order() {
    let mut resolver = TypeClassResolver::new();
    resolver.add_hashable_constraint(Type::Array(Box::new(Type::Int)), Span(0..1));
    resolver.add_indexable_constraint(Type::Int, Type::Int, Type::TypeVar(0), Span(2..3));
    resolver.add_numeric_constraint(Type::Int, Type::Int, Type::TypeVar(1), Span(4..5));
    resolver.add_ord_constraint(Type::Bool, Span(6..7));
    resolver.add_numeric_constraint(Type::Str, Type::Str, Type::Str, Span(8..9));
    let mut unify = Unification::new();
    let errors = resolver.resolve_all(&mut unify, &scalar_instances).unwrap_err();
    assert_eq!(errors.len(), 3);
    assert_eq!(errors[0].ty, "Array[Int]");
    assert_eq!(errors[0].type_class, TypeClassId::Hashable);
    assert_eq!(errors[0].span, Span(0..1));
    assert_eq!(errors[1].ty, "Int");
    assert_eq!(errors[1].type_class, TypeClassId::Indexable);
    assert_eq!(errors[2].type_class, TypeClassId::Numeric);
    assert_eq!(errors[2].span, Span(8..9));
    // the numeric constraint in between was still resolved
    assert_eq!(unify.resolve(&Type::TypeVar(1)), &Type::Int);
}

#[test]
fn hashable_and_ord_leave_variables_for_later() {
    let resolver = TypeClassResolver::new();
    let mut unify = Unification::new();
    let never = |_: &Type, _: TypeClassId| false;
    assert!(resolver.resolve_hashable(&Type::TypeVar(4), &mut unify, &Span(0..1), &never).is_ok());
    assert!(resolver.resolve_ord(&Type::TypeVar(4), &mut unify, &Span(0..1), &never).is_ok());
    let e = resolver.resolve_ord(&Type::Int, &mut unify, &Span(0..1), &never).unwrap_err();
    assert_eq!(e.ty, "Int");
    assert_eq!(e.type_class, TypeClassId::Ord);
}
