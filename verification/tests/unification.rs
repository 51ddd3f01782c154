use melbi::types::traits::display_type;
use melbi::types::types::Type;
use melbi::types::unification::{Error, Unification};

fn arr(t: Type) -> Type {
    Type::Array(Box::new(t))
}

fn map(k: Type, v: Type) -> Type {
    Type::MapOf(Box::new(k), Box::new(v))
}

fn func(params: Vec<Type>, ret: Type) -> Type {
    Type::Function { params, ret: Box::new(ret) }
}

#[test]
fn test_unifies_to_success() {
    let mut unify = Unification::new();
    let map_ty1 = map(Type::Int, Type::Str);
    let map_ty2 = map(Type::Int, Type::Str);
    let result = unify.unifies_to(&map_ty1, &map_ty2);
    assert!(result.is_ok(), "Expected types to unify");
    assert_eq!(result.unwrap(), map(Type::Int, Type::Str));
}

#[test]
fn test_unifies_to_failure() {
    let mut unify = Unification::new();
    let map_ty1 = map(Type::Int, Type::Int);
    let map_ty2 = map(Type::Int, Type::Str);
    let result = unify.unifies_to(&map_ty1, &map_ty2);
    assert!(result.is_err(), "Expected types not to unify");
    match result.unwrap_err() {
        Error::TypeMismatch { left, right } => {
            assert_eq!(left, "Int");
            assert_eq!(right, "Str");
        }
        other => panic!("unexpected error {:?}", other),
    }
}

#[test]
fn test_unify_var_with_array() {
    let mut unify = Unification::new();
    let t1 = arr(Type::TypeVar(0));
    let t2 = arr(Type::Int);
    let result = unify.unifies_to(&t1, &t2).unwrap();
    assert_eq!(result, arr(Type::Int));
    assert_eq!(unify.resolve(&Type::TypeVar(0)), &Type::Int);
}

#[test]
fn test_resolve_follows_chains() {
    let mut unify = Unification::new();
    unify.unifies_to(&Type::TypeVar(0), &Type::TypeVar(1)).unwrap();
    unify.unifies_to(&Type::TypeVar(1), &Type::TypeVar(2)).unwrap();
    unify.unifies_to(&Type::TypeVar(2), &Type::Bool).unwrap();
    assert_eq!(unify.resolve(&Type::TypeVar(0)), &Type::Bool);
    assert_eq!(unify.resolve(&Type::TypeVar(1)), &Type::Bool);
    assert_eq!(unify.resolve(&Type::TypeVar(7)), &Type::TypeVar(7));
}

#[test]
fn test_occurs_check() {
    let mut unify = Unification::new();
    let t1 = Type::TypeVar(0);
    let t2 = arr(Type::TypeVar(0));
    match unify.unifies_to(&t1, &t2) {
        Err(Error::OccursCheckFailed { type_var, ty }) => {
            assert_eq!(type_var, "_0");
            assert_eq!(ty, "Array[_0]");
        }
        other => panic!("unexpected result {:?}", other),
    }
    // Through a binding as well.
    let mut unify = Unification::new();
    unify.unifies_to(&Type::TypeVar(1), &arr(Type::TypeVar(2))).unwrap();
    assert!(matches!(
        unify.unifies_to(&Type::TypeVar(2), &Type::TypeVar(1)),
        Err(Error::OccursCheckFailed { .. })
    ));
}

#[test]
fn test_records() {
    let mut unify = Unification::new();
    let r1 = Type::record(vec![("a".to_string(), Type::TypeVar(0)), ("b".to_string(), Type::Str)]);
    let r2 = Type::record(vec![("a".to_string(), Type::Int), ("b".to_string(), Type::TypeVar(1))]);
    let u = unify.unifies_to(&r1, &r2).unwrap();
    assert_eq!(display_type(&u), "Record[a: Int, b: Str]");
    assert_eq!(unify.resolve(&Type::TypeVar(1)), &Type::Str);

    let r3 = Type::record(vec![("a".to_string(), Type::Int)]);
    assert!(matches!(
        unify.unifies_to(&r1, &r3),
        Err(Error::FieldCountMismatch { expected: 2, found: 1 })
    ));
    let r4 = Type::record(vec![("a".to_string(), Type::Int), ("c".to_string(), Type::Str)]);
    match unify.unifies_to(&r1, &r4) {
        Err(Error::FieldNameMismatch { expected, found }) => {
            assert_eq!(expected, "b");
            assert_eq!(found, "c");
        }
        other => panic!("unexpected result {:?}", other),
    }
}

#[test]
fn test_functions() {
    let mut unify = Unification::new();
    let f1 = func(vec![Type::TypeVar(0), Type::Bool], Type::TypeVar(0));
    let f2 = func(vec![Type::Float, Type::Bool], Type::TypeVar(3));
    let u = unify.unifies_to(&f1, &f2).unwrap();
    assert_eq!(display_type(&u), "(Float, Bool) => Float");
    assert_eq!(unify.resolve(&Type::TypeVar(3)), &Type::Float);

    let f3 = func(vec![Type::Int], Type::Int);
    assert!(matches!(
        unify.unifies_to(&f1, &f3),
        Err(Error::FunctionParamCountMismatch { expected: 2, found: 1 })
    ));
}

#[test]
fn test_symbols() {
    let mut unify = Unification::new();
    let s1 = Type::symbol(vec!["b".to_string(), "a".to_string()]);
    let s2 = Type::symbol(vec!["a".to_string(), "b".to_string()]);
    let s3 = Type::symbol(vec!["a".to_string()]);
    assert!(unify.unifies_to(&s1, &s2).is_ok());
    match unify.unifies_to(&s1, &s3) {
        Err(Error::TypeMismatch { left, right }) => {
            assert_eq!(left, "Symbol[a|b]");
            assert_eq!(right, "Symbol[a]");
        }
        other => panic!("unexpected result {:?}", other),
    }
}

#[test]
fn test_bindings_stay_after_error() {
    let mut unify = Unification::new();
    let t1 = map(Type::TypeVar(0), Type::Int);
    let t2 = map(Type::Str, Type::Bool);
    assert!(unify.unifies_to(&t1, &t2).is_err());
    assert_eq!(unify.resolve(&Type::TypeVar(0)), &Type::Str);
}

#[test]
fn test_unify_is_symmetric_on_results() {
    let mut a = Unification::new();
    let mut b = Unification::new();
    let t1 = map(Type::TypeVar(0), arr(Type::TypeVar(1)));
    let t2 = map(Type::Int, Type::TypeVar(2));
    let u1 = a.unifies_to(&t1, &t2).unwrap();
    let u2 = b.unifies_to(&t2, &t1).unwrap();
    assert_eq!(display_type(&u1), "Map[Int, Array[_1]]");
    assert_eq!(display_type(&u2), "Map[Int, Array[_1]]");
}

use melbi::types::unification::unify::TypeMap;
use melbi::types::unification::var_set::VarSet;

#[test]
fn test_free_type_vars_empty() {
    let unify = Unification::new();
    let vars = unify.free_type_vars(&Type::Int);
    assert!(vars.is_empty(), "Int should have no free type variables");
}

#[test]
fn test_free_type_vars_single() {
    let unify = Unification::new();
    let vars = unify.free_type_vars(&Type::TypeVar(42));
    assert_eq!(vars.len(), 1);
    assert!(vars.contains(42));
}

#[test]
fn test_free_type_vars_function() {
    let unify = Unification::new();
    let f = func(vec![Type::TypeVar(0), Type::TypeVar(1)], Type::TypeVar(0));
    let vars = unify.free_type_vars(&f);
    assert_eq!(vars.len(), 2);
    assert!(vars.contains(0));
    assert!(vars.contains(1));
}

#[test]
fn test_free_type_vars_after_unification() {
    let mut unify = Unification::new();
    let _ = unify.unifies_to(&Type::TypeVar(0), &Type::Int);
    let vars = unify.free_type_vars(&Type::TypeVar(0));
    assert!(vars.is_empty(), "TypeVar(0) resolved to Int, no free vars");
}

#[test]
fn test_generalize_monomorphic() {
    let unify = Unification::new();
    let env_vars = VarSet::new();
    let scheme = unify.generalize(&Type::Int, &env_vars);
    assert!(scheme.is_monomorphic());
    assert_eq!(scheme.ty, Type::Int);
}

#[test]
fn test_generalize_polymorphic() {
    let unify = Unification::new();
    let f = func(vec![Type::TypeVar(0)], Type::TypeVar(0));
    let env_vars = VarSet::new();
    let scheme = unify.generalize(&f, &env_vars);
    assert!(!scheme.is_monomorphic());
    assert_eq!(scheme.quantified.len(), 1);
    assert_eq!(scheme.quantified[0], 0);
    assert_eq!(scheme.ty, f);
}

#[test]
fn test_generalize_with_env_vars() {
    let unify = Unification::new();
    let f = func(vec![Type::TypeVar(0)], Type::TypeVar(1));
    let mut env_vars = VarSet::new();
    env_vars.insert(0);
    let scheme = unify.generalize(&f, &env_vars);
    assert!(!scheme.is_monomorphic());
    assert_eq!(scheme.quantified.len(), 1);
    assert_eq!(scheme.quantified[0], 1);
}

#[test]
fn test_generalize_sorts_quantified() {
    let unify = Unification::new();
    let f = func(vec![Type::TypeVar(9), Type::TypeVar(3), Type::TypeVar(9)], Type::TypeVar(5));
    let scheme = unify.generalize(&f, &VarSet::new());
    assert_eq!(scheme.quantified, vec![3, 5, 9]);
}

#[test]
fn test_substitute_follows_bindings() {
    let mut unify = Unification::new();
    unify.unifies_to(&Type::TypeVar(0), &arr(Type::TypeVar(1))).unwrap();
    let mut inst = TypeMap::new();
    inst.insert(1, Type::TypeVar(50));
    let t = map(Type::TypeVar(0), Type::TypeVar(2));
    let s = unify.substitute(&t, &inst);
    assert_eq!(s, map(arr(Type::TypeVar(50)), Type::TypeVar(2)));
}

use melbi::types::manager::TypeManager;
use melbi::types::type_scheme::TypeScheme;

fn manager_at(n: u16) -> TypeManager {
    let mut types = TypeManager::new();
    for _ in 0..n {
        types.fresh_type_var();
    }
    types
}

#[test]
fn test_instantiate_monomorphic() {
    let unify = Unification::new();
    let scheme = TypeScheme::new(vec![], Type::Int);
    let mut types = TypeManager::new();
    let instance = unify.instantiate(&scheme, &mut types);
    assert_eq!(instance, Type::Int);
    assert_eq!(types.fresh_type_var(), Type::TypeVar(0));
}

#[test]
fn test_instantiate_polymorphic() {
    let unify = Unification::new();
    let scheme = TypeScheme::new(vec![0], func(vec![Type::TypeVar(0)], Type::TypeVar(0)));
    let mut types = manager_at(42);
    let instance1 = unify.instantiate(&scheme, &mut types);
    let instance2 = unify.instantiate(&scheme, &mut types);
    assert!(matches!(instance1, Type::Function { .. }));
    assert!(matches!(instance2, Type::Function { .. }));
    assert_eq!(instance1, func(vec![Type::TypeVar(42)], Type::TypeVar(42)));
    assert_eq!(instance2, func(vec![Type::TypeVar(43)], Type::TypeVar(43)));
    assert_eq!(types.fresh_type_var(), Type::TypeVar(44));
}

#[test]
fn test_instantiate_creates_fresh_vars() {
    let mut unify = Unification::new();
    let scheme = TypeScheme::new(vec![0], func(vec![Type::TypeVar(0)], Type::TypeVar(0)));
    let mut types = manager_at(100);
    let instance1 = unify.instantiate(&scheme, &mut types);
    let instance2 = unify.instantiate(&scheme, &mut types);
    if let Type::Function { params, .. } = &instance1 {
        let _ = unify.unifies_to(&params[0], &Type::Int);
    }
    if let Type::Function { params, .. } = &instance2 {
        let resolved = unify.resolve(&params[0]);
        assert!(matches!(resolved, Type::TypeVar(_)));
    }
}

#[test]
fn test_substitute_with_nested_unification() {
    let mut unify = Unification::new();
    let _ = unify.unifies_to(&Type::TypeVar(0), &arr(Type::TypeVar(1)));
    let mut inst_subst = TypeMap::new();
    inst_subst.insert(1, Type::TypeVar(50));
    let result = unify.substitute(&arr(Type::TypeVar(0)), &inst_subst);
    assert_eq!(result, arr(arr(Type::TypeVar(50))));
}

#[test]
fn instantiate_only_renames_quantified_vars() {
    let unify = Unification::new();
    let scheme = TypeScheme::new(
        vec![3, 7],
        func(vec![Type::TypeVar(3), Type::TypeVar(9)], map(Type::TypeVar(7), Type::Str)),
    );
    let mut types = manager_at(10);
    let instance = unify.instantiate(&scheme, &mut types);
    assert_eq!(
        instance,
        func(vec![Type::TypeVar(10), Type::TypeVar(9)], map(Type::TypeVar(11), Type::Str))
    );
    assert_eq!(types.fresh_type_var(), Type::TypeVar(12));
}

#[test]
fn unify_identical_types_succeeds() {
    let mut unify = Unification::new();
    let t = func(vec![map(Type::TypeVar(4), arr(Type::Bytes))], Type::TypeVar(4));
    assert!(unify.unifies_to(&t, &t).is_ok());
}

#[test]
fn unify_count_mismatches() {
    let mut unify = Unification::new();
    let f1 = func(vec![Type::Int], Type::Int);
    let f2 = func(vec![Type::Int, Type::Int], Type::Int);
    match unify.unifies_to(&f1, &f2) {
        Err(Error::FunctionParamCountMismatch { expected, found }) => {
            assert_eq!((expected, found), (1, 2));
        }
        other => panic!("unexpected {:?}", other),
    }
    let r1 = Type::record(vec![("a".to_string(), Type::Int)]);
    let r2 = Type::record(vec![]);
    match unify.unifies_to(&r1, &r2) {
        Err(Error::FieldCountMismatch { expected, found }) => {
            assert_eq!((expected, found), (1, 0));
        }
        other => panic!("unexpected {:?}", other),
    }
}

#[test]
fn unify_returns_the_bound_type() {
    let mut unify = Unification::new();
    let t = unify.unifies_to(&arr(Type::TypeVar(0)), &arr(Type::Int)).unwrap();
    assert_eq!(t, arr(Type::Int));
    assert_eq!(*unify.resolve(&Type::TypeVar(0)), Type::Int);
    assert!(unify.free_type_vars(&Type::TypeVar(0)).is_empty());
}

#[test]
fn unify_occurs_check_texts_and_no_binding() {
    let mut unify = Unification::new();
    match unify.unifies_to(&Type::TypeVar(0), &arr(Type::TypeVar(0))) {
        Err(Error::OccursCheckFailed { type_var, ty }) => {
            assert_eq!(type_var, "_0");
            assert_eq!(ty, "Array[_0]");
        }
        other => panic!("unexpected {:?}", other),
    }
    assert_eq!(*unify.resolve(&Type::TypeVar(0)), Type::TypeVar(0));
    assert_eq!(unify.unifies_to(&Type::Int, &Type::Int).unwrap(), Type::Int);
}

#[test]
fn unify_map_value_mismatch() {
    let mut unify = Unification::new();
    let r = unify.unifies_to(&map(Type::Int, Type::Int), &map(Type::Int, Type::Str));
    assert!(matches!(r, Err(Error::TypeMismatch { .. })));
}
