use melbi::types::manager::TypeManager;
use melbi::types::compare::clone_type;
use melbi::types::types::Type;

fn func(params: Vec<Type>, ret: Type) -> Type {
    Type::Function { params, ret: Box::new(ret) }
}

#[test]
fn test_adopt_preserves_typevar_identity() {
    let mut mgr1 = TypeManager::new();
    let mut mgr2 = TypeManager::new();
    mgr2.fresh_type_var();
    mgr2.fresh_type_var();
    mgr2.fresh_type_var();

    let k = mgr1.fresh_type_var();
    let v = mgr1.fresh_type_var();
    let map = Type::MapOf(Box::new(clone_type(&k)), Box::new(clone_type(&v)));
    let tuple = Type::record(vec![
        ("map".to_string(), map),
        ("k".to_string(), k),
        ("v".to_string(), clone_type(&v)),
    ]);
    let fun = func(vec![tuple], v);

    let adopted = mgr2.adopt(&mgr1, &fun);

    if let Type::Function { params, ret } = &adopted {
        if let Type::Record(fields) = &params[0] {
            let adopted_map = &fields.iter().find(|(n, _)| n == "map").unwrap().1;
            let adopted_k = &fields.iter().find(|(n, _)| n == "k").unwrap().1;
            let adopted_v = &fields.iter().find(|(n, _)| n == "v").unwrap().1;
            if let Type::MapOf(map_k, map_v) = adopted_map {
                assert_eq!(**map_k, *adopted_k, "k typevar identity not preserved");
                assert_eq!(**map_v, *adopted_v, "v typevar identity not preserved");
            } else {
                panic!("Expected Map type in adopted record");
            }
            assert_eq!(**ret, *adopted_v, "return typevar identity not preserved");
            // Fields are sorted by name (k, map, v): `k` is met first, then
            // the value of the map.
            assert_eq!(*adopted_k, Type::TypeVar(3));
            assert_eq!(*adopted_v, Type::TypeVar(4));
        } else {
            panic!("Expected Record type in adopted function parameter");
        }
    } else {
        panic!("Expected Function type at top level");
    }
}

#[test]
fn test_alpha_convert_simple_typevar() {
    let mut manager = TypeManager::new();
    let var_a = Type::TypeVar(100);
    let converted = manager.alpha_convert(&var_a);
    assert_ne!(converted, var_a);
    assert_eq!(converted, Type::TypeVar(0));
}

#[test]
fn test_alpha_convert_function_type_same_var() {
    let mut manager = TypeManager::new();
    let var_a = Type::TypeVar(100);
    let f = func(vec![clone_type(&var_a)], clone_type(&var_a));
    let converted = manager.alpha_convert(&f);
    if let Type::Function { params, ret } = converted {
        assert_eq!(params.len(), 1);
        assert_eq!(params[0], *ret);
        assert_ne!(params[0], var_a);
    } else {
        panic!("Expected Function type after alpha_convert");
    }
}

#[test]
fn test_alpha_convert_function_type_different_vars() {
    let mut manager = TypeManager::new();
    let var_a = Type::TypeVar(100);
    let var_b = Type::TypeVar(101);
    let f = func(vec![clone_type(&var_a)], clone_type(&var_b));
    let converted = manager.alpha_convert(&f);
    if let Type::Function { params, ret } = converted {
        assert_eq!(params.len(), 1);
        assert_ne!(params[0], *ret);
        assert_ne!(params[0], var_a);
        assert_ne!(*ret, var_b);
    } else {
        panic!("Expected Function type after alpha_convert");
    }
}

#[test]
fn test_alpha_convert_complex_type() {
    let mut manager = TypeManager::new();
    let var_a = Type::TypeVar(100);
    let array_a = Type::Array(Box::new(clone_type(&var_a)));
    let map_a = Type::MapOf(Box::new(clone_type(&var_a)), Box::new(array_a));
    let f = func(vec![map_a], clone_type(&var_a));
    let converted = manager.alpha_convert(&f);
    if let Type::Function { params, ret } = converted {
        assert_eq!(params.len(), 1);
        if let Type::MapOf(key, val) = &params[0] {
            if let Type::Array(elem) = &**val {
                assert_eq!(**key, **elem);
                assert_eq!(**key, *ret);
                assert_ne!(*ret, var_a);
            } else {
                panic!("Expected Array in map value");
            }
        } else {
            panic!("Expected Map param");
        }
    } else {
        panic!("Expected Function type after alpha_convert");
    }
}

#[test]
fn alpha_convert_numbers_in_order_of_first_occurrence() {
    let mut manager = TypeManager::new();
    manager.fresh_type_var();
    let f = func(
        vec![Type::TypeVar(9), Type::TypeVar(2), Type::TypeVar(9)],
        Type::MapOf(Box::new(Type::TypeVar(5)), Box::new(Type::TypeVar(2))),
    );
    let converted = manager.alpha_convert(&f);
    assert_eq!(
        converted,
        func(
            vec![Type::TypeVar(1), Type::TypeVar(2), Type::TypeVar(1)],
            Type::MapOf(Box::new(Type::TypeVar(3)), Box::new(Type::TypeVar(2))),
        )
    );
    assert_eq!(manager.fresh_type_var(), Type::TypeVar(4));
    let plain = Type::Symbol(vec!["a".to_string()]);
    assert_eq!(manager.alpha_convert(&plain), plain);
}
