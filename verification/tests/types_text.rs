use melbi::ast::TypeExpr;
use melbi::types::from_parser::{type_expr_to_type, TypeConversionError};
use melbi::types::traits::display_type;
use melbi::types::type_scheme::TypeScheme;
use melbi::types::types::Type;

fn path(p: &str) -> TypeExpr {
    TypeExpr::Path(p.to_string())
}

fn param(p: &str, params: Vec<TypeExpr>) -> TypeExpr {
    TypeExpr::Parametrized { path: p.to_string(), params }
}

fn arr(t: Type) -> Type {
    Type::Array(Box::new(t))
}

#[test]
fn test_simple_types() {
    let cases = [
        (path("Int"), Type::Int),
        (path("Float"), Type::Float),
        (path("Bool"), Type::Bool),
        (path("String"), Type::Str),
        (path("Bytes"), Type::Bytes),
    ];
    for (type_expr, expected) in cases {
        let result = type_expr_to_type(&type_expr).unwrap();
        assert_eq!(result, expected);
    }
}

#[test]
fn test_unknown_type() {
    let result = type_expr_to_type(&path("UnknownType"));
    assert!(result.is_err());
    let err = result.unwrap_err();
    assert_eq!(err, TypeConversionError::UnknownType { name: "UnknownType".to_string() });
    assert_eq!(err.to_string(), "Unknown type: UnknownType");
}

#[test]
fn test_array_type() {
    let result = type_expr_to_type(&param("Array", vec![path("Int")])).unwrap();
    assert_eq!(result, arr(Type::Int));
}

#[test]
fn test_map_type() {
    let result = type_expr_to_type(&param("Map", vec![path("String"), path("Int")])).unwrap();
    assert_eq!(result, Type::MapOf(Box::new(Type::Str), Box::new(Type::Int)));
}

#[test]
fn test_nested_parametrized_type() {
    let t = param("Array", vec![param("Array", vec![path("Int")])]);
    let result = type_expr_to_type(&t).unwrap();
    assert_eq!(result, arr(arr(Type::Int)));
}

#[test]
fn test_record_type() {
    let t = TypeExpr::Record(vec![
        ("name".to_string(), path("String")),
        ("age".to_string(), path("Int")),
    ]);
    let result = type_expr_to_type(&t).unwrap();
    assert_eq!(
        result,
        Type::record(vec![("name".to_string(), Type::Str), ("age".to_string(), Type::Int)])
    );
    assert_eq!(
        result,
        Type::Record(vec![("age".to_string(), Type::Int), ("name".to_string(), Type::Str)])
    );
}

#[test]
fn test_array_wrong_param_count() {
    let result = type_expr_to_type(&param("Array", vec![path("Int"), path("String")]));
    let err = result.unwrap_err();
    assert_eq!(
        err,
        TypeConversionError::WrongParameterCount {
            type_label: "Array".to_string(),
            expected: 1,
            got: 2
        }
    );
    assert_eq!(err.to_string(), "Array type expects 1 type parameter, got 2");
}

#[test]
fn test_map_wrong_param_count() {
    let result = type_expr_to_type(&param("Map", vec![path("Int")]));
    let err = result.unwrap_err();
    assert_eq!(err.to_string(), "Map type expects 2 type parameters, got 1");
}

#[test]
fn test_first_error_wins() {
    let t = TypeExpr::Record(vec![
        ("a".to_string(), path("Int")),
        ("b".to_string(), path("Nope")),
        ("c".to_string(), param("Array", vec![])),
    ]);
    let err = type_expr_to_type(&t).unwrap_err();
    assert_eq!(err, TypeConversionError::UnknownType { name: "Nope".to_string() });
    let unknown_param = param("Pair", vec![path("Int")]);
    assert_eq!(
        type_expr_to_type(&unknown_param).unwrap_err(),
        TypeConversionError::UnknownType { name: "Pair".to_string() }
    );
}

#[test]
fn test_display_primitives_and_vars() {
    assert_eq!(display_type(&Type::Int), "Int");
    assert_eq!(display_type(&Type::Float), "Float");
    assert_eq!(display_type(&Type::Bool), "Bool");
    assert_eq!(display_type(&Type::Str), "Str");
    assert_eq!(display_type(&Type::Bytes), "Bytes");
    assert_eq!(display_type(&Type::TypeVar(0)), "_0");
    assert_eq!(display_type(&Type::TypeVar(65535)), "_65535");
}

#[test]
fn test_display_composites() {
    assert_eq!(display_type(&arr(Type::Int)), "Array[Int]");
    assert_eq!(
        display_type(&Type::MapOf(Box::new(Type::Str), Box::new(arr(Type::Bool)))),
        "Map[Str, Array[Bool]]"
    );
    let rec = Type::record(vec![("b".to_string(), Type::Str), ("a".to_string(), Type::Int)]);
    assert_eq!(display_type(&rec), "Record[a: Int, b: Str]");
    assert_eq!(display_type(&Type::Record(vec![])), "Record[]");
    let f = Type::Function { params: vec![Type::Int, Type::TypeVar(1)], ret: Box::new(Type::Bool) };
    assert_eq!(display_type(&f), "(Int, _1) => Bool");
    let g = Type::Function { params: vec![], ret: Box::new(Type::Int) };
    assert_eq!(display_type(&g), "() => Int");
    let sym = Type::symbol(vec!["b".to_string(), "a".to_string(), "c".to_string()]);
    assert_eq!(display_type(&sym), "Symbol[a|b|c]");
}

#[test]
fn test_monomorphic_scheme() {
    let scheme = TypeScheme::new(vec![], Type::Int);
    assert!(scheme.is_monomorphic());
    assert_eq!(scheme.quantified.len(), 0);
    assert_eq!(scheme.ty, Type::Int);
}

#[test]
fn test_polymorphic_scheme() {
    let scheme = TypeScheme::new(vec![0], Type::TypeVar(0));
    assert!(!scheme.is_monomorphic());
    assert_eq!(scheme.quantified.len(), 1);
    assert_eq!(scheme.quantified[0], 0);
}

#[test]
fn test_polymorphic_function_scheme() {
    let f = Type::Function { params: vec![Type::TypeVar(0)], ret: Box::new(Type::TypeVar(0)) };
    let scheme = TypeScheme::new(vec![0], f);
    assert!(!scheme.is_monomorphic());
    assert_eq!(scheme.quantified, vec![0]);
}
