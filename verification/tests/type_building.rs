use melbi::types::manager::TypeManager;
use melbi::types::traits::display_type;
use melbi::types::types::Type;

fn array(t: Type) -> Type {
    Type::Array(Box::new(t))
}

fn map(k: Type, v: Type) -> Type {
    Type::MapOf(Box::new(k), Box::new(v))
}

fn function(params: Vec<Type>, ret: Type) -> Type {
    Type::Function { params, ret: Box::new(ret) }
}

fn record(fields: Vec<(&str, Type)>) -> Type {
    Type::record(fields.into_iter().map(|(n, t)| (n.to_string(), t)).collect())
}

fn symbol(parts: &[&str]) -> Type {
    Type::symbol(parts.iter().map(|p| p.to_string()).collect())
}

#[test]
fn manager_test_interning() {
    assert_eq!(Type::Int, Type::Int);
    assert_eq!(Type::Float, Type::Float);
    assert_ne!(Type::Int, Type::Float);
}

#[test]
fn test_alpha_convert_no_typevars() {
    let mut manager = TypeManager::new();
    let func = function(vec![Type::Int], Type::Float);
    let converted = manager.alpha_convert(&func);
    assert_eq!(converted, func);
}

#[test]
fn manager_test_test_interning() {
    let int_type = Type::Int;
    let float_type = Type::Float;
    assert_eq!(int_type, Type::Int);
    assert_eq!(float_type, Type::Float);
}

#[test]
fn test_interning_record() {
    let record_type = record(vec![("x", Type::Int), ("y", Type::Float)]);
    let same_record_type = record(vec![("x", Type::Int), ("y", Type::Float)]);
    assert_eq!(record_type, same_record_type);
    let record_type_unordered = record(vec![("y", Type::Float), ("x", Type::Int)]);
    assert_eq!(record_type, record_type_unordered);
}

#[test]
fn test_interning_primitives() {
    assert_eq!(Type::Bool, Type::Bool);
    assert_eq!(Type::Str, Type::Str);
    assert_eq!(Type::Bytes, Type::Bytes);
}

#[test]
fn test_interning_array() {
    let int_array = array(Type::Int);
    assert_eq!(int_array, array(Type::Int));
    let float_array = array(Type::Float);
    assert_ne!(int_array, float_array);
    let nested_array = array(array(Type::Int));
    assert_eq!(nested_array, array(array(Type::Int)));
}

#[test]
fn test_interning_map() {
    let str_to_int = map(Type::Str, Type::Int);
    assert_eq!(str_to_int, map(Type::Str, Type::Int));
    assert_ne!(str_to_int, map(Type::Str, Type::Float));
    assert_ne!(str_to_int, map(Type::Int, Type::Str));
}

#[test]
fn test_interning_function() {
    let func1 = function(vec![Type::Int], Type::Bool);
    assert_eq!(func1, function(vec![Type::Int], Type::Bool));
    assert_ne!(func1, function(vec![Type::Int], Type::Float));
    let func3 = function(vec![Type::Int, Type::Float], Type::Str);
    assert_eq!(func3, function(vec![Type::Int, Type::Float], Type::Str));
    assert_ne!(func3, function(vec![Type::Float, Type::Int], Type::Str));
    assert_eq!(function(vec![], Type::Bool), function(vec![], Type::Bool));
}

#[test]
fn test_interning_symbol() {
    let sym1 = symbol(&["red", "green", "blue"]);
    assert_eq!(sym1, symbol(&["red", "green", "blue"]));
    assert_eq!(sym1, symbol(&["blue", "red", "green"]));
    assert_ne!(sym1, symbol(&["red", "green"]));
    assert_eq!(symbol(&["single"]), symbol(&["single"]));
}

#[test]
fn test_interning_complex_types() {
    let people_array = array(record(vec![("name", Type::Str), ("age", Type::Int)]));
    let same_people_array = array(record(vec![("name", Type::Str), ("age", Type::Int)]));
    assert_eq!(people_array, same_people_array);

    let func = function(vec![Type::Str], map(Type::Str, Type::Int));
    assert_eq!(func, function(vec![Type::Str], map(Type::Str, Type::Int)));

    let complex_record =
        record(vec![("data", array(Type::Int)), ("lookup", map(Type::Str, Type::Float))]);
    let same_complex_record =
        record(vec![("lookup", map(Type::Str, Type::Float)), ("data", array(Type::Int))]);
    assert_eq!(complex_record, same_complex_record);
}

#[test]
fn test_display_primitives() {
    assert_eq!(display_type(&Type::Int), "Int");
    assert_eq!(display_type(&Type::Float), "Float");
    assert_eq!(display_type(&Type::Bool), "Bool");
    assert_eq!(display_type(&Type::Str), "Str");
    assert_eq!(display_type(&Type::Bytes), "Bytes");
}

#[test]
fn test_display_array() {
    assert_eq!(display_type(&array(Type::Int)), "Array[Int]");
    assert_eq!(display_type(&array(Type::Str)), "Array[Str]");
    assert_eq!(display_type(&array(array(Type::Int))), "Array[Array[Int]]");
}

#[test]
fn test_display_map() {
    assert_eq!(display_type(&map(Type::Str, Type::Int)), "Map[Str, Int]");
    assert_eq!(display_type(&map(Type::Int, Type::Float)), "Map[Int, Float]");
    assert_eq!(display_type(&map(Type::Str, array(Type::Int))), "Map[Str, Array[Int]]");
}

#[test]
fn test_display_record() {
    let person = record(vec![("name", Type::Str), ("age", Type::Int)]);
    assert_eq!(display_type(&person), "Record[age: Int, name: Str]");
    assert_eq!(display_type(&record(vec![("id", Type::Int)])), "Record[id: Int]");
    let complex =
        record(vec![("data", array(Type::Int)), ("lookup", map(Type::Str, Type::Float))]);
    assert_eq!(display_type(&complex), "Record[data: Array[Int], lookup: Map[Str, Float]]");
}

#[test]
fn test_display_function() {
    let func1 = function(vec![Type::Int], Type::Bool);
    assert_eq!(display_type(&func1), "(Int) => Bool");
    let func2 = function(vec![Type::Int, Type::Str, Type::Float], Type::Bool);
    assert_eq!(display_type(&func2), "(Int, Str, Float) => Bool");
    assert_eq!(display_type(&function(vec![], Type::Int)), "() => Int");
    let func4 = function(vec![Type::Int], function(vec![Type::Int], Type::Bool));
    assert_eq!(display_type(&func4), "(Int) => (Int) => Bool");
    let func5 = function(vec![Type::Str], array(Type::Int));
    assert_eq!(display_type(&func5), "(Str) => Array[Int]");
}

#[test]
fn test_display_symbol() {
    assert_eq!(display_type(&symbol(&["red", "green", "blue"])), "Symbol[blue|green|red]");
    assert_eq!(display_type(&symbol(&["single"])), "Symbol[single]");
    assert_eq!(display_type(&symbol(&["zebra", "apple", "monkey"])), "Symbol[apple|monkey|zebra]");
}

#[test]
fn test_display_complex_types() {
    let people_array = array(record(vec![("name", Type::Str), ("age", Type::Int)]));
    assert_eq!(display_type(&people_array), "Array[Record[age: Int, name: Str]]");
    let func = function(vec![Type::Str], map(Type::Str, Type::Int));
    assert_eq!(display_type(&func), "(Str) => Map[Str, Int]");
    let complex_record = record(vec![
        ("data", array(Type::Int)),
        ("lookup", map(Type::Str, Type::Float)),
        ("transform", function(vec![Type::Int], Type::Str)),
    ]);
    assert_eq!(
        display_type(&complex_record),
        "Record[data: Array[Int], lookup: Map[Str, Float], transform: (Int) => Str]"
    );
    let str_to_func = map(Type::Str, function(vec![Type::Int], Type::Bool));
    assert_eq!(display_type(&str_to_func), "Map[Str, (Int) => Bool]");
}
