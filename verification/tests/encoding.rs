use melbi::types::encoding::decode::decode;
use melbi::types::encoding::encode::encode;
use melbi::types::encoding::error::DecodeError;
use melbi::types::encoding::view::{EncodedType, TypeKind};
use melbi::types::encoding::wire::WireTag;
use melbi::types::types::{Type, TypeTag};
use smallvec::SmallVec;

fn array(t: Type) -> Type {
    Type::Array(Box::new(t))
}

fn map(k: Type, v: Type) -> Type {
    Type::MapOf(Box::new(k), Box::new(v))
}

fn function(params: Vec<Type>, ret: Type) -> Type {
    Type::Function { params, ret: Box::new(ret) }
}

fn record(fields: Vec<(&str, Type)>) -> Type {
    Type::record(fields.into_iter().map(|(n, t)| (n.to_string(), t)).collect())
}

fn symbol(parts: Vec<&str>) -> Type {
    Type::symbol(parts.into_iter().map(|p| p.to_string()).collect())
}

fn primitives() -> Vec<Type> {
    vec![Type::Int, Type::Float, Type::Bool, Type::Str, Type::Bytes]
}

#[test]
fn test_smallvec_size() {
    println!("{}", core::mem::size_of::<SmallVec<[u8; 1]>>());
    println!("{}", core::mem::size_of::<SmallVec<[u8; 8]>>());
    println!("{}", core::mem::size_of::<SmallVec<[u8; 16]>>());
    println!("{}", core::mem::size_of::<SmallVec<[u8; 18]>>());
    println!("{}", core::mem::size_of::<SmallVec<[u8; 24]>>());
    assert!(true);
}

#[test]
fn test_discriminant_normalization() {
    let bytes = encode(&array(Type::Int));
    assert_eq!(bytes.len(), 1);
    let wire_tag = WireTag::from_byte(bytes.as_slice()[0]).unwrap();
    assert_eq!(wire_tag.type_tag, TypeTag::Array);
    let view = EncodedType::new(bytes.as_slice());
    assert!(matches!(view.view(), TypeKind::Array(_)));

    let bytes = encode(&map(Type::Str, Type::Int));
    assert_eq!(bytes.len(), 1);
    let wire_tag = WireTag::from_byte(bytes.as_slice()[0]).unwrap();
    assert_eq!(wire_tag.type_tag, TypeTag::MapOf);
    let view = EncodedType::new(bytes.as_slice());
    assert!(matches!(view.view(), TypeKind::MapOf(_, _)));
}

#[test]
fn test_navigate_packed_array_int() {
    let bytes = encode(&array(Type::Int));
    assert_eq!(bytes.len(), 1);
    let view = EncodedType::new(bytes.as_slice());
    let elem_view = view.as_array().expect("should be an array");
    assert!(matches!(elem_view.view(), TypeKind::Int));
}

#[test]
fn test_navigate_packed_map_str_int() {
    let bytes = encode(&map(Type::Str, Type::Int));
    assert_eq!(bytes.len(), 1);
    let view = EncodedType::new(bytes.as_slice());
    let (key_view, val_view) = view.as_map().expect("should be a map");
    assert!(matches!(key_view.view(), TypeKind::Str));
    assert!(matches!(val_view.view(), TypeKind::Int));
}

#[test]
fn test_navigate_all_packed_arrays() {
    let bytes = encode(&array(Type::Int));
    assert_eq!(bytes.len(), 1);
    let view = EncodedType::new(bytes.as_slice());
    assert!(matches!(view.view(), TypeKind::Array(_)));
    assert!(matches!(view.as_array().unwrap().view(), TypeKind::Int));

    let bytes = encode(&array(Type::Float));
    assert_eq!(bytes.len(), 1);
    let view = EncodedType::new(bytes.as_slice());
    assert!(matches!(view.as_array().unwrap().view(), TypeKind::Float));

    let bytes = encode(&array(Type::Bool));
    assert_eq!(bytes.len(), 1);
    let view = EncodedType::new(bytes.as_slice());
    assert!(matches!(view.as_array().unwrap().view(), TypeKind::Bool));

    let bytes = encode(&array(Type::Str));
    assert_eq!(bytes.len(), 1);
    let view = EncodedType::new(bytes.as_slice());
    assert!(matches!(view.as_array().unwrap().view(), TypeKind::Str));

    let bytes = encode(&array(Type::Bytes));
    assert_eq!(bytes.len(), 1);
    let view = EncodedType::new(bytes.as_slice());
    assert!(matches!(view.as_array().unwrap().view(), TypeKind::Bytes));
}

#[test]
fn test_navigate_all_packed_maps() {
    let bytes = encode(&map(Type::Int, Type::Int));
    assert_eq!(bytes.len(), 1);
    let view = EncodedType::new(bytes.as_slice());
    assert!(matches!(view.view(), TypeKind::MapOf(_, _)));
    let (k, v) = view.as_map().unwrap();
    assert!(matches!(k.view(), TypeKind::Int));
    assert!(matches!(v.view(), TypeKind::Int));

    let bytes = encode(&map(Type::Str, Type::Float));
    assert_eq!(bytes.len(), 1);
    let view = EncodedType::new(bytes.as_slice());
    let (k, v) = view.as_map().unwrap();
    assert!(matches!(k.view(), TypeKind::Str));
    assert!(matches!(v.view(), TypeKind::Float));

    let bytes = encode(&map(Type::Bool, Type::Bytes));
    assert_eq!(bytes.len(), 1);
    let view = EncodedType::new(bytes.as_slice());
    let (k, v) = view.as_map().unwrap();
    assert!(matches!(k.view(), TypeKind::Bool));
    assert!(matches!(v.view(), TypeKind::Bytes));
}

#[test]
fn test_decode_via_typeview_primitives() {
    for ty in primitives() {
        let bytes = encode(&ty);
        assert_eq!(decode(bytes.as_slice()).unwrap(), ty);
    }
}

#[test]
fn test_decode_via_typeview_packed_array() {
    let ty = array(Type::Int);
    let bytes = encode(&ty);
    assert_eq!(decode(bytes.as_slice()).unwrap(), ty);
}

#[test]
fn test_decode_via_typeview_packed_map() {
    let ty = map(Type::Str, Type::Int);
    let bytes = encode(&ty);
    assert_eq!(decode(bytes.as_slice()).unwrap(), ty);
}

#[test]
fn test_decode_via_typeview_complex() {
    let ty = function(
        vec![
            map(Type::Str, array(Type::Int)),
            record(vec![("result", Type::Bool), ("count", Type::Int)]),
        ],
        symbol(vec!["success", "error"]),
    );
    let bytes = encode(&ty);
    assert_eq!(decode(bytes.as_slice()).unwrap(), ty);
}

#[test]
fn test_lenient_decode_non_packed_array_int() {
    let array_byte = WireTag::to_wire_byte(TypeTag::Array);
    let int_byte = WireTag::to_wire_byte(TypeTag::Int);
    let bytes = vec![array_byte, 1, 0, int_byte];
    assert_eq!(decode(&bytes).unwrap(), array(Type::Int));
}

#[test]
fn test_lenient_decode_non_packed_map() {
    let map_byte = WireTag::to_wire_byte(TypeTag::MapOf);
    let str_byte = WireTag::to_wire_byte(TypeTag::Str);
    let int_byte = WireTag::to_wire_byte(TypeTag::Int);
    let bytes = vec![map_byte, 2, 0, str_byte, int_byte];
    assert_eq!(decode(&bytes).unwrap(), map(Type::Str, Type::Int));
}

#[test]
fn test_both_encodings_intern_same() {
    let ty = array(Type::Int);
    let canonical_bytes = encode(&ty);
    assert_eq!(canonical_bytes.len(), 1);
    let array_byte = WireTag::to_wire_byte(TypeTag::Array);
    let int_byte = WireTag::to_wire_byte(TypeTag::Int);
    let alternative_bytes = vec![array_byte, 1, 0, int_byte];
    let decoded_canonical = decode(canonical_bytes.as_slice()).unwrap();
    let decoded_alternative = decode(&alternative_bytes).unwrap();
    assert_eq!(decoded_canonical, ty);
    assert_eq!(decoded_alternative, ty);
    assert_eq!(decoded_canonical, decoded_alternative);
}

#[test]
fn test_primitives_round_trip() {
    for ty in primitives() {
        let bytes = encode(&ty);
        assert_eq!(decode(bytes.as_slice()).unwrap(), ty);
    }
}

#[test]
fn test_typevar_round_trip() {
    for id in [0u16, 15, 31, 32, 100, 1000] {
        let ty = Type::TypeVar(id);
        let bytes = encode(&ty);
        assert_eq!(decode(bytes.as_slice()).unwrap(), ty);
    }
}

#[test]
fn test_record_round_trip() {
    let ty = record(vec![("age", Type::Int), ("name", Type::Str)]);
    let bytes = encode(&ty);
    assert_eq!(decode(bytes.as_slice()).unwrap(), ty);
}

#[test]
fn test_function_round_trip() {
    let ty = function(vec![Type::Int, Type::Str], Type::Bool);
    let bytes = encode(&ty);
    assert_eq!(decode(bytes.as_slice()).unwrap(), ty);
}

#[test]
fn test_symbol_round_trip() {
    let ty = symbol(vec!["error", "pending", "success"]);
    let bytes = encode(&ty);
    assert_eq!(decode(bytes.as_slice()).unwrap(), ty);
}

#[test]
fn test_navigate_non_packed_array() {
    let bytes = encode(&array(array(Type::Int)));
    let view = EncodedType::new(bytes.as_slice());
    let elem_view = view.as_array().unwrap();
    let inner_elem = elem_view.as_array().unwrap();
    assert!(matches!(inner_elem.view(), TypeKind::Int));
}

#[test]
fn test_navigate_non_packed_map() {
    let bytes = encode(&map(array(Type::Int), Type::Str));
    let view = EncodedType::new(bytes.as_slice());
    let (key, val) = view.as_map().unwrap();
    assert!(matches!(key.view(), TypeKind::Array(_)));
    assert!(matches!(val.view(), TypeKind::Str));
}

#[test]
fn test_navigate_record() {
    let bytes = encode(&record(vec![("age", Type::Int), ("name", Type::Str)]));
    let view = EncodedType::new(bytes.as_slice());
    let mut it = view.as_record().unwrap();
    let mut fields = Vec::new();
    while let Some(r) = it.next() {
        fields.push(r.unwrap());
    }
    assert_eq!(fields.len(), 2);
    assert_eq!(fields[0].0, "age");
    assert!(matches!(fields[0].1.view(), TypeKind::Int));
    assert_eq!(fields[1].0, "name");
    assert!(matches!(fields[1].1.view(), TypeKind::Str));
}

#[test]
fn test_navigate_function() {
    let bytes = encode(&function(vec![Type::Int, Type::Str], Type::Bool));
    let view = EncodedType::new(bytes.as_slice());
    let (ret, mut params_iter) = view.as_function().unwrap();
    let mut params = Vec::new();
    while let Some(r) = params_iter.next() {
        params.push(r.unwrap());
    }
    assert_eq!(params.len(), 2);
    assert!(matches!(params[0].view(), TypeKind::Int));
    assert!(matches!(params[1].view(), TypeKind::Str));
    assert!(matches!(ret.view(), TypeKind::Bool));
}

#[test]
fn test_navigate_symbol() {
    let bytes = encode(&symbol(vec!["success", "error", "pending"]));
    let view = EncodedType::new(bytes.as_slice());
    let mut it = view.as_symbol().unwrap();
    let mut parts = Vec::new();
    while let Some(r) = it.next() {
        parts.push(r.unwrap());
    }
    assert_eq!(parts.len(), 3);
    assert_eq!(parts[0], "error");
    assert_eq!(parts[1], "pending");
    assert_eq!(parts[2], "success");
}

#[test]
fn test_decode_empty_buffer() {
    let result = decode(&[]);
    assert!(matches!(result, Err(DecodeError::Truncated { .. })));
}

#[test]
fn test_decode_trailing_bytes() {
    let mut bytes = encode(&Type::Int).as_slice().to_vec();
    bytes.push(0xFF);
    let result = decode(&bytes);
    assert!(matches!(result, Err(DecodeError::TrailingBytes { .. })));
}

#[test]
fn test_decode_unknown_discriminant() {
    let bytes = vec![37];
    let result = decode(&bytes);
    assert!(matches!(result, Err(DecodeError::UnknownDiscriminant { .. })));
}

#[test]
fn test_decode_truncated_composite() {
    let array_byte = WireTag::to_wire_byte(TypeTag::Array);
    let bytes = vec![array_byte, 5, 0];
    let result = decode(&bytes);
    assert!(matches!(result, Err(DecodeError::Truncated { .. })));
}

#[test]
fn encoding_test_empty_record() {
    let ty = record(vec![]);
    let bytes = encode(&ty);
    assert_eq!(decode(bytes.as_slice()).unwrap(), ty);
}

#[test]
fn test_function_no_params() {
    let ty = function(vec![], Type::Int);
    let bytes = encode(&ty);
    assert_eq!(decode(bytes.as_slice()).unwrap(), ty);
}

#[test]
fn test_deeply_nested() {
    let mut ty = Type::Int;
    for _ in 0..100 {
        ty = array(ty);
    }
    let bytes = encode(&ty);
    assert_eq!(decode(bytes.as_slice()).unwrap(), ty);
}

#[test]
fn test_unicode_field_names() {
    let ty = record(vec![("name", Type::Str), ("名前", Type::Str), ("🎉", Type::Bool)]);
    let bytes = encode(&ty);
    assert_eq!(decode(bytes.as_slice()).unwrap(), ty);
}

#[test]
fn test_encode_deterministic() {
    let ty = function(vec![map(Type::Str, Type::Int)], array(Type::Bool));
    let bytes1 = encode(&ty);
    let bytes2 = encode(&ty);
    let bytes3 = encode(&ty);
    assert_eq!(bytes1.as_slice(), bytes2.as_slice());
    assert_eq!(bytes2.as_slice(), bytes3.as_slice());
}

#[test]
fn decode_error_messages() {
    assert_eq!(
        DecodeError::Truncated { offset: 3, needed: 2 }.to_string(),
        "truncated at offset 3: need 2 more bytes"
    );
    assert_eq!(
        DecodeError::TrailingBytes { offset: 1, remaining: 1 }.to_string(),
        "trailing bytes at offset 1: 1 bytes remaining"
    );
    assert_eq!(
        DecodeError::UnknownDiscriminant { discriminant: 37, offset: 0 }.to_string(),
        "unknown discriminant 37 at offset 0"
    );
}

#[test]
fn equal_types_have_equal_bytes() {
    let a = record(vec![("b", Type::Int), ("a", Type::Str)]);
    let b = record(vec![("a", Type::Str), ("b", Type::Int)]);
    assert_eq!(encode(&a).as_slice(), encode(&b).as_slice());
    assert_ne!(encode(&a).as_slice(), encode(&array(Type::Int)).as_slice());
}

#[test]
fn unsorted_record_and_symbol_decode_sorted() {
    let unsorted = Type::Record(vec![
        ("b".to_string(), Type::Int),
        ("a".to_string(), Type::Symbol(vec!["z".to_string(), "y".to_string()])),
    ]);
    let bytes = encode(&unsorted);
    let expected = record(vec![("a", symbol(vec!["y", "z"])), ("b", Type::Int)]);
    assert_eq!(decode(bytes.as_slice()).unwrap(), expected);
}
