use crate::types::encoding::decode_model::{
    decode_array, decode_fields, decode_map, decode_params, decode_parts, head, header_size,
    lemma_long_payload_shorter, lemma_parts_shorter, lemma_read_string_len, spec_payload,
    long_payload, max_depth, prim_type, spec_as_array, spec_as_typevar, spec_as_function, spec_as_map,
    spec_as_record, spec_as_symbol, spec_decode, spec_decode_all, spec_encoded_len,
};
use crate::types::encoding::error::DecodeError;
use crate::types::encoding::view::{EncodedType, read_u16_le};
use crate::types::encoding::wire::{PayloadLocation, PayloadModel, WireTag, payload_model, spec_wire};
use crate::types::order::{sort_by_key, sort_strs};
use crate::types::types::{
    SpecType, Type, TypeTag, fields_model, lemma_fields_model_push, lemma_types_model_push,
    strings_model, type_model, types_model,
};
use vstd::prelude::*;

verus! {

/// A decoding result agrees with its model.
pub open spec fn result_matches(
    r: Result<(Type, usize), DecodeError>,
    s: Result<(SpecType, nat), DecodeError>,
) -> bool {
    match (r, s) {
        (Ok((t, n)), Ok((st, sn))) => t@ == st && n as nat == sn,
        (Err(e), Err(se)) => e == se,
        _ => false,
    }
}

/// The primitive type of a primitive tag.
fn prim_of(tag: TypeTag) -> (r: Type)
    ensures
        r@ == prim_type(tag),
{
    match tag {
        TypeTag::Int => Type::Int,
        TypeTag::Float => Type::Float,
        TypeTag::Bool => Type::Bool,
        TypeTag::Str => Type::Str,
        _ => Type::Bytes,
    }
}

/// Decodes the primitive type held by the static bytes of a packed array or map.
fn decode_packed(bytes: &[u8], depth: usize) -> (r: Result<Type, DecodeError>)
    requires
        bytes@.len() == 1,
        1 <= bytes@[0] <= 5,
    ensures
        match (r, crate::types::encoding::decode_model::decode_prim_at(
            crate::types::encoding::wire::byte_tag(bytes@[0]),
            depth as nat,
        )) {
            (Ok(t), Ok(st)) => t@ == st,
            (Err(e), Err(se)) => e == se,
            _ => false,
        },
{
    if depth > 1000 {
        return Err(DecodeError::TooDeep { depth });
    }
    let tag = match TypeTag::try_from(bytes[0]) {
        Ok(t) => t,
        Err(_) => TypeTag::Int,
    };
    Ok(prim_of(tag))
}

/// Decodes a whole byte sequence as one type.
pub fn decode(bytes: &[u8]) -> (r: Result<Type, DecodeError>)
    ensures
        match (r, spec_decode_all(bytes@)) {
            (Ok(t), Ok(st)) => t@ == st,
            (Err(e), Err(se)) => e == se,
            _ => false,
        },
{
    let view = EncodedType::new(bytes);
    let (ty, consumed) = decode_from_view(view, 0)?;
    proof {
        lemma_decode_consumed(bytes@, 0);
    }
    if consumed != bytes.len() {
        return Err(
            DecodeError::TrailingBytes { offset: consumed, remaining: bytes.len() - consumed },
        );
    }
    Ok(ty)
}

/// What decoding consumes fits in the bytes.
pub proof fn lemma_decode_consumed(b: Seq<u8>, depth: nat)
    ensures
        spec_decode(b, depth) matches Ok((t, n)) ==> n <= b.len(),
{
    lemma_long_payload_shorter(b);
    if depth <= max_depth() && b.len() > 0 {
        if let Ok((tag, p)) = spec_wire(b[0]) {
            if p is LongFormat && b.len() >= 3 && b.len() < 3 + header_size(b) {
                assert(long_payload(b) is None);
                assert(spec_payload(b).len() == 0);
                assert(spec_as_typevar(b) is None);
                assert(spec_as_array(b) is None);
                assert(spec_as_map(b) is None);
                assert(spec_as_record(b) is None);
                assert(spec_as_function(b) is None);
                assert(spec_as_symbol(b) is None);
            }
            assert(decode_array(b, depth) matches Ok((t, n)) ==> n <= b.len());
            assert(decode_map(b, depth) matches Ok((t, n)) ==> n <= b.len());
        }
    }
}

/// Decodes the type at the start of the view, at nesting depth `depth`: the
/// type and the number of bytes it takes.
pub fn decode_from_view<'a>(view: EncodedType<&'a [u8]>, depth: usize) -> (r: Result<
    (Type, usize),
    DecodeError,
>)
    ensures
        result_matches(r, spec_decode(view.view_bytes(), depth as nat)),
    decreases view.view_bytes().len(), 1nat,
{
    let ghost b = view.view_bytes();
    if depth > 1000 {
        return Err(DecodeError::TooDeep { depth });
    }
    let bytes = view.bytes_of();
    if bytes.len() == 0 {
        return Err(DecodeError::Truncated { offset: 0, needed: 1 });
    }
    let wire_tag = WireTag::from_byte(bytes[0])?;
    match wire_tag.type_tag {
        TypeTag::TypeVar => {
            if let PayloadLocation::PackedTypeVar(id) = wire_tag.payload {
                Ok((Type::TypeVar(id), 1))
            } else {
                let id = match view.as_typevar() {
                    Some(id) => id,
                    None => return Err(DecodeError::Truncated { offset: 0, needed: 1 }),
                };
                Ok((Type::TypeVar(id), view.encoded_len()))
            }
        },
        TypeTag::Array => decode_array_view(view, depth),
        TypeTag::MapOf => decode_map_view(view, depth),
        TypeTag::Record => decode_record_view(view, depth),
        TypeTag::Function => decode_function_view(view, depth),
        TypeTag::Symbol => decode_symbol_view(view, depth),
        _ => Ok((prim_of(wire_tag.type_tag), 1)),
    }
}

fn decode_array_view<'a>(view: EncodedType<&'a [u8]>, depth: usize) -> (r: Result<
    (Type, usize),
    DecodeError,
>)
    requires
        depth <= 1000,
        head(view.view_bytes()) matches Some((TypeTag::Array, _)),
    ensures
        result_matches(r, decode_array(view.view_bytes(), depth as nat)),
    decreases view.view_bytes().len(), 0nat,
{
    let ghost b = view.view_bytes();
    let bytes = view.bytes_of();
    let wire_tag = WireTag::from_byte(bytes[0])?;
    let elem_view = match view.as_array() {
        Some(v) => v,
        None => return Err(DecodeError::Truncated { offset: 0, needed: 1 }),
    };
    if let PayloadLocation::PackedArray(elem_bytes) = wire_tag.payload {
        let elem = decode_packed(elem_bytes, depth + 1)?;
        return Ok((Type::Array(Box::new(elem)), 1));
    }
    let (elem, elem_consumed) = decode_from_view(elem_view, depth + 1)?;
    let claimed = read_u16_le(&bytes[1..3]) as usize;
    if elem_consumed != claimed {
        return Err(
            DecodeError::SizeMismatch { offset: 0, claimed: claimed, actual: elem_consumed },
        );
    }
    Ok((Type::Array(Box::new(elem)), view.encoded_len()))
}

fn decode_map_view<'a>(view: EncodedType<&'a [u8]>, depth: usize) -> (r: Result<
    (Type, usize),
    DecodeError,
>)
    requires
        depth <= 1000,
        head(view.view_bytes()) matches Some((TypeTag::MapOf, _)),
    ensures
        result_matches(r, decode_map(view.view_bytes(), depth as nat)),
    decreases view.view_bytes().len(), 0nat,
{
    let ghost b = view.view_bytes();
    let bytes = view.bytes_of();
    let wire_tag = WireTag::from_byte(bytes[0])?;
    if let PayloadLocation::PackedMap(key_bytes, val_bytes) = wire_tag.payload {
        let key = decode_packed(key_bytes, depth + 1)?;
        let val = decode_packed(val_bytes, depth + 1)?;
        return Ok((Type::MapOf(Box::new(key), Box::new(val)), 1));
    }
    let (key_view, val_view) = match view.as_map() {
        Some(kv) => kv,
        None => return Err(DecodeError::Truncated { offset: 0, needed: 1 }),
    };
    let (key, key_consumed) = decode_from_view(key_view, depth + 1)?;
    let (val, val_consumed) = decode_from_view(val_view, depth + 1)?;
    proof {
        lemma_decode_consumed(key_view.view_bytes(), (depth + 1) as nat);
        lemma_decode_consumed(val_view.view_bytes(), (depth + 1) as nat);
    }
    let claimed = read_u16_le(&bytes[1..3]) as usize;
    let actual = key_consumed + val_consumed;
    if actual != claimed {
        return Err(DecodeError::SizeMismatch { offset: 0, claimed: claimed, actual: actual });
    }
    Ok((Type::MapOf(Box::new(key), Box::new(val)), view.encoded_len()))
}

fn decode_record_view<'a>(view: EncodedType<&'a [u8]>, depth: usize) -> (r: Result<
    (Type, usize),
    DecodeError,
>)
    requires
        depth <= 1000,
        head(view.view_bytes()) matches Some((TypeTag::Record, _)),
    ensures
        result_matches(r, spec_decode(view.view_bytes(), depth as nat)),
    decreases view.view_bytes().len(), 0nat,
{
    let ghost b = view.view_bytes();
    let mut iter = match view.as_record() {
        Some(it) => it,
        None => return Err(DecodeError::Truncated { offset: 0, needed: 1 }),
    };
    proof {
        lemma_parts_shorter(b);
    }
    let ghost rest0 = iter.payload@;
    let ghost count0 = iter.remaining as nat;
    let mut fields: Vec<(String, Type)> = Vec::new();
    loop
        invariant_except_break
            b == view.view_bytes(),
            spec_as_record(b) == Some((count0, rest0)),
            iter.payload@.len() < b.len(),
            depth <= 1000,
            decode_fields(b, rest0, count0, depth as nat) == match decode_fields(
                b,
                iter.payload@,
                iter.remaining as nat,
                depth as nat,
            ) {
                Err(e) => Err(e),
                Ok(fs) => Ok(fields_model(fields@) + fs),
            },
        ensures
            decode_fields(b, rest0, count0, depth as nat) == Ok::<
                Seq<(Seq<char>, SpecType)>,
                DecodeError,
            >(fields_model(fields@)),
        decreases iter.payload@.len(),
    {
        let ghost rest = iter.payload@;
        let ghost rem = iter.remaining as nat;
        proof {
            lemma_read_string_len(rest);
        }
        match iter.next() {
            None => {
                assert(fields_model(fields@) + Seq::empty() =~= fields_model(fields@));
                break ;
            },
            Some(Err(e)) => {
                assert(decode_fields(b, rest, rem, depth as nat) == Err::<
                    Seq<(Seq<char>, SpecType)>,
                    DecodeError,
                >(e));
                return Err(e);
            },
            Some(Ok((name, ty_view))) => {
                let (ty, _) = match decode_from_view(ty_view, depth + 1) {
                    Ok(x) => x,
                    Err(e) => {
                        assert(decode_fields(b, rest, rem, depth as nat) == Err::<
                            Seq<(Seq<char>, SpecType)>,
                            DecodeError,
                        >(e));
                        return Err(e);
                    },
                };
                let owned = name.to_owned();
                let ghost before = fields@;
                let ghost entry = (owned, ty);
                fields.push((owned, ty));
                proof {
                    lemma_fields_model_push(before, entry);
                    assert(fields@ == before.push(entry));
                    let f = (entry.0@, type_model(entry.1));
                    match decode_fields(b, iter.payload@, iter.remaining as nat, depth as nat) {
                        Ok(fs) => {
                            assert(fields_model(before) + (seq![f] + fs) =~= fields_model(fields@)
                                + fs);
                        },
                        Err(_) => {},
                    }
                }
            },
        }
    }
    let t = Type::record(fields);
    Ok((t, view.encoded_len()))
}

fn decode_function_view<'a>(view: EncodedType<&'a [u8]>, depth: usize) -> (r: Result<
    (Type, usize),
    DecodeError,
>)
    requires
        depth <= 1000,
        head(view.view_bytes()) matches Some((TypeTag::Function, _)),
    ensures
        result_matches(r, spec_decode(view.view_bytes(), depth as nat)),
    decreases view.view_bytes().len(), 0nat,
{
    let ghost b = view.view_bytes();
    let (ret_view, mut iter) = match view.as_function() {
        Some(x) => x,
        None => return Err(DecodeError::Truncated { offset: 0, needed: 1 }),
    };
    proof {
        lemma_parts_shorter(b);
    }
    let ghost rb_ghost = ret_view.view_bytes();
    let (ret, ret_consumed) = decode_from_view(ret_view, depth + 1)?;
    let ghost rest0 = iter.payload@;
    let ghost count0 = iter.remaining as nat;
    let mut params: Vec<Type> = Vec::new();
    loop
        invariant_except_break
            b == view.view_bytes(),
            spec_as_function(b) matches Some((rb, c, r)) && c == count0 && r == rest0,
            spec_decode(rb_ghost, (depth + 1) as nat) == Ok::<(SpecType, nat), DecodeError>((ret@, ret_consumed as nat)),
            spec_as_function(b) matches Some((rb, c, r)) && rb == rb_ghost,
            iter.payload@.len() < b.len(),
            depth <= 1000,
            decode_params(b, rest0, count0, depth as nat) == match decode_params(
                b,
                iter.payload@,
                iter.remaining as nat,
                depth as nat,
            ) {
                Err(e) => Err(e),
                Ok(ps) => Ok(types_model(params@) + ps),
            },
        ensures
            decode_params(b, rest0, count0, depth as nat) == Ok::<Seq<SpecType>, DecodeError>(
                types_model(params@),
            ),
        decreases iter.payload@.len(),
    {
        let ghost rest = iter.payload@;
        let ghost rem = iter.remaining as nat;
        match iter.next() {
            None => {
                assert(types_model(params@) + Seq::empty() =~= types_model(params@));
                break ;
            },
            Some(Err(e)) => {
                assert(decode_params(b, rest, rem, depth as nat) == Err::<Seq<SpecType>, DecodeError>(
                    e,
                ));
                return Err(e);
            },
            Some(Ok(param_view)) => {
                let (param, _) = match decode_from_view(param_view, depth + 1) {
                    Ok(x) => x,
                    Err(e) => {
                        assert(decode_params(b, rest, rem, depth as nat) == Err::<
                            Seq<SpecType>,
                            DecodeError,
                        >(e));
                        return Err(e);
                    },
                };
                let ghost before = params@;
                proof {
                    lemma_types_model_push(before, param);
                }
                params.push(param);
                proof {
                    let t = type_model(param);
                    assert(params@ == before.push(param));
                    match decode_params(b, iter.payload@, iter.remaining as nat, depth as nat) {
                        Ok(ps) => {
                            assert(types_model(before) + (seq![t] + ps) =~= types_model(params@)
                                + ps);
                        },
                        Err(_) => {},
                    }
                }
            },
        }
    }
    Ok((Type::Function { params, ret: Box::new(ret) }, view.encoded_len()))
}

fn decode_symbol_view<'a>(view: EncodedType<&'a [u8]>, depth: usize) -> (r: Result<
    (Type, usize),
    DecodeError,
>)
    requires
        depth <= 1000,
        head(view.view_bytes()) matches Some((TypeTag::Symbol, _)),
    ensures
        result_matches(r, spec_decode(view.view_bytes(), depth as nat)),
    decreases view.view_bytes().len(), 0nat,
{
    let ghost b = view.view_bytes();
    let mut iter = match view.as_symbol() {
        Some(it) => it,
        None => return Err(DecodeError::Truncated { offset: 0, needed: 1 }),
    };
    let ghost rest0 = iter.payload@;
    let ghost count0 = iter.remaining as nat;
    let mut parts: Vec<String> = Vec::new();
    loop
        invariant_except_break
            b == view.view_bytes(),
            spec_as_symbol(b) == Some((count0, rest0)),
            depth <= 1000,
            decode_parts(rest0, count0) == match decode_parts(iter.payload@, iter.remaining as nat) {
                Err(e) => Err(e),
                Ok(ps) => Ok(strings_model(parts@) + ps),
            },
        ensures
            decode_parts(rest0, count0) == Ok::<Seq<Seq<char>>, DecodeError>(strings_model(parts@)),
        decreases iter.payload@.len(),
    {
        let ghost rest = iter.payload@;
        let ghost rem = iter.remaining as nat;
        proof {
            lemma_read_string_len(rest);
        }
        match iter.next() {
            None => {
                assert(strings_model(parts@) + Seq::empty() =~= strings_model(parts@));
                break ;
            },
            Some(Err(e)) => {
                assert(decode_parts(rest, rem) == Err::<Seq<Seq<char>>, DecodeError>(e));
                return Err(e);
            },
            Some(Ok(part)) => {
                let ghost before = parts@;
                parts.push(part.to_owned());
                proof {
                    assert(strings_model(parts@) =~= strings_model(before).push(part@));
                    match decode_parts(iter.payload@, iter.remaining as nat) {
                        Ok(ps) => {
                            assert(strings_model(before) + (seq![part@] + ps) =~= strings_model(
                                parts@,
                            ) + ps);
                        },
                        Err(_) => {},
                    }
                }
            },
        }
    }
    Ok((Type::symbol(parts), view.encoded_len()))
}

} // verus!
