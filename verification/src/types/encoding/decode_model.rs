use crate::types::encoding::error::DecodeError;
use crate::types::encoding::model::{is_prim, read_u16};
use crate::types::encoding::wire::{PayloadModel, spec_wire};
use crate::types::order::{sort_by_key, sort_strs};
use crate::types::types::{SpecType, TypeTag, tag_byte};
use vstd::prelude::*;
use vstd::utf8::{decode_utf8, valid_utf8};

verus! {

/// Nesting deeper than this is refused by decoding.
pub open spec fn max_depth() -> nat {
    1000
}

// ---------------------------------------------------------------------------
// Varints and strings
// ---------------------------------------------------------------------------

pub open spec fn pow128(n: nat) -> nat
    decreases n,
{
    if n == 0 {
        1
    } else {
        128 * pow128((n - 1) as nat)
    }
}

/// The number made of the low seven bits of the first `n` bytes, low group first.
pub open spec fn varint_value(b: Seq<u8>, n: nat) -> nat
    decreases n,
{
    if n == 0 {
        0
    } else {
        varint_value(b, (n - 1) as nat) + (b[n - 1] % 128) as nat * pow128((n - 1) as nat)
    }
}

pub open spec fn two_pow_64() -> nat {
    0x1_0000_0000_0000_0000
}

/// Reading a varint from byte `i` on: the value (modulo 2^64, as a 64-bit
/// machine word keeps it) and the number of bytes read. At most ten bytes are
/// read.
pub open spec fn varint_from(b: Seq<u8>, i: nat) -> Result<(nat, nat), DecodeError>
    decreases 10 - i,
{
    if i >= b.len() {
        Err(DecodeError::Truncated { offset: b.len() as usize, needed: 1 })
    } else if b[i as int] < 128 {
        Ok((((varint_value(b, i + 1) % two_pow_64()) as usize) as nat, i + 1))
    } else if i + 1 >= 10 {
        Err(DecodeError::InvalidVarint { offset: (i + 1) as usize })
    } else {
        varint_from(b, i + 1)
    }
}

pub open spec fn spec_read_varint(b: Seq<u8>) -> Result<(nat, nat), DecodeError> {
    if b.len() == 0 {
        Err(DecodeError::Truncated { offset: 0, needed: 1 })
    } else {
        varint_from(b, 0)
    }
}

/// `a + b`, or the largest `usize` where the sum does not fit.
pub open spec fn sat_add(a: nat, b: nat) -> nat {
    if a + b > usize::MAX {
        usize::MAX as nat
    } else {
        a + b
    }
}

/// Reading a string: its characters and the number of bytes read.
pub open spec fn spec_read_string(b: Seq<u8>) -> Result<(Seq<char>, nat), DecodeError> {
    match spec_read_varint(b) {
        Err(e) => Err(e),
        Ok((len, vlen)) => if b.len() < vlen + len {
            Err(DecodeError::Truncated { offset: b.len() as usize, needed: sat_add(vlen, len) as usize })
        } else if !valid_utf8(b.subrange(vlen as int, (vlen + len) as int)) {
            Err(DecodeError::InvalidUtf8 { offset: vlen as usize })
        } else {
            Ok((decode_utf8(b.subrange(vlen as int, (vlen + len) as int)), vlen + len))
        },
    }
}

// ---------------------------------------------------------------------------
// Navigating an encoded type
// ---------------------------------------------------------------------------

/// The size field of a long-format header.
pub open spec fn header_size(b: Seq<u8>) -> nat {
    read_u16(b[1], b[2])
}

/// How many bytes the encoded type at the start of `b` claims to take.
pub open spec fn spec_encoded_len(b: Seq<u8>) -> nat {
    if b.len() == 0 {
        1
    } else {
        match spec_wire(b[0]) {
            Ok((tag, p)) => if is_prim(tag) {
                1
            } else if !(p is LongFormat) {
                1
            } else if b.len() < 3 {
                1
            } else {
                3 + header_size(b)
            },
            Err(_) => 1,
        }
    }
}

/// The payload of a long-format type, if the bytes hold all of it.
pub open spec fn long_payload(b: Seq<u8>) -> Option<Seq<u8>> {
    if b.len() < 3 {
        None
    } else if b.len() < 3 + header_size(b) {
        None
    } else {
        Some(b.subrange(3, 3 + header_size(b) as int))
    }
}

/// The payload section of the type at the start of `b`: empty unless it is
/// in long format and complete.
pub open spec fn spec_payload(b: Seq<u8>) -> Seq<u8> {
    if b.len() == 0 {
        Seq::empty()
    } else {
        match spec_wire(b[0]) {
            Ok((_, PayloadModel::LongFormat)) => match long_payload(b) {
                Some(p) => p,
                None => Seq::empty(),
            },
            _ => Seq::empty(),
        }
    }
}

/// The wire tag at the start of `b`, if `b` is non-empty and its first byte valid.
pub open spec fn head(b: Seq<u8>) -> Option<(TypeTag, PayloadModel)> {
    if b.len() == 0 {
        None
    } else {
        match spec_wire(b[0]) {
            Ok(w) => Some(w),
            Err(_) => None,
        }
    }
}

pub open spec fn spec_as_typevar(b: Seq<u8>) -> Option<u16> {
    match head(b) {
        Some((TypeTag::TypeVar, PayloadModel::PackedTypeVar(id))) => Some(id),
        Some((TypeTag::TypeVar, _)) => {
            let p = spec_payload(b);
            if p.len() < 2 {
                None
            } else {
                Some(read_u16(p[0], p[1]) as u16)
            }
        },
        _ => None,
    }
}

/// The bytes of the element type of an array.
pub open spec fn spec_as_array(b: Seq<u8>) -> Option<Seq<u8>> {
    match head(b) {
        Some((TypeTag::Array, PayloadModel::PackedArray(e))) => Some(seq![tag_byte(e)]),
        Some((TypeTag::Array, _)) => long_payload(b),
        _ => None,
    }
}

/// The bytes of the key type and of the value type of a map.
pub open spec fn spec_as_map(b: Seq<u8>) -> Option<(Seq<u8>, Seq<u8>)> {
    match head(b) {
        Some((TypeTag::MapOf, PayloadModel::PackedMap(k, v))) => Some(
            (seq![tag_byte(k)], seq![tag_byte(v)]),
        ),
        Some((TypeTag::MapOf, _)) => match long_payload(b) {
            None => None,
            Some(p) => if p.len() == 0 {
                None
            } else if spec_encoded_len(p) > p.len() {
                None
            } else {
                Some((p, p.subrange(spec_encoded_len(p) as int, p.len() as int)))
            },
        },
        _ => None,
    }
}

/// A counted list that follows a varint count: the count and the bytes after it.
pub open spec fn spec_counted(p: Seq<u8>) -> Option<(nat, Seq<u8>)> {
    match spec_read_varint(p) {
        Ok((count, vlen)) => Some((count, p.subrange(vlen as int, p.len() as int))),
        Err(_) => None,
    }
}

/// The field count of a record and the bytes of its fields.
pub open spec fn spec_as_record(b: Seq<u8>) -> Option<(nat, Seq<u8>)> {
    match head(b) {
        Some((TypeTag::Record, _)) => match long_payload(b) {
            Some(p) => spec_counted(p),
            None => None,
        },
        _ => None,
    }
}

/// The part count of a symbol and the bytes of its parts.
pub open spec fn spec_as_symbol(b: Seq<u8>) -> Option<(nat, Seq<u8>)> {
    match head(b) {
        Some((TypeTag::Symbol, _)) => match long_payload(b) {
            Some(p) => spec_counted(p),
            None => None,
        },
        _ => None,
    }
}

/// The bytes of the return type of a function, its parameter count, and the
/// bytes of its parameters.
pub open spec fn spec_as_function(b: Seq<u8>) -> Option<(Seq<u8>, nat, Seq<u8>)> {
    match head(b) {
        Some((TypeTag::Function, _)) => match long_payload(b) {
            Some(p) => {
                let ret_len = spec_encoded_len(p);
                if ret_len > p.len() {
                    None
                } else {
                    match spec_counted(p.subrange(ret_len as int, p.len() as int)) {
                        Some((count, rest)) => Some((p, count, rest)),
                        None => None,
                    }
                }
            },
            None => None,
        },
        _ => None,
    }
}

// ---------------------------------------------------------------------------
// Decoding
// ---------------------------------------------------------------------------

/// The primitive type of a primitive tag.
pub open spec fn prim_type(tag: TypeTag) -> SpecType {
    match tag {
        TypeTag::Int => SpecType::Int,
        TypeTag::Float => SpecType::Float,
        TypeTag::Bool => SpecType::Bool,
        TypeTag::Str => SpecType::Str,
        _ => SpecType::Bytes,
    }
}

/// Decoding the one-byte encoding of a primitive type at the given depth.
pub open spec fn decode_prim_at(tag: TypeTag, depth: nat) -> Result<SpecType, DecodeError> {
    if depth > max_depth() {
        Err(DecodeError::TooDeep { depth: depth as usize })
    } else {
        Ok(prim_type(tag))
    }
}

/// Decoding the type at the start of `b`, at nesting depth `depth`: the type
/// and the number of bytes it takes.
pub open spec fn spec_decode(b: Seq<u8>, depth: nat) -> Result<(SpecType, nat), DecodeError>
    decreases b.len(), 1nat,
{
    if depth > max_depth() {
        Err(DecodeError::TooDeep { depth: depth as usize })
    } else if b.len() == 0 {
        Err(DecodeError::Truncated { offset: 0, needed: 1 })
    } else {
        match spec_wire(b[0]) {
            Err(e) => Err(e),
            Ok((tag, p)) => match tag {
                TypeTag::TypeVar => match p {
                    PayloadModel::PackedTypeVar(id) => Ok((SpecType::TypeVar(id), 1)),
                    _ => match spec_as_typevar(b) {
                        None => Err(DecodeError::Truncated { offset: 0, needed: 1 }),
                        Some(id) => Ok((SpecType::TypeVar(id), spec_encoded_len(b))),
                    },
                },
                TypeTag::Array => decode_array(b, depth),
                TypeTag::MapOf => decode_map(b, depth),
                TypeTag::Record => match spec_as_record(b) {
                    None => Err(DecodeError::Truncated { offset: 0, needed: 1 }),
                    Some((count, rest)) => match decode_fields(b, rest, count, depth) {
                        Err(e) => Err(e),
                        Ok(fs) => Ok((SpecType::Record(sort_by_key(fs)), spec_encoded_len(b))),
                    },
                },
                TypeTag::Function => match spec_as_function(b) {
                    None => Err(DecodeError::Truncated { offset: 0, needed: 1 }),
                    Some((ret_bytes, count, rest)) => if ret_bytes.len() >= b.len() {
                        Err(DecodeError::Truncated { offset: 0, needed: 1 })
                    } else {
                        match spec_decode(ret_bytes, depth + 1) {
                            Err(e) => Err(e),
                            Ok((ret, _)) => match decode_params(b, rest, count, depth) {
                                Err(e) => Err(e),
                                Ok(ps) => Ok(
                                    (SpecType::Function(ps, Box::new(ret)), spec_encoded_len(b)),
                                ),
                            },
                        }
                    },
                },
                TypeTag::Symbol => match spec_as_symbol(b) {
                    None => Err(DecodeError::Truncated { offset: 0, needed: 1 }),
                    Some((count, rest)) => match decode_parts(rest, count) {
                        Err(e) => Err(e),
                        Ok(parts) => Ok((SpecType::Symbol(sort_strs(parts)), spec_encoded_len(b))),
                    },
                },
                _ => Ok((prim_type(tag), 1)),
            },
        }
    }
}

/// Decoding an array whose wire byte is at the start of `b`.
pub open spec fn decode_array(b: Seq<u8>, depth: nat) -> Result<(SpecType, nat), DecodeError>
    decreases b.len(), 0nat,
{
    match head(b) {
        Some((_, PayloadModel::PackedArray(e))) => match decode_prim_at(e, depth + 1) {
            Err(err) => Err(err),
            Ok(t) => Ok((SpecType::Array(Box::new(t)), 1)),
        },
        _ => match long_payload(b) {
            None => Err(DecodeError::Truncated { offset: 0, needed: 1 }),
            Some(p) => match spec_decode(p, depth + 1) {
                Err(e) => Err(e),
                Ok((t, consumed)) => if consumed != header_size(b) {
                    Err(
                        DecodeError::SizeMismatch {
                            offset: 0,
                            claimed: header_size(b) as usize,
                            actual: consumed as usize,
                        },
                    )
                } else {
                    Ok((SpecType::Array(Box::new(t)), spec_encoded_len(b)))
                },
            },
        },
    }
}

/// Decoding a map whose wire byte is at the start of `b`.
pub open spec fn decode_map(b: Seq<u8>, depth: nat) -> Result<(SpecType, nat), DecodeError>
    decreases b.len(), 0nat,
{
    match head(b) {
        Some((_, PayloadModel::PackedMap(k, v))) => match decode_prim_at(k, depth + 1) {
            Err(err) => Err(err),
            Ok(kt) => match decode_prim_at(v, depth + 1) {
                Err(err) => Err(err),
                Ok(vt) => Ok((SpecType::MapOf(Box::new(kt), Box::new(vt)), 1)),
            },
        },
        _ => match spec_as_map(b) {
            None => Err(DecodeError::Truncated { offset: 0, needed: 1 }),
            Some((kb, vb)) => if kb.len() + 3 > b.len() || vb.len() + 3 > b.len() {
                Err(DecodeError::Truncated { offset: 0, needed: 1 })
            } else {
                match spec_decode(kb, depth + 1) {
                    Err(e) => Err(e),
                    Ok((kt, kc)) => match spec_decode(vb, depth + 1) {
                        Err(e) => Err(e),
                        Ok((vt, vc)) => if kc + vc != header_size(b) {
                            Err(
                                DecodeError::SizeMismatch {
                                    offset: 0,
                                    claimed: header_size(b) as usize,
                                    actual: (kc + vc) as usize,
                                },
                            )
                        } else {
                            Ok(
                                (
                                    SpecType::MapOf(Box::new(kt), Box::new(vt)),
                                    spec_encoded_len(b),
                                ),
                            )
                        },
                    },
                }
            },
        },
    }
}

/// The error for bytes left over after the last item of a counted list.
pub open spec fn leftover(rest: Seq<u8>) -> DecodeError {
    DecodeError::SizeMismatch { offset: 0, claimed: 0, actual: rest.len() as usize }
}

/// Decoding `remaining` record fields from `rest`, a part of the record `b`.
pub open spec fn decode_fields(b: Seq<u8>, rest: Seq<u8>, remaining: nat, depth: nat) -> Result<
    Seq<(Seq<char>, SpecType)>,
    DecodeError,
>
    decreases b.len(), 0nat, rest.len(),
{
    if rest.len() >= b.len() {
        Err(DecodeError::Truncated { offset: 0, needed: 1 })
    } else if remaining == 0 {
        if rest.len() > 0 {
            Err(leftover(rest))
        } else {
            Ok(Seq::empty())
        }
    } else {
        match spec_read_string(rest) {
            Err(e) => Err(e),
            Ok((name, name_len)) => {
                let ty_bytes = rest.subrange(name_len as int, rest.len() as int);
                let ty_len = spec_encoded_len(ty_bytes);
                if name_len + ty_len > rest.len() || name_len == 0 {
                    Err(DecodeError::Truncated { offset: 0, needed: sat_add(name_len, ty_len) as usize })
                } else {
                    match spec_decode(ty_bytes, depth + 1) {
                        Err(e) => Err(e),
                        Ok((t, _)) => match decode_fields(
                            b,
                            rest.subrange((name_len + ty_len) as int, rest.len() as int),
                            (remaining - 1) as nat,
                            depth,
                        ) {
                            Err(e) => Err(e),
                            Ok(fs) => Ok(seq![(name, t)] + fs),
                        },
                    }
                }
            },
        }
    }
}

/// Decoding `remaining` function parameters from `rest`, a part of the function `b`.
pub open spec fn decode_params(b: Seq<u8>, rest: Seq<u8>, remaining: nat, depth: nat) -> Result<
    Seq<SpecType>,
    DecodeError,
>
    decreases b.len(), 0nat, rest.len(),
{
    if rest.len() >= b.len() {
        Err(DecodeError::Truncated { offset: 0, needed: 1 })
    } else if remaining == 0 {
        if rest.len() > 0 {
            Err(leftover(rest))
        } else {
            Ok(Seq::empty())
        }
    } else if rest.len() == 0 {
        Err(DecodeError::Truncated { offset: 0, needed: 1 })
    } else {
        let len = spec_encoded_len(rest);
        if len > rest.len() {
            Err(DecodeError::Truncated { offset: 0, needed: len as usize })
        } else {
            match spec_decode(rest, depth + 1) {
                Err(e) => Err(e),
                Ok((t, _)) => match decode_params(
                    b,
                    rest.subrange(len as int, rest.len() as int),
                    (remaining - 1) as nat,
                    depth,
                ) {
                    Err(e) => Err(e),
                    Ok(ps) => Ok(seq![t] + ps),
                },
            }
        }
    }
}

/// Decoding `remaining` symbol parts from `rest`.
pub open spec fn decode_parts(rest: Seq<u8>, remaining: nat) -> Result<Seq<Seq<char>>, DecodeError>
    decreases rest.len(),
{
    if remaining == 0 {
        if rest.len() > 0 {
            Err(leftover(rest))
        } else {
            Ok(Seq::empty())
        }
    } else {
        match spec_read_string(rest) {
            Err(e) => Err(e),
            Ok((part, part_len)) => if part_len == 0 || part_len > rest.len() {
                Err(DecodeError::Truncated { offset: 0, needed: 1 })
            } else {
                match decode_parts(
                    rest.subrange(part_len as int, rest.len() as int),
                    (remaining - 1) as nat,
                ) {
                    Err(e) => Err(e),
                    Ok(ps) => Ok(seq![part] + ps),
                }
            },
        }
    }
}

/// Decoding a whole byte sequence as one type.
pub open spec fn spec_decode_all(b: Seq<u8>) -> Result<SpecType, DecodeError> {
    match spec_decode(b, 0) {
        Err(e) => Err(e),
        Ok((t, consumed)) => if consumed != b.len() {
            Err(
                DecodeError::TrailingBytes {
                    offset: consumed as usize,
                    remaining: (b.len() - consumed) as usize,
                },
            )
        } else {
            Ok(t)
        },
    }
}

/// A varint that was read fits in the bytes it was read from.
pub proof fn lemma_varint_len_bound(b: Seq<u8>)
    ensures
        spec_read_varint(b) matches Ok((v, n)) ==> 1 <= n <= b.len() && n <= 10,
{
    if b.len() > 0 {
        lemma_varint_from_bound(b, 0);
    }
}

proof fn lemma_varint_from_bound(b: Seq<u8>, i: nat)
    requires
        i <= 9,
    ensures
        varint_from(b, i) matches Ok((v, n)) ==> i + 1 <= n <= b.len() && n <= 10,
    decreases 10 - i,
{
    if i < b.len() && b[i as int] >= 128 && i + 1 < 10 {
        lemma_varint_from_bound(b, i + 1);
    }
}

/// A string that was read fits in the bytes it was read from.
pub proof fn lemma_read_string_len(b: Seq<u8>)
    ensures
        spec_read_string(b) matches Ok((s, n)) ==> 1 <= n <= b.len(),
{
    lemma_varint_len_bound(b);
}

/// A long-format payload lies inside the type after its header.
pub proof fn lemma_long_payload_shorter(b: Seq<u8>)
    ensures
        long_payload(b) matches Some(p) ==> p.len() + 3 <= b.len(),
{
}

/// The list after a count is shorter than the bytes holding the count.
pub proof fn lemma_counted_shorter(p: Seq<u8>)
    ensures
        spec_counted(p) matches Some((c, rest)) ==> rest.len() < p.len(),
{
    lemma_varint_len_bound(p);
}

/// The parts that navigation hands out are shorter than the type they come from.
pub proof fn lemma_parts_shorter(b: Seq<u8>)
    ensures
        spec_as_record(b) matches Some((c, rest)) ==> rest.len() < b.len(),
        spec_as_symbol(b) matches Some((c, rest)) ==> rest.len() < b.len(),
        spec_as_function(b) matches Some((ret, c, rest)) ==> ret.len() < b.len() && rest.len()
            < b.len(),
        (head(b) matches Some((TypeTag::Array, PayloadModel::LongFormat))) ==> (spec_as_array(
            b,
        ) matches Some(e) ==> e.len() < b.len()),
        (head(b) matches Some((TypeTag::MapOf, PayloadModel::LongFormat))) ==> (spec_as_map(
            b,
        ) matches Some((k, v)) ==> k.len() < b.len() && v.len() < b.len()),
{
    lemma_long_payload_shorter(b);
    if let Some(p) = long_payload(b) {
        lemma_counted_shorter(p);
        let ret_len = spec_encoded_len(p);
        if ret_len <= p.len() {
            lemma_counted_shorter(p.subrange(ret_len as int, p.len() as int));
        }
    }
}

} // verus!
