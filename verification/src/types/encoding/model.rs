use crate::types::types::{SpecType, TypeTag, tag_byte};
use vstd::prelude::*;
use vstd::utf8::encode_utf8;

verus! {

// ---------------------------------------------------------------------------
// Primitive types and their indices in packed bytes
// ---------------------------------------------------------------------------

/// The index (0..5) of a primitive type tag in packed wire bytes.
pub open spec fn prim_index(tag: TypeTag) -> Option<u8> {
    match tag {
        TypeTag::Int => Some(0u8),
        TypeTag::Float => Some(1u8),
        TypeTag::Bool => Some(2u8),
        TypeTag::Str => Some(3u8),
        TypeTag::Bytes => Some(4u8),
        _ => None,
    }
}

/// The tag of a type, if it is primitive.
pub open spec fn prim_tag(t: SpecType) -> Option<TypeTag> {
    match t {
        SpecType::Int => Some(TypeTag::Int),
        SpecType::Float => Some(TypeTag::Float),
        SpecType::Bool => Some(TypeTag::Bool),
        SpecType::Str => Some(TypeTag::Str),
        SpecType::Bytes => Some(TypeTag::Bytes),
        _ => None,
    }
}

/// Whether a tag is one of the five primitive tags.
pub open spec fn is_prim(tag: TypeTag) -> bool {
    prim_index(tag) is Some
}

// ---------------------------------------------------------------------------
// Byte-level building blocks
// ---------------------------------------------------------------------------

/// A 16-bit little-endian field holding `n` modulo 2^16.
pub open spec fn u16_le(n: nat) -> Seq<u8> {
    seq![(n % 256) as u8, ((n / 256) % 256) as u8]
}

/// The value of a 16-bit little-endian field.
pub open spec fn read_u16(lo: u8, hi: u8) -> nat {
    (lo + 256 * hi) as nat
}

/// LEB128: seven bits per byte, low group first, high bit set on every byte
/// but the last.
pub open spec fn spec_varint(n: nat) -> Seq<u8>
    decreases n,
{
    if n < 128 {
        seq![n as u8]
    } else {
        seq![(n % 128 + 128) as u8] + spec_varint(n / 128)
    }
}

/// A string: its UTF-8 length as a varint, then its UTF-8 bytes.
pub open spec fn spec_string(s: Seq<char>) -> Seq<u8> {
    spec_varint(encode_utf8(s).len()) + encode_utf8(s)
}

/// A composite type: its wire byte, the payload size, the payload.
pub open spec fn composite(disc: u8, payload: Seq<u8>) -> Seq<u8> {
    seq![disc] + u16_le(payload.len()) + payload
}

// ---------------------------------------------------------------------------
// The encoding of a type
// ---------------------------------------------------------------------------

/// The bytes that encode a type.
pub open spec fn spec_encode(t: SpecType) -> Seq<u8>
    decreases t,
{
    match t {
        SpecType::TypeVar(id) => if id <= 31 {
            seq![(64 + id) as u8]
        } else {
            composite(0, u16_le(id as nat))
        },
        SpecType::Int => seq![1u8],
        SpecType::Float => seq![2u8],
        SpecType::Bool => seq![3u8],
        SpecType::Str => seq![4u8],
        SpecType::Bytes => seq![5u8],
        SpecType::Array(e) => match prim_tag(*e) {
            Some(tag) => seq![(96 + prim_index(tag).unwrap()) as u8],
            None => composite(6, spec_encode(*e)),
        },
        SpecType::MapOf(k, v) => match (prim_tag(*k), prim_tag(*v)) {
            (Some(kt), Some(vt)) => seq![
                (101 + prim_index(kt).unwrap() * 5 + prim_index(vt).unwrap()) as u8,
            ],
            _ => composite(7, spec_encode(*k) + spec_encode(*v)),
        },
        SpecType::Record(fs) => composite(8, spec_varint(fs.len()) + encode_fields(fs)),
        SpecType::Function(ps, r) => composite(
            9,
            spec_encode(*r) + spec_varint(ps.len()) + encode_list(ps),
        ),
        SpecType::Symbol(parts) => composite(10, spec_varint(parts.len()) + encode_strings(parts)),
    }
}

/// The encodings of a list of types, one after the other.
pub open spec fn encode_list(ts: Seq<SpecType>) -> Seq<u8>
    decreases ts,
{
    if ts.len() == 0 {
        Seq::empty()
    } else {
        spec_encode(ts[0]) + encode_list(ts.drop_first())
    }
}

/// Record fields: each name as a string, followed by the field's type.
pub open spec fn encode_fields(fs: Seq<(Seq<char>, SpecType)>) -> Seq<u8>
    decreases fs,
{
    if fs.len() == 0 {
        Seq::empty()
    } else {
        spec_string(fs[0].0) + spec_encode(fs[0].1) + encode_fields(fs.drop_first())
    }
}

/// A list of strings, one after the other.
pub open spec fn encode_strings(ss: Seq<Seq<char>>) -> Seq<u8>
    decreases ss.len(),
{
    if ss.len() == 0 {
        Seq::empty()
    } else {
        spec_string(ss[0]) + encode_strings(ss.drop_first())
    }
}


} // verus!

verus! {

pub proof fn lemma_encode_list_push(ts: Seq<SpecType>, t: SpecType)
    ensures
        encode_list(ts.push(t)) == encode_list(ts) + spec_encode(t),
    decreases ts.len(),
{
    if ts.len() == 0 {
        assert(ts.push(t).drop_first() =~= Seq::<SpecType>::empty());
        assert(encode_list(ts.push(t).drop_first()) == Seq::<u8>::empty());
        assert(encode_list(ts) == Seq::<u8>::empty());
        assert(encode_list(ts.push(t)) =~= spec_encode(t));
    } else {
        assert(ts.push(t).drop_first() =~= ts.drop_first().push(t));
        lemma_encode_list_push(ts.drop_first(), t);
        assert(encode_list(ts.push(t)) =~= encode_list(ts) + spec_encode(t));
    }
}

pub proof fn lemma_encode_fields_push(fs: Seq<(Seq<char>, SpecType)>, f: (Seq<char>, SpecType))
    ensures
        encode_fields(fs.push(f)) == encode_fields(fs) + spec_string(f.0) + spec_encode(f.1),
    decreases fs.len(),
{
    if fs.len() == 0 {
        assert(fs.push(f).drop_first() =~= Seq::<(Seq<char>, SpecType)>::empty());
        assert(encode_fields(fs.push(f).drop_first()) == Seq::<u8>::empty());
        assert(encode_fields(fs) == Seq::<u8>::empty());
        assert(encode_fields(fs.push(f)) =~= spec_string(f.0) + spec_encode(f.1));
    } else {
        assert(fs.push(f).drop_first() =~= fs.drop_first().push(f));
        lemma_encode_fields_push(fs.drop_first(), f);
        assert(encode_fields(fs.push(f)) =~= encode_fields(fs) + spec_string(f.0) + spec_encode(
            f.1,
        ));
    }
}

pub proof fn lemma_encode_strings_push(ss: Seq<Seq<char>>, s: Seq<char>)
    ensures
        encode_strings(ss.push(s)) == encode_strings(ss) + spec_string(s),
    decreases ss.len(),
{
    if ss.len() == 0 {
        assert(ss.push(s).drop_first() =~= Seq::<Seq<char>>::empty());
        assert(encode_strings(ss.push(s).drop_first()) == Seq::<u8>::empty());
        assert(encode_strings(ss) == Seq::<u8>::empty());
        assert(encode_strings(ss.push(s)) =~= spec_string(s));
    } else {
        assert(ss.push(s).drop_first() =~= ss.drop_first().push(s));
        lemma_encode_strings_push(ss.drop_first(), s);
        assert(encode_strings(ss.push(s)) =~= encode_strings(ss) + spec_string(s));
    }
}

} // verus!
