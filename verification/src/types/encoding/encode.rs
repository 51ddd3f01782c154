use crate::types::encoding::model::{
    composite, encode_fields, encode_list, encode_strings, lemma_encode_fields_push,
    lemma_encode_list_push, lemma_encode_strings_push, spec_encode, spec_string, spec_varint,
    u16_le,
};
use crate::types::encoding::output::{OutputType, output_bytes};
use crate::types::encoding::wire::{PayloadLocation, WireEncoding, WireTag, type_to_type_tag};
use crate::types::types::{
    SpecType, Type, TypeTag, fields_model, lemma_fields_model, lemma_types_model, strings_model,
    type_model, types_model,
};
use vstd::prelude::*;

verus! {

/// Writes `n` as a varint.
pub fn write_varint(buf: &mut OutputType, n: usize)
    ensures
        output_bytes(*final(buf)) == output_bytes(*old(buf)) + spec_varint(n as nat),
{
    let ghost start = output_bytes(*buf);
    let mut n = n;
    let ghost n0 = n;
    loop
        invariant_except_break
            output_bytes(*buf) + spec_varint(n as nat) == start + spec_varint(n0 as nat),
        ensures
            output_bytes(*buf) == start + spec_varint(n0 as nat),
        decreases n,
    {
        let byte = (n & 0x7F) as u8;
        let next = n >> 7;
        assert(n & 0x7F == n % 128) by (bit_vector);
        assert(n >> 7 == n / 128) by (bit_vector);
        let ghost before = output_bytes(*buf);
        if next == 0 {
            buf.push(byte);
            assert(spec_varint(n as nat) == seq![byte]);
            assert(output_bytes(*buf) =~= before + spec_varint(n as nat));
            break ;
        } else {
            let b = byte | 0x80;
            assert(byte < 128 ==> byte | 0x80 == byte + 128) by (bit_vector);
            buf.push(b);
            assert(spec_varint(n as nat) == seq![b] + spec_varint(next as nat));
            assert(output_bytes(*buf) + spec_varint(next as nat) =~= before + spec_varint(
                n as nat,
            ));
            n = next;
        }
    }
}

/// Writes a string: its UTF-8 length as a varint, then its UTF-8 bytes.
pub fn write_string(buf: &mut OutputType, s: &str)
    ensures
        output_bytes(*final(buf)) == output_bytes(*old(buf)) + spec_string(s@),
{
    let bytes = s.as_bytes();
    write_varint(buf, bytes.len());
    buf.extend_from_slice(bytes);
    assert(output_bytes(*buf) =~= output_bytes(*old(buf)) + spec_string(s@));
}

/// Writes a 16-bit value, low byte first.
pub fn write_u16_le(buf: &mut OutputType, val: u16)
    ensures
        output_bytes(*final(buf)) == output_bytes(*old(buf)) + u16_le(val as nat),
{
    let lo = (val & 0xFF) as u8;
    let hi = (val >> 8) as u8;
    assert(val & 0xFF == val % 256) by (bit_vector);
    assert(val >> 8 == val / 256) by (bit_vector);
    buf.push(lo);
    buf.push(hi);
    assert(output_bytes(*buf) =~= output_bytes(*old(buf)) + u16_le(val as nat));
}

/// Starts a composite type: writes its wire byte and a placeholder size.
/// Returns where the type starts.
fn begin_composite(buf: &mut OutputType, disc: u8) -> (start: usize)
    ensures
        start == output_bytes(*old(buf)).len(),
        output_bytes(*final(buf)) == output_bytes(*old(buf)) + seq![disc, 0u8, 0u8],
{
    let start = buf.len();
    buf.push(disc);
    buf.push(0);
    buf.push(0);
    assert(output_bytes(*buf) =~= output_bytes(*old(buf)) + seq![disc, 0u8, 0u8]);
    start
}

/// Finishes a composite type: writes the size of the payload written since
/// `begin_composite`, modulo 2^16, into the header.
fn finish_composite(buf: &mut OutputType, start: usize, Ghost(prefix): Ghost<Seq<u8>>, Ghost(
    disc,
): Ghost<u8>, Ghost(payload): Ghost<Seq<u8>>)
    requires
        start == prefix.len(),
        output_bytes(*old(buf)) == prefix + seq![disc, 0u8, 0u8] + payload,
    ensures
        output_bytes(*final(buf)) == prefix + composite(disc, payload),
{
    assert(output_bytes(*buf).len() == start + 3 + payload.len());
    let size = buf.len() - start - 3;
    let lo = (size & 0xFF) as u8;
    let hi = ((size >> 8) & 0xFF) as u8;
    assert(size & 0xFF == size % 256) by (bit_vector);
    assert((size >> 8) & 0xFF == (size / 256) % 256) by (bit_vector);
    buf.set(start + 1, lo);
    buf.set(start + 2, hi);
    assert(output_bytes(*buf) =~= prefix + composite(disc, payload));
}

/// Encodes a type.
pub fn encode(ty: &Type) -> (r: OutputType)
    ensures
        output_bytes(r) == spec_encode(ty@),
{
    let mut buf = OutputType::new();
    encode_inner(ty, &mut buf);
    assert(output_bytes(buf) =~= spec_encode(ty@));
    buf
}

/// Appends the encoding of a type.
pub fn encode_inner(ty: &Type, buf: &mut OutputType)
    ensures
        output_bytes(*final(buf)) == output_bytes(*old(buf)) + spec_encode(ty@),
    decreases ty, 1nat,
{
    match ty {
        Type::TypeVar(id) => encode_typevar(*id, buf),
        Type::Int => buf.push(WireTag::to_wire_byte(TypeTag::Int)),
        Type::Float => buf.push(WireTag::to_wire_byte(TypeTag::Float)),
        Type::Bool => buf.push(WireTag::to_wire_byte(TypeTag::Bool)),
        Type::Str => buf.push(WireTag::to_wire_byte(TypeTag::Str)),
        Type::Bytes => buf.push(WireTag::to_wire_byte(TypeTag::Bytes)),
        Type::Array(_) => encode_array(ty, buf),
        Type::MapOf(_, _) => encode_map(ty, buf),
        Type::Record(_) => encode_record(ty, buf),
        Type::Function { .. } => encode_function(ty, buf),
        Type::Symbol(parts) => encode_symbol(parts, buf),
    }
}

fn encode_typevar(id: u16, buf: &mut OutputType)
    ensures
        output_bytes(*final(buf)) == output_bytes(*old(buf)) + spec_encode(SpecType::TypeVar(id)),
{
    let ghost base = output_bytes(*buf);
    let tag = WireTag::for_encoding(TypeTag::TypeVar, WireEncoding::PackedTypeVar(id));
    match tag.payload {
        PayloadLocation::LongFormat => {
            let start = begin_composite(buf, tag.to_byte());
            write_u16_le(buf, id);
            finish_composite(buf, start, Ghost(base), Ghost(0u8), Ghost(u16_le(id as nat)));
        },
        _ => {
            buf.push(tag.to_byte());
        },
    }
    assert(output_bytes(*buf) =~= base + spec_encode(SpecType::TypeVar(id)));
}

fn encode_array(ty: &Type, buf: &mut OutputType)
    requires
        ty is Array,
    ensures
        output_bytes(*final(buf)) == output_bytes(*old(buf)) + spec_encode(ty@),
    decreases ty, 0nat,
{
    let ghost base = output_bytes(*buf);
    if let Type::Array(elem) = ty {
        let encoding = match type_to_type_tag(elem) {
            Some(t) => WireEncoding::PackedArray(t),
            None => WireEncoding::Standard,
        };
        let tag = WireTag::for_encoding(TypeTag::Array, encoding);
        match tag.payload {
            PayloadLocation::LongFormat => {
                let start = begin_composite(buf, tag.to_byte());
                encode_inner(elem, buf);
                finish_composite(buf, start, Ghost(base), Ghost(6u8), Ghost(spec_encode((**elem)@)));
            },
            _ => {
                buf.push(tag.to_byte());
            },
        }
        assert(output_bytes(*buf) =~= base + spec_encode(ty@));
    }
}

fn encode_map(ty: &Type, buf: &mut OutputType)
    requires
        ty is MapOf,
    ensures
        output_bytes(*final(buf)) == output_bytes(*old(buf)) + spec_encode(ty@),
    decreases ty, 0nat,
{
    let ghost base = output_bytes(*buf);
    if let Type::MapOf(key, val) = ty {
        let encoding = match (type_to_type_tag(key), type_to_type_tag(val)) {
            (Some(k), Some(v)) => WireEncoding::PackedMap(k, v),
            _ => WireEncoding::Standard,
        };
        let tag = WireTag::for_encoding(TypeTag::MapOf, encoding);
        match tag.payload {
            PayloadLocation::LongFormat => {
                let start = begin_composite(buf, tag.to_byte());
                encode_inner(key, buf);
                encode_inner(val, buf);
                let ghost payload = spec_encode((**key)@) + spec_encode((**val)@);
                assert(output_bytes(*buf) =~= base + seq![7u8, 0u8, 0u8] + payload);
                finish_composite(buf, start, Ghost(base), Ghost(7u8), Ghost(payload));
            },
            _ => {
                buf.push(tag.to_byte());
            },
        }
        assert(output_bytes(*buf) =~= base + spec_encode(ty@));
    }
}

fn encode_record(ty: &Type, buf: &mut OutputType)
    requires
        ty is Record,
    ensures
        output_bytes(*final(buf)) == output_bytes(*old(buf)) + spec_encode(ty@),
    decreases ty, 0nat,
{
    let ghost base = output_bytes(*buf);
    if let Type::Record(fields) = ty {
        let tag = WireTag::for_encoding(TypeTag::Record, WireEncoding::Standard);
        let start = begin_composite(buf, tag.to_byte());
        write_varint(buf, fields.len());
        let ghost model = fields_model(fields@);
        proof {
            lemma_fields_model(fields@);
        }
        let mut i: usize = 0;
        while i < fields.len()
            invariant
                0 <= i <= fields.len(),
                *ty == Type::Record(*fields),
                model == fields_model(fields@),
                model.len() == fields@.len(),
                forall|j: int|
                    0 <= j < fields@.len() ==> #[trigger] model[j] == (
                        fields@[j].0@,
                        type_model(fields@[j].1),
                    ),
                output_bytes(*buf) == base + seq![8u8, 0u8, 0u8] + spec_varint(
                    fields@.len() as nat,
                ) + encode_fields(model.take(i as int)),
            decreases fields.len() - i,
        {
            proof {
                assert(decreases_to!(*ty => (*ty)->Record_0));
                assert(decreases_to!((*ty)->Record_0 => (*ty)->Record_0@));
                assert(decreases_to!((*ty)->Record_0@ => (*ty)->Record_0@[i as int]));
                assert(decreases_to!((*ty)->Record_0@[i as int] => (*ty)->Record_0@[i as int].1));
            }
            let (name, fty) = &fields[i];
            write_string(buf, name.as_str());
            encode_inner(fty, buf);
            proof {
                lemma_encode_fields_push(model.take(i as int), model[i as int]);
                assert(model.take(i as int).push(model[i as int]) =~= model.take(i + 1));
            }
            i += 1;
        }
        assert(model.take(fields.len() as int) =~= model);
        let ghost payload = spec_varint(fields@.len() as nat) + encode_fields(model);
        assert(output_bytes(*buf) =~= base + seq![8u8, 0u8, 0u8] + payload);
        finish_composite(buf, start, Ghost(base), Ghost(8u8), Ghost(payload));
        assert(output_bytes(*buf) =~= base + spec_encode(ty@));
    }
}

fn encode_function(ty: &Type, buf: &mut OutputType)
    requires
        ty is Function,
    ensures
        output_bytes(*final(buf)) == output_bytes(*old(buf)) + spec_encode(ty@),
    decreases ty, 0nat,
{
    let ghost base = output_bytes(*buf);
    if let Type::Function { params, ret } = ty {
        let tag = WireTag::for_encoding(TypeTag::Function, WireEncoding::Standard);
        let start = begin_composite(buf, tag.to_byte());
        encode_inner(ret, buf);
        write_varint(buf, params.len());
        let ghost model = types_model(params@);
        proof {
            lemma_types_model(params@);
        }
        let mut i: usize = 0;
        while i < params.len()
            invariant
                0 <= i <= params.len(),
                *ty == (Type::Function { params: *params, ret: *ret }),
                model == types_model(params@),
                model.len() == params@.len(),
                forall|j: int| 0 <= j < params@.len() ==> #[trigger] model[j] == type_model(params@[j]),
                output_bytes(*buf) == base + seq![9u8, 0u8, 0u8] + spec_encode((**ret)@)
                    + spec_varint(params@.len() as nat) + encode_list(model.take(i as int)),
            decreases params.len() - i,
        {
            proof {
                assert(decreases_to!(*ty => (*ty)->params));
                assert(decreases_to!((*ty)->params => (*ty)->params@));
                assert(decreases_to!((*ty)->params@ => (*ty)->params@[i as int]));
            }
            encode_inner(&params[i], buf);
            proof {
                lemma_encode_list_push(model.take(i as int), model[i as int]);
                assert(model.take(i as int).push(model[i as int]) =~= model.take(i + 1));
            }
            i += 1;
        }
        assert(model.take(params.len() as int) =~= model);
        let ghost payload = spec_encode((**ret)@) + spec_varint(params@.len() as nat) + encode_list(
            model,
        );
        assert(output_bytes(*buf) =~= base + seq![9u8, 0u8, 0u8] + payload);
        finish_composite(buf, start, Ghost(base), Ghost(9u8), Ghost(payload));
        assert(output_bytes(*buf) =~= base + spec_encode(ty@));
    }
}

fn encode_symbol(parts: &Vec<String>, buf: &mut OutputType)
    ensures
        output_bytes(*final(buf)) == output_bytes(*old(buf)) + spec_encode(
            SpecType::Symbol(strings_model(parts@)),
        ),
{
    let ghost base = output_bytes(*buf);
    let tag = WireTag::for_encoding(TypeTag::Symbol, WireEncoding::Standard);
    let start = begin_composite(buf, tag.to_byte());
    write_varint(buf, parts.len());
    let ghost model = strings_model(parts@);
    let mut i: usize = 0;
    while i < parts.len()
        invariant
            0 <= i <= parts.len(),
            model == strings_model(parts@),
            output_bytes(*buf) == base + seq![10u8, 0u8, 0u8] + spec_varint(parts@.len() as nat)
                + encode_strings(model.take(i as int)),
        decreases parts.len() - i,
    {
        write_string(buf, parts[i].as_str());
        proof {
            lemma_encode_strings_push(model.take(i as int), model[i as int]);
            assert(model.take(i as int).push(model[i as int]) =~= model.take(i + 1));
        }
        i += 1;
    }
    assert(model.take(parts.len() as int) =~= model);
    let ghost payload = spec_varint(parts@.len() as nat) + encode_strings(model);
    assert(output_bytes(*buf) =~= base + seq![10u8, 0u8, 0u8] + payload);
    finish_composite(buf, start, Ghost(base), Ghost(10u8), Ghost(payload));
    assert(output_bytes(*buf) =~= base + spec_encode(SpecType::Symbol(model)));
}

} // verus!
