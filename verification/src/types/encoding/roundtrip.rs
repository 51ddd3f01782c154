//! Decoding inverts encoding.
use crate::types::encoding::decode_model::{
    decode_fields, decode_params, decode_parts, head, header_size, long_payload, max_depth,
    pow128, spec_as_function, spec_as_map, spec_as_record, spec_as_symbol, spec_as_typevar,
    spec_counted, spec_decode, spec_decode_all, spec_encoded_len, spec_payload, spec_read_string,
    spec_read_varint, two_pow_64, varint_from, varint_value, decode_array, decode_map,
    decode_prim_at, prim_type,
};
use crate::types::encoding::model::{
    composite, encode_fields, encode_list, encode_strings, is_prim, prim_index, prim_tag,
    read_u16, spec_encode, spec_string, spec_varint, u16_le,
};
use crate::types::encoding::error::DecodeError;
use crate::types::encoding::wire::{PayloadModel, byte_tag, index_tag, spec_wire};
use crate::types::order::{
    keys_sorted, lemma_sort_by_key_sorted, lemma_sort_strs_sorted, sort_by_key, sort_strs, strs_sorted,
};
use crate::types::types::{SpecType, TypeTag, tag_byte};
use vstd::prelude::*;
use vstd::utf8::{decode_utf8, encode_utf8, encode_utf8_decode_utf8, encode_utf8_valid_utf8};

verus! {

// ---------------------------------------------------------------------------
// Varints
// ---------------------------------------------------------------------------

proof fn lemma_varint_len_pos(n: nat)
    ensures
        spec_varint(n).len() >= 1,
    decreases n,
{
}

proof fn lemma_varint_len_bound(n: nat, k: nat)
    requires
        k >= 1,
        n < pow128(k),
    ensures
        spec_varint(n).len() <= k,
    decreases k,
{
    if n >= 128 {
        assert(k >= 2) by {
            if k == 1 {
                assert(pow128(1) == 128) by {
                    reveal_with_fuel(pow128, 2);
                }
            }
        }
        assert(n / 128 < pow128((k - 1) as nat)) by {
            assert(pow128(k) == 128 * pow128((k - 1) as nat));
        }
        lemma_varint_len_bound(n / 128, (k - 1) as nat);
    }
}

proof fn lemma_pow128_10()
    ensures
        pow128(10) == 0x40_0000_0000_0000_0000,
{
    reveal_with_fuel(pow128, 11);
}

proof fn lemma_value_cons(c: u8, t: Seq<u8>, n: nat)
    requires
        1 <= n <= t.len() + 1,
    ensures
        varint_value(seq![c] + t, n) == (c % 128) as nat + 128 * varint_value(t, (n - 1) as nat),
    decreases n,
{
    let b = seq![c] + t;
    if n == 1 {
        assert(b[0] == c);
        assert(pow128(0) == 1);
        assert(varint_value(t, 0) == 0);
        assert(varint_value(b, 0) == 0);
        assert(varint_value(b, 1) == varint_value(b, 0) + (b[0] % 128) as nat * pow128(0));
    } else {
        lemma_value_cons(c, t, (n - 1) as nat);
        assert(b[n - 1] == t[n - 2]);
        assert(pow128((n - 1) as nat) == 128 * pow128((n - 2) as nat));
        assert(varint_value(b, n) == varint_value(b, (n - 1) as nat) + (b[n - 1] % 128) as nat
            * pow128((n - 1) as nat));
        assert(varint_value(t, (n - 1) as nat) == varint_value(t, (n - 2) as nat) + (t[n - 2]
            % 128) as nat * pow128((n - 2) as nat));
        let x = (t[n - 2] % 128) as nat;
        let p = pow128((n - 2) as nat);
        assert(x * (128 * p) == 128 * (x * p)) by (nonlinear_arith);
        let vt = varint_value(t, (n - 2) as nat);
        assert(128 * (vt + x * p) == 128 * vt + 128 * (x * p)) by (nonlinear_arith);
    }
}

/// The varint of `n`, followed by anything: continuation bits until its last
/// byte, and its value is `n`.
proof fn lemma_varint_shape(n: nat, rest: Seq<u8>)
    ensures
        ({
            let s = spec_varint(n);
            let b = s + rest;
            &&& forall|k: int| 0 <= k < s.len() - 1 ==> b[k] >= 128
            &&& b[s.len() - 1] < 128
            &&& varint_value(b, s.len()) == n
        }),
    decreases n,
{
    lemma_varint_len_pos(n);
    let s = spec_varint(n);
    let b = s + rest;
    if n < 128 {
        assert(b[0] == n as u8);
        assert(pow128(0) == 1);
        assert(varint_value(b, 0) == 0);
        assert(varint_value(b, 1) == varint_value(b, 0) + (b[0] % 128) as nat * pow128(0));
        assert(varint_value(b, 1) == n);
    } else {
        let c = (n % 128 + 128) as u8;
        let t = spec_varint(n / 128);
        lemma_varint_shape(n / 128, rest);
        lemma_varint_len_pos(n / 128);
        assert(b =~= seq![c] + (t + rest));
        assert forall|k: int| 0 <= k < s.len() - 1 implies b[k] >= 128 by {
            if k > 0 {
                assert(b[k] == (t + rest)[k - 1]);
            }
        }
        assert(b[s.len() - 1] == (t + rest)[t.len() - 1]);
        lemma_value_cons(c, t + rest, s.len());
        assert(c % 128 == n % 128);
        assert(n == 128 * (n / 128) + n % 128) by (nonlinear_arith);
        assert(s.len() - 1 == t.len());
        assert(varint_value(b, s.len()) == n);
    }
}

proof fn lemma_varint_from_at(b: Seq<u8>, i: nat, len: nat)
    requires
        i < len <= 10,
        len <= b.len(),
        forall|k: int| i <= k < len - 1 ==> b[k] >= 128,
        b[len - 1] < 128,
    ensures
        varint_from(b, i) == Ok::<(nat, nat), DecodeError>(
            (((varint_value(b, len) % two_pow_64()) as usize) as nat, len),
        ),
    decreases len - i,
{
    if i + 1 < len {
        lemma_varint_from_at(b, i + 1, len);
    }
}

/// Reading the varint of `n` gives `n` back, and says how long it is.
pub proof fn lemma_read_varint(n: nat, rest: Seq<u8>)
    requires
        n <= usize::MAX,
    ensures
        spec_read_varint(spec_varint(n) + rest) == Ok::<
            (nat, nat),
            DecodeError,
        >((n, spec_varint(n).len())),
{
    let s = spec_varint(n);
    lemma_varint_len_pos(n);
    lemma_pow128_10();
    lemma_varint_len_bound(n, 10);
    lemma_varint_shape(n, rest);
    lemma_varint_from_at(s + rest, 0, s.len());
    assert(varint_value(s + rest, s.len()) == n);
    assert(n < two_pow_64());
    assert(n % two_pow_64() == n);
    assert(((n as usize) as nat) == n);
    assert(spec_read_varint(s + rest) == varint_from(s + rest, 0));
}

/// Reading an encoded string gives the string back.
pub proof fn lemma_read_string(s: Seq<char>, rest: Seq<u8>)
    requires
        encode_utf8(s).len() <= usize::MAX,
    ensures
        spec_read_string(spec_string(s) + rest) == Ok::<
            (Seq<char>, nat),
            DecodeError,
        >((s, spec_string(s).len())),
{
    let bytes = encode_utf8(s);
    let v = spec_varint(bytes.len());
    let b = spec_string(s) + rest;
    assert(b =~= v + (bytes + rest));
    lemma_read_varint(bytes.len(), bytes + rest);
    assert(b.subrange(v.len() as int, (v.len() + bytes.len()) as int) =~= bytes);
    encode_utf8_valid_utf8(s);
    encode_utf8_decode_utf8(s);
}

// ---------------------------------------------------------------------------
// Headers
// ---------------------------------------------------------------------------

proof fn lemma_u16(n: nat)
    requires
        n < 65536,
    ensures
        read_u16(u16_le(n)[0], u16_le(n)[1]) == n,
{
}

/// A complete composite type: its header and payload.
proof fn lemma_composite(disc: u8, p: Seq<u8>, rest: Seq<u8>)
    requires
        p.len() < 65536,
        spec_wire(disc) matches Ok((_, PayloadModel::LongFormat)),
        !is_prim(byte_tag(disc)),
    ensures
        ({
            let b = composite(disc, p) + rest;
            &&& b[0] == disc
            &&& header_size(b) == p.len()
            &&& long_payload(b) == Some(p)
            &&& spec_encoded_len(b) == composite(disc, p).len()
            &&& spec_payload(b) == p
        }),
{
    let b = composite(disc, p) + rest;
    lemma_u16(p.len());
    assert(b[1] == u16_le(p.len())[0]);
    assert(b[2] == u16_le(p.len())[1]);
    assert(b.subrange(3, 3 + p.len() as int) =~= p);
}

// ---------------------------------------------------------------------------
// Which types encode faithfully
// ---------------------------------------------------------------------------

/// A payload whose size the 16-bit size field can hold.
pub open spec fn fits(p: Seq<u8>) -> bool {
    p.len() < 65536
}

/// A type that decodes back from its encoding when it stands at nesting depth
/// `d`: every composite payload fits the 16-bit size field, record fields and
/// symbol parts are sorted, and nesting stays within the decoder's limit.
pub open spec fn encodable(t: SpecType, d: nat) -> bool
    decreases t,
{
    d <= max_depth() && match t {
        SpecType::Array(e) => match prim_tag(*e) {
            Some(_) => d + 1 <= max_depth(),
            None => fits(spec_encode(*e)) && encodable(*e, d + 1),
        },
        SpecType::MapOf(k, v) => match (prim_tag(*k), prim_tag(*v)) {
            (Some(_), Some(_)) => d + 1 <= max_depth(),
            _ => fits(spec_encode(*k) + spec_encode(*v)) && encodable(*k, d + 1) && encodable(
                *v,
                d + 1,
            ),
        },
        SpecType::Record(fs) => fs.len() < 65536 && fits(
            spec_varint(fs.len()) + encode_fields(fs),
        ) && fields_encodable(fs, d + 1),
        SpecType::Function(ps, r) => ps.len() < 65536 && fits(
            spec_encode(*r) + spec_varint(ps.len()) + encode_list(ps),
        ) && encodable(*r, d + 1) && list_encodable(ps, d + 1),
        SpecType::Symbol(ss) => ss.len() < 65536 && fits(
            spec_varint(ss.len()) + encode_strings(ss),
        ),
        _ => true,
    }
}

pub open spec fn list_encodable(ts: Seq<SpecType>, d: nat) -> bool
    decreases ts,
{
    ts.len() == 0 || (encodable(ts[0], d) && list_encodable(ts.drop_first(), d))
}

pub open spec fn fields_encodable(fs: Seq<(Seq<char>, SpecType)>, d: nat) -> bool
    decreases fs,
{
    fs.len() == 0 || (encodable(fs[0].1, d) && fields_encodable(fs.drop_first(), d))
}

/// The type that decoding gives back: record fields sorted by name and
/// symbol parts sorted, at every depth.
pub open spec fn normal_form(t: SpecType) -> SpecType
    decreases t,
{
    match t {
        SpecType::Array(e) => SpecType::Array(Box::new(normal_form(*e))),
        SpecType::MapOf(k, v) => SpecType::MapOf(Box::new(normal_form(*k)), Box::new(normal_form(*v))),
        SpecType::Record(fs) => SpecType::Record(sort_by_key(normal_fields(fs))),
        SpecType::Function(ps, r) => SpecType::Function(normal_list(ps), Box::new(normal_form(*r))),
        SpecType::Symbol(ss) => SpecType::Symbol(sort_strs(ss)),
        _ => t,
    }
}

pub open spec fn normal_list(ts: Seq<SpecType>) -> Seq<SpecType>
    decreases ts,
{
    if ts.len() == 0 {
        Seq::empty()
    } else {
        seq![normal_form(ts[0])] + normal_list(ts.drop_first())
    }
}

pub open spec fn normal_fields(fs: Seq<(Seq<char>, SpecType)>) -> Seq<(Seq<char>, SpecType)>
    decreases fs,
{
    if fs.len() == 0 {
        Seq::empty()
    } else {
        seq![(fs[0].0, normal_form(fs[0].1))] + normal_fields(fs.drop_first())
    }
}

/// Whether the record fields and symbol parts of a type are sorted, at
/// every depth, as the type constructors make them.
pub open spec fn sorted_throughout(t: SpecType) -> bool
    decreases t,
{
    match t {
        SpecType::Array(e) => sorted_throughout(*e),
        SpecType::MapOf(k, v) => sorted_throughout(*k) && sorted_throughout(*v),
        SpecType::Record(fs) => keys_sorted(fs) && fields_sorted_throughout(fs),
        SpecType::Function(ps, r) => list_sorted_throughout(ps) && sorted_throughout(*r),
        SpecType::Symbol(ss) => strs_sorted(ss),
        _ => true,
    }
}

pub open spec fn list_sorted_throughout(ts: Seq<SpecType>) -> bool
    decreases ts,
{
    ts.len() == 0 || (sorted_throughout(ts[0]) && list_sorted_throughout(ts.drop_first()))
}

pub open spec fn fields_sorted_throughout(fs: Seq<(Seq<char>, SpecType)>) -> bool
    decreases fs,
{
    fs.len() == 0 || (sorted_throughout(fs[0].1) && fields_sorted_throughout(fs.drop_first()))
}

/// A type sorted throughout is its own normal form.
pub proof fn lemma_normal_form_sorted(t: SpecType)
    requires
        sorted_throughout(t),
    ensures
        normal_form(t) == t,
    decreases t, 1nat,
{
    match t {
        SpecType::Array(e) => lemma_normal_form_sorted(*e),
        SpecType::MapOf(k, v) => {
            lemma_normal_form_sorted(*k);
            lemma_normal_form_sorted(*v);
        },
        SpecType::Record(fs) => {
            lemma_normal_fields_sorted(fs);
            lemma_sort_by_key_sorted(fs);
        },
        SpecType::Function(ps, r) => {
            lemma_normal_list_sorted(ps);
            lemma_normal_form_sorted(*r);
        },
        SpecType::Symbol(ss) => lemma_sort_strs_sorted(ss),
        _ => {},
    }
}

proof fn lemma_normal_list_sorted(ts: Seq<SpecType>)
    requires
        list_sorted_throughout(ts),
    ensures
        normal_list(ts) == ts,
    decreases ts, 0nat,
{
    if ts.len() > 0 {
        assert(decreases_to!(ts => ts[0]));
        lemma_normal_form_sorted(ts[0]);
        lemma_normal_list_sorted(ts.drop_first());
        assert(seq![ts[0]] + ts.drop_first() =~= ts);
    }
}

proof fn lemma_normal_fields_sorted(fs: Seq<(Seq<char>, SpecType)>)
    requires
        fields_sorted_throughout(fs),
    ensures
        normal_fields(fs) == fs,
    decreases fs, 0nat,
{
    if fs.len() > 0 {
        assert(decreases_to!(fs => fs[0]));
        lemma_normal_form_sorted(fs[0].1);
        lemma_normal_fields_sorted(fs.drop_first());
        assert(seq![(fs[0].0, fs[0].1)] + fs.drop_first() =~= fs);
    }
}

proof fn lemma_encode_nonempty(t: SpecType)
    ensures
        spec_encode(t).len() >= 1,
{
}

proof fn lemma_index_tag(t: TypeTag)
    requires
        is_prim(t),
    ensures
        index_tag(prim_index(t).unwrap() as int) == t,
        tag_byte(t) == prim_index(t).unwrap() + 1,
{
}

proof fn lemma_prim_type(t: SpecType)
    requires
        prim_tag(t) is Some,
    ensures
        prim_type(prim_tag(t).unwrap()) == t,
        is_prim(prim_tag(t).unwrap()),
{
}

/// The claimed length of an encoded type is its length.
pub proof fn lemma_encoded_len(t: SpecType, d: nat, rest: Seq<u8>)
    requires
        encodable(t, d),
    ensures
        spec_encoded_len(spec_encode(t) + rest) == spec_encode(t).len(),
{
    let b = spec_encode(t) + rest;
    match t {
        SpecType::TypeVar(id) => {
            if id > 31 {
                lemma_composite(0, u16_le(id as nat), rest);
            }
        },
        SpecType::Array(e) => {
            if prim_tag(*e) is None {
                lemma_composite(6, spec_encode(*e), rest);
            }
        },
        SpecType::MapOf(k, v) => {
            if !(prim_tag(*k) is Some && prim_tag(*v) is Some) {
                lemma_composite(7, spec_encode(*k) + spec_encode(*v), rest);
            }
        },
        SpecType::Record(fs) => {
            lemma_composite(8, spec_varint(fs.len()) + encode_fields(fs), rest);
        },
        SpecType::Function(ps, r) => {
            lemma_composite(9, spec_encode(*r) + spec_varint(ps.len()) + encode_list(ps), rest);
        },
        SpecType::Symbol(ss) => {
            lemma_composite(10, spec_varint(ss.len()) + encode_strings(ss), rest);
        },
        _ => {},
    }
}

// ---------------------------------------------------------------------------
// The round trip
// ---------------------------------------------------------------------------

/// Decoding the encoding of an encodable type, followed by anything, gives the
/// type back and consumes exactly its encoding.
pub proof fn lemma_decode_encode(t: SpecType, d: nat, rest: Seq<u8>)
    requires
        encodable(t, d),
    ensures
        spec_decode(spec_encode(t) + rest, d) == Ok::<(SpecType, nat), DecodeError>(
            (normal_form(t), spec_encode(t).len()),
        ),
    decreases t, 2nat,
{
    match t {
        SpecType::TypeVar(id) => lemma_de_typevar(id, d, rest),
        SpecType::Array(_) => lemma_de_array(t, d, rest),
        SpecType::MapOf(_, _) => lemma_de_map(t, d, rest),
        SpecType::Record(_) => lemma_de_record(t, d, rest),
        SpecType::Function(_, _) => lemma_de_function(t, d, rest),
        SpecType::Symbol(_) => lemma_de_symbol(t, d, rest),
        _ => {
            let b = spec_encode(t) + rest;
            assert(b[0] == spec_encode(t)[0]);
        },
    }
}

proof fn lemma_de_typevar(id: u16, d: nat, rest: Seq<u8>)
    requires
        d <= max_depth(),
    ensures
        spec_decode(spec_encode(SpecType::TypeVar(id)) + rest, d) == Ok::<
            (SpecType, nat),
            DecodeError,
        >((SpecType::TypeVar(id), spec_encode(SpecType::TypeVar(id)).len())),
{
    let e = spec_encode(SpecType::TypeVar(id));
    let b = e + rest;
    assert(b[0] == e[0]);
    if id > 31 {
        lemma_composite(0, u16_le(id as nat), rest);
        lemma_u16(id as nat);
        assert(spec_payload(b) == u16_le(id as nat));
        assert(spec_as_typevar(b) == Some(id));
    }
}

proof fn lemma_de_array(t: SpecType, d: nat, rest: Seq<u8>)
    requires
        encodable(t, d),
        t is Array,
    ensures
        spec_decode(spec_encode(t) + rest, d) == Ok::<(SpecType, nat), DecodeError>(
            (normal_form(t), spec_encode(t).len()),
        ),
    decreases t, 1nat,
{
    let el = t->Array_0;
    let e = spec_encode(t);
    let b = e + rest;
    assert(b[0] == e[0]);
    match prim_tag(*el) {
        Some(tag) => {
            lemma_index_tag(tag);
            lemma_prim_type(*el);
            assert(decode_array(b, d) == Ok::<(SpecType, nat), DecodeError>((normal_form(t), 1)));
        },
        None => {
            let p = spec_encode(*el);
            lemma_composite(6, p, rest);
            lemma_decode_encode(*el, d + 1, Seq::empty());
            assert(p + Seq::<u8>::empty() =~= p);
            assert(decode_array(b, d) == Ok::<(SpecType, nat), DecodeError>((normal_form(t), e.len())));
        },
    }
}

#[verifier::rlimit(40)]
proof fn lemma_de_map(t: SpecType, d: nat, rest: Seq<u8>)
    requires
        encodable(t, d),
        t is MapOf,
    ensures
        spec_decode(spec_encode(t) + rest, d) == Ok::<(SpecType, nat), DecodeError>(
            (normal_form(t), spec_encode(t).len()),
        ),
    decreases t, 1nat,
{
    let k = t->MapOf_0;
    let v = t->MapOf_1;
    let e = spec_encode(t);
    let b = e + rest;
    assert(b[0] == e[0]);
    match (prim_tag(*k), prim_tag(*v)) {
        (Some(kt), Some(vt)) => {
            lemma_index_tag(kt);
            lemma_index_tag(vt);
            lemma_prim_type(*k);
            lemma_prim_type(*v);
            let ki = prim_index(kt).unwrap() as int;
            let vi = prim_index(vt).unwrap() as int;
            assert((ki * 5 + vi) / 5 == ki && (ki * 5 + vi) % 5 == vi) by (nonlinear_arith)
                requires
                    0 <= ki < 5,
                    0 <= vi < 5,
            ;
            assert(decode_map(b, d) == Ok::<(SpecType, nat), DecodeError>((normal_form(t), 1)));
        },
        _ => {
            let ke = spec_encode(*k);
            let ve = spec_encode(*v);
            let p = ke + ve;
            lemma_composite(7, p, rest);
            lemma_encoded_len(*k, d + 1, ve);
            lemma_encode_nonempty(*k);
            lemma_decode_encode(*k, d + 1, ve);
            lemma_decode_encode(*v, d + 1, Seq::empty());
            assert(ve + Seq::<u8>::empty() =~= ve);
            assert(p.subrange(ke.len() as int, p.len() as int) =~= ve);
            assert(spec_as_map(b) == Some((p, ve)));
            assert(decode_map(b, d) == Ok::<(SpecType, nat), DecodeError>((normal_form(t), e.len())));
        },
    }
}

proof fn lemma_de_record(t: SpecType, d: nat, rest: Seq<u8>)
    requires
        encodable(t, d),
        t is Record,
    ensures
        spec_decode(spec_encode(t) + rest, d) == Ok::<(SpecType, nat), DecodeError>(
            (normal_form(t), spec_encode(t).len()),
        ),
    decreases t, 1nat,
{
    let fs = t->Record_0;
    let e = spec_encode(t);
    let b = e + rest;
    assert(b[0] == e[0]);
    let f = encode_fields(fs);
    let p = spec_varint(fs.len()) + f;
    lemma_composite(8, p, rest);
    lemma_read_varint(fs.len(), f);
    assert(p.subrange(spec_varint(fs.len()).len() as int, p.len() as int) =~= f);
    assert(spec_as_record(b) == Some((fs.len(), f)));
    lemma_decode_fields(b, fs, d);
}

#[verifier::rlimit(40)]
proof fn lemma_de_function(t: SpecType, d: nat, rest: Seq<u8>)
    requires
        encodable(t, d),
        t is Function,
    ensures
        spec_decode(spec_encode(t) + rest, d) == Ok::<(SpecType, nat), DecodeError>(
            (normal_form(t), spec_encode(t).len()),
        ),
    decreases t, 1nat,
{
    let ps = t->Function_0;
    let r = t->Function_1;
    let e = spec_encode(t);
    let b = e + rest;
    assert(b[0] == e[0]);
    let re = spec_encode(*r);
    let l = encode_list(ps);
    let after = spec_varint(ps.len()) + l;
    let p = re + after;
    assert(spec_encode(*r) + spec_varint(ps.len()) + encode_list(ps) =~= p);
    lemma_composite(9, p, rest);
    lemma_encoded_len(*r, d + 1, after);
    lemma_read_varint(ps.len(), l);
    assert(p.subrange(re.len() as int, p.len() as int) =~= after);
    assert(after.subrange(spec_varint(ps.len()).len() as int, after.len() as int) =~= l);
    assert(spec_as_function(b) == Some((p, ps.len(), l)));
    lemma_decode_encode(*r, d + 1, after);
    lemma_decode_params(b, ps, d);
}

proof fn lemma_de_symbol(t: SpecType, d: nat, rest: Seq<u8>)
    requires
        encodable(t, d),
        t is Symbol,
    ensures
        spec_decode(spec_encode(t) + rest, d) == Ok::<(SpecType, nat), DecodeError>(
            (normal_form(t), spec_encode(t).len()),
        ),
{
    let ss = t->Symbol_0;
    let e = spec_encode(t);
    let b = e + rest;
    assert(b[0] == e[0]);
    let l = encode_strings(ss);
    let p = spec_varint(ss.len()) + l;
    lemma_composite(10, p, rest);
    lemma_read_varint(ss.len(), l);
    assert(p.subrange(spec_varint(ss.len()).len() as int, p.len() as int) =~= l);
    assert(spec_as_symbol(b) == Some((ss.len(), l)));
    lemma_decode_parts(ss);
}

/// An encoded string is at least as long as its UTF-8 bytes, and not empty.
proof fn lemma_string_len(s: Seq<char>)
    ensures
        spec_string(s).len() >= encode_utf8(s).len() + 1,
{
    lemma_varint_len_pos(encode_utf8(s).len());
}

/// One step of decoding record fields.
proof fn lemma_fields_step(
    b: Seq<u8>,
    name: Seq<char>,
    ty: SpecType,
    nty: SpecType,
    tl: Seq<u8>,
    n: nat,
    d: nat,
)
    requires
        n > 0,
        (spec_string(name) + spec_encode(ty) + tl).len() < b.len(),
        (spec_string(name) + spec_encode(ty) + tl).len() < 65536,
        spec_encoded_len(spec_encode(ty) + tl) == spec_encode(ty).len(),
        spec_decode(spec_encode(ty) + tl, d + 1) == Ok::<(SpecType, nat), DecodeError>(
            (nty, spec_encode(ty).len()),
        ),
    ensures
        decode_fields(b, spec_string(name) + spec_encode(ty) + tl, n, d) == match decode_fields(
            b,
            tl,
            (n - 1) as nat,
            d,
        ) {
            Err(e) => Err(e),
            Ok(fs) => Ok(seq![(name, nty)] + fs),
        },
{
    let s = spec_string(name);
    let te = spec_encode(ty);
    let rest = s + te + tl;
    lemma_string_len(name);
    assert(rest =~= s + (te + tl));
    lemma_read_string(name, te + tl);
    assert(rest.subrange(s.len() as int, rest.len() as int) =~= te + tl);
    assert(rest.subrange((s.len() + te.len()) as int, rest.len() as int) =~= tl);
}

proof fn lemma_decode_fields(b: Seq<u8>, fs: Seq<(Seq<char>, SpecType)>, d: nat)
    requires
        fields_encodable(fs, d + 1),
        encode_fields(fs).len() < b.len(),
        encode_fields(fs).len() < 65536,
    ensures
        decode_fields(b, encode_fields(fs), fs.len(), d) == Ok::<
            Seq<(Seq<char>, SpecType)>,
            DecodeError,
        >(normal_fields(fs)),
    decreases fs, 0nat,
{
    if fs.len() > 0 {
        let name = fs[0].0;
        let ty = fs[0].1;
        let tail = fs.drop_first();
        let tl = encode_fields(tail);
        assert(encode_fields(fs) == spec_string(name) + spec_encode(ty) + tl);
        lemma_encoded_len(ty, d + 1, tl);
        assert(decreases_to!(fs => fs[0]));
        lemma_decode_encode(ty, d + 1, tl);
        lemma_fields_step(b, name, ty, normal_form(ty), tl, fs.len(), d);
        lemma_decode_fields(b, tail, d);
    }
}

/// One step of decoding function parameters.
proof fn lemma_params_step(b: Seq<u8>, t: SpecType, nt: SpecType, tl: Seq<u8>, n: nat, d: nat)
    requires
        n > 0,
        (spec_encode(t) + tl).len() < b.len(),
        spec_encoded_len(spec_encode(t) + tl) == spec_encode(t).len(),
        spec_decode(spec_encode(t) + tl, d + 1) == Ok::<(SpecType, nat), DecodeError>(
            (nt, spec_encode(t).len()),
        ),
    ensures
        decode_params(b, spec_encode(t) + tl, n, d) == match decode_params(
            b,
            tl,
            (n - 1) as nat,
            d,
        ) {
            Err(e) => Err(e),
            Ok(ps) => Ok(seq![nt] + ps),
        },
{
    let te = spec_encode(t);
    let rest = te + tl;
    lemma_encode_nonempty(t);
    assert(rest.subrange(te.len() as int, rest.len() as int) =~= tl);
}

proof fn lemma_decode_params(b: Seq<u8>, ps: Seq<SpecType>, d: nat)
    requires
        list_encodable(ps, d + 1),
        encode_list(ps).len() < b.len(),
    ensures
        decode_params(b, encode_list(ps), ps.len(), d) == Ok::<Seq<SpecType>, DecodeError>(
            normal_list(ps),
        ),
    decreases ps, 0nat,
{
    if ps.len() > 0 {
        let t = ps[0];
        let tail = ps.drop_first();
        let tl = encode_list(tail);
        assert(encode_list(ps) == spec_encode(t) + tl);
        lemma_encoded_len(t, d + 1, tl);
        lemma_decode_encode(t, d + 1, tl);
        lemma_params_step(b, t, normal_form(t), tl, ps.len(), d);
        lemma_decode_params(b, tail, d);
    }
}

/// One step of decoding symbol parts.
proof fn lemma_parts_step(name: Seq<char>, tl: Seq<u8>, n: nat)
    requires
        n > 0,
        (spec_string(name) + tl).len() < 65536,
    ensures
        decode_parts(spec_string(name) + tl, n) == match decode_parts(tl, (n - 1) as nat) {
            Err(e) => Err(e),
            Ok(ps) => Ok(seq![name] + ps),
        },
{
    let s = spec_string(name);
    let rest = s + tl;
    lemma_string_len(name);
    lemma_read_string(name, tl);
    assert(rest.subrange(s.len() as int, rest.len() as int) =~= tl);
}

proof fn lemma_decode_parts(ss: Seq<Seq<char>>)
    requires
        encode_strings(ss).len() < 65536,
    ensures
        decode_parts(encode_strings(ss), ss.len()) == Ok::<Seq<Seq<char>>, DecodeError>(ss),
    decreases ss.len(),
{
    if ss.len() > 0 {
        let tail = ss.drop_first();
        let tl = encode_strings(tail);
        assert(encode_strings(ss) == spec_string(ss[0]) + tl);
        lemma_parts_step(ss[0], tl, ss.len());
        lemma_decode_parts(tail);
        assert(seq![ss[0]] + tail =~= ss);
    } else {
        assert(ss =~= Seq::<Seq<char>>::empty());
    }
}

/// Decoding undoes encoding up to order: the bytes that encode a type decode
/// to that type with its record fields and symbol parts sorted, for every
/// type whose composite payloads fit the 16-bit size field and whose
/// nesting stays within the decoder's depth limit.
pub proof fn law_decode_encode_normal_form(t: SpecType)
    requires
        encodable(t, 0),
    ensures
        spec_decode_all(spec_encode(t)) == Ok::<SpecType, DecodeError>(normal_form(t)),
{
    lemma_decode_encode(t, 0, Seq::empty());
    assert(spec_encode(t) + Seq::<u8>::empty() =~= spec_encode(t));
}

/// Decoding inverts encoding: a type whose record fields and symbol parts
/// are sorted, as `Type::record` and `Type::symbol` make them, decodes from
/// its bytes to itself, within the same size and depth limits.
pub proof fn law_decode_encode(t: SpecType)
    requires
        encodable(t, 0),
        sorted_throughout(t),
    ensures
        spec_decode_all(spec_encode(t)) == Ok::<SpecType, DecodeError>(t),
{
    law_decode_encode_normal_form(t);
    lemma_normal_form_sorted(t);
}

/// Two encodable types are equal exactly when their encodings are equal, so
/// types can be compared by comparing bytes.
pub proof fn law_equal_iff_same_bytes(t1: SpecType, t2: SpecType)
    requires
        encodable(t1, 0),
        encodable(t2, 0),
        sorted_throughout(t1),
        sorted_throughout(t2),
    ensures
        (spec_encode(t1) == spec_encode(t2)) == (t1 == t2),
{
    law_decode_encode(t1);
    law_decode_encode(t2);
}

} // verus!
