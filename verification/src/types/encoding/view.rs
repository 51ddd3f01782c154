use crate::types::encoding::decode_model::{
    lemma_read_string_len, lemma_varint_len_bound,
    leftover, long_payload, pow128, sat_add, spec_as_array, spec_as_function, spec_as_map,
    spec_as_record, spec_as_symbol, spec_as_typevar, spec_counted, spec_encoded_len, spec_payload,
    spec_read_string, spec_read_varint, varint_from, varint_value, head,
};
use crate::types::encoding::error::DecodeError;
use crate::types::encoding::model::read_u16;
use crate::types::encoding::wire::{PayloadLocation, PayloadModel, WireTag, payload_model, spec_wire, wire_wf};
use crate::types::types::TypeTag;
use std::sync::Arc;
use vstd::prelude::*;
use vstd::utf8::{decode_utf8, valid_utf8};

verus! {

/// Byte storage for encoded types: borrowed (`&[u8]`) or shared (`Arc<[u8]>`).
pub trait TypeStorage: Clone {
    /// The bytes held.
    spec fn stored(&self) -> Seq<u8>;

    /// Returns a reference to the underlying bytes.
    fn as_bytes(&self) -> (r: &[u8])
        ensures
            r@ == self.stored(),
    ;
}

impl<'a> TypeStorage for &'a [u8] {
    open spec fn stored(&self) -> Seq<u8> {
        (*self)@
    }

    fn as_bytes(&self) -> (r: &[u8]) {
        *self
    }
}

impl TypeStorage for Arc<[u8]> {
    open spec fn stored(&self) -> Seq<u8> {
        (**self)@
    }

    fn as_bytes(&self) -> (r: &[u8]) {
        &**self
    }
}

/// `core::str::from_utf8`: the bytes as a string slice when they are valid
/// UTF-8, and its characters are the UTF-8 decoding of the bytes.
#[verifier::external_body]
fn utf8_str(bytes: &[u8]) -> (r: Option<&str>)
    ensures
        match r {
            Some(s) => valid_utf8(bytes@) && s@ == decode_utf8(bytes@),
            None => !valid_utf8(bytes@),
        },
{
    match core::str::from_utf8(bytes) {
        Ok(s) => Some(s),
        Err(_) => None,
    }
}

/// Reads a 16-bit value, low byte first.
pub fn read_u16_le(bytes: &[u8]) -> (r: u16)
    requires
        bytes@.len() >= 2,
    ensures
        r == read_u16(bytes@[0], bytes@[1]),
{
    (bytes[0] as u16) + 256 * (bytes[1] as u16)
}

/// Reads a varint: its value and the number of bytes it takes.
pub fn read_varint(bytes: &[u8]) -> (r: Result<(usize, usize), DecodeError>)
    ensures
        match (r, spec_read_varint(bytes@)) {
            (Ok((v, n)), Ok((sv, sn))) => v == sv && n == sn,
            (Err(e), Err(se)) => e == se,
            _ => false,
        },
{
    if bytes.len() == 0 {
        return Err(DecodeError::Truncated { offset: 0, needed: 1 });
    }
    let mut acc: u128 = 0;
    let mut mult: u128 = 1;
    let mut pos: usize = 0;
    while pos < bytes.len()
        invariant
            0 <= pos <= 9,
            pos <= bytes@.len(),
            mult == pow128(pos as nat),
            acc == varint_value(bytes@, pos as nat),
            acc < mult,
            spec_read_varint(bytes@) == varint_from(bytes@, pos as nat),
        decreases bytes.len() - pos,
    {
        let byte = bytes[pos];
        let low = (byte % 128) as u128;
        assert(mult <= 0x8000_0000_0000_0000) by {
            lemma_pow128_bound(pos as nat);
        }
        assert(low * mult < 128 * mult) by (nonlinear_arith)
            requires
                low < 128,
                mult > 0,
        ;
        let ghost old_acc = acc;
        acc = acc + low * mult;
        pos += 1;
        if byte < 128 {
            let v = (acc % 0x1_0000_0000_0000_0000u128) as usize;
            return Ok((v, pos));
        }
        if pos >= 10 {
            return Err(DecodeError::InvalidVarint { offset: pos });
        }
        assert(acc < 128 * mult) by (nonlinear_arith)
            requires
                acc == old_acc + low * mult,
                old_acc < mult,
                low < 128,
        ;
        mult = mult * 128;
    }
    Err(DecodeError::Truncated { offset: bytes.len(), needed: 1 })
}

proof fn lemma_pow128_bound(n: nat)
    requires
        n <= 9,
    ensures
        0 < pow128(n) <= 0x8000_0000_0000_0000,
{
    reveal_with_fuel(pow128, 10);
}

/// Reads a string: the string and the number of bytes it takes.
pub fn read_string(bytes: &[u8]) -> (r: Result<(&str, usize), DecodeError>)
    ensures
        match (r, spec_read_string(bytes@)) {
            (Ok((s, n)), Ok((ss, sn))) => s@ == ss && n == sn,
            (Err(e), Err(se)) => e == se,
            _ => false,
        },
{
    let (len, varint_len) = read_varint(bytes)?;
    proof {
        lemma_varint_len_bound(bytes@);
    }
    if len > bytes.len() - varint_len {
        return Err(
            DecodeError::Truncated { offset: bytes.len(), needed: varint_len.saturating_add(len) },
        );
    }
    let str_bytes = &bytes[varint_len..varint_len + len];
    match utf8_str(str_bytes) {
        Some(s) => Ok((s, varint_len + len)),
        None => Err(DecodeError::InvalidUtf8 { offset: varint_len }),
    }
}

/// An encoded type over some byte storage.
#[derive(Debug, Clone, Copy)]
pub struct EncodedType<S: TypeStorage> {
    storage: S,
}

impl<S: TypeStorage> EncodedType<S> {
    /// The bytes of the encoded type.
    pub closed spec fn view_bytes(&self) -> Seq<u8> {
        self.storage.stored()
    }

    pub fn new(storage: S) -> (r: Self)
        ensures
            r.view_bytes() == storage.stored(),
    {
        EncodedType { storage }
    }

    /// The underlying bytes.
    fn bytes(&self) -> (r: &[u8])
        ensures
            r@ == self.view_bytes(),
    {
        self.storage.as_bytes()
    }

    /// Equality by bytes.
    pub fn eq(&self, other: &Self) -> (r: bool)
        ensures
            r == (self.view_bytes() == other.view_bytes()),
    {
        let a = self.bytes();
        let b = other.bytes();
        if a.len() != b.len() {
            return false;
        }
        let mut i: usize = 0;
        while i < a.len()
            invariant
                a@ == self.view_bytes(),
                b@ == other.view_bytes(),
                a@.len() == b@.len(),
                0 <= i <= a@.len(),
                a@.take(i as int) == b@.take(i as int),
            decreases a.len() - i,
        {
            if a[i] != b[i] {
                assert(a@ != b@) by {
                    if a@ == b@ {
                        assert(a@[i as int] == b@[i as int]);
                    }
                }
                return false;
            }
            assert(a@.take(i + 1) =~= a@.take(i as int).push(a@[i as int]));
            assert(b@.take(i + 1) =~= b@.take(i as int).push(b@[i as int]));
            i += 1;
        }
        assert(a@ =~= a@.take(i as int));
        assert(b@ =~= b@.take(i as int));
        true
    }

    /// How many bytes this type claims to take: one for primitives, packed
    /// types and invalid bytes, three plus the size field for long formats.
    pub fn encoded_len(&self) -> (r: usize)
        ensures
            r == spec_encoded_len(self.view_bytes()),
    {
        let bytes = self.bytes();
        if bytes.len() == 0 {
            return 1;
        }
        match WireTag::from_byte(bytes[0]) {
            Ok(tag) => {
                if WireTag::is_primitive(tag.type_tag) {
                    return 1;
                }
                if !matches!(tag.payload, PayloadLocation::LongFormat) {
                    return 1;
                }
                if bytes.len() < 3 {
                    1
                } else {
                    3 + read_u16_le(&bytes[1..3]) as usize
                }
            },
            Err(_) => 1,
        }
    }

    /// The payload of a long-format type; empty otherwise.
    fn payload(&self) -> (r: &[u8])
        ensures
            r@ == spec_payload(self.view_bytes()),
    {
        let bytes = self.bytes();
        if bytes.len() == 0 {
            return &[];
        }
        match WireTag::from_byte(bytes[0]) {
            Ok(tag) => {
                if matches!(tag.payload, PayloadLocation::LongFormat) {
                    if bytes.len() < 3 {
                        return &[];
                    }
                    let size = read_u16_le(&bytes[1..3]) as usize;
                    if bytes.len() < 3 + size {
                        return &[];
                    }
                    &bytes[3..3 + size]
                } else {
                    &[]
                }
            },
            Err(_) => &[],
        }
    }

    /// If this is a type variable, its id (packed or long format).
    pub fn as_typevar(self) -> (r: Option<u16>)
        ensures
            r == spec_as_typevar(self.view_bytes()),
    {
        let bytes = self.bytes();
        if bytes.len() == 0 {
            return None;
        }
        let wire_tag = match WireTag::from_byte(bytes[0]) {
            Ok(t) => t,
            Err(_) => return None,
        };
        if wire_tag.type_tag != TypeTag::TypeVar {
            return None;
        }
        if let PayloadLocation::PackedTypeVar(id) = wire_tag.payload {
            return Some(id);
        }
        let payload = self.payload();
        if payload.len() < 2 {
            return None;
        }
        Some(read_u16_le(payload))
    }
}

/// The payload of a long-format type held by `bytes`.
fn long_payload_of<'a>(bytes: &'a [u8]) -> (r: Option<&'a [u8]>)
    ensures
        match (r, long_payload(bytes@)) {
            (Some(p), Some(sp)) => p@ == sp,
            (None, None) => true,
            _ => false,
        },
{
    if bytes.len() < 3 {
        return None;
    }
    let size = read_u16_le(&bytes[1..3]) as usize;
    if bytes.len() < 3 + size {
        return None;
    }
    Some(&bytes[3..3 + size])
}

impl<'a> EncodedType<&'a [u8]> {
    /// If this is an array, the element type.
    pub fn as_array(self) -> (r: Option<EncodedType<&'a [u8]>>)
        ensures
            match (r, spec_as_array(self.view_bytes())) {
                (Some(e), Some(se)) => e.view_bytes() == se,
                (None, None) => true,
                _ => false,
            },
    {
        let bytes = self.storage;
        if bytes.len() == 0 {
            return None;
        }
        let wire_tag = match WireTag::from_byte(bytes[0]) {
            Ok(t) => t,
            Err(_) => return None,
        };
        if wire_tag.type_tag != TypeTag::Array {
            return None;
        }
        if let PayloadLocation::PackedArray(elem_bytes) = wire_tag.payload {
            return Some(EncodedType::new(elem_bytes));
        }
        match long_payload_of(bytes) {
            Some(payload) => Some(EncodedType::new(payload)),
            None => None,
        }
    }

    /// If this is a map, the key type and the value type.
    pub fn as_map(self) -> (r: Option<(EncodedType<&'a [u8]>, EncodedType<&'a [u8]>)>)
        ensures
            match (r, spec_as_map(self.view_bytes())) {
                (Some((k, v)), Some((sk, sv))) => k.view_bytes() == sk && v.view_bytes() == sv,
                (None, None) => true,
                _ => false,
            },
    {
        let bytes = self.storage;
        if bytes.len() == 0 {
            return None;
        }
        let wire_tag = match WireTag::from_byte(bytes[0]) {
            Ok(t) => t,
            Err(_) => return None,
        };
        if wire_tag.type_tag != TypeTag::MapOf {
            return None;
        }
        if let PayloadLocation::PackedMap(key_bytes, val_bytes) = wire_tag.payload {
            return Some((EncodedType::new(key_bytes), EncodedType::new(val_bytes)));
        }
        let payload = match long_payload_of(bytes) {
            Some(p) => p,
            None => return None,
        };
        if payload.len() == 0 {
            return None;
        }
        let key = EncodedType::new(payload);
        let key_len = key.encoded_len();
        if key_len > payload.len() {
            return None;
        }
        let val = EncodedType::new(&payload[key_len..payload.len()]);
        Some((key, val))
    }

    /// If this is a record, an iterator over its fields.
    pub fn as_record(self) -> (r: Option<RecordIter<'a>>)
        ensures
            match (r, spec_as_record(self.view_bytes())) {
                (Some(it), Some((count, rest))) => it.remaining as nat == count && it.payload@
                    == rest,
                (None, None) => true,
                _ => false,
            },
    {
        let bytes = self.storage;
        if bytes.len() == 0 {
            return None;
        }
        let wire_tag = match WireTag::from_byte(bytes[0]) {
            Ok(t) => t,
            Err(_) => return None,
        };
        if wire_tag.type_tag != TypeTag::Record {
            return None;
        }
        let payload = match long_payload_of(bytes) {
            Some(p) => p,
            None => return None,
        };
        match RecordIter::new(payload) {
            Ok(it) => Some(it),
            Err(_) => None,
        }
    }

    /// If this is a function, its return type and an iterator over its parameters.
    pub fn as_function(self) -> (r: Option<(EncodedType<&'a [u8]>, ParamsIter<'a>)>)
        ensures
            match (r, spec_as_function(self.view_bytes())) {
                (Some((ret, it)), Some((sret, count, rest))) => ret.view_bytes() == sret
                    && it.remaining as nat == count && it.payload@ == rest,
                (None, None) => true,
                _ => false,
            },
    {
        let bytes = self.storage;
        if bytes.len() == 0 {
            return None;
        }
        let wire_tag = match WireTag::from_byte(bytes[0]) {
            Ok(t) => t,
            Err(_) => return None,
        };
        if wire_tag.type_tag != TypeTag::Function {
            return None;
        }
        let payload = match long_payload_of(bytes) {
            Some(p) => p,
            None => return None,
        };
        let return_view = EncodedType::new(payload);
        let return_len = return_view.encoded_len();
        if return_len > payload.len() {
            return None;
        }
        match ParamsIter::new(&payload[return_len..payload.len()]) {
            Ok(it) => Some((return_view, it)),
            Err(_) => None,
        }
    }

    /// If this is a symbol, an iterator over its parts.
    pub fn as_symbol(self) -> (r: Option<SymbolIter<'a>>)
        ensures
            match (r, spec_as_symbol(self.view_bytes())) {
                (Some(it), Some((count, rest))) => it.remaining as nat == count && it.payload@
                    == rest,
                (None, None) => true,
                _ => false,
            },
    {
        let bytes = self.storage;
        if bytes.len() == 0 {
            return None;
        }
        let wire_tag = match WireTag::from_byte(bytes[0]) {
            Ok(t) => t,
            Err(_) => return None,
        };
        if wire_tag.type_tag != TypeTag::Symbol {
            return None;
        }
        let payload = match long_payload_of(bytes) {
            Some(p) => p,
            None => return None,
        };
        match SymbolIter::new(payload) {
            Ok(it) => Some(it),
            Err(_) => None,
        }
    }
}

/// The error for bytes left over after the last item, if any.
pub fn validate_payload_is_empty(payload: &[u8]) -> (r: Option<DecodeError>)
    ensures
        payload@.len() == 0 ==> r is None,
        payload@.len() > 0 ==> r == Some(leftover(payload@)),
{
    if payload.len() == 0 {
        return None;
    }
    Some(DecodeError::SizeMismatch { offset: 0, claimed: 0, actual: payload.len() })
}

/// Reads the count of a counted list: the count and the bytes after it.
fn read_count<'a>(payload: &'a [u8]) -> (r: Result<(usize, &'a [u8]), DecodeError>)
    ensures
        match (r, spec_counted(payload@)) {
            (Ok((count, rest)), Some((sc, srest))) => count as nat == sc && rest@ == srest,
            (Err(e), None) => spec_read_varint(payload@) == Err::<(nat, nat), DecodeError>(e),
            _ => false,
        },
{
    let (count, varint_len) = read_varint(payload)?;
    proof {
        lemma_varint_len_bound(payload@);
    }
    Ok((count, &payload[varint_len..payload.len()]))
}

/// The fields of an encoded record, one at a time.
pub struct RecordIter<'a> {
    pub payload: &'a [u8],
    pub remaining: usize,
}

impl<'a> RecordIter<'a> {
    /// Reads the field count at the start of `payload`.
    pub fn new(payload: &'a [u8]) -> (r: Result<Self, DecodeError>)
        ensures
            match (r, spec_counted(payload@)) {
                (Ok(it), Some((count, rest))) => it.remaining as nat == count && it.payload@
                    == rest,
                (Err(e), None) => spec_read_varint(payload@) == Err::<(nat, nat), DecodeError>(e),
                _ => false,
            },
    {
        let (count, rest) = read_count(payload)?;
        Ok(RecordIter { payload: rest, remaining: count })
    }

    /// The next field: its name and the bytes from its type on.
    pub fn next(&mut self) -> (r: Option<Result<(&'a str, EncodedType<&'a [u8]>), DecodeError>>)
        ensures
            old(self).remaining == 0 ==> {
                &&& *final(self) == *old(self)
                &&& old(self).payload@.len() == 0 ==> r is None
                &&& old(self).payload@.len() > 0 ==> r == Some(
                    Err::<(&'a str, EncodedType<&'a [u8]>), DecodeError>(leftover(old(self).payload@)),
                )
            },
            old(self).remaining > 0 ==> {
                &&& final(self).remaining == old(self).remaining - 1
                &&& match spec_read_string(old(self).payload@) {
                    Err(e) => r == Some(Err::<(&'a str, EncodedType<&'a [u8]>), DecodeError>(e)),
                    Ok((name, name_len)) => {
                        let rest = old(self).payload@;
                        let ty_bytes = rest.subrange(name_len as int, rest.len() as int);
                        let ty_len = spec_encoded_len(ty_bytes);
                        if name_len + ty_len > rest.len() {
                            r == Some(
                                Err::<(&'a str, EncodedType<&'a [u8]>), DecodeError>(
                                    DecodeError::Truncated {
                                        offset: 0,
                                        needed: sat_add(name_len, ty_len) as usize,
                                    },
                                ),
                            )
                        } else {
                            &&& r matches Some(Ok((n, v)))
                            &&& n@ == name
                            &&& v.view_bytes() == ty_bytes
                            &&& final(self).payload@ == rest.subrange(
                                (name_len + ty_len) as int,
                                rest.len() as int,
                            )
                        }
                    },
                }
            },
    {
        if self.remaining == 0 {
            if let Some(e) = validate_payload_is_empty(self.payload) {
                return Some(Err(e));
            }
            return None;
        }
        self.remaining -= 1;
        let (name, name_len) = match read_string(self.payload) {
            Ok(r) => r,
            Err(e) => return Some(Err(e)),
        };
        proof {
            lemma_read_string_len(self.payload@);
        }
        let ty_view = EncodedType::new(&self.payload[name_len..self.payload.len()]);
        let ty_len = ty_view.encoded_len();
        if ty_len > self.payload.len() - name_len {
            return Some(
                Err(DecodeError::Truncated { offset: 0, needed: name_len.saturating_add(ty_len) }),
            );
        }
        self.payload = &self.payload[name_len + ty_len..self.payload.len()];
        Some(Ok((name, ty_view)))
    }
}

/// The parameters of an encoded function, one at a time.
pub struct ParamsIter<'a> {
    pub payload: &'a [u8],
    pub remaining: usize,
}

impl<'a> ParamsIter<'a> {
    /// Reads the parameter count at the start of `payload`.
    pub fn new(payload: &'a [u8]) -> (r: Result<Self, DecodeError>)
        ensures
            match (r, spec_counted(payload@)) {
                (Ok(it), Some((count, rest))) => it.remaining as nat == count && it.payload@
                    == rest,
                (Err(e), None) => spec_read_varint(payload@) == Err::<(nat, nat), DecodeError>(e),
                _ => false,
            },
    {
        let (count, rest) = read_count(payload)?;
        Ok(ParamsIter { payload: rest, remaining: count })
    }

    /// The next parameter: the bytes from its type on.
    pub fn next(&mut self) -> (r: Option<Result<EncodedType<&'a [u8]>, DecodeError>>)
        ensures
            old(self).remaining == 0 ==> {
                &&& *final(self) == *old(self)
                &&& old(self).payload@.len() == 0 ==> r is None
                &&& old(self).payload@.len() > 0 ==> r == Some(
                    Err::<EncodedType<&'a [u8]>, DecodeError>(leftover(old(self).payload@)),
                )
            },
            old(self).remaining > 0 ==> {
                let rest = old(self).payload@;
                let len = spec_encoded_len(rest);
                &&& final(self).remaining == old(self).remaining - 1
                &&& rest.len() == 0 ==> r == Some(
                    Err::<EncodedType<&'a [u8]>, DecodeError>(
                        DecodeError::Truncated { offset: 0, needed: 1 },
                    ),
                )
                &&& rest.len() > 0 && len > rest.len() ==> r == Some(
                    Err::<EncodedType<&'a [u8]>, DecodeError>(
                        DecodeError::Truncated { offset: 0, needed: len as usize },
                    ),
                )
                &&& rest.len() > 0 && len <= rest.len() ==> {
                    &&& r matches Some(Ok(v))
                    &&& v.view_bytes() == rest
                    &&& final(self).payload@ == rest.subrange(len as int, rest.len() as int)
                }
            },
    {
        if self.remaining == 0 {
            if let Some(e) = validate_payload_is_empty(self.payload) {
                return Some(Err(e));
            }
            return None;
        }
        self.remaining -= 1;
        if self.payload.len() == 0 {
            return Some(Err(DecodeError::Truncated { offset: 0, needed: 1 }));
        }
        let view = EncodedType::new(self.payload);
        let len = view.encoded_len();
        if len > self.payload.len() {
            return Some(Err(DecodeError::Truncated { offset: 0, needed: len }));
        }
        self.payload = &self.payload[len..self.payload.len()];
        Some(Ok(view))
    }
}

/// The parts of an encoded symbol, one at a time.
pub struct SymbolIter<'a> {
    pub payload: &'a [u8],
    pub remaining: usize,
}

impl<'a> SymbolIter<'a> {
    /// Reads the part count at the start of `payload`.
    pub fn new(payload: &'a [u8]) -> (r: Result<Self, DecodeError>)
        ensures
            match (r, spec_counted(payload@)) {
                (Ok(it), Some((count, rest))) => it.remaining as nat == count && it.payload@
                    == rest,
                (Err(e), None) => spec_read_varint(payload@) == Err::<(nat, nat), DecodeError>(e),
                _ => false,
            },
    {
        let (count, rest) = read_count(payload)?;
        Ok(SymbolIter { payload: rest, remaining: count })
    }

    /// The next part.
    pub fn next(&mut self) -> (r: Option<Result<&'a str, DecodeError>>)
        ensures
            old(self).remaining == 0 ==> {
                &&& *final(self) == *old(self)
                &&& old(self).payload@.len() == 0 ==> r is None
                &&& old(self).payload@.len() > 0 ==> r == Some(
                    Err::<&'a str, DecodeError>(leftover(old(self).payload@)),
                )
            },
            old(self).remaining > 0 ==> {
                &&& final(self).remaining == old(self).remaining - 1
                &&& match spec_read_string(old(self).payload@) {
                    Err(e) => r == Some(Err::<&'a str, DecodeError>(e)),
                    Ok((part, part_len)) => {
                        &&& r matches Some(Ok(s))
                        &&& s@ == part
                        &&& final(self).payload@ == old(self).payload@.subrange(
                            part_len as int,
                            old(self).payload@.len() as int,
                        )
                    },
                }
            },
    {
        if self.remaining == 0 {
            if let Some(e) = validate_payload_is_empty(self.payload) {
                return Some(Err(e));
            }
            return None;
        }
        self.remaining -= 1;
        match read_string(self.payload) {
            Ok((part, part_len)) => {
                proof {
                    lemma_read_string_len(self.payload@);
                }
                self.payload = &self.payload[part_len..self.payload.len()];
                Some(Ok(part))
            },
            Err(e) => Some(Err(e)),
        }
    }
}

/// Parameters that must decode: stepping through them panics on a decoding
/// error.
pub struct ParamsIterView<'a> {
    pub inner: ParamsIter<'a>,
}

impl<'a> ParamsIterView<'a> {
    pub fn new(inner: ParamsIter<'a>) -> (r: Self)
        ensures
            r.inner == inner,
    {
        ParamsIterView { inner }
    }
}

/// Symbol parts that must decode: stepping through them panics on a decoding
/// error.
pub struct SymbolIterView<'a> {
    pub inner: SymbolIter<'a>,
}

impl<'a> SymbolIterView<'a> {
    pub fn new(inner: SymbolIter<'a>) -> (r: Self)
        ensures
            r.inner == inner,
    {
        SymbolIterView { inner }
    }
}

} // verus!

verus! {

impl<'a> EncodedType<&'a [u8]> {
    /// The underlying bytes, with the lifetime of the storage.
    pub fn bytes_of(self) -> (r: &'a [u8])
        ensures
            r@ == self.view_bytes(),
    {
        self.storage
    }
}

} // verus!

verus! {

/// Record fields that must decode: stepping through them panics on a
/// decoding error.
pub struct RecordIterView<'a> {
    pub inner: RecordIter<'a>,
}

impl<'a> RecordIterView<'a> {
    pub fn new(inner: RecordIter<'a>) -> (r: Self)
        ensures
            r.inner == inner,
    {
        RecordIterView { inner }
    }
}

/// What kind of type an encoded type is, with the encoded parts it is made
/// of.
pub enum TypeKind<'a> {
    TypeVar(u16),
    Int,
    Float,
    Bool,
    Str,
    Bytes,
    Array(EncodedType<&'a [u8]>),
    MapOf(EncodedType<&'a [u8]>, EncodedType<&'a [u8]>),
    Record(RecordIterView<'a>),
    Function { params: ParamsIterView<'a>, ret: EncodedType<&'a [u8]> },
    Symbol(SymbolIterView<'a>),
}

/// What `EncodedType::view` gives for the bytes `b`: the kind of the type
/// and its parts, or `Int` where the bytes are not a valid encoding.
pub open spec fn view_matches(b: Seq<u8>, k: TypeKind) -> bool {
    match head(b) {
        None => k is Int,
        Some((_, PayloadModel::PackedTypeVar(id))) => k == TypeKind::TypeVar(id),
        Some((tag, _)) => match tag {
            TypeTag::Int => k is Int,
            TypeTag::Float => k is Float,
            TypeTag::Bool => k is Bool,
            TypeTag::Str => k is Str,
            TypeTag::Bytes => k is Bytes,
            TypeTag::TypeVar => k == TypeKind::TypeVar(
                match spec_as_typevar(b) {
                    Some(id) => id,
                    None => 0,
                },
            ),
            TypeTag::Array => match spec_as_array(b) {
                Some(e) => k matches TypeKind::Array(x) && x.view_bytes() == e,
                None => k is Int,
            },
            TypeTag::MapOf => match spec_as_map(b) {
                Some((sk, sv)) => k matches TypeKind::MapOf(x, y) && x.view_bytes() == sk
                    && y.view_bytes() == sv,
                None => k is Int,
            },
            TypeTag::Record => match spec_as_record(b) {
                Some((count, rest)) => k matches TypeKind::Record(it) && it.inner.remaining as nat
                    == count && it.inner.payload@ == rest,
                None => k is Int,
            },
            TypeTag::Function => match spec_as_function(b) {
                Some((sret, count, rest)) => k matches TypeKind::Function { params, ret }
                    && ret.view_bytes() == sret && params.inner.remaining as nat == count
                    && params.inner.payload@ == rest,
                None => k is Int,
            },
            TypeTag::Symbol => match spec_as_symbol(b) {
                Some((count, rest)) => k matches TypeKind::Symbol(it) && it.inner.remaining as nat
                    == count && it.inner.payload@ == rest,
                None => k is Int,
            },
        },
    }
}

impl<'a> EncodedType<&'a [u8]> {
    /// The kind of this type, with its parts; `Int` where the bytes are not
    /// a valid encoding, `TypeVar(0)` for a type variable whose id is cut off.
    pub fn view(self) -> (k: TypeKind<'a>)
        ensures
            view_matches(self.view_bytes(), k),
    {
        let bytes = self.bytes_of();
        if bytes.len() == 0 {
            return TypeKind::Int;
        }
        let wire_tag = match WireTag::from_byte(bytes[0]) {
            Ok(tag) => tag,
            Err(_) => return TypeKind::Int,
        };
        if let PayloadLocation::PackedTypeVar(id) = wire_tag.payload {
            return TypeKind::TypeVar(id);
        }
        match wire_tag.type_tag {
            TypeTag::Int => TypeKind::Int,
            TypeTag::Float => TypeKind::Float,
            TypeTag::Bool => TypeKind::Bool,
            TypeTag::Str => TypeKind::Str,
            TypeTag::Bytes => TypeKind::Bytes,
            TypeTag::TypeVar => {
                if let Some(id) = self.as_typevar() {
                    TypeKind::TypeVar(id)
                } else {
                    TypeKind::TypeVar(0)
                }
            },
            TypeTag::Array => {
                if let Some(elem) = self.as_array() {
                    TypeKind::Array(elem)
                } else {
                    TypeKind::Int
                }
            },
            TypeTag::MapOf => {
                if let Some((key, val)) = self.as_map() {
                    TypeKind::MapOf(key, val)
                } else {
                    TypeKind::Int
                }
            },
            TypeTag::Record => {
                if let Some(iter) = self.as_record() {
                    TypeKind::Record(RecordIterView::new(iter))
                } else {
                    TypeKind::Int
                }
            },
            TypeTag::Function => {
                if let Some((ret, params)) = self.as_function() {
                    TypeKind::Function { params: ParamsIterView::new(params), ret }
                } else {
                    TypeKind::Int
                }
            },
            TypeTag::Symbol => {
                if let Some(iter) = self.as_symbol() {
                    TypeKind::Symbol(SymbolIterView::new(iter))
                } else {
                    TypeKind::Int
                }
            },
        }
    }
}

} // verus!
