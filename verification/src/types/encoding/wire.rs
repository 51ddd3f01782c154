use crate::types::encoding::error::DecodeError;
use crate::types::encoding::model::{is_prim, prim_index, prim_tag};
use crate::types::types::{Type, TypeTag, tag_byte};
use vstd::prelude::*;

verus! {

/// Which format encoding should prefer.
#[derive(Debug, Clone, Copy)]
pub enum WireEncoding {
    /// The standard format, with a payload.
    Standard,
    /// A type variable packed in its wire byte, if its id allows.
    PackedTypeVar(u16),
    /// An array of a primitive type, packed in its wire byte.
    PackedArray(TypeTag),
    /// A map between primitive types, packed in its wire byte.
    PackedMap(TypeTag, TypeTag),
}

/// Where the contents of a decoded wire byte are found.
#[derive(Debug, Clone, Copy)]
pub enum PayloadLocation {
    /// In the payload that follows the header.
    LongFormat,
    /// The type variable id is in the wire byte.
    PackedTypeVar(u16),
    /// The element type, as the bytes of its encoding.
    PackedArray(&'static [u8]),
    /// The key and value types, as the bytes of their encodings.
    PackedMap(&'static [u8], &'static [u8]),
}

/// A decoded wire byte: the kind of type and where its contents are.
#[derive(Debug, Clone, Copy)]
pub struct WireTag {
    pub type_tag: TypeTag,
    pub payload: PayloadLocation,
}

/// The contents of a wire byte, with packed element types given by their tags.
pub enum PayloadModel {
    LongFormat,
    PackedTypeVar(u16),
    PackedArray(TypeTag),
    PackedMap(TypeTag, TypeTag),
}

/// The tag whose byte is `b`, for `b <= 10`.
pub open spec fn byte_tag(b: u8) -> TypeTag {
    if b == 0 {
        TypeTag::TypeVar
    } else if b == 1 {
        TypeTag::Int
    } else if b == 2 {
        TypeTag::Float
    } else if b == 3 {
        TypeTag::Bool
    } else if b == 4 {
        TypeTag::Str
    } else if b == 5 {
        TypeTag::Bytes
    } else if b == 6 {
        TypeTag::Array
    } else if b == 7 {
        TypeTag::MapOf
    } else if b == 8 {
        TypeTag::Record
    } else if b == 9 {
        TypeTag::Function
    } else {
        TypeTag::Symbol
    }
}

/// The primitive tag with index `i` (0..5).
pub open spec fn index_tag(i: int) -> TypeTag {
    byte_tag((i + 1) as u8)
}

/// A static byte string that encodes one primitive type.
pub open spec fn is_prim_bytes(s: Seq<u8>) -> bool {
    s.len() == 1 && 1 <= s[0] <= 5
}

pub open spec fn payload_model(p: PayloadLocation) -> PayloadModel {
    match p {
        PayloadLocation::LongFormat => PayloadModel::LongFormat,
        PayloadLocation::PackedTypeVar(id) => PayloadModel::PackedTypeVar(id),
        PayloadLocation::PackedArray(e) => PayloadModel::PackedArray(byte_tag(e@[0])),
        PayloadLocation::PackedMap(k, v) => PayloadModel::PackedMap(
            byte_tag(k@[0]),
            byte_tag(v@[0]),
        ),
    }
}

/// A wire tag that encoding can write and decoding can produce.
pub open spec fn wire_wf(w: WireTag) -> bool {
    match w.payload {
        PayloadLocation::LongFormat => true,
        PayloadLocation::PackedTypeVar(id) => w.type_tag == TypeTag::TypeVar && id <= 31,
        PayloadLocation::PackedArray(e) => w.type_tag == TypeTag::Array && is_prim_bytes(e@),
        PayloadLocation::PackedMap(k, v) => w.type_tag == TypeTag::MapOf && is_prim_bytes(k@)
            && is_prim_bytes(v@),
    }
}

/// What a wire byte stands for.
pub open spec fn spec_wire(byte: u8) -> Result<(TypeTag, PayloadModel), DecodeError> {
    if byte <= 10 {
        Ok((byte_tag(byte), PayloadModel::LongFormat))
    } else if 64 <= byte <= 95 {
        Ok((TypeTag::TypeVar, PayloadModel::PackedTypeVar((byte - 64) as u16)))
    } else if 96 <= byte <= 100 {
        Ok((TypeTag::Array, PayloadModel::PackedArray(index_tag(byte - 96))))
    } else if 101 <= byte <= 125 {
        Ok(
            (
                TypeTag::MapOf,
                PayloadModel::PackedMap(
                    index_tag((byte - 101) / 5),
                    index_tag((byte - 101) % 5),
                ),
            ),
        )
    } else {
        Err(DecodeError::UnknownDiscriminant { discriminant: byte, offset: 0 })
    }
}

/// The wire byte of a well-formed wire tag.
pub open spec fn spec_wire_byte(w: WireTag) -> u8 {
    match payload_model(w.payload) {
        PayloadModel::PackedTypeVar(id) => (64 + id) as u8,
        PayloadModel::PackedArray(e) => (96 + prim_index(e).unwrap()) as u8,
        PayloadModel::PackedMap(k, v) => (101 + prim_index(k).unwrap() * 5 + prim_index(
            v,
        ).unwrap()) as u8,
        PayloadModel::LongFormat => tag_byte(w.type_tag),
    }
}

pub proof fn lemma_byte_tag_inverse(tag: TypeTag)
    ensures
        byte_tag(tag_byte(tag)) == tag,
{
}

impl WireTag {
    /// The one-byte encoding of a primitive type tag.
    pub fn encoded_bytes(tag: TypeTag) -> (r: Option<&'static [u8]>)
        ensures
            is_prim(tag) ==> (r matches Some(s) && s@ == seq![tag_byte(tag)]),
            !is_prim(tag) ==> r is None,
    {
        match tag {
            TypeTag::Int => Some(&[1u8]),
            TypeTag::Float => Some(&[2u8]),
            TypeTag::Bool => Some(&[3u8]),
            TypeTag::Str => Some(&[4u8]),
            TypeTag::Bytes => Some(&[5u8]),
            _ => None,
        }
    }

    /// The standard wire byte of a tag: the tag's own byte.
    pub fn to_wire_byte(type_tag: TypeTag) -> (r: u8)
        ensures
            r == tag_byte(type_tag),
    {
        type_tag.to_u8()
    }

    /// The index (0..5) of a primitive tag in packed bytes.
    pub fn type_tag_to_primitive_index(tag: TypeTag) -> (r: Option<u8>)
        ensures
            r == prim_index(tag),
    {
        match tag {
            TypeTag::Int => Some(0),
            TypeTag::Float => Some(1),
            TypeTag::Bool => Some(2),
            TypeTag::Str => Some(3),
            TypeTag::Bytes => Some(4),
            _ => None,
        }
    }

    /// Whether a tag is primitive.
    pub fn is_primitive(tag: TypeTag) -> (r: bool)
        ensures
            r == is_prim(tag),
    {
        matches!(tag, TypeTag::Int | TypeTag::Float | TypeTag::Bool | TypeTag::Str | TypeTag::Bytes)
    }

    /// Decodes a wire byte.
    pub fn from_byte(byte: u8) -> (r: Result<WireTag, DecodeError>)
        ensures
            match (r, spec_wire(byte)) {
                (Ok(w), Ok((tag, p))) => w.type_tag == tag && payload_model(w.payload) == p
                    && wire_wf(w),
                (Err(e), Err(e2)) => e == e2,
                _ => false,
            },
    {
        if byte <= 10 {
            let tag = match TypeTag::try_from(byte) {
                Ok(t) => t,
                Err(_) => TypeTag::TypeVar,
            };
            Ok(WireTag { type_tag: tag, payload: PayloadLocation::LongFormat })
        } else if 64 <= byte && byte <= 95 {
            let id = (byte - 64) as u16;
            Ok(WireTag { type_tag: TypeTag::TypeVar, payload: PayloadLocation::PackedTypeVar(id) })
        } else if 96 <= byte && byte <= 100 {
            let elem = match primitive_index_to_type_tag(byte - 96) {
                Ok(t) => t,
                Err(_) => TypeTag::Int,
            };
            let bytes = match Self::encoded_bytes(elem) {
                Some(b) => b,
                None => &[1u8],
            };
            Ok(WireTag { type_tag: TypeTag::Array, payload: PayloadLocation::PackedArray(bytes) })
        } else if 101 <= byte && byte <= 125 {
            let offset = byte - 101;
            let key_tag = primitive_index_to_type_tag(offset / 5)?;
            let val_tag = primitive_index_to_type_tag(offset % 5)?;
            let key_bytes = match Self::encoded_bytes(key_tag) {
                Some(b) => b,
                None => &[1u8],
            };
            let val_bytes = match Self::encoded_bytes(val_tag) {
                Some(b) => b,
                None => &[1u8],
            };
            Ok(
                WireTag {
                    type_tag: TypeTag::MapOf,
                    payload: PayloadLocation::PackedMap(key_bytes, val_bytes),
                },
            )
        } else {
            Err(DecodeError::UnknownDiscriminant { discriminant: byte, offset: 0 })
        }
    }

    /// The wire tag to write for a type tag, packed where the preferred
    /// encoding allows it.
    pub fn for_encoding(type_tag: TypeTag, encoding: WireEncoding) -> (r: WireTag)
        ensures
            wire_wf(r),
            r.type_tag == type_tag,
            match (type_tag, encoding) {
                (TypeTag::TypeVar, WireEncoding::PackedTypeVar(id)) => if id <= 31 {
                    payload_model(r.payload) == PayloadModel::PackedTypeVar(id)
                } else {
                    r.payload is LongFormat
                },
                (TypeTag::Array, WireEncoding::PackedArray(e)) => if is_prim(e) {
                    payload_model(r.payload) == PayloadModel::PackedArray(e)
                } else {
                    r.payload is LongFormat
                },
                (TypeTag::MapOf, WireEncoding::PackedMap(k, v)) => if is_prim(k) && is_prim(v) {
                    payload_model(r.payload) == PayloadModel::PackedMap(k, v)
                } else {
                    r.payload is LongFormat
                },
                _ => r.payload is LongFormat,
            },
    {
        match (type_tag, encoding) {
            (TypeTag::TypeVar, WireEncoding::PackedTypeVar(id)) if id <= 31 => WireTag {
                type_tag: TypeTag::TypeVar,
                payload: PayloadLocation::PackedTypeVar(id),
            },
            (TypeTag::Array, WireEncoding::PackedArray(elem)) if Self::is_primitive(elem) => {
                let bytes = match Self::encoded_bytes(elem) {
                    Some(b) => b,
                    None => &[1u8],
                };
                proof {
                    lemma_byte_tag_inverse(elem);
                }
                WireTag { type_tag: TypeTag::Array, payload: PayloadLocation::PackedArray(bytes) }
            },
            (TypeTag::MapOf, WireEncoding::PackedMap(key, val)) if Self::is_primitive(key)
                && Self::is_primitive(val) => {
                let key_bytes = match Self::encoded_bytes(key) {
                    Some(b) => b,
                    None => &[1u8],
                };
                let val_bytes = match Self::encoded_bytes(val) {
                    Some(b) => b,
                    None => &[1u8],
                };
                proof {
                    lemma_byte_tag_inverse(key);
                    lemma_byte_tag_inverse(val);
                }
                WireTag {
                    type_tag: TypeTag::MapOf,
                    payload: PayloadLocation::PackedMap(key_bytes, val_bytes),
                }
            },
            _ => WireTag { type_tag, payload: PayloadLocation::LongFormat },
        }
    }

    /// The wire byte of a well-formed wire tag.
    pub fn to_byte(&self) -> (r: u8)
        requires
            wire_wf(*self),
        ensures
            r == spec_wire_byte(*self),
    {
        match self.payload {
            PayloadLocation::PackedTypeVar(id) => 64 + (id as u8),
            PayloadLocation::PackedArray(elem_bytes) => {
                let elem_tag = match TypeTag::try_from(elem_bytes[0]) {
                    Ok(t) => t,
                    Err(_) => TypeTag::Int,
                };
                let idx = match Self::type_tag_to_primitive_index(elem_tag) {
                    Some(i) => i,
                    None => 0,
                };
                96 + idx
            },
            PayloadLocation::PackedMap(key_bytes, val_bytes) => {
                let key_tag = match TypeTag::try_from(key_bytes[0]) {
                    Ok(t) => t,
                    Err(_) => TypeTag::Int,
                };
                let val_tag = match TypeTag::try_from(val_bytes[0]) {
                    Ok(t) => t,
                    Err(_) => TypeTag::Int,
                };
                let key_idx = match Self::type_tag_to_primitive_index(key_tag) {
                    Some(i) => i,
                    None => 0,
                };
                let val_idx = match Self::type_tag_to_primitive_index(val_tag) {
                    Some(i) => i,
                    None => 0,
                };
                101 + key_idx * 5 + val_idx
            },
            PayloadLocation::LongFormat => Self::to_wire_byte(self.type_tag),
        }
    }
}

/// The primitive tag with index `idx` (0..5).
pub fn primitive_index_to_type_tag(idx: u8) -> (r: Result<TypeTag, DecodeError>)
    ensures
        idx < 5 ==> r == Ok::<TypeTag, DecodeError>(index_tag(idx as int)),
        idx >= 5 ==> r == Err::<TypeTag, DecodeError>(
            DecodeError::UnknownDiscriminant { discriminant: idx, offset: 0 },
        ),
{
    match idx {
        0 => Ok(TypeTag::Int),
        1 => Ok(TypeTag::Float),
        2 => Ok(TypeTag::Bool),
        3 => Ok(TypeTag::Str),
        4 => Ok(TypeTag::Bytes),
        _ => Err(DecodeError::UnknownDiscriminant { discriminant: idx, offset: 0 }),
    }
}

/// The tag of a type, if it is primitive.
pub fn type_to_type_tag(ty: &Type) -> (r: Option<TypeTag>)
    ensures
        r == prim_tag(ty@),
{
    match ty {
        Type::Int => Some(TypeTag::Int),
        Type::Float => Some(TypeTag::Float),
        Type::Bool => Some(TypeTag::Bool),
        Type::Str => Some(TypeTag::Str),
        Type::Bytes => Some(TypeTag::Bytes),
        _ => None,
    }
}

} // verus!
