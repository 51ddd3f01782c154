//! The bytes of the compact type format, written out: which byte stands for
//! which kind of type.
use crate::types::encoding::model::spec_encode;
use crate::types::types::SpecType;
use vstd::prelude::*;

verus! {

/// The place of a primitive type in the packed forms: `Int`, `Float`,
/// `Bool`, `Str`, `Bytes` in that order.
pub open spec fn primitive_rank(t: SpecType) -> Option<int> {
    match t {
        SpecType::Int => Some(0),
        SpecType::Float => Some(1),
        SpecType::Bool => Some(2),
        SpecType::Str => Some(3),
        SpecType::Bytes => Some(4),
        _ => None,
    }
}

/// A primitive type is the one byte `1` to `5` (`Int`, `Float`, `Bool`,
/// `Str`, `Bytes`); a type variable up to 31 is the byte `64 + id`, a larger
/// one the byte `0`, the payload length `2, 0` and its id in two bytes, low
/// byte first; an array of a primitive type is the byte `96 + rank`, a map
/// between primitive types the byte `101 + 5 * rank(key) + rank(value)`; any
/// other array, map, record, function or symbol starts with the byte `6`,
/// `7`, `8`, `9` or `10`.
pub proof fn law_type_bytes(t: SpecType)
    ensures
        spec_encode(SpecType::Int) == seq![1u8],
        spec_encode(SpecType::Float) == seq![2u8],
        spec_encode(SpecType::Bool) == seq![3u8],
        spec_encode(SpecType::Str) == seq![4u8],
        spec_encode(SpecType::Bytes) == seq![5u8],
        t matches SpecType::TypeVar(id) ==> (id <= 31 ==> spec_encode(t) == seq![(64 + id) as u8])
            && (id > 31 ==> spec_encode(t) == seq![0u8, 2u8, 0u8, (id % 256) as u8, (id / 256) as u8]),
        t matches SpecType::Array(e) ==> match primitive_rank(*e) {
            Some(k) => spec_encode(t) == seq![(96 + k) as u8],
            None => spec_encode(t)[0] == 6,
        },
        t matches SpecType::MapOf(k, v) ==> match (primitive_rank(*k), primitive_rank(*v)) {
            (Some(a), Some(b)) => spec_encode(t) == seq![(101 + 5 * a + b) as u8],
            _ => spec_encode(t)[0] == 7,
        },
        t is Record ==> spec_encode(t)[0] == 8,
        t is Function ==> spec_encode(t)[0] == 9,
        t is Symbol ==> spec_encode(t)[0] == 10,
{
}

} // verus!
