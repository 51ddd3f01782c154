//! Compact binary encoding of Melbi types.
//!
//! Every type is encoded by a wire byte, possibly followed by a payload:
//!
//! - `0..=10`: the standard tags, one per `TypeTag`. Primitive types are that
//!   one byte; composite types carry a header `[tag][size_lo][size_hi]` and a
//!   payload of `size` bytes.
//! - `64..=95`: a type variable with an id below 32, packed in the byte.
//! - `96..=100`: an array of a primitive type, packed in the byte.
//! - `101..=125`: a map from a primitive type to a primitive type, packed.
//!
//! Arrays of primitives and maps between primitives are always written in
//! packed form; decoding also accepts their long form.
pub mod error;
pub mod model;
pub mod output;
pub mod wire;
pub mod encode;
pub mod decode_model;
pub mod view;
pub mod decode;
pub mod roundtrip;
pub mod format;
