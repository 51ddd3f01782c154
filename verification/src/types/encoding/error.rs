use crate::text::{decimal, push_decimal, push_str};
use vstd::prelude::*;

verus! {

/// Why a byte sequence could not be decoded as a type.
#[derive(Debug, Clone, Copy, PartialEq, Eq, Structural)]
pub enum DecodeError {
    Truncated { offset: usize, needed: usize },
    SizeMismatch { offset: usize, claimed: usize, actual: usize },
    UnknownDiscriminant { discriminant: u8, offset: usize },
    InvalidUtf8 { offset: usize },
    InvalidVarint { offset: usize },
    TooDeep { depth: usize },
    TrailingBytes { offset: usize, remaining: usize },
}

/// The message of a decoding error.
pub open spec fn decode_error_text(e: DecodeError) -> Seq<char> {
    match e {
        DecodeError::Truncated { offset, needed } => "truncated at offset "@ + decimal(
            offset as nat,
        ) + ": need "@ + decimal(needed as nat) + " more bytes"@,
        DecodeError::SizeMismatch { offset, claimed, actual } => "size mismatch at offset "@
            + decimal(offset as nat) + ": claimed "@ + decimal(claimed as nat) + " but actual "@
            + decimal(actual as nat),
        DecodeError::UnknownDiscriminant { discriminant, offset } => "unknown discriminant "@
            + decimal(discriminant as nat) + " at offset "@ + decimal(offset as nat),
        DecodeError::InvalidUtf8 { offset } => "invalid UTF-8 at offset "@ + decimal(offset as nat),
        DecodeError::InvalidVarint { offset } => "invalid varint at offset "@ + decimal(
            offset as nat,
        ),
        DecodeError::TooDeep { depth } => "exceeded maximum recursion depth: "@ + decimal(
            depth as nat,
        ),
        DecodeError::TrailingBytes { offset, remaining } => "trailing bytes at offset "@ + decimal(
            offset as nat,
        ) + ": "@ + decimal(remaining as nat) + " bytes remaining"@,
    }
}

impl DecodeError {
    /// The error message, e.g. `truncated at offset 3: need 2 more bytes`.
    pub fn to_string(&self) -> (r: String)
        ensures
            r@ == decode_error_text(*self),
    {
        let mut s = String::new();
        match *self {
            DecodeError::Truncated { offset, needed } => {
                push_str(&mut s, "truncated at offset ");
                push_decimal(&mut s, offset as u64);
                push_str(&mut s, ": need ");
                push_decimal(&mut s, needed as u64);
                push_str(&mut s, " more bytes");
            },
            DecodeError::SizeMismatch { offset, claimed, actual } => {
                push_str(&mut s, "size mismatch at offset ");
                push_decimal(&mut s, offset as u64);
                push_str(&mut s, ": claimed ");
                push_decimal(&mut s, claimed as u64);
                push_str(&mut s, " but actual ");
                push_decimal(&mut s, actual as u64);
            },
            DecodeError::UnknownDiscriminant { discriminant, offset } => {
                push_str(&mut s, "unknown discriminant ");
                push_decimal(&mut s, discriminant as u64);
                push_str(&mut s, " at offset ");
                push_decimal(&mut s, offset as u64);
            },
            DecodeError::InvalidUtf8 { offset } => {
                push_str(&mut s, "invalid UTF-8 at offset ");
                push_decimal(&mut s, offset as u64);
            },
            DecodeError::InvalidVarint { offset } => {
                push_str(&mut s, "invalid varint at offset ");
                push_decimal(&mut s, offset as u64);
            },
            DecodeError::TooDeep { depth } => {
                push_str(&mut s, "exceeded maximum recursion depth: ");
                push_decimal(&mut s, depth as u64);
            },
            DecodeError::TrailingBytes { offset, remaining } => {
                push_str(&mut s, "trailing bytes at offset ");
                push_decimal(&mut s, offset as u64);
                push_str(&mut s, ": ");
                push_decimal(&mut s, remaining as u64);
                push_str(&mut s, " bytes remaining");
            },
        }
        assert(s@ =~= decode_error_text(*self));
        s
    }
}

} // verus!
