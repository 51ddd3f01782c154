use smallvec::SmallVec;
use vstd::prelude::*;

verus! {

/// The buffer that encoding writes into: a `SmallVec` that keeps up to 16
/// bytes inline.
#[verifier::external_body]
pub struct OutputType {
    buf: SmallVec<[u8; 16]>,
}

/// The bytes that an output buffer holds, in order.
pub uninterp spec fn output_bytes(buf: OutputType) -> Seq<u8>;

impl OutputType {
    /// `SmallVec::new`: an empty buffer.
    #[verifier::external_body]
    fn sv_new() -> (r: OutputType)
        ensures
            output_bytes(r) == Seq::<u8>::empty(),
    {
        OutputType { buf: SmallVec::new() }
    }

    /// `SmallVec::push`: appends one byte at the end.
    #[verifier::external_body]
    fn sv_push(&mut self, byte: u8)
        ensures
            output_bytes(*final(self)) == output_bytes(*old(self)).push(byte),
    {
        self.buf.push(byte)
    }

    /// `SmallVec::len`: the number of bytes held.
    #[verifier::external_body]
    fn sv_len(&self) -> (r: usize)
        ensures
            r == output_bytes(*self).len(),
    {
        self.buf.len()
    }

    /// `SmallVec::extend_from_slice`: appends the bytes of a slice in order.
    #[verifier::external_body]
    fn sv_extend_from_slice(&mut self, bytes: &[u8])
        ensures
            output_bytes(*final(self)) == output_bytes(*old(self)) + bytes@,
    {
        self.buf.extend_from_slice(bytes)
    }

    /// `IndexMut` of `SmallVec`: overwrites the byte at an index below the length.
    #[verifier::external_body]
    fn sv_set(&mut self, index: usize, byte: u8)
        requires
            index < output_bytes(*old(self)).len(),
        ensures
            output_bytes(*final(self)) == output_bytes(*old(self)).update(index as int, byte),
    {
        self.buf[index] = byte;
    }

    /// `SmallVec::as_slice`: the bytes held, as a slice.
    #[verifier::external_body]
    fn sv_as_slice(&self) -> (r: &[u8])
        ensures
            r@ == output_bytes(*self),
    {
        self.buf.as_slice()
    }

    /// An empty buffer.
    pub fn new() -> (r: OutputType)
        ensures
            output_bytes(r) == Seq::<u8>::empty(),
    {
        OutputType::sv_new()
    }

    /// Appends one byte at the end.
    pub fn push(&mut self, byte: u8)
        ensures
            output_bytes(*final(self)) == output_bytes(*old(self)).push(byte),
    {
        self.sv_push(byte)
    }

    /// The number of bytes held.
    pub fn len(&self) -> (r: usize)
        ensures
            r == output_bytes(*self).len(),
    {
        self.sv_len()
    }

    /// Appends the bytes of a slice in order.
    pub fn extend_from_slice(&mut self, bytes: &[u8])
        ensures
            output_bytes(*final(self)) == output_bytes(*old(self)) + bytes@,
    {
        self.sv_extend_from_slice(bytes)
    }

    /// Overwrites the byte at an index below the length.
    pub fn set(&mut self, index: usize, byte: u8)
        requires
            index < output_bytes(*old(self)).len(),
        ensures
            output_bytes(*final(self)) == output_bytes(*old(self)).update(index as int, byte),
    {
        self.sv_set(index, byte)
    }

    /// The bytes held, as a slice.
    pub fn as_slice(&self) -> (r: &[u8])
        ensures
            r@ == output_bytes(*self),
    {
        self.sv_as_slice()
    }
}

} // verus!
