//! Source locations.
use vstd::prelude::*;

verus! {

/// A byte range in the source text.
#[derive(Debug, PartialEq, Eq)]
pub struct Span(pub core::ops::Range<usize>);

impl Clone for Span {
    fn clone(&self) -> (r: Span)
        ensures
            r == *self,
    {
        Span(self.0.start..self.0.end)
    }
}

} // verus!
