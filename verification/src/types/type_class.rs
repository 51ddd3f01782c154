//! Type classes that type variables can be constrained to.
use vstd::prelude::*;

verus! {

/// A type class: a capability that a type must have.
#[derive(Debug, Clone, Copy, PartialEq, Eq, Structural, Hash)]
pub enum TypeClassId {
    /// Supports arithmetic: `+ - * / ^`.
    Numeric,
    /// Supports indexing with `[]`.
    Indexable,
    /// Can be used as a map key.
    Hashable,
    /// Supports ordering comparisons.
    Ord,
}

} // verus!
