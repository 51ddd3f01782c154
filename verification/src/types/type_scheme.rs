//! Polymorphic types.
use crate::types::types::Type;
use vstd::prelude::*;

verus! {

/// A type with universally quantified type variables: the identity function
/// is `∀0. (_0) => _0`. A type without quantified variables is monomorphic.
#[derive(Debug)]
pub struct TypeScheme {
    /// The quantified type variables, sorted and without duplicates.
    pub quantified: Vec<u16>,
    /// The type in which they occur.
    pub ty: Type,
}

impl TypeScheme {
    /// Creates a type scheme.
    pub fn new(quantified: Vec<u16>, ty: Type) -> (s: Self)
        ensures
            s.quantified@ == quantified@,
            s.ty@ == ty@,
    {
        TypeScheme { quantified, ty }
    }

    /// Whether no type variable is quantified.
    pub fn is_monomorphic(&self) -> (b: bool)
        ensures
            b == (self.quantified@.len() == 0),
    {
        self.quantified.len() == 0
    }
}

} // verus!
