//! What custom types can do.
use vstd::prelude::*;

verus! {

/// Implemented by custom types to say which operations they support.
pub trait TypeCapabilities {
    /// Whether the type supports the operation named `operation`.
    fn supports_operation(&self, operation: &str) -> bool;
}

} // verus!
