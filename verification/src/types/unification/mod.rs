//! Unification of types.
pub mod model;
pub mod unify;
pub mod var_set;

pub use unify::{Error, Unification};
