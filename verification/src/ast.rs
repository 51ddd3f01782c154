//! The parts of the syntax tree that the type system reads.
use vstd::prelude::*;

verus! {

/// A byte range in the source text.
#[derive(Debug, Clone, Copy, PartialEq, Eq, Structural)]
pub struct Span {
    pub start: usize,
    pub end: usize,
}

/// Binary operators.
#[derive(Debug, Clone, Copy, PartialEq, Eq, Structural)]
pub enum BinaryOp {
    Add,
    Sub,
    Mul,
    Div,
    Pow,
    And,
    Or,
}

/// Unary operators.
#[derive(Debug, Clone, Copy, PartialEq, Eq, Structural)]
pub enum UnaryOp {
    Neg,
    Not,
}

/// A type as written in source: a name, a name with type parameters, or a
/// record of named field types.
#[derive(Debug, PartialEq, Eq)]
pub enum TypeExpr {
    Path(String),
    Parametrized { path: String, params: Vec<TypeExpr> },
    Record(Vec<(String, TypeExpr)>),
}

} // verus!
