//! Melbi: the verified core of an embeddable expression language.
//!
//! The library holds the parts of the language implementation that are pure
//! computation: the type representation and its compact binary encoding, the
//! effect and constraint bookkeeping used by type inference, and the data
//! structures and interpreter loop of the bytecode virtual machine.
pub mod ast;
pub mod parser;
pub mod position;
mod text;
pub mod types;
pub mod values;
pub mod tree;
pub mod vm;
