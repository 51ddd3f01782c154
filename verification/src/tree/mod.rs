//! Syntax trees over pluggable storage.
pub mod builder;
