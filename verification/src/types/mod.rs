pub mod effects;
pub mod manager;
pub mod types;
pub mod order;
pub mod registry;
pub mod encoding;
pub mod type_class;
pub mod constraint_set;
pub mod from_parser;
pub mod traits;
pub mod type_scheme;
pub mod compare;
pub mod unification;
pub mod type_class_resolver;
