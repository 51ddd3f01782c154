//! Data structures of the bytecode virtual machine.
pub mod instruction_set;
pub mod stack;
pub mod heap;
pub mod opcode_table;
pub mod runtime;
