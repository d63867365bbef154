//! Translation core of a method-at-a-time JIT compiler for a stack-based
//! bytecode interpreter: it lifts one method's bytecode into a static
//! single-assignment (SSA) intermediate representation, and lowers a
//! supported subset of that representation into an abstract instruction
//! stream for a backend assembler.

pub mod backend;
pub mod bytecode;
pub mod codegen;
pub mod cruby_methods;
pub mod ir;
pub mod laws;
pub mod printer;
pub mod targets;
pub mod translate;
pub mod value;
