//! A small stack-based bytecode virtual machine for a dynamically typed
//! language with first-class functions, closures, heterogeneous lists and
//! keyed tables, together with a programmatic bytecode emitter that lowers
//! structured control flow into absolute branches by backpatching.
//!
//! Programs are name-indexed collections of functions; each function is a
//! flat instruction sequence operating on a shared operand stack and a
//! per-call frame of local slots. The interpreter is proved to implement a
//! small-step operational semantics stated over mathematical models of the
//! machine's values and configurations.

pub mod lang;
pub mod vm;
