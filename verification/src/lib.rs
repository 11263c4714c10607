//! A small virtual machine for a subset of the WebAssembly binary
//! format: a decoder that reads a module binary into instruction trees,
//! and a stack-oriented interpreter that executes them, with structured
//! branching, module-function calls, host-function calls, and a scalar
//! linear memory.
pub mod format;
pub mod laws;
pub mod parser;
pub mod semantics;
pub mod vm;
pub mod wasm;
