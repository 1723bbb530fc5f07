//! The runtime linker of a WebAssembly component shell: a model of the
//! component-model metadata, structural type equivalence across components,
//! the shadowable import binding table, the checks that decide whether a
//! donor's export may stand for an import of the primary component, and the
//! shell's command-line grammar.
pub mod types;
pub mod world;
pub mod check;
pub mod bindings;
pub mod runtime;
pub mod parser;
