//! The verified core of the `add` command, which adds a WebAssembly component as a dependency of
//! a component of a Spin application.
//!
//! The library holds what the command decides and computes. Files, the network and the user are
//! left to its callers, which hand it plain values and take plain values back.

pub mod cargo_manifest;
pub mod command;
pub mod dependency;
pub mod deps_line_laws;
pub mod deps_module;
pub mod deps_module_laws;
pub mod error;
pub mod language;
pub mod selection;
pub mod source;
pub mod stages;
pub mod text;
