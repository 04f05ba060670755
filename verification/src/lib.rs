//! Content model, validation, and tooling for the Rustly content repository.
//!
//! The library holds the logic of the content tools: the content model, the
//! referential checks that no schema can express, the static search index,
//! and the judging of examples and Trials. Reading files, parsing JSON,
//! running the compiler and writing output happen around it; they hand the
//! library plain values and take plain values back.

pub mod docmap;
pub mod index;
pub mod judge;
pub mod model;
pub mod text;
pub mod validate;

pub use validate::{Diagnostic, Severity, ValidationReport};
