//! Semantic analysis: the phases that run between parsing and lowering.
//!
//! * [`types`]: the shared [`Type`] representation and [`Builtin`] signatures.
//! * [`resolve`]: name resolution.

pub mod resolve;
pub mod typeck;
pub mod types;

pub use types::{Builtin, Elem, Type};
