//! # Lumen
//!
//! Lumen is a small, statically-typed programming language. This crate holds
//! its compiler, with contracts proved by Verus: source files and spans, the
//! diagnostics model, the lexer, the parser and formatter, name resolution
//! and the type checker, lowering to HIR and the HIR optimizer, the MIR
//! control-flow graph with its optimizer and dumps, and the bytecode
//! back end (code generation, the verifier, the object format and the
//! disassembler).

pub mod arith;
pub mod span;
pub mod text;
pub mod source;
pub mod errors;
pub mod explain;
pub mod diagnostics;
pub mod suggest;
pub mod sema;
pub mod lexer;
pub mod parser;
pub mod node_map;
pub mod opt;
pub mod format;
pub mod session;
pub mod cli;
pub mod hir;
pub mod mir;
pub mod backend;
