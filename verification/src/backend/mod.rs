//! The back-end: the bytecode instruction set, its verifier, and the errors
//! of the virtual machine.

pub mod builtins;
pub mod bytecode;
pub mod codegen;
pub mod disasm;
pub mod machine;
pub mod object;
pub mod verify;
pub mod vm;

pub use bytecode::{Chunk, Op, Program};
pub use verify::{verify, VerifyError, VerifyErrorKind};
pub use vm::VmError;
