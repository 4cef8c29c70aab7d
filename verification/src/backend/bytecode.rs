//! The bytecode: the instruction set [`Op`] and the [`Program`]/[`Chunk`]
//! container the virtual machine executes.
//!
//! Instructions are a typed `enum`: a flat, index-addressed sequence the VM
//! steps through. Arithmetic and comparison opcodes are monomorphic
//! (`AddInt` vs `AddFloat`); equality is structural over any two values.
//! Jumps are absolute instruction indices within a chunk.
//!
//! A float constant is carried as the literal it was written as; the
//! virtual machine reads it as an `f64`.

use vstd::prelude::*;

use crate::sema::types::Builtin;

verus! {

/// A single VM instruction. Each is documented with its stack effect as
/// `[before] -> [after]` (top of stack on the right).
#[derive(Clone, Debug, PartialEq, Eq)]
pub enum Op {
    /// `[] -> [int]`
    PushInt(i64),
    /// `[] -> [float]`; the constant as written.
    PushFloat(String),
    /// `[] -> [bool]`
    PushBool(bool),
    /// `[] -> [unit]`
    PushUnit,
    /// Push string constant `consts[idx]`. `[] -> [str]`
    PushStr(u32),
    /// Push a copy of local slot `n`. `[] -> [v]`
    LoadLocal(u32),
    /// Pop and store into local slot `n`. `[v] -> []`
    StoreLocal(u32),
    /// Discard the top value. `[v] -> []`
    Pop,
    /// `[a, b] -> [a + b]`
    AddInt,
    /// `[a, b] -> [a - b]`
    SubInt,
    /// `[a, b] -> [a * b]`
    MulInt,
    /// `[a, b] -> [a / b]`
    DivInt,
    /// `[a, b] -> [a % b]`
    RemInt,
    /// `[a] -> [-a]`
    NegInt,
    /// `[a, b] -> [a + b]`
    AddFloat,
    /// `[a, b] -> [a - b]`
    SubFloat,
    /// `[a, b] -> [a * b]`
    MulFloat,
    /// `[a, b] -> [a / b]`
    DivFloat,
    /// `[a, b] -> [a % b]`
    RemFloat,
    /// `[a] -> [-a]`
    NegFloat,
    /// `[a, b] -> [a < b]`
    LtInt,
    /// `[a, b] -> [a <= b]`
    LeInt,
    /// `[a, b] -> [a > b]`
    GtInt,
    /// `[a, b] -> [a >= b]`
    GeInt,
    /// `[a, b] -> [a < b]`
    LtFloat,
    /// `[a, b] -> [a <= b]`
    LeFloat,
    /// `[a, b] -> [a > b]`
    GtFloat,
    /// `[a, b] -> [a >= b]`
    GeFloat,
    /// String concatenation. `[str, str] -> [str]`
    ConcatStr,
    /// Build an array from the top `n` values. `[v0..vn-1] -> [array]`
    MakeArray(u32),
    /// Read `base[index]`. `[array, int] -> [v]`
    Index,
    /// Store `base[index] = value`, yielding unit. `[array, int, v] -> [unit]`
    SetIndex,
    /// Push the length of an array. `[array] -> [int]`
    ArrayLen,
    /// Structural equality. `[a, b] -> [bool]`
    Eq,
    /// Structural inequality. `[a, b] -> [bool]`
    Ne,
    /// Boolean negation. `[bool] -> [bool]`
    NotBool,
    /// Unconditional jump to an absolute index.
    Jump(usize),
    /// Pop a bool; jump to an absolute index if it is `false`. `[bool] -> []`
    JumpIfFalse(usize),
    /// Call user function `func` with `argc` arguments from the stack top.
    Call { func: usize, argc: u8 },
    /// Call a builtin with `argc` arguments. `[args..] -> [result]`
    CallBuiltin { builtin: Builtin, argc: u8 },
    /// Return the top value to the caller.
    Return,
}

/// The compiled form of one function.
#[derive(Debug)]
pub struct Chunk {
    pub name: String,
    /// Total local slots, including parameters.
    pub n_locals: usize,
    /// How many of the locals are parameters (the leading slots).
    pub n_params: usize,
    pub code: Vec<Op>,
    /// String constant pool referenced by [`Op::PushStr`].
    pub consts: Vec<String>,
}

/// A whole compiled program: one [`Chunk`] per function plus the entry index.
#[derive(Debug)]
pub struct Program {
    pub functions: Vec<Chunk>,
    /// Index into [`Program::functions`] of `main`.
    pub main: usize,
}

} // verus!
