//! The Mid-level Intermediate Representation: a control-flow graph in
//! three-address form.
//!
//! Each [`Function`] is a list of [`Block`]s, each block a straight-line
//! sequence of [`Inst`]s ending in a [`Terminator`]. Nested expressions are
//! flattened into temporaries ([`Reg`]), and all control flow (`if`,
//! `while`, `for`, and short-circuit `&&`/`||`) becomes explicit branches.
//! MIR is built from HIR ([`build`](lowering::build)), optimized
//! ([`opt`]), and can be inspected as text ([`print`]) or as a Graphviz graph
//! ([`dot`]).

pub mod lowering;
pub mod dot;
pub mod print;
pub mod opt;

use vstd::prelude::*;

use crate::hir::{BinOp, Callee, LocalDecl, LocalId, UnOp};
use crate::sema::types::Type;

verus! {

/// A basic-block identifier, dense within a function.
#[derive(Clone, Copy, Debug, PartialEq, Eq, Hash, PartialOrd, Ord, Structural)]
pub struct BlockId(pub u32);

/// A virtual register (SSA-like temporary), dense within a function.
#[derive(Clone, Copy, Debug, PartialEq, Eq, Hash, PartialOrd, Ord, Structural)]
pub struct Reg(pub u32);

/// Statistics from a MIR optimization run: rewrites per pass.
#[derive(Debug, Clone, Copy, PartialEq, Eq, Structural)]
pub struct MirStats {
    pub folded: usize,
    pub simplified: usize,
    pub propagated: usize,
    pub cse: usize,
    pub dead_stores: usize,
    pub removed: usize,
    pub blocks_removed: usize,
}

impl Default for MirStats {
    /// Nothing done yet.
    fn default() -> (s: MirStats)
        ensures
            s.folded == 0 && s.simplified == 0 && s.propagated == 0 && s.cse == 0 && s.dead_stores == 0
                && s.removed == 0 && s.blocks_removed == 0,
    {
        MirStats { folded: 0, simplified: 0, propagated: 0, cse: 0, dead_stores: 0, removed: 0, blocks_removed: 0 }
    }
}

impl MirStats {
    /// The sum of the counts.
    pub open spec fn spec_total(&self) -> int {
        self.folded + self.simplified + self.propagated + self.cse + self.dead_stores + self.removed
            + self.blocks_removed
    }

    /// Total rewrites across all passes.
    pub fn total(&self) -> (n: usize)
        requires
            self.spec_total() <= usize::MAX,
        ensures
            n == self.spec_total(),
    {
        self.folded + self.simplified + self.propagated + self.cse + self.dead_stores + self.removed
            + self.blocks_removed
    }
}


/// A whole program in MIR form.
#[derive(Debug)]
pub struct Program {
    pub functions: Vec<Function>,
    /// Index of the entry function (`main`) in [`Program::functions`].
    pub main: usize,
}

/// A function: its locals, register count, and control-flow graph.
#[derive(Debug)]
pub struct Function {
    pub name: String,
    pub param_count: usize,
    pub locals: Vec<LocalDecl>,
    /// Number of virtual registers allocated.
    pub reg_count: usize,
    pub blocks: Vec<Block>,
    pub entry: BlockId,
}

impl Function {
    /// The block with the given id.
    pub fn block(&self, id: BlockId) -> (b: &Block)
        requires
            (id.0 as int) < self.blocks@.len(),
        ensures
            *b == self.blocks@[id.0 as int],
    {
        &self.blocks[id.0 as usize]
    }
}

/// A basic block: straight-line instructions then a terminator.
#[derive(Debug)]
pub struct Block {
    pub insts: Vec<Inst>,
    pub term: Terminator,
}

/// A compile-time constant operand. A float is kept as the literal it was
/// written as.
#[derive(Debug, Clone)]
pub enum Const {
    Int(i64),
    Float(String),
    Bool(bool),
    Str(String),
    Unit,
}

/// An instruction operand: a constant or a register.
#[derive(Debug, Clone)]
pub enum Operand {
    Const(Const),
    Reg(Reg),
}

impl Operand {
    /// The register this operand reads, if any.
    pub fn reg(&self) -> (r: Option<Reg>)
        ensures
            r == match *self {
                Operand::Reg(x) => Some(x),
                Operand::Const(_) => None::<Reg>,
            },
    {
        match self {
            Operand::Reg(r) => Some(*r),
            Operand::Const(_) => None,
        }
    }
}

/// A value-producing computation assigned to a register.
#[derive(Debug, Clone)]
pub enum Rvalue {
    /// Copy an operand.
    Use(Operand),
    /// Read a local variable.
    Load(LocalId),
    Unary(UnOp, Operand),
    Binary(BinOp, Operand, Operand),
    /// `a ++ b` string concatenation.
    Concat(Operand, Operand),
    /// Build an array from element operands.
    MakeArray(Vec<Operand>),
    /// `base[index]`.
    Index(Operand, Operand),
}

/// A single MIR instruction. All have an explicit result register except the
/// effecting stores.
#[derive(Debug)]
pub enum Inst {
    /// `dst = rvalue`
    Assign { dst: Reg, rvalue: Rvalue },
    /// `local = src`
    Store { local: LocalId, src: Operand },
    /// `base[index] = value`
    SetIndex { base: Operand, index: Operand, value: Operand },
    /// `dst = callee(args)` (may have side effects).
    Call { dst: Reg, callee: Callee, args: Vec<Operand>, ret: Type },
}

/// How a block transfers control.
#[derive(Debug, Clone)]
pub enum Terminator {
    /// Jump unconditionally.
    Goto(BlockId),
    /// Branch on a boolean operand.
    Branch { cond: Operand, then_bb: BlockId, else_bb: BlockId },
    /// Return a value from the function.
    Return(Operand),
    /// Placeholder used while building; a finished function has none.
    Unreachable,
}

/// The blocks a terminator may transfer control to.
pub open spec fn succs(t: Terminator) -> Seq<BlockId> {
    match t {
        Terminator::Goto(b) => seq![b],
        Terminator::Branch { then_bb, else_bb, .. } => seq![then_bb, else_bb],
        _ => Seq::empty(),
    }
}

impl Terminator {
    /// The blocks this terminator may transfer control to: [`succs`].
    pub fn successors(&self) -> (v: Vec<BlockId>)
        ensures
            v@ == succs(*self),
    {
        match self {
            Terminator::Goto(b) => vec![*b],
            Terminator::Branch { then_bb, else_bb, .. } => vec![*then_bb, *else_bb],
            Terminator::Return(_) | Terminator::Unreachable => Vec::new(),
        }
    }
}

} // verus!
