//! Optimization passes over MIR, run to a fixpoint by [`optimize`]:
//!
//! * [`const_fold`] folds operators on constant operands, and rewrites a
//!   branch on a constant condition into an unconditional `goto`. Float
//!   operators are left for run time: a float constant is kept as the
//!   literal it was written as.
//! * [`algebraic_simplify`] applies integer identity and absorbing-element
//!   laws (`x + 0`, `x * 1`, `x * 0`, `x - x`, ...) that hold even when one
//!   side is not constant.
//! * [`copy_propagation`] replaces each read of a register that is a copy
//!   (`r = x`) with `x`.
//! * [`local_cse`] reuses, within a block, the result of an identical earlier
//!   pure computation.
//! * [`dead_store`] drops a store that a later store in the same block
//!   overwrites before any load.
//! * [`dead_code`] drops assignments whose register is never read.
//! * [`simplify_cfg`] collapses branches whose arms coincide, threads jumps
//!   through empty blocks, and drops blocks unreachable from the entry.
//!
//! Calls and indexed stores are never removed ([`lemma_effects_survive`]).

use std::collections::HashSet;

use vstd::prelude::*;

use crate::arith::{div_faults, lemma_i64_ops, trunc_div_rem, wraps_to};
use crate::hir::{BinOp, Callee, LocalId, UnOp};
use crate::mir::{Block, BlockId, Const, Function, Inst, MirStats, Operand, Program, Reg, Rvalue, Terminator};
use crate::sema::types::Type;
use crate::text::push_str;

verus! {

// ---- values of MIR pieces ----

/// A constant as a value.
pub enum ConstV {
    Int(i64),
    Float(Seq<char>),
    Bool(bool),
    Str(Seq<char>),
    Unit,
}

/// An operand as a value.
pub enum OperandV {
    Const(ConstV),
    Reg(Reg),
}

/// An rvalue as a value.
pub enum RvalueV {
    Use(OperandV),
    Load(LocalId),
    Unary(UnOp, OperandV),
    Binary(BinOp, OperandV, OperandV),
    Concat(OperandV, OperandV),
    MakeArray(Seq<OperandV>),
    Index(OperandV, OperandV),
}

/// An instruction as a value.
pub enum InstV {
    Assign { dst: Reg, rvalue: RvalueV },
    Store { local: LocalId, src: OperandV },
    SetIndex { base: OperandV, index: OperandV, value: OperandV },
    Call { dst: Reg, callee: Callee, args: Seq<OperandV>, ret: Type },
}

/// A terminator as a value.
pub enum TermV {
    Goto(BlockId),
    Branch { cond: OperandV, then_bb: BlockId, else_bb: BlockId },
    Return(OperandV),
    Unreachable,
}

/// A block as a value.
pub struct BlockView {
    pub insts: Seq<InstV>,
    pub term: TermV,
}

pub open spec fn cv(c: Const) -> ConstV {
    match c {
        Const::Int(v) => ConstV::Int(v),
        Const::Float(t) => ConstV::Float(t@),
        Const::Bool(b) => ConstV::Bool(b),
        Const::Str(s) => ConstV::Str(s@),
        Const::Unit => ConstV::Unit,
    }
}

pub open spec fn ov(o: Operand) -> OperandV {
    match o {
        Operand::Const(c) => OperandV::Const(cv(c)),
        Operand::Reg(r) => OperandV::Reg(r),
    }
}

pub open spec fn ovs(os: Seq<Operand>) -> Seq<OperandV> {
    os.map_values(|o: Operand| ov(o))
}

pub open spec fn rvv(r: Rvalue) -> RvalueV {
    match r {
        Rvalue::Use(o) => RvalueV::Use(ov(o)),
        Rvalue::Load(l) => RvalueV::Load(l),
        Rvalue::Unary(op, o) => RvalueV::Unary(op, ov(o)),
        Rvalue::Binary(op, a, b) => RvalueV::Binary(op, ov(a), ov(b)),
        Rvalue::Concat(a, b) => RvalueV::Concat(ov(a), ov(b)),
        Rvalue::MakeArray(es) => RvalueV::MakeArray(ovs(es@)),
        Rvalue::Index(b, i) => RvalueV::Index(ov(b), ov(i)),
    }
}

pub open spec fn iv(i: Inst) -> InstV {
    match i {
        Inst::Assign { dst, rvalue } => InstV::Assign { dst, rvalue: rvv(rvalue) },
        Inst::Store { local, src } => InstV::Store { local, src: ov(src) },
        Inst::SetIndex { base, index, value } => InstV::SetIndex { base: ov(base), index: ov(index), value: ov(value) },
        Inst::Call { dst, callee, args, ret } => InstV::Call { dst, callee, args: ovs(args@), ret },
    }
}

pub open spec fn tv(t: Terminator) -> TermV {
    match t {
        Terminator::Goto(b) => TermV::Goto(b),
        Terminator::Branch { cond, then_bb, else_bb } => TermV::Branch { cond: ov(cond), then_bb, else_bb },
        Terminator::Return(o) => TermV::Return(ov(o)),
        Terminator::Unreachable => TermV::Unreachable,
    }
}

pub open spec fn blv(b: Block) -> BlockView {
    BlockView { insts: b.insts@.map_values(|i: Inst| iv(i)), term: tv(b.term) }
}

/// The values of a function's blocks.
pub open spec fn blocks_v(bs: Seq<Block>) -> Seq<BlockView> {
    bs.map_values(|b: Block| blv(b))
}

/// What a rewrite of the blocks leaves alone: the name, parameters,
/// locals, register count and entry.
pub open spec fn same_frame(a: Function, b: Function) -> bool {
    &&& b.name@ == a.name@
    &&& b.param_count == a.param_count
    &&& b.locals@ == a.locals@
    &&& b.reg_count == a.reg_count
    &&& b.entry == a.entry
}

// ---- constant folding ----

/// A unary operator on a constant, where it can be computed.
pub open spec fn fold_unary_c(op: UnOp, c: ConstV) -> Option<ConstV> {
    match (op, c) {
        (UnOp::Neg, ConstV::Int(v)) => Some(ConstV::Int(0i64.wrapping_sub(v))),
        (UnOp::Not, ConstV::Bool(v)) => Some(ConstV::Bool(!v)),
        _ => None,
    }
}

/// A binary operator on two constants, where it can be computed: integer
/// arithmetic wraps, and a division or remainder that would fault stays for
/// its runtime error.
pub open spec fn fold_binary_c(op: BinOp, a: ConstV, b: ConstV) -> Option<ConstV> {
    match (a, b) {
        (ConstV::Int(x), ConstV::Int(y)) => match op {
            BinOp::Add => Some(ConstV::Int(x.wrapping_add(y))),
            BinOp::Sub => Some(ConstV::Int(x.wrapping_sub(y))),
            BinOp::Mul => Some(ConstV::Int(x.wrapping_mul(y))),
            BinOp::Div => match x.checked_div(y) {
                Some(q) => Some(ConstV::Int(q)),
                None => None,
            },
            BinOp::Rem => match x.checked_rem(y) {
                Some(q) => Some(ConstV::Int(q)),
                None => None,
            },
            BinOp::Eq => Some(ConstV::Bool(x == y)),
            BinOp::Ne => Some(ConstV::Bool(x != y)),
            BinOp::Lt => Some(ConstV::Bool(x < y)),
            BinOp::Le => Some(ConstV::Bool(x <= y)),
            BinOp::Gt => Some(ConstV::Bool(x > y)),
            BinOp::Ge => Some(ConstV::Bool(x >= y)),
            BinOp::And | BinOp::Or => None,
        },
        (ConstV::Bool(x), ConstV::Bool(y)) => match op {
            BinOp::Eq => Some(ConstV::Bool(x == y)),
            BinOp::Ne => Some(ConstV::Bool(x != y)),
            _ => None,
        },
        _ => None,
    }
}

/// The rvalue of an operator over two constants.
pub open spec fn const_binary_rv(op: BinOp, a: ConstV, b: ConstV) -> RvalueV {
    RvalueV::Binary(op, OperandV::Const(a), OperandV::Const(b))
}

/// Folding an operator over two integer constants gives the constant the
/// program would compute: each comparison is the comparison of the numbers,
/// `+`, `-` and `*` wrap modulo 2^64, `/` and `%` give the truncated quotient
/// and remainder, and a division that would fault is not folded (it stays
/// for its runtime error).
pub proof fn lemma_mir_fold_int_semantics(x: i64, y: i64)
    ensures
        fold_rv(const_binary_rv(BinOp::Eq, ConstV::Int(x), ConstV::Int(y))) == Some(ConstV::Bool(x as int == y as int)),
        fold_rv(const_binary_rv(BinOp::Ne, ConstV::Int(x), ConstV::Int(y))) == Some(ConstV::Bool(x as int != y as int)),
        fold_rv(const_binary_rv(BinOp::Lt, ConstV::Int(x), ConstV::Int(y))) == Some(ConstV::Bool((x as int) < (y as int))),
        fold_rv(const_binary_rv(BinOp::Le, ConstV::Int(x), ConstV::Int(y))) == Some(ConstV::Bool((x as int) <= (y as int))),
        fold_rv(const_binary_rv(BinOp::Gt, ConstV::Int(x), ConstV::Int(y))) == Some(ConstV::Bool((x as int) > (y as int))),
        fold_rv(const_binary_rv(BinOp::Ge, ConstV::Int(x), ConstV::Int(y))) == Some(ConstV::Bool((x as int) >= (y as int))),
        fold_rv(const_binary_rv(BinOp::Add, ConstV::Int(x), ConstV::Int(y))) matches Some(ConstV::Int(r)) && wraps_to(r, x + y),
        fold_rv(const_binary_rv(BinOp::Sub, ConstV::Int(x), ConstV::Int(y))) matches Some(ConstV::Int(r)) && wraps_to(r, x - y),
        fold_rv(const_binary_rv(BinOp::Mul, ConstV::Int(x), ConstV::Int(y))) matches Some(ConstV::Int(r)) && wraps_to(r, x * y),
        fold_rv(const_binary_rv(BinOp::Div, ConstV::Int(x), ConstV::Int(y))) is None <==> div_faults(x, y),
        fold_rv(const_binary_rv(BinOp::Rem, ConstV::Int(x), ConstV::Int(y))) is None <==> div_faults(x, y),
        !div_faults(x, y) ==> (fold_rv(const_binary_rv(BinOp::Div, ConstV::Int(x), ConstV::Int(y))) matches Some(
            ConstV::Int(q),
        ) && (fold_rv(const_binary_rv(BinOp::Rem, ConstV::Int(x), ConstV::Int(y))) matches Some(ConstV::Int(r))
            && trunc_div_rem(x as int, y as int, q as int, r as int))),
        fold_rv(const_binary_rv(BinOp::And, ConstV::Int(x), ConstV::Int(y))) is None,
        fold_rv(const_binary_rv(BinOp::Or, ConstV::Int(x), ConstV::Int(y))) is None,
        fold_rv(RvalueV::Unary(UnOp::Neg, OperandV::Const(ConstV::Int(x)))) matches Some(ConstV::Int(r)) && wraps_to(r, -x),
{
    lemma_i64_ops(x, y);
}

/// Folding boolean constants is boolean logic.
pub proof fn lemma_mir_fold_bool_semantics(a: bool, b: bool)
    ensures
        fold_rv(const_binary_rv(BinOp::Eq, ConstV::Bool(a), ConstV::Bool(b))) == Some(ConstV::Bool(a <==> b)),
        fold_rv(const_binary_rv(BinOp::Ne, ConstV::Bool(a), ConstV::Bool(b))) == Some(ConstV::Bool(!(a <==> b))),
        fold_rv(RvalueV::Unary(UnOp::Not, OperandV::Const(ConstV::Bool(a)))) == Some(ConstV::Bool(if a { false } else { true })),
{
}

/// Folding the concatenation of two string constants gives their
/// characters one after the other.
pub proof fn lemma_mir_fold_concat(a: Seq<char>, b: Seq<char>)
    ensures
        fold_rv(RvalueV::Concat(OperandV::Const(ConstV::Str(a)), OperandV::Const(ConstV::Str(b)))) matches Some(
            ConstV::Str(c),
        ) && c.len() == a.len() + b.len() && (forall|i: int| 0 <= i < a.len() ==> c[i] == a[i]) && (forall|i: int|
            0 <= i < b.len() ==> c[a.len() + i] == b[i]),
{
}

/// The constant an rvalue folds to, if any.
pub open spec fn fold_rv(r: RvalueV) -> Option<ConstV> {
    match r {
        RvalueV::Unary(op, OperandV::Const(c)) => fold_unary_c(op, c),
        RvalueV::Binary(op, OperandV::Const(a), OperandV::Const(b)) => fold_binary_c(op, a, b),
        RvalueV::Concat(OperandV::Const(ConstV::Str(a)), OperandV::Const(ConstV::Str(b))) => Some(
            ConstV::Str(a + b),
        ),
        _ => None,
    }
}

/// An instruction after folding, and whether it changed.
pub open spec fn fold_inst(i: InstV) -> (InstV, bool) {
    match i {
        InstV::Assign { dst, rvalue } => match fold_rv(rvalue) {
            Some(c) => (InstV::Assign { dst, rvalue: RvalueV::Use(OperandV::Const(c)) }, true),
            None => (i, false),
        },
        _ => (i, false),
    }
}

/// A terminator after folding: a branch on a constant becomes a jump.
pub open spec fn fold_term(t: TermV) -> (TermV, bool) {
    match t {
        TermV::Branch { cond: OperandV::Const(ConstV::Bool(b)), then_bb, else_bb } => (
            TermV::Goto(if b { then_bb } else { else_bb }),
            true,
        ),
        _ => (t, false),
    }
}

/// How many of the first `n` instructions a rewrite changes.
pub open spec fn changed(is: Seq<InstV>, n: nat, f: spec_fn(InstV) -> (InstV, bool)) -> nat
    decreases n,
{
    if n == 0 || n > is.len() {
        0
    } else {
        changed(is, (n - 1) as nat, f) + if f(is[n - 1]).1 {
            1nat
        } else {
            0nat
        }
    }
}

/// A block after folding.
pub open spec fn fold_block(b: BlockView) -> BlockView {
    BlockView { insts: b.insts.map_values(|i: InstV| fold_inst(i).0), term: fold_term(b.term).0 }
}

/// The changes folding makes in the first `n` blocks.
pub open spec fn fold_total(bs: Seq<BlockView>, n: nat) -> nat
    decreases n,
{
    if n == 0 || n > bs.len() {
        0
    } else {
        fold_total(bs, (n - 1) as nat) + changed(bs[n - 1].insts, bs[n - 1].insts.len(), |i: InstV| fold_inst(i))
            + if fold_term(bs[n - 1].term).1 {
            1nat
        } else {
            0nat
        }
    }
}

/// `n` held at `usize::MAX`.
pub open spec fn capped(n: nat) -> nat {
    if n > usize::MAX {
        usize::MAX as nat
    } else {
        n
    }
}

/// Folds constant computations and constant branches in every block: each
/// instruction becomes [`fold_inst`] of itself and each terminator
/// [`fold_term`] of itself. Returns the number of rewrites (held at
/// `usize::MAX`).
pub fn const_fold(func: &mut Function) -> (count: usize)
    ensures
        same_frame(*old(func), *final(func)),
        blocks_v(final(func).blocks@) == blocks_v(old(func).blocks@).map_values(|b: BlockView| fold_block(b)),
        count == capped(fold_total(blocks_v(old(func).blocks@), old(func).blocks@.len())),
{
    let ghost bs0 = blocks_v(func.blocks@);
    let mut count: usize = 0;
    let mut k: usize = 0;
    while k < func.blocks.len()
        invariant
            k <= func.blocks@.len(),
            func.blocks@.len() == old(func).blocks@.len(),
            same_frame(*old(func), *func),
            bs0 == blocks_v(old(func).blocks@),
            forall|j: int| 0 <= j < k ==> blv(#[trigger] func.blocks@[j]) == fold_block(bs0[j]),
            forall|j: int| k <= j < func.blocks@.len() ==> #[trigger] func.blocks@[j] == old(func).blocks@[j],
            count == capped(fold_total(bs0, k as nat)),
        decreases func.blocks@.len() - k,
    {
        let mut blk = Block { insts: Vec::new(), term: Terminator::Unreachable };
        func.blocks.set_and_swap(k, &mut blk);
        let ghost b0 = blv(blk);
        let c = fold_one_block(&mut blk);
        proof {
            assert(b0 == bs0[k as int]);
        }
        func.blocks.set_and_swap(k, &mut blk);
        count = add_capped(count, c);
        k = k + 1;
    }
    proof {
        assert(blocks_v(func.blocks@) =~= bs0.map_values(|b: BlockView| fold_block(b)));
    }
    count
}

/// `a + b`, held at `usize::MAX`.
fn add_capped(a: usize, b: usize) -> (r: usize)
    ensures
        r == if a + b > usize::MAX { usize::MAX as int } else { a + b },
{
    if a > usize::MAX - b {
        usize::MAX
    } else {
        a + b
    }
}

/// Folds one block; returns its number of rewrites, held at `usize::MAX`.
fn fold_one_block(blk: &mut Block) -> (count: usize)
    ensures
        blv(*final(blk)) == fold_block(blv(*old(blk))),
        count == capped(
            changed(blv(*old(blk)).insts, blv(*old(blk)).insts.len(), |i: InstV| fold_inst(i)) + if fold_term(
                blv(*old(blk)).term,
            ).1 {
                1nat
            } else {
                0nat
            },
        ),
{
    let ghost is0 = blv(*blk).insts;
    let ghost f = |i: InstV| fold_inst(i);
    let mut count: usize = 0;
    let mut j: usize = 0;
    while j < blk.insts.len()
        invariant
            j <= blk.insts@.len(),
            blk.insts@.len() == old(blk).insts@.len(),
            blk.term == old(blk).term,
            is0 == blv(*old(blk)).insts,
            f == (|i: InstV| fold_inst(i)),
            forall|m: int| 0 <= m < j ==> iv(#[trigger] blk.insts@[m]) == fold_inst(is0[m]).0,
            forall|m: int| j <= m < blk.insts@.len() ==> #[trigger] blk.insts@[m] == old(blk).insts@[m],
            count == capped(changed(is0, j as nat, f)),
        decreases blk.insts@.len() - j,
    {
        let folded = match &blk.insts[j] {
            Inst::Assign { dst, rvalue } => match fold_rvalue(rvalue) {
                Some(c) => Some((*dst, c)),
                None => None,
            },
            _ => None,
        };
        proof {
            assert(is0[j as int] == iv(old(blk).insts@[j as int]));
        }
        match folded {
            Some((dst, c)) => {
                blk.insts.set(j, Inst::Assign { dst, rvalue: Rvalue::Use(Operand::Const(c)) });
                count = add_capped(count, 1);
            },
            None => {},
        }
        j = j + 1;
    }
    let new_term = match &blk.term {
        Terminator::Branch { cond: Operand::Const(Const::Bool(b)), then_bb, else_bb } => Some(
            if *b {
                *then_bb
            } else {
                *else_bb
            },
        ),
        _ => None,
    };
    match new_term {
        Some(t) => {
            blk.term = Terminator::Goto(t);
            count = add_capped(count, 1);
        },
        None => {},
    }
    proof {
        assert(blv(*blk).insts =~= is0.map_values(|i: InstV| fold_inst(i).0));
    }
    count
}

/// A copy of a constant.
fn copy_const(c: &Const) -> (r: Const)
    ensures
        cv(r) == cv(*c),
{
    match c {
        Const::Int(v) => Const::Int(*v),
        Const::Float(t) => Const::Float(t.clone()),
        Const::Bool(b) => Const::Bool(*b),
        Const::Str(s) => Const::Str(s.clone()),
        Const::Unit => Const::Unit,
    }
}

/// A copy of an operand.
fn copy_operand(o: &Operand) -> (r: Operand)
    ensures
        ov(r) == ov(*o),
{
    match o {
        Operand::Const(c) => Operand::Const(copy_const(c)),
        Operand::Reg(r) => Operand::Reg(*r),
    }
}

/// The constant an rvalue folds to: [`fold_rv`].
fn fold_rvalue(r: &Rvalue) -> (res: Option<Const>)
    ensures
        match res {
            Some(c) => fold_rv(rvv(*r)) == Some(cv(c)),
            None => fold_rv(rvv(*r)) is None,
        },
{
    match r {
        Rvalue::Unary(op, Operand::Const(c)) => match (op, c) {
            (UnOp::Neg, Const::Int(v)) => Some(Const::Int(0i64.wrapping_sub(*v))),
            (UnOp::Not, Const::Bool(v)) => Some(Const::Bool(!*v)),
            _ => None,
        },
        Rvalue::Binary(op, Operand::Const(a), Operand::Const(b)) => fold_binary(*op, a, b),
        Rvalue::Concat(Operand::Const(Const::Str(a)), Operand::Const(Const::Str(b))) => {
            let mut s = a.clone();
            push_str(&mut s, b.as_str());
            Some(Const::Str(s))
        },
        _ => None,
    }
}

/// [`fold_binary_c`] on two constants.
fn fold_binary(op: BinOp, a: &Const, b: &Const) -> (res: Option<Const>)
    ensures
        match res {
            Some(c) => fold_binary_c(op, cv(*a), cv(*b)) == Some(cv(c)),
            None => fold_binary_c(op, cv(*a), cv(*b)) is None,
        },
{
    match (a, b) {
        (Const::Int(x), Const::Int(y)) => {
            let (x, y) = (*x, *y);
            match op {
                BinOp::Add => Some(Const::Int(x.wrapping_add(y))),
                BinOp::Sub => Some(Const::Int(x.wrapping_sub(y))),
                BinOp::Mul => Some(Const::Int(x.wrapping_mul(y))),
                BinOp::Div => match x.checked_div(y) {
                    Some(q) => Some(Const::Int(q)),
                    None => None,
                },
                BinOp::Rem => match x.checked_rem(y) {
                    Some(q) => Some(Const::Int(q)),
                    None => None,
                },
                BinOp::Eq => Some(Const::Bool(x == y)),
                BinOp::Ne => Some(Const::Bool(x != y)),
                BinOp::Lt => Some(Const::Bool(x < y)),
                BinOp::Le => Some(Const::Bool(x <= y)),
                BinOp::Gt => Some(Const::Bool(x > y)),
                BinOp::Ge => Some(Const::Bool(x >= y)),
                BinOp::And | BinOp::Or => None,
            }
        },
        (Const::Bool(x), Const::Bool(y)) => match op {
            BinOp::Eq => Some(Const::Bool(*x == *y)),
            BinOp::Ne => Some(Const::Bool(*x != *y)),
            _ => None,
        },
        _ => None,
    }
}


// ---- algebraic simplification ----

/// Whether an operand is the integer constant `want`.
pub open spec fn is_int_v(o: OperandV, want: i64) -> bool {
    o == OperandV::Const(ConstV::Int(want))
}

/// Whether two operands are the same register.
pub open spec fn same_reg_v(a: OperandV, b: OperandV) -> bool {
    a is Reg && a == b
}

/// The simpler rvalue for `a op b`, where an integer law applies:
/// `x + 0`, `0 + x`, `x - 0`, `x * 1`, `1 * x` and `x / 1` are `x`;
/// `x - x`, `x * 0`, `0 * x` and `x % 1` are `0`.
pub open spec fn simplify_binary_v(op: BinOp, a: OperandV, b: OperandV) -> Option<RvalueV> {
    let zero = RvalueV::Use(OperandV::Const(ConstV::Int(0)));
    match op {
        BinOp::Add => if is_int_v(b, 0) {
            Some(RvalueV::Use(a))
        } else if is_int_v(a, 0) {
            Some(RvalueV::Use(b))
        } else {
            None
        },
        BinOp::Sub => if is_int_v(b, 0) {
            Some(RvalueV::Use(a))
        } else if same_reg_v(a, b) {
            Some(zero)
        } else {
            None
        },
        BinOp::Mul => if is_int_v(b, 1) {
            Some(RvalueV::Use(a))
        } else if is_int_v(a, 1) {
            Some(RvalueV::Use(b))
        } else if is_int_v(a, 0) || is_int_v(b, 0) {
            Some(zero)
        } else {
            None
        },
        BinOp::Div => if is_int_v(b, 1) {
            Some(RvalueV::Use(a))
        } else {
            None
        },
        BinOp::Rem => if is_int_v(b, 1) {
            Some(zero)
        } else {
            None
        },
        _ => None,
    }
}

/// An instruction after simplification, and whether it changed.
pub open spec fn simplify_inst(i: InstV) -> (InstV, bool) {
    match i {
        InstV::Assign { dst, rvalue: RvalueV::Binary(op, a, b) } => match simplify_binary_v(op, a, b) {
            Some(r) => (InstV::Assign { dst, rvalue: r }, true),
            None => (i, false),
        },
        _ => (i, false),
    }
}

/// A block after simplification: terminators stay.
pub open spec fn simplify_block(b: BlockView) -> BlockView {
    BlockView { insts: b.insts.map_values(|i: InstV| simplify_inst(i).0), term: b.term }
}

/// The changes simplification makes in the first `n` blocks.
pub open spec fn simplify_total(bs: Seq<BlockView>, n: nat) -> nat
    decreases n,
{
    if n == 0 || n > bs.len() {
        0
    } else {
        simplify_total(bs, (n - 1) as nat) + changed(
            bs[n - 1].insts,
            bs[n - 1].insts.len(),
            |i: InstV| simplify_inst(i),
        )
    }
}

/// Applies the integer laws of [`simplify_binary_v`] to every `Binary`
/// rvalue: each instruction becomes [`simplify_inst`] of itself. Returns the
/// number of rewrites (held at `usize::MAX`).
pub fn algebraic_simplify(func: &mut Function) -> (count: usize)
    ensures
        same_frame(*old(func), *final(func)),
        blocks_v(final(func).blocks@) == blocks_v(old(func).blocks@).map_values(|b: BlockView| simplify_block(b)),
        count == capped(simplify_total(blocks_v(old(func).blocks@), old(func).blocks@.len())),
{
    let ghost bs0 = blocks_v(func.blocks@);
    let mut count: usize = 0;
    let mut k: usize = 0;
    while k < func.blocks.len()
        invariant
            k <= func.blocks@.len(),
            func.blocks@.len() == old(func).blocks@.len(),
            same_frame(*old(func), *func),
            bs0 == blocks_v(old(func).blocks@),
            forall|j: int| 0 <= j < k ==> blv(#[trigger] func.blocks@[j]) == simplify_block(bs0[j]),
            forall|j: int| k <= j < func.blocks@.len() ==> #[trigger] func.blocks@[j] == old(func).blocks@[j],
            count == capped(simplify_total(bs0, k as nat)),
        decreases func.blocks@.len() - k,
    {
        let mut blk = Block { insts: Vec::new(), term: Terminator::Unreachable };
        func.blocks.set_and_swap(k, &mut blk);
        let ghost b0 = blv(blk);
        let c = simplify_one_block(&mut blk);
        proof {
            assert(b0 == bs0[k as int]);
        }
        func.blocks.set_and_swap(k, &mut blk);
        count = add_capped(count, c);
        k = k + 1;
    }
    proof {
        assert(blocks_v(func.blocks@) =~= bs0.map_values(|b: BlockView| simplify_block(b)));
    }
    count
}

/// Simplifies one block; returns its number of rewrites, held at
/// `usize::MAX`.
fn simplify_one_block(blk: &mut Block) -> (count: usize)
    ensures
        blv(*final(blk)) == simplify_block(blv(*old(blk))),
        count == capped(changed(blv(*old(blk)).insts, blv(*old(blk)).insts.len(), |i: InstV| simplify_inst(i))),
{
    let ghost is0 = blv(*blk).insts;
    let ghost f = |i: InstV| simplify_inst(i);
    let mut count: usize = 0;
    let mut j: usize = 0;
    while j < blk.insts.len()
        invariant
            j <= blk.insts@.len(),
            blk.insts@.len() == old(blk).insts@.len(),
            blk.term == old(blk).term,
            is0 == blv(*old(blk)).insts,
            f == (|i: InstV| simplify_inst(i)),
            forall|m: int| 0 <= m < j ==> iv(#[trigger] blk.insts@[m]) == simplify_inst(is0[m]).0,
            forall|m: int| j <= m < blk.insts@.len() ==> #[trigger] blk.insts@[m] == old(blk).insts@[m],
            count == capped(changed(is0, j as nat, f)),
        decreases blk.insts@.len() - j,
    {
        let simpler = match &blk.insts[j] {
            Inst::Assign { dst, rvalue: Rvalue::Binary(op, a, b) } => match simplify_binary(*op, a, b) {
                Some(r) => Some((*dst, r)),
                None => None,
            },
            _ => None,
        };
        proof {
            assert(is0[j as int] == iv(old(blk).insts@[j as int]));
        }
        match simpler {
            Some((dst, r)) => {
                blk.insts.set(j, Inst::Assign { dst, rvalue: r });
                count = add_capped(count, 1);
            },
            None => {},
        }
        j = j + 1;
    }
    proof {
        assert(blv(*blk).insts =~= is0.map_values(|i: InstV| simplify_inst(i).0));
    }
    count
}

/// Whether an operand is the integer constant `want`.
fn is_int(o: &Operand, want: i64) -> (r: bool)
    ensures
        r == is_int_v(ov(*o), want),
{
    match o {
        Operand::Const(Const::Int(v)) => *v == want,
        _ => false,
    }
}

/// Whether two operands are the same register.
fn same_reg(a: &Operand, b: &Operand) -> (r: bool)
    ensures
        r == same_reg_v(ov(*a), ov(*b)),
{
    match (a, b) {
        (Operand::Reg(x), Operand::Reg(y)) => x.0 == y.0,
        _ => false,
    }
}

/// [`simplify_binary_v`] on two operands.
fn simplify_binary(op: BinOp, a: &Operand, b: &Operand) -> (res: Option<Rvalue>)
    ensures
        match res {
            Some(r) => simplify_binary_v(op, ov(*a), ov(*b)) == Some(rvv(r)),
            None => simplify_binary_v(op, ov(*a), ov(*b)) is None,
        },
{
    let zero = Rvalue::Use(Operand::Const(Const::Int(0)));
    match op {
        BinOp::Add => if is_int(b, 0) {
            Some(Rvalue::Use(copy_operand(a)))
        } else if is_int(a, 0) {
            Some(Rvalue::Use(copy_operand(b)))
        } else {
            None
        },
        BinOp::Sub => if is_int(b, 0) {
            Some(Rvalue::Use(copy_operand(a)))
        } else if same_reg(a, b) {
            Some(zero)
        } else {
            None
        },
        BinOp::Mul => if is_int(b, 1) {
            Some(Rvalue::Use(copy_operand(a)))
        } else if is_int(a, 1) {
            Some(Rvalue::Use(copy_operand(b)))
        } else if is_int(a, 0) || is_int(b, 0) {
            Some(zero)
        } else {
            None
        },
        BinOp::Div => if is_int(b, 1) {
            Some(Rvalue::Use(copy_operand(a)))
        } else {
            None
        },
        BinOp::Rem => if is_int(b, 1) {
            Some(zero)
        } else {
            None
        },
        _ => None,
    }
}


// ---- dead code ----

/// The register an operand reads, as a set.
pub open spec fn reads_o(o: OperandV) -> Set<u32> {
    match o {
        OperandV::Reg(r) => set![r.0],
        OperandV::Const(_) => Set::empty(),
    }
}

/// The registers the first `n` operands read.
pub open spec fn reads_os(os: Seq<OperandV>, n: nat) -> Set<u32>
    decreases n,
{
    if n == 0 || n > os.len() {
        Set::empty()
    } else {
        reads_os(os, (n - 1) as nat) + reads_o(os[n - 1])
    }
}

/// The registers an rvalue reads.
pub open spec fn reads_rv(r: RvalueV) -> Set<u32> {
    match r {
        RvalueV::Use(o) => reads_o(o),
        RvalueV::Load(_) => Set::empty(),
        RvalueV::Unary(_, o) => reads_o(o),
        RvalueV::Binary(_, a, b) => reads_o(a) + reads_o(b),
        RvalueV::Concat(a, b) => reads_o(a) + reads_o(b),
        RvalueV::MakeArray(es) => reads_os(es, es.len()),
        RvalueV::Index(b, i) => reads_o(b) + reads_o(i),
    }
}

/// The registers an instruction reads.
pub open spec fn reads_i(i: InstV) -> Set<u32> {
    match i {
        InstV::Assign { rvalue, .. } => reads_rv(rvalue),
        InstV::Store { src, .. } => reads_o(src),
        InstV::SetIndex { base, index, value } => reads_o(base) + reads_o(index) + reads_o(value),
        InstV::Call { args, .. } => reads_os(args, args.len()),
    }
}

/// The registers a terminator reads.
pub open spec fn reads_t(t: TermV) -> Set<u32> {
    match t {
        TermV::Branch { cond, .. } => reads_o(cond),
        TermV::Return(o) => reads_o(o),
        _ => Set::empty(),
    }
}

/// The registers the first `n` instructions read.
pub open spec fn reads_is(is: Seq<InstV>, n: nat) -> Set<u32>
    decreases n,
{
    if n == 0 || n > is.len() {
        Set::empty()
    } else {
        reads_is(is, (n - 1) as nat) + reads_i(is[n - 1])
    }
}

/// The registers read anywhere in the first `n` blocks.
pub open spec fn used_regs_v(bs: Seq<BlockView>, n: nat) -> Set<u32>
    decreases n,
{
    if n == 0 || n > bs.len() {
        Set::empty()
    } else {
        used_regs_v(bs, (n - 1) as nat) + reads_is(bs[n - 1].insts, bs[n - 1].insts.len()) + reads_t(
            bs[n - 1].term,
        )
    }
}

/// Whether an instruction stays: every rvalue is pure, so an assignment
/// stays only if its register is read; every other instruction has an
/// effect and stays.
pub open spec fn keep_inst(i: InstV, used: Set<u32>) -> bool {
    match i {
        InstV::Assign { dst, .. } => used.contains(dst.0),
        _ => true,
    }
}

/// The first `n` instructions that stay, in order.
pub open spec fn kept_insts(is: Seq<InstV>, n: nat, used: Set<u32>) -> Seq<InstV>
    decreases n,
{
    if n == 0 || n > is.len() {
        Seq::empty()
    } else if keep_inst(is[n - 1], used) {
        kept_insts(is, (n - 1) as nat, used).push(is[n - 1])
    } else {
        kept_insts(is, (n - 1) as nat, used)
    }
}

/// How many of the first `n` instructions go.
pub open spec fn dropped(is: Seq<InstV>, n: nat, used: Set<u32>) -> nat
    decreases n,
{
    if n == 0 || n > is.len() {
        0
    } else {
        dropped(is, (n - 1) as nat, used) + if keep_inst(is[n - 1], used) {
            0nat
        } else {
            1nat
        }
    }
}

/// A block without its dead assignments.
pub open spec fn dce_block(b: BlockView, used: Set<u32>) -> BlockView {
    BlockView { insts: kept_insts(b.insts, b.insts.len(), used), term: b.term }
}

/// How many instructions go from the first `n` blocks.
pub open spec fn dce_total(bs: Seq<BlockView>, n: nat, used: Set<u32>) -> nat
    decreases n,
{
    if n == 0 || n > bs.len() {
        0
    } else {
        dce_total(bs, (n - 1) as nat, used) + dropped(bs[n - 1].insts, bs[n - 1].insts.len(), used)
    }
}

/// Removes every assignment whose register is read nowhere in the function
/// ([`used_regs_v`]); all other instructions and every terminator stay.
/// Returns the number removed (held at `usize::MAX`).
pub fn dead_code(func: &mut Function) -> (count: usize)
    ensures
        same_frame(*old(func), *final(func)),
        blocks_v(final(func).blocks@) == blocks_v(old(func).blocks@).map_values(
            |b: BlockView| dce_block(b, used_regs_v(blocks_v(old(func).blocks@), old(func).blocks@.len())),
        ),
        count == capped(
            dce_total(
                blocks_v(old(func).blocks@),
                old(func).blocks@.len(),
                used_regs_v(blocks_v(old(func).blocks@), old(func).blocks@.len()),
            ),
        ),
{
    let ghost bs0 = blocks_v(func.blocks@);
    let used = used_regs(func);
    let ghost u = used@;
    let mut count: usize = 0;
    let mut k: usize = 0;
    while k < func.blocks.len()
        invariant
            k <= func.blocks@.len(),
            func.blocks@.len() == old(func).blocks@.len(),
            same_frame(*old(func), *func),
            bs0 == blocks_v(old(func).blocks@),
            u == used@,
            forall|j: int| 0 <= j < k ==> blv(#[trigger] func.blocks@[j]) == dce_block(bs0[j], u),
            forall|j: int| k <= j < func.blocks@.len() ==> #[trigger] func.blocks@[j] == old(func).blocks@[j],
            count == capped(dce_total(bs0, k as nat, u)),
        decreases func.blocks@.len() - k,
    {
        let mut blk = Block { insts: Vec::new(), term: Terminator::Unreachable };
        func.blocks.set_and_swap(k, &mut blk);
        let ghost b0 = blv(blk);
        let c = dce_one_block(&mut blk, &used);
        proof {
            assert(b0 == bs0[k as int]);
        }
        func.blocks.set_and_swap(k, &mut blk);
        count = add_capped(count, c);
        k = k + 1;
    }
    proof {
        assert(blocks_v(func.blocks@) =~= bs0.map_values(|b: BlockView| dce_block(b, u)));
    }
    count
}

/// Removes a block's dead assignments; returns how many went.
fn dce_one_block(blk: &mut Block, used: &HashSet<u32>) -> (count: usize)
    ensures
        blv(*final(blk)) == dce_block(blv(*old(blk)), used@),
        count == capped(dropped(blv(*old(blk)).insts, blv(*old(blk)).insts.len(), used@)),
{
    broadcast use vstd::std_specs::hash::group_hash_axioms;

    let ghost is0 = blv(*blk).insts;
    let mut rest: Vec<Inst> = Vec::new();
    std::mem::swap(&mut rest, &mut blk.insts);
    let ghost orig = rest@;
    assert(orig.len() == rest.len());
    let mut out: Vec<Inst> = Vec::new();
    let mut count: usize = 0;
    let mut i: usize = 0;
    while rest.len() > 0
        invariant
            i <= orig.len() <= usize::MAX,
            rest@ == orig.skip(i as int),
            is0 == orig.map_values(|x: Inst| iv(x)),
            blk.term == old(blk).term,
            out@.map_values(|x: Inst| iv(x)) == kept_insts(is0, i as nat, used@),
            count == capped(dropped(is0, i as nat, used@)),
        decreases rest@.len(),
    {
        let x = rest.remove(0);
        assert(x == orig[i as int]);
        assert(rest@ =~= orig.skip(i + 1));
        let keep = match &x {
            Inst::Assign { dst, .. } => used.contains(&dst.0),
            _ => true,
        };
        let ghost before = out@;
        if keep {
            out.push(x);
            proof {
                assert(out@.map_values(|x: Inst| iv(x)) =~= before.map_values(|x: Inst| iv(x)).push(iv(x)));
            }
        } else {
            count = add_capped(count, 1);
        }
        i = i + 1;
    }
    blk.insts = out;
    count
}

/// Adds the register an operand reads.
fn record(o: &Operand, used: &mut HashSet<u32>)
    ensures
        final(used)@ == old(used)@ + reads_o(ov(*o)),
{
    broadcast use vstd::std_specs::hash::group_hash_axioms;

    let ghost before = used@;
    match o {
        Operand::Reg(r) => {
            used.insert(r.0);
        },
        Operand::Const(_) => {},
    }
    assert(used@ =~= before + reads_o(ov(*o)));
}

/// Adds the registers a list of operands reads.
fn record_all(os: &Vec<Operand>, used: &mut HashSet<u32>)
    ensures
        final(used)@ == old(used)@ + reads_os(ovs(os@), os@.len()),
{
    let ghost before = used@;
    let ghost vs = ovs(os@);
    let mut j: usize = 0;
    while j < os.len()
        invariant
            j <= os@.len(),
            vs == ovs(os@),
            used@ == before + reads_os(vs, j as nat),
        decreases os@.len() - j,
    {
        record(&os[j], used);
        proof {
            assert(vs[j as int] == ov(os@[j as int]));
            assert(used@ =~= before + reads_os(vs, (j + 1) as nat));
        }
        j = j + 1;
    }
}

/// The registers read anywhere in a function: [`used_regs_v`].
fn used_regs(func: &Function) -> (used: HashSet<u32>)
    ensures
        used@ == used_regs_v(blocks_v(func.blocks@), func.blocks@.len()),
{
    broadcast use vstd::std_specs::hash::group_hash_axioms;

    let ghost bs = blocks_v(func.blocks@);
    let mut used: HashSet<u32> = HashSet::new();
    let mut k: usize = 0;
    while k < func.blocks.len()
        invariant
            k <= func.blocks@.len(),
            bs == blocks_v(func.blocks@),
            used@ == used_regs_v(bs, k as nat),
        decreases func.blocks@.len() - k,
    {
        let blk = &func.blocks[k];
        let ghost before = used@;
        let ghost is = bs[k as int].insts;
        let mut j: usize = 0;
        while j < blk.insts.len()
            invariant
                j <= blk.insts@.len(),
                is == blv(*blk).insts,
                used@ == before + reads_is(is, j as nat),
            decreases blk.insts@.len() - j,
        {
            let ghost pre = used@;
            match &blk.insts[j] {
                Inst::Assign { rvalue, .. } => match rvalue {
                    Rvalue::Use(o) => record(o, &mut used),
                    Rvalue::Load(_) => {},
                    Rvalue::Unary(_, o) => record(o, &mut used),
                    Rvalue::Binary(_, a, b) => {
                        record(a, &mut used);
                        record(b, &mut used);
                    },
                    Rvalue::Concat(a, b) => {
                        record(a, &mut used);
                        record(b, &mut used);
                    },
                    Rvalue::MakeArray(es) => record_all(es, &mut used),
                    Rvalue::Index(b, i) => {
                        record(b, &mut used);
                        record(i, &mut used);
                    },
                },
                Inst::Store { src, .. } => record(src, &mut used),
                Inst::SetIndex { base, index, value } => {
                    record(base, &mut used);
                    record(index, &mut used);
                    record(value, &mut used);
                },
                Inst::Call { args, .. } => record_all(args, &mut used),
            }
            proof {
                assert(is[j as int] == iv(blk.insts@[j as int]));
                assert(used@ =~= pre + reads_i(is[j as int]));
                assert(used@ =~= before + reads_is(is, (j + 1) as nat));
            }
            j = j + 1;
        }
        let ghost mid = used@;
        match &blk.term {
            Terminator::Branch { cond, .. } => record(cond, &mut used),
            Terminator::Return(o) => record(o, &mut used),
            Terminator::Goto(_) | Terminator::Unreachable => {},
        }
        proof {
            assert(used@ =~= mid + reads_t(bs[k as int].term));
            assert(used@ =~= used_regs_v(bs, (k + 1) as nat));
        }
        k = k + 1;
    }
    used
}


// ---- local common-subexpression elimination ----

/// Whether an rvalue is a pure computation worth reusing: an operator or a
/// load. Arrays are never reused: each `MakeArray` is a distinct value and
/// an `Index` reads mutable contents.
pub open spec fn cse_eligible_v(r: RvalueV) -> bool {
    r is Unary || r is Binary || r is Concat || r is Load
}

/// The register of the first remembered computation, from position `i` on,
/// equal to `r`.
pub open spec fn first_match(seen: Seq<(RvalueV, Reg)>, r: RvalueV, i: int) -> Option<Reg>
    decreases seen.len() - i,
{
    if i < 0 || i >= seen.len() {
        None
    } else if seen[i].0 == r {
        Some(seen[i].1)
    } else {
        first_match(seen, r, i + 1)
    }
}

/// The remembered computations other than loads of `local`, among the
/// first `n`.
pub open spec fn forget_loads(seen: Seq<(RvalueV, Reg)>, local: LocalId, n: nat) -> Seq<(RvalueV, Reg)>
    decreases n,
{
    if n == 0 || n > seen.len() {
        Seq::empty()
    } else if seen[n - 1].0 == RvalueV::Load(local) {
        forget_loads(seen, local, (n - 1) as nat)
    } else {
        forget_loads(seen, local, (n - 1) as nat).push(seen[n - 1])
    }
}

/// One instruction of the scan: an eligible computation seen before becomes
/// a copy of the register that first held it, a new one is remembered, and
/// a store forgets the loads of its local. Gives the new memory, the
/// instruction, and whether it changed.
pub open spec fn cse_step(seen: Seq<(RvalueV, Reg)>, i: InstV) -> (Seq<(RvalueV, Reg)>, InstV, bool) {
    match i {
        InstV::Assign { dst, rvalue } => if cse_eligible_v(rvalue) {
            match first_match(seen, rvalue, 0) {
                Some(prev) => (seen, InstV::Assign { dst, rvalue: RvalueV::Use(OperandV::Reg(prev)) }, true),
                None => (seen.push((rvalue, dst)), i, false),
            }
        } else {
            (seen, i, false)
        },
        InstV::Store { local, .. } => (forget_loads(seen, local, seen.len()), i, false),
        _ => (seen, i, false),
    }
}

/// The scan of the first `n` instructions of a block: the memory after
/// them, the rewritten instructions, and the number of rewrites.
pub open spec fn cse_scan(is: Seq<InstV>, n: nat) -> (Seq<(RvalueV, Reg)>, Seq<InstV>, nat)
    decreases n,
{
    if n == 0 || n > is.len() {
        (Seq::empty(), Seq::empty(), 0)
    } else {
        let (seen, out, c) = cse_scan(is, (n - 1) as nat);
        let (seen2, i2, changed) = cse_step(seen, is[n - 1]);
        (seen2, out.push(i2), c + if changed {
            1nat
        } else {
            0nat
        })
    }
}

/// A block after reusing repeated computations.
pub open spec fn cse_block(b: BlockView) -> BlockView {
    BlockView { insts: cse_scan(b.insts, b.insts.len()).1, term: b.term }
}

/// The rewrites made in the first `n` blocks.
pub open spec fn cse_total(bs: Seq<BlockView>, n: nat) -> nat
    decreases n,
{
    if n == 0 || n > bs.len() {
        0
    } else {
        cse_total(bs, (n - 1) as nat) + cse_scan(bs[n - 1].insts, bs[n - 1].insts.len()).2
    }
}

/// Within each block, replaces a repeated pure computation with a copy of
/// the register that first produced it ([`cse_scan`]); a store to a local
/// forgets the remembered loads of it. Returns the number of rewrites (held
/// at `usize::MAX`).
pub fn local_cse(func: &mut Function) -> (count: usize)
    ensures
        same_frame(*old(func), *final(func)),
        blocks_v(final(func).blocks@) == blocks_v(old(func).blocks@).map_values(|b: BlockView| cse_block(b)),
        count == capped(cse_total(blocks_v(old(func).blocks@), old(func).blocks@.len())),
{
    let ghost bs0 = blocks_v(func.blocks@);
    let mut count: usize = 0;
    let mut k: usize = 0;
    while k < func.blocks.len()
        invariant
            k <= func.blocks@.len(),
            func.blocks@.len() == old(func).blocks@.len(),
            same_frame(*old(func), *func),
            bs0 == blocks_v(old(func).blocks@),
            forall|j: int| 0 <= j < k ==> blv(#[trigger] func.blocks@[j]) == cse_block(bs0[j]),
            forall|j: int| k <= j < func.blocks@.len() ==> #[trigger] func.blocks@[j] == old(func).blocks@[j],
            count == capped(cse_total(bs0, k as nat)),
        decreases func.blocks@.len() - k,
    {
        let mut blk = Block { insts: Vec::new(), term: Terminator::Unreachable };
        func.blocks.set_and_swap(k, &mut blk);
        let ghost b0 = blv(blk);
        let c = cse_one_block(&mut blk);
        proof {
            assert(b0 == bs0[k as int]);
        }
        func.blocks.set_and_swap(k, &mut blk);
        count = add_capped(count, c);
        k = k + 1;
    }
    proof {
        assert(blocks_v(func.blocks@) =~= bs0.map_values(|b: BlockView| cse_block(b)));
    }
    count
}

/// The view of the scan's memory.
pub open spec fn seen_v(seen: Seq<(Rvalue, Reg)>) -> Seq<(RvalueV, Reg)> {
    seen.map_values(|p: (Rvalue, Reg)| (rvv(p.0), p.1))
}

fn cse_one_block(blk: &mut Block) -> (count: usize)
    ensures
        blv(*final(blk)) == cse_block(blv(*old(blk))),
        count == capped(cse_scan(blv(*old(blk)).insts, blv(*old(blk)).insts.len()).2),
{
    let ghost is0 = blv(*blk).insts;
    let mut seen: Vec<(Rvalue, Reg)> = Vec::new();
    let mut count: usize = 0;
    let mut j: usize = 0;
    proof {
        assert(seen_v(seen@) =~= Seq::<(RvalueV, Reg)>::empty());
    }
    while j < blk.insts.len()
        invariant
            j <= blk.insts@.len(),
            blk.insts@.len() == old(blk).insts@.len(),
            blk.term == old(blk).term,
            is0 == blv(*old(blk)).insts,
            forall|m: int| 0 <= m < j ==> iv(#[trigger] blk.insts@[m]) == cse_scan(is0, j as nat).1[m],
            forall|m: int| j <= m < blk.insts@.len() ==> #[trigger] blk.insts@[m] == old(blk).insts@[m],
            cse_scan(is0, j as nat).1.len() == j,
            seen_v(seen@) == cse_scan(is0, j as nat).0,
            count == capped(cse_scan(is0, j as nat).2),
        decreases blk.insts@.len() - j,
    {
        proof {
            assert(is0[j as int] == iv(old(blk).insts@[j as int]));
        }
        let ghost s0 = seen_v(seen@);
        let action: Option<(Reg, Reg)> = match &blk.insts[j] {
            Inst::Assign { dst, rvalue } => if is_cse_eligible(rvalue) {
                match find_seen(&seen, rvalue) {
                    Some(prev) => Some((*dst, prev)),
                    None => {
                        let c = copy_rvalue(rvalue);
                        seen.push((c, *dst));
                        proof {
                            assert(seen_v(seen@) =~= s0.push((rvv(*rvalue), *dst)));
                        }
                        None
                    },
                }
            } else {
                None
            },
            Inst::Store { local, .. } => {
                forget(&mut seen, *local);
                None
            },
            _ => None,
        };
        match action {
            Some((dst, prev)) => {
                blk.insts.set(j, Inst::Assign { dst, rvalue: Rvalue::Use(Operand::Reg(prev)) });
                count = add_capped(count, 1);
            },
            None => {},
        }
        proof {
            let prevs = cse_scan(is0, j as nat).1;
            let nexts = cse_scan(is0, (j + 1) as nat).1;
            assert(nexts == prevs.push(cse_step(s0, is0[j as int]).1));
            assert forall|m: int| 0 <= m < j + 1 implies iv(#[trigger] blk.insts@[m]) == nexts[m] by {
                if m < j {
                    assert(nexts[m] == prevs[m]);
                }
            }
        }
        j = j + 1;
    }
    proof {
        assert(blv(*blk).insts =~= cse_scan(is0, is0.len()).1);
    }
    count
}

/// Whether an rvalue may be reused: [`cse_eligible_v`].
fn is_cse_eligible(r: &Rvalue) -> (b: bool)
    ensures
        b == cse_eligible_v(rvv(*r)),
{
    match r {
        Rvalue::Unary(..) | Rvalue::Binary(..) | Rvalue::Concat(..) | Rvalue::Load(_) => true,
        _ => false,
    }
}

/// The register of the first remembered computation equal to `r`.
fn find_seen(seen: &Vec<(Rvalue, Reg)>, r: &Rvalue) -> (res: Option<Reg>)
    requires
        cse_eligible_v(rvv(*r)),
    ensures
        res == first_match(seen_v(seen@), rvv(*r), 0),
{
    let ghost sv = seen_v(seen@);
    let mut i: usize = 0;
    while i < seen.len()
        invariant
            i <= seen@.len(),
            sv == seen_v(seen@),
            first_match(sv, rvv(*r), 0) == first_match(sv, rvv(*r), i as int),
            cse_eligible_v(rvv(*r)),
        decreases seen@.len() - i,
    {
        if eq_rvalue(r, &seen[i].0) {
            return Some(seen[i].1);
        }
        i = i + 1;
    }
    None
}

/// Forgets the remembered loads of `local`.
fn forget(seen: &mut Vec<(Rvalue, Reg)>, local: LocalId)
    ensures
        seen_v(final(seen)@) == forget_loads(seen_v(old(seen)@), local, old(seen)@.len()),
{
    let ghost sv = seen_v(seen@);
    let mut rest: Vec<(Rvalue, Reg)> = Vec::new();
    std::mem::swap(&mut rest, seen);
    let ghost orig = rest@;
    assert(orig.len() == rest.len());
    let mut i: usize = 0;
    proof {
        assert(seen_v(seen@) =~= Seq::<(RvalueV, Reg)>::empty());
    }
    while rest.len() > 0
        invariant
            i <= orig.len() <= usize::MAX,
            rest@ == orig.skip(i as int),
            sv == seen_v(orig),
            seen_v(seen@) == forget_loads(sv, local, i as nat),
        decreases rest@.len(),
    {
        let p = rest.remove(0);
        assert(p == orig[i as int]);
        assert(rest@ =~= orig.skip(i + 1));
        let is_load = match &p.0 {
            Rvalue::Load(l) => l.0 == local.0,
            _ => false,
        };
        let ghost before = seen@;
        if !is_load {
            seen.push(p);
            proof {
                assert(seen_v(seen@) =~= seen_v(before).push(sv[i as int]));
            }
        }
        i = i + 1;
    }
}

/// Whether two constants are the same value (float literals by their text).
fn eq_const(a: &Const, b: &Const) -> (r: bool)
    ensures
        r == (cv(*a) == cv(*b)),
{
    match (a, b) {
        (Const::Int(x), Const::Int(y)) => *x == *y,
        (Const::Float(x), Const::Float(y)) => crate::text::str_eq(x.as_str(), y.as_str()),
        (Const::Bool(x), Const::Bool(y)) => *x == *y,
        (Const::Str(x), Const::Str(y)) => crate::text::str_eq(x.as_str(), y.as_str()),
        (Const::Unit, Const::Unit) => true,
        _ => false,
    }
}

/// Whether two operands are the same value.
fn eq_operand(a: &Operand, b: &Operand) -> (r: bool)
    ensures
        r == (ov(*a) == ov(*b)),
{
    match (a, b) {
        (Operand::Const(x), Operand::Const(y)) => eq_const(x, y),
        (Operand::Reg(x), Operand::Reg(y)) => x.0 == y.0,
        _ => false,
    }
}

/// Whether two reusable rvalues are the same computation; an rvalue of
/// another kind never is.
fn eq_rvalue(a: &Rvalue, b: &Rvalue) -> (r: bool)
    requires
        cse_eligible_v(rvv(*a)),
    ensures
        r == (rvv(*a) == rvv(*b)),
{
    match (a, b) {
        (Rvalue::Unary(o1, x1), Rvalue::Unary(o2, x2)) => *o1 == *o2 && eq_operand(x1, x2),
        (Rvalue::Binary(o1, a1, b1), Rvalue::Binary(o2, a2, b2)) => *o1 == *o2 && eq_operand(a1, a2) && eq_operand(
            b1,
            b2,
        ),
        (Rvalue::Concat(a1, b1), Rvalue::Concat(a2, b2)) => eq_operand(a1, a2) && eq_operand(b1, b2),
        (Rvalue::Load(l1), Rvalue::Load(l2)) => l1.0 == l2.0,
        _ => false,
    }
}

/// A copy of an rvalue.
fn copy_rvalue(r: &Rvalue) -> (c: Rvalue)
    ensures
        rvv(c) == rvv(*r),
{
    match r {
        Rvalue::Use(o) => Rvalue::Use(copy_operand(o)),
        Rvalue::Load(l) => Rvalue::Load(*l),
        Rvalue::Unary(op, o) => Rvalue::Unary(*op, copy_operand(o)),
        Rvalue::Binary(op, a, b) => Rvalue::Binary(*op, copy_operand(a), copy_operand(b)),
        Rvalue::Concat(a, b) => Rvalue::Concat(copy_operand(a), copy_operand(b)),
        Rvalue::MakeArray(es) => {
            let mut v: Vec<Operand> = Vec::new();
            let mut i: usize = 0;
            while i < es.len()
                invariant
                    i <= es@.len(),
                    ovs(v@) == ovs(es@).take(i as int),
                decreases es@.len() - i,
            {
                let ghost before = v@;
                v.push(copy_operand(&es[i]));
                proof {
                    assert(v@ =~= before.push(v@.last()));
                    assert(ovs(v@) =~= ovs(before).push(ov(v@.last())));
                    assert(ovs(v@) =~= ovs(es@).take(i + 1));
                }
                i = i + 1;
            }
            proof {
                assert(ovs(es@).take(i as int) =~= ovs(es@));
            }
            Rvalue::MakeArray(v)
        },
        Rvalue::Index(b, i) => Rvalue::Index(copy_operand(b), copy_operand(i)),
    }
}


// ---- dead stores ----

/// Whether an instruction stores to local `l`.
pub open spec fn stores_to(i: InstV, l: u32) -> bool {
    i matches InstV::Store { local, .. } && local.0 == l
}

/// Whether an instruction loads local `l`.
pub open spec fn loads_of(i: InstV, l: u32) -> bool {
    i matches InstV::Assign { rvalue: RvalueV::Load(x), .. } && x.0 == l
}

/// Whether the store at `p` is overwritten, within the first `upto`
/// instructions, by a later store to the same local with no load of it in
/// between.
pub open spec fn overwritten(is: Seq<InstV>, p: int, upto: int) -> bool {
    match is[p] {
        InstV::Store { local, .. } => exists|j: int|
            #![trigger is[j]]
            p < j < upto && stores_to(is[j], local.0) && forall|m: int|
                #![trigger is[m]]
                p < m < j ==> !loads_of(is[m], local.0),
        _ => false,
    }
}

/// The latest store to `l` among the first `i` instructions that no later
/// one of them stores over or loads.
pub open spec fn open_store(is: Seq<InstV>, l: u32, i: int) -> Option<int>
    decreases i,
{
    if i <= 0 || i > is.len() {
        None
    } else if stores_to(is[i - 1], l) {
        Some(i - 1)
    } else if loads_of(is[i - 1], l) {
        None
    } else {
        open_store(is, l, i - 1)
    }
}

proof fn lemma_open_store(is: Seq<InstV>, l: u32, i: int)
    requires
        0 <= i <= is.len(),
    ensures
        match open_store(is, l, i) {
            Some(p) => 0 <= p < i && stores_to(is[p], l) && forall|m: int|
                #![trigger is[m]]
                p < m < i ==> !stores_to(is[m], l) && !loads_of(is[m], l),
            None => true,
        },
    decreases i,
{
    if i > 0 && !stores_to(is[i - 1], l) && !loads_of(is[i - 1], l) {
        lemma_open_store(is, l, i - 1);
    }
}

proof fn lemma_open_store_found(is: Seq<InstV>, l: u32, p: int, i: int)
    requires
        0 <= p < i <= is.len(),
        stores_to(is[p], l),
        forall|m: int| #![trigger is[m]] p < m < i ==> !stores_to(is[m], l) && !loads_of(is[m], l),
    ensures
        open_store(is, l, i) == Some(p),
    decreases i,
{
    if i - 1 > p {
        assert(!stores_to(is[i - 1], l) && !loads_of(is[i - 1], l));
        lemma_open_store_found(is, l, p, i - 1);
    }
}

/// The first `n` instructions that are not overwritten stores.
pub open spec fn live_insts(is: Seq<InstV>, n: nat) -> Seq<InstV>
    decreases n,
{
    if n == 0 || n > is.len() {
        Seq::empty()
    } else if overwritten(is, n - 1, is.len() as int) {
        live_insts(is, (n - 1) as nat)
    } else {
        live_insts(is, (n - 1) as nat).push(is[n - 1])
    }
}

/// How many of the first `n` instructions are overwritten stores.
pub open spec fn overwritten_count(is: Seq<InstV>, n: nat) -> nat
    decreases n,
{
    if n == 0 || n > is.len() {
        0
    } else {
        overwritten_count(is, (n - 1) as nat) + if overwritten(is, n - 1, is.len() as int) {
            1nat
        } else {
            0nat
        }
    }
}

/// A block without its overwritten stores.
pub open spec fn dead_store_block(b: BlockView) -> BlockView {
    BlockView { insts: live_insts(b.insts, b.insts.len()), term: b.term }
}

/// How many stores go from the first `n` blocks.
pub open spec fn dead_store_total(bs: Seq<BlockView>, n: nat) -> nat
    decreases n,
{
    if n == 0 || n > bs.len() {
        0
    } else {
        dead_store_total(bs, (n - 1) as nat) + overwritten_count(bs[n - 1].insts, bs[n - 1].insts.len())
    }
}

/// Removes each store that a later store to the same local in the same
/// block overwrites before any load of it ([`overwritten`]). Returns the
/// number removed (held at `usize::MAX`).
pub fn dead_store(func: &mut Function) -> (count: usize)
    ensures
        same_frame(*old(func), *final(func)),
        blocks_v(final(func).blocks@) == blocks_v(old(func).blocks@).map_values(|b: BlockView| dead_store_block(b)),
        count == capped(dead_store_total(blocks_v(old(func).blocks@), old(func).blocks@.len())),
{
    let ghost bs0 = blocks_v(func.blocks@);
    let mut count: usize = 0;
    let mut k: usize = 0;
    while k < func.blocks.len()
        invariant
            k <= func.blocks@.len(),
            func.blocks@.len() == old(func).blocks@.len(),
            same_frame(*old(func), *func),
            bs0 == blocks_v(old(func).blocks@),
            forall|j: int| 0 <= j < k ==> blv(#[trigger] func.blocks@[j]) == dead_store_block(bs0[j]),
            forall|j: int| k <= j < func.blocks@.len() ==> #[trigger] func.blocks@[j] == old(func).blocks@[j],
            count == capped(dead_store_total(bs0, k as nat)),
        decreases func.blocks@.len() - k,
    {
        let mut blk = Block { insts: Vec::new(), term: Terminator::Unreachable };
        func.blocks.set_and_swap(k, &mut blk);
        let ghost b0 = blv(blk);
        let c = dead_store_one_block(&mut blk);
        proof {
            assert(b0 == bs0[k as int]);
        }
        func.blocks.set_and_swap(k, &mut blk);
        count = add_capped(count, c);
        k = k + 1;
    }
    proof {
        assert(blocks_v(func.blocks@) =~= bs0.map_values(|b: BlockView| dead_store_block(b)));
    }
    count
}

/// Marks the overwritten stores of a block.
fn overwritten_marks(insts: &Vec<Inst>) -> (dead: Vec<bool>)
    ensures
        dead@.len() == insts@.len(),
        forall|p: int|
            0 <= p < insts@.len() ==> (dead@[p] <==> overwritten(
                insts@.map_values(|x: Inst| iv(x)),
                p,
                insts@.len() as int,
            )),
{
    broadcast use vstd::std_specs::hash::group_hash_axioms;

    let ghost is = insts@.map_values(|x: Inst| iv(x));
    let n = insts.len();
    let mut dead: Vec<bool> = Vec::new();
    let mut q: usize = 0;
    while q < n
        invariant
            q <= n == insts@.len(),
            dead@.len() == q,
            forall|p: int| 0 <= p < q ==> !dead@[p],
        decreases n - q,
    {
        dead.push(false);
        q = q + 1;
    }
    let mut pending: std::collections::HashMap<u32, usize> = std::collections::HashMap::new();
    let mut i: usize = 0;
    while i < n
        invariant
            i <= n == insts@.len(),
            is == insts@.map_values(|x: Inst| iv(x)),
            dead@.len() == n,
            forall|p: int| 0 <= p < n ==> (dead@[p] <==> overwritten(is, p, i as int)),
            forall|l: u32|
                #![trigger pending@.contains_key(l)]
                (pending@.contains_key(l) <==> open_store(is, l, i as int) is Some),
            forall|l: u32|
                #![trigger pending@[l]]
                pending@.contains_key(l) ==> open_store(is, l, i as int) == Some(pending@[l] as int),
        decreases n - i,
    {
        proof {
            assert(is[i as int] == iv(insts@[i as int]));
        }
        match &insts[i] {
            Inst::Assign { rvalue: Rvalue::Load(l), .. } => {
                let ghost l0 = l.0;
                pending.remove(&l.0);
                proof {
                    assert forall|p: int| 0 <= p < n implies (dead@[p] <==> overwritten(is, p, i + 1)) by {
                        if overwritten(is, p, i + 1) {
                            let lp = is[p]->Store_local.0;
                            let j = choose|j: int|
                                #![trigger is[j]]
                                p < j < i + 1 && stores_to(is[j], lp) && forall|m: int|
                                    #![trigger is[m]]
                                    p < m < j ==> !loads_of(is[m], lp);
                            assert(j != i);
                            assert(overwritten(is, p, i as int));
                        }
                        if overwritten(is, p, i as int) {
                            let lp = is[p]->Store_local.0;
                            let j = choose|j: int|
                                #![trigger is[j]]
                                p < j < i && stores_to(is[j], lp) && forall|m: int|
                                    #![trigger is[m]]
                                    p < m < j ==> !loads_of(is[m], lp);
                            assert(is[j] == is[j]);
                        }
                    }
                    assert forall|x: u32| #![trigger pending@.contains_key(x)]
                        (pending@.contains_key(x) <==> open_store(is, x, i + 1) is Some) by {
                        if x != l0 {
                            assert(open_store(is, x, i + 1) == open_store(is, x, i as int));
                        }
                    }
                    assert forall|x: u32| #![trigger pending@[x]]
                        pending@.contains_key(x) implies open_store(is, x, i + 1) == Some(pending@[x] as int) by {
                        assert(open_store(is, x, i + 1) == open_store(is, x, i as int));
                    }
                }
            },
            Inst::Store { local, .. } => {
                let ghost l0 = local.0;
                let ghost before = dead@;
                let ghost pend = pending@;
                proof {
                    lemma_open_store(is, l0, i as int);
                }
                match pending.get(&local.0) {
                    Some(p) => {
                        assert(pend.contains_key(l0) && pend[l0] == *p);
                        dead.set(*p, true);
                    },
                    None => {},
                }
                pending.insert(local.0, i);
                proof {
                    lemma_open_store(is, l0, i as int);
                    assert forall|p: int| 0 <= p < n implies (dead@[p] <==> overwritten(is, p, i + 1)) by {
                        let at_open = pend.contains_key(l0) && p == pend[l0] as int;
                        if at_open {
                            assert(open_store(is, l0, i as int) == Some(p));
                            assert(stores_to(is[i as int], l0));
                            assert(overwritten(is, p, i + 1));
                        } else {
                            assert(dead@[p] == before[p]);
                            if overwritten(is, p, i + 1) && !overwritten(is, p, i as int) {
                                let lp = is[p]->Store_local.0;
                                let j = choose|j: int|
                                    #![trigger is[j]]
                                    p < j < i + 1 && stores_to(is[j], lp) && forall|m: int|
                                        #![trigger is[m]]
                                        p < m < j ==> !loads_of(is[m], lp);
                                assert(j == i) by {
                                    if j < i {
                                        assert(overwritten(is, p, i as int));
                                    }
                                }
                                assert(lp == l0);
                                assert forall|m: int| #![trigger is[m]] p < m < i implies !stores_to(is[m], l0)
                                    && !loads_of(is[m], l0) by {
                                    if stores_to(is[m], l0) {
                                        assert(overwritten(is, p, i as int));
                                    }
                                }
                                lemma_open_store_found(is, l0, p, i as int);
                            }
                            if overwritten(is, p, i as int) {
                                let lp = is[p]->Store_local.0;
                                let j = choose|j: int|
                                    #![trigger is[j]]
                                    p < j < i && stores_to(is[j], lp) && forall|m: int|
                                        #![trigger is[m]]
                                        p < m < j ==> !loads_of(is[m], lp);
                                assert(is[j] == is[j]);
                            }
                        }
                    }
                    assert forall|x: u32| #![trigger pending@.contains_key(x)]
                        (pending@.contains_key(x) <==> open_store(is, x, i + 1) is Some) by {
                        if x != l0 {
                            assert(open_store(is, x, i + 1) == open_store(is, x, i as int));
                        }
                    }
                    assert forall|x: u32| #![trigger pending@[x]]
                        pending@.contains_key(x) implies open_store(is, x, i + 1) == Some(pending@[x] as int) by {
                        if x != l0 {
                            assert(open_store(is, x, i + 1) == open_store(is, x, i as int));
                        }
                    }
                }
            },
            _ => {
                proof {
                    assert forall|p: int| 0 <= p < n implies (dead@[p] <==> overwritten(is, p, i + 1)) by {
                        if overwritten(is, p, i + 1) {
                            let lp = is[p]->Store_local.0;
                            let j = choose|j: int|
                                #![trigger is[j]]
                                p < j < i + 1 && stores_to(is[j], lp) && forall|m: int|
                                    #![trigger is[m]]
                                    p < m < j ==> !loads_of(is[m], lp);
                            assert(j != i);
                            assert(overwritten(is, p, i as int));
                        }
                        if overwritten(is, p, i as int) {
                            let lp = is[p]->Store_local.0;
                            let j = choose|j: int|
                                #![trigger is[j]]
                                p < j < i && stores_to(is[j], lp) && forall|m: int|
                                    #![trigger is[m]]
                                    p < m < j ==> !loads_of(is[m], lp);
                            assert(is[j] == is[j]);
                        }
                    }
                    assert forall|x: u32| #![trigger pending@.contains_key(x)]
                        (pending@.contains_key(x) <==> open_store(is, x, i + 1) is Some) by {
                        assert(open_store(is, x, i + 1) == open_store(is, x, i as int));
                    }
                    assert forall|x: u32| #![trigger pending@[x]]
                        pending@.contains_key(x) implies open_store(is, x, i + 1) == Some(pending@[x] as int) by {
                        assert(open_store(is, x, i + 1) == open_store(is, x, i as int));
                    }
                }
            },
        }
        i = i + 1;
    }
    dead
}

/// Removes a block's overwritten stores; returns how many went.
fn dead_store_one_block(blk: &mut Block) -> (count: usize)
    ensures
        blv(*final(blk)) == dead_store_block(blv(*old(blk))),
        count == capped(overwritten_count(blv(*old(blk)).insts, blv(*old(blk)).insts.len())),
{
    let ghost is0 = blv(*blk).insts;
    let dead = overwritten_marks(&blk.insts);
    let mut rest: Vec<Inst> = Vec::new();
    std::mem::swap(&mut rest, &mut blk.insts);
    let ghost orig = rest@;
    assert(orig.len() == rest.len());
    let mut out: Vec<Inst> = Vec::new();
    let mut count: usize = 0;
    let mut i: usize = 0;
    while rest.len() > 0
        invariant
            i <= orig.len() <= usize::MAX,
            rest@ == orig.skip(i as int),
            is0 == orig.map_values(|x: Inst| iv(x)),
            dead@.len() == orig.len(),
            forall|p: int| 0 <= p < orig.len() ==> (dead@[p] <==> overwritten(is0, p, orig.len() as int)),
            blk.term == old(blk).term,
            out@.map_values(|x: Inst| iv(x)) == live_insts(is0, i as nat),
            count == capped(overwritten_count(is0, i as nat)),
        decreases rest@.len(),
    {
        let x = rest.remove(0);
        assert(x == orig[i as int]);
        assert(rest@ =~= orig.skip(i + 1));
        let ghost before = out@;
        if !dead[i] {
            out.push(x);
            proof {
                assert(out@.map_values(|x: Inst| iv(x)) =~= before.map_values(|x: Inst| iv(x)).push(iv(x)));
            }
        } else {
            count = add_capped(count, 1);
        }
        i = i + 1;
    }
    blk.insts = out;
    count
}


// ---- copy propagation ----

/// Follows a chain of copies from `o`, at most `fuel` steps.
pub open spec fn resolve_v(o: OperandV, m: Map<u32, OperandV>, fuel: nat) -> OperandV
    decreases fuel,
{
    match o {
        OperandV::Reg(r) => if fuel > 0 && m.contains_key(r.0) {
            resolve_v(m[r.0], m, (fuel - 1) as nat)
        } else {
            o
        },
        _ => o,
    }
}

/// The copies known after the first `n` instructions, starting from `m`:
/// each `r = x` maps `r` to `x` followed through the copies known so far
/// (at most a thousand steps).
pub open spec fn copies_is(is: Seq<InstV>, n: nat, m: Map<u32, OperandV>) -> Map<u32, OperandV>
    decreases n,
{
    if n == 0 || n > is.len() {
        m
    } else {
        let m1 = copies_is(is, (n - 1) as nat, m);
        match is[n - 1] {
            InstV::Assign { dst, rvalue: RvalueV::Use(src) } => m1.insert(dst.0, resolve_v(src, m1, 1000)),
            _ => m1,
        }
    }
}

/// The copies known after the first `n` blocks, in order.
pub open spec fn copies_bs(bs: Seq<BlockView>, n: nat) -> Map<u32, OperandV>
    decreases n,
{
    if n == 0 || n > bs.len() {
        Map::empty()
    } else {
        copies_is(bs[n - 1].insts, bs[n - 1].insts.len(), copies_bs(bs, (n - 1) as nat))
    }
}

/// An operand read through the copies, and whether it changed.
pub open spec fn subst_o(o: OperandV, m: Map<u32, OperandV>) -> (OperandV, nat) {
    match o {
        OperandV::Reg(r) => if m.contains_key(r.0) {
            (m[r.0], 1)
        } else {
            (o, 0)
        },
        _ => (o, 0),
    }
}

/// The first `n` operands read through the copies, and how many changed.
pub open spec fn subst_os(os: Seq<OperandV>, n: nat, m: Map<u32, OperandV>) -> (Seq<OperandV>, nat)
    decreases n,
{
    if n == 0 || n > os.len() {
        (Seq::empty(), 0)
    } else {
        let (v, c) = subst_os(os, (n - 1) as nat, m);
        (v.push(subst_o(os[n - 1], m).0), c + subst_o(os[n - 1], m).1)
    }
}

pub open spec fn subst_rv(r: RvalueV, m: Map<u32, OperandV>) -> (RvalueV, nat) {
    match r {
        RvalueV::Use(o) => (RvalueV::Use(subst_o(o, m).0), subst_o(o, m).1),
        RvalueV::Load(l) => (r, 0),
        RvalueV::Unary(op, o) => (RvalueV::Unary(op, subst_o(o, m).0), subst_o(o, m).1),
        RvalueV::Binary(op, a, b) => (
            RvalueV::Binary(op, subst_o(a, m).0, subst_o(b, m).0),
            subst_o(a, m).1 + subst_o(b, m).1,
        ),
        RvalueV::Concat(a, b) => (RvalueV::Concat(subst_o(a, m).0, subst_o(b, m).0), subst_o(a, m).1 + subst_o(b, m).1),
        RvalueV::MakeArray(es) => (RvalueV::MakeArray(subst_os(es, es.len(), m).0), subst_os(es, es.len(), m).1),
        RvalueV::Index(b, i) => (RvalueV::Index(subst_o(b, m).0, subst_o(i, m).0), subst_o(b, m).1 + subst_o(i, m).1),
    }
}

pub open spec fn subst_i(i: InstV, m: Map<u32, OperandV>) -> (InstV, nat) {
    match i {
        InstV::Assign { dst, rvalue } => (InstV::Assign { dst, rvalue: subst_rv(rvalue, m).0 }, subst_rv(rvalue, m).1),
        InstV::Store { local, src } => (InstV::Store { local, src: subst_o(src, m).0 }, subst_o(src, m).1),
        InstV::SetIndex { base, index, value } => (
            InstV::SetIndex { base: subst_o(base, m).0, index: subst_o(index, m).0, value: subst_o(value, m).0 },
            subst_o(base, m).1 + subst_o(index, m).1 + subst_o(value, m).1,
        ),
        InstV::Call { dst, callee, args, ret } => (
            InstV::Call { dst, callee, args: subst_os(args, args.len(), m).0, ret },
            subst_os(args, args.len(), m).1,
        ),
    }
}

pub open spec fn subst_t(t: TermV, m: Map<u32, OperandV>) -> (TermV, nat) {
    match t {
        TermV::Branch { cond, then_bb, else_bb } => (
            TermV::Branch { cond: subst_o(cond, m).0, then_bb, else_bb },
            subst_o(cond, m).1,
        ),
        TermV::Return(o) => (TermV::Return(subst_o(o, m).0), subst_o(o, m).1),
        _ => (t, 0),
    }
}

/// The first `n` instructions read through the copies, and how many
/// operands changed.
pub open spec fn subst_is(is: Seq<InstV>, n: nat, m: Map<u32, OperandV>) -> (Seq<InstV>, nat)
    decreases n,
{
    if n == 0 || n > is.len() {
        (Seq::empty(), 0)
    } else {
        let (v, c) = subst_is(is, (n - 1) as nat, m);
        (v.push(subst_i(is[n - 1], m).0), c + subst_i(is[n - 1], m).1)
    }
}

/// A block read through the copies.
pub open spec fn copy_block(b: BlockView, m: Map<u32, OperandV>) -> BlockView {
    BlockView { insts: subst_is(b.insts, b.insts.len(), m).0, term: subst_t(b.term, m).0 }
}

/// How many operands change in the first `n` blocks.
pub open spec fn copy_total(bs: Seq<BlockView>, n: nat, m: Map<u32, OperandV>) -> nat
    decreases n,
{
    if n == 0 || n > bs.len() {
        0
    } else {
        copy_total(bs, (n - 1) as nat, m) + subst_is(bs[n - 1].insts, bs[n - 1].insts.len(), m).1 + subst_t(
            bs[n - 1].term,
            m,
        ).1
    }
}

/// Whether an executable copy table holds the copies `mv`.
pub open spec fn table_holds(t: Map<u32, Operand>, mv: Map<u32, OperandV>) -> bool {
    &&& forall|k: u32| #[trigger] t.contains_key(k) <==> mv.contains_key(k)
    &&& forall|k: u32| #[trigger] t.contains_key(k) ==> ov(t[k]) == mv[k]
}

/// Replaces every read of a register that is a copy (`r = x`, followed
/// through chains: [`copies_bs`]) with what it copies. Returns the number
/// of operands replaced (held at `usize::MAX`).
pub fn copy_propagation(func: &mut Function) -> (count: usize)
    ensures
        same_frame(*old(func), *final(func)),
        blocks_v(final(func).blocks@) == blocks_v(old(func).blocks@).map_values(
            |b: BlockView| copy_block(b, copies_bs(blocks_v(old(func).blocks@), old(func).blocks@.len())),
        ),
        count == capped(
            copy_total(
                blocks_v(old(func).blocks@),
                old(func).blocks@.len(),
                copies_bs(blocks_v(old(func).blocks@), old(func).blocks@.len()),
            ),
        ),
{
    broadcast use vstd::std_specs::hash::group_hash_axioms;

    let ghost bs0 = blocks_v(func.blocks@);
    let copies = collect_copies(func);
    let ghost mv = copies_bs(bs0, bs0.len());
    let mut count: usize = 0;
    let mut k: usize = 0;
    while k < func.blocks.len()
        invariant
            k <= func.blocks@.len(),
            func.blocks@.len() == old(func).blocks@.len(),
            same_frame(*old(func), *func),
            bs0 == blocks_v(old(func).blocks@),
            table_holds(copies@, mv),
            forall|j: int| 0 <= j < k ==> blv(#[trigger] func.blocks@[j]) == copy_block(bs0[j], mv),
            forall|j: int| k <= j < func.blocks@.len() ==> #[trigger] func.blocks@[j] == old(func).blocks@[j],
            count == capped(copy_total(bs0, k as nat, mv)),
        decreases func.blocks@.len() - k,
    {
        let mut blk = Block { insts: Vec::new(), term: Terminator::Unreachable };
        func.blocks.set_and_swap(k, &mut blk);
        let ghost b0 = blv(blk);
        let c = copy_one_block(&mut blk, &copies, Ghost(mv));
        proof {
            assert(b0 == bs0[k as int]);
        }
        func.blocks.set_and_swap(k, &mut blk);
        count = add_capped(count, c);
        k = k + 1;
    }
    proof {
        assert(blocks_v(func.blocks@) =~= bs0.map_values(|b: BlockView| copy_block(b, mv)));
    }
    count
}

/// Follows a chain of copies: [`resolve_v`] with a thousand steps.
fn resolve(o: &Operand, copies: &std::collections::HashMap<u32, Operand>, Ghost(mv): Ghost<Map<u32, OperandV>>) -> (r: Operand)
    requires
        table_holds(copies@, mv),
    ensures
        ov(r) == resolve_v(ov(*o), mv, 1000),
{
    broadcast use vstd::std_specs::hash::group_hash_axioms;

    let mut cur = copy_operand(o);
    let mut guard: u32 = 0;
    loop
        invariant
            guard <= 1000,
            table_holds(copies@, mv),
            resolve_v(ov(*o), mv, 1000) == resolve_v(ov(cur), mv, (1000 - guard) as nat),
        decreases 1000 - guard,
    {
        let next = match &cur {
            Operand::Reg(r) => if guard < 1000 {
                match copies.get(&r.0) {
                    Some(x) => Some(copy_operand(x)),
                    None => None,
                }
            } else {
                None
            },
            Operand::Const(_) => None,
        };
        match next {
            Some(x) => {
                cur = x;
                guard = guard + 1;
            },
            None => {
                return cur;
            },
        }
    }
}

/// The copies of a whole function: [`copies_bs`].
fn collect_copies(func: &Function) -> (copies: std::collections::HashMap<u32, Operand>)
    ensures
        table_holds(copies@, copies_bs(blocks_v(func.blocks@), func.blocks@.len())),
{
    broadcast use vstd::std_specs::hash::group_hash_axioms;

    let ghost bs = blocks_v(func.blocks@);
    let mut copies: std::collections::HashMap<u32, Operand> = std::collections::HashMap::new();
    let mut k: usize = 0;
    while k < func.blocks.len()
        invariant
            k <= func.blocks@.len(),
            bs == blocks_v(func.blocks@),
            table_holds(copies@, copies_bs(bs, k as nat)),
        decreases func.blocks@.len() - k,
    {
        let blk = &func.blocks[k];
        let ghost m0 = copies_bs(bs, k as nat);
        let ghost is = bs[k as int].insts;
        let mut j: usize = 0;
        while j < blk.insts.len()
            invariant
                j <= blk.insts@.len(),
                is == blv(*blk).insts,
                table_holds(copies@, copies_is(is, j as nat, m0)),
            decreases blk.insts@.len() - j,
        {
            proof {
                assert(is[j as int] == iv(blk.insts@[j as int]));
            }
            let ghost m1 = copies_is(is, j as nat, m0);
            match &blk.insts[j] {
                Inst::Assign { dst, rvalue: Rvalue::Use(src) } => {
                    let r = resolve(src, &copies, Ghost(m1));
                    copies.insert(dst.0, r);
                    proof {
                        let m2 = copies_is(is, (j + 1) as nat, m0);
                        assert(m2 == m1.insert(dst.0, resolve_v(ov(*src), m1, 1000)));
                        assert forall|x: u32| #[trigger] copies@.contains_key(x) ==> ov(copies@[x]) == m2[x] by {
                            if x != dst.0 && copies@.contains_key(x) {
                                assert(m1.contains_key(x));
                            }
                        }
                    }
                },
                _ => {},
            }
            j = j + 1;
        }
        proof {
            assert(copies_bs(bs, (k + 1) as nat) == copies_is(is, is.len(), m0));
        }
        k = k + 1;
    }
    copies
}

/// An operand read through the copies, and whether it changed.
fn subst_operand(o: Operand, copies: &std::collections::HashMap<u32, Operand>, Ghost(mv): Ghost<Map<u32, OperandV>>) -> (r: (Operand, usize))
    requires
        table_holds(copies@, mv),
    ensures
        ov(r.0) == subst_o(ov(o), mv).0,
        r.1 == subst_o(ov(o), mv).1,
{
    broadcast use vstd::std_specs::hash::group_hash_axioms;

    let found = match &o {
        Operand::Reg(r) => match copies.get(&r.0) {
            Some(x) => Some(copy_operand(x)),
            None => None,
        },
        Operand::Const(_) => None,
    };
    match found {
        Some(x) => (x, 1),
        None => (o, 0),
    }
}

/// A list of operands read through the copies.
fn subst_operands(os: Vec<Operand>, copies: &std::collections::HashMap<u32, Operand>, Ghost(mv): Ghost<Map<u32, OperandV>>) -> (r: (Vec<Operand>, usize))
    requires
        table_holds(copies@, mv),
    ensures
        ovs(r.0@) == subst_os(ovs(os@), os@.len(), mv).0,
        r.1 == capped(subst_os(ovs(os@), os@.len(), mv).1),
{
    let ghost vs = ovs(os@);
    let ghost orig = os@;
    let mut rest = os;
    assert(orig.len() == rest.len());
    let mut out: Vec<Operand> = Vec::new();
    let mut count: usize = 0;
    let mut i: usize = 0;
    while rest.len() > 0
        invariant
            i <= orig.len() <= usize::MAX,
            rest@ == orig.skip(i as int),
            vs == ovs(orig),
            table_holds(copies@, mv),
            ovs(out@) == subst_os(vs, i as nat, mv).0,
            count == capped(subst_os(vs, i as nat, mv).1),
        decreases rest@.len(),
    {
        let x = rest.remove(0);
        assert(x == orig[i as int]);
        assert(rest@ =~= orig.skip(i + 1));
        let (y, c) = subst_operand(x, copies, Ghost(mv));
        let ghost before = out@;
        out.push(y);
        proof {
            assert(ovs(out@) =~= ovs(before).push(ov(y)));
        }
        count = add_capped(count, c);
        i = i + 1;
    }
    (out, count)
}

fn subst_rvalue(r: Rvalue, copies: &std::collections::HashMap<u32, Operand>, Ghost(mv): Ghost<Map<u32, OperandV>>) -> (res: (Rvalue, usize))
    requires
        table_holds(copies@, mv),
    ensures
        rvv(res.0) == subst_rv(rvv(r), mv).0,
        res.1 == capped(subst_rv(rvv(r), mv).1),
{
    match r {
        Rvalue::Use(o) => {
            let (a, c) = subst_operand(o, copies, Ghost(mv));
            (Rvalue::Use(a), c)
        },
        Rvalue::Load(l) => (Rvalue::Load(l), 0),
        Rvalue::Unary(op, o) => {
            let (a, c) = subst_operand(o, copies, Ghost(mv));
            (Rvalue::Unary(op, a), c)
        },
        Rvalue::Binary(op, a, b) => {
            let (a, c1) = subst_operand(a, copies, Ghost(mv));
            let (b, c2) = subst_operand(b, copies, Ghost(mv));
            (Rvalue::Binary(op, a, b), c1 + c2)
        },
        Rvalue::Concat(a, b) => {
            let (a, c1) = subst_operand(a, copies, Ghost(mv));
            let (b, c2) = subst_operand(b, copies, Ghost(mv));
            (Rvalue::Concat(a, b), c1 + c2)
        },
        Rvalue::MakeArray(es) => {
            let (v, c) = subst_operands(es, copies, Ghost(mv));
            (Rvalue::MakeArray(v), c)
        },
        Rvalue::Index(b, i) => {
            let (b, c1) = subst_operand(b, copies, Ghost(mv));
            let (i, c2) = subst_operand(i, copies, Ghost(mv));
            (Rvalue::Index(b, i), c1 + c2)
        },
    }
}

fn subst_inst(inst: Inst, copies: &std::collections::HashMap<u32, Operand>, Ghost(mv): Ghost<Map<u32, OperandV>>) -> (res: (Inst, usize))
    requires
        table_holds(copies@, mv),
    ensures
        iv(res.0) == subst_i(iv(inst), mv).0,
        res.1 == capped(subst_i(iv(inst), mv).1),
{
    match inst {
        Inst::Assign { dst, rvalue } => {
            let (r, c) = subst_rvalue(rvalue, copies, Ghost(mv));
            (Inst::Assign { dst, rvalue: r }, c)
        },
        Inst::Store { local, src } => {
            let (s, c) = subst_operand(src, copies, Ghost(mv));
            (Inst::Store { local, src: s }, c)
        },
        Inst::SetIndex { base, index, value } => {
            let (b, c1) = subst_operand(base, copies, Ghost(mv));
            let (i, c2) = subst_operand(index, copies, Ghost(mv));
            let (v, c3) = subst_operand(value, copies, Ghost(mv));
            (Inst::SetIndex { base: b, index: i, value: v }, c1 + c2 + c3)
        },
        Inst::Call { dst, callee, args, ret } => {
            let (a, c) = subst_operands(args, copies, Ghost(mv));
            (Inst::Call { dst, callee, args: a, ret }, c)
        },
    }
}

fn copy_one_block(blk: &mut Block, copies: &std::collections::HashMap<u32, Operand>, Ghost(mv): Ghost<Map<u32, OperandV>>) -> (count: usize)
    requires
        table_holds(copies@, mv),
    ensures
        blv(*final(blk)) == copy_block(blv(*old(blk)), mv),
        count == capped(subst_is(blv(*old(blk)).insts, blv(*old(blk)).insts.len(), mv).1 + subst_t(blv(*old(blk)).term, mv).1),
{
    let ghost is0 = blv(*blk).insts;
    let mut rest: Vec<Inst> = Vec::new();
    std::mem::swap(&mut rest, &mut blk.insts);
    let ghost orig = rest@;
    assert(orig.len() == rest.len());
    let mut out: Vec<Inst> = Vec::new();
    let mut count: usize = 0;
    let mut i: usize = 0;
    while rest.len() > 0
        invariant
            i <= orig.len() <= usize::MAX,
            rest@ == orig.skip(i as int),
            is0 == orig.map_values(|x: Inst| iv(x)),
            table_holds(copies@, mv),
            blk.term == old(blk).term,
            out@.map_values(|x: Inst| iv(x)) == subst_is(is0, i as nat, mv).0,
            count == capped(subst_is(is0, i as nat, mv).1),
        decreases rest@.len(),
    {
        let x = rest.remove(0);
        assert(x == orig[i as int]);
        assert(rest@ =~= orig.skip(i + 1));
        let (y, c) = subst_inst(x, copies, Ghost(mv));
        let ghost before = out@;
        out.push(y);
        proof {
            assert(out@.map_values(|x: Inst| iv(x)) =~= before.map_values(|x: Inst| iv(x)).push(iv(y)));
        }
        count = add_capped(count, c);
        i = i + 1;
    }
    blk.insts = out;
    let mut t = Terminator::Unreachable;
    std::mem::swap(&mut t, &mut blk.term);
    let (t2, c) = match t {
        Terminator::Branch { cond, then_bb, else_bb } => {
            let (o, c) = subst_operand(cond, copies, Ghost(mv));
            (Terminator::Branch { cond: o, then_bb, else_bb }, c)
        },
        Terminator::Return(o) => {
            let (o, c) = subst_operand(o, copies, Ghost(mv));
            (Terminator::Return(o), c)
        },
        other => (other, 0),
    };
    blk.term = t2;
    count = add_capped(count, c);
    count
}


// ---- control-flow simplification ----

/// The blocks a terminator may go to.
pub open spec fn succs_v(t: TermV) -> Seq<BlockId> {
    match t {
        TermV::Goto(b) => seq![b],
        TermV::Branch { then_bb, else_bb, .. } => seq![then_bb, else_bb],
        _ => Seq::empty(),
    }
}

/// A branch whose arms coincide becomes a jump.
pub open spec fn collapse_t(t: TermV) -> TermV {
    match t {
        TermV::Branch { then_bb, else_bb, .. } => if then_bb == else_bb {
            TermV::Goto(then_bb)
        } else {
            t
        },
        _ => t,
    }
}

/// Blocks with collapsed branches.
pub open spec fn collapsed(bs: Seq<BlockView>) -> Seq<BlockView> {
    bs.map_values(|b: BlockView| BlockView { insts: b.insts, term: collapse_t(b.term) })
}

/// Where a jump to `b` may go instead: past `b` when it is an empty block
/// that only jumps elsewhere.
pub open spec fn hop(bs: Seq<BlockView>, b: BlockId) -> BlockId {
    if (b.0 as int) < bs.len() && bs[b.0 as int].insts.len() == 0 && bs[b.0 as int].term is Goto
        && bs[b.0 as int].term->Goto_0 != b {
        bs[b.0 as int].term->Goto_0
    } else {
        b
    }
}

/// A terminator with each target moved one hop.
pub open spec fn redirect_t(bs: Seq<BlockView>, t: TermV) -> TermV {
    match t {
        TermV::Goto(b) => TermV::Goto(hop(bs, b)),
        TermV::Branch { cond, then_bb, else_bb } => TermV::Branch {
            cond,
            then_bb: hop(bs, then_bb),
            else_bb: hop(bs, else_bb),
        },
        _ => t,
    }
}

/// Blocks with every jump threaded one hop through empty blocks.
pub open spec fn threaded(bs: Seq<BlockView>) -> Seq<BlockView> {
    bs.map_values(|b: BlockView| BlockView { insts: b.insts, term: redirect_t(bs, b.term) })
}

/// Whether a set of block numbers is closed under jumps.
pub open spec fn closed(bs: Seq<BlockView>, s: Set<int>) -> bool {
    forall|i: int, k: int|
        #![trigger s.contains(i), succs_v(bs[i].term)[k]]
        s.contains(i) && 0 <= i < bs.len() && 0 <= k < succs_v(bs[i].term).len() ==> s.contains(
            succs_v(bs[i].term)[k].0 as int,
        )
}

/// Whether block `i` is reachable from `entry`: it lies in every set that
/// holds the entry and is closed under jumps.
pub open spec fn reachable(bs: Seq<BlockView>, entry: BlockId, i: int) -> bool {
    forall|s: Set<int>| #[trigger] closed(bs, s) && s.contains(entry.0 as int) ==> s.contains(i)
}

/// How many of the first `n` blocks are reachable.
pub open spec fn rank(bs: Seq<BlockView>, entry: BlockId, n: int) -> nat
    decreases n,
{
    if n <= 0 {
        0
    } else {
        rank(bs, entry, n - 1) + if reachable(bs, entry, n - 1) {
            1nat
        } else {
            0nat
        }
    }
}

/// A target renumbered for the reachable blocks alone.
pub open spec fn renumber_b(bs: Seq<BlockView>, entry: BlockId, b: BlockId) -> BlockId {
    if (b.0 as int) < bs.len() && reachable(bs, entry, b.0 as int) {
        BlockId(rank(bs, entry, b.0 as int) as u32)
    } else {
        b
    }
}

pub open spec fn renumber_t(bs: Seq<BlockView>, entry: BlockId, t: TermV) -> TermV {
    match t {
        TermV::Goto(b) => TermV::Goto(renumber_b(bs, entry, b)),
        TermV::Branch { cond, then_bb, else_bb } => TermV::Branch {
            cond,
            then_bb: renumber_b(bs, entry, then_bb),
            else_bb: renumber_b(bs, entry, else_bb),
        },
        _ => t,
    }
}

/// The reachable blocks among the first `n`, in order, renumbered.
pub open spec fn pruned(bs: Seq<BlockView>, entry: BlockId, n: nat) -> Seq<BlockView>
    decreases n,
{
    if n == 0 || n > bs.len() {
        Seq::empty()
    } else if reachable(bs, entry, n - 1) {
        pruned(bs, entry, (n - 1) as nat).push(
            BlockView { insts: bs[n - 1].insts, term: renumber_t(bs, entry, bs[n - 1].term) },
        )
    } else {
        pruned(bs, entry, (n - 1) as nat)
    }
}

/// Whether every jump of a list of blocks names one of them.
pub open spec fn targets_within(bs: Seq<BlockView>) -> bool {
    forall|i: int, k: int|
        0 <= i < bs.len() && 0 <= k < succs_v(bs[i].term).len() ==> (#[trigger] succs_v(bs[i].term)[k]).0 < bs.len()
}

proof fn lemma_rank_bound(bs: Seq<BlockView>, entry: BlockId, n: int)
    requires
        n >= 0,
    ensures
        rank(bs, entry, n) <= n,
    decreases n,
{
    if n > 0 {
        lemma_rank_bound(bs, entry, n - 1);
    }
}

proof fn lemma_rank_mono(bs: Seq<BlockView>, entry: BlockId, a: int, b: int)
    requires
        0 <= a <= b,
    ensures
        rank(bs, entry, a) <= rank(bs, entry, b),
        a < b && reachable(bs, entry, a) ==> rank(bs, entry, a) < rank(bs, entry, b),
    decreases b,
{
    if a < b {
        lemma_rank_mono(bs, entry, a, b - 1);
    }
}

/// How many of the first `n` marks are set.
pub open spec fn marked(m: Seq<bool>, n: int) -> nat
    decreases n,
{
    if n <= 0 || n > m.len() {
        0
    } else {
        marked(m, n - 1) + if m[n - 1] {
            1nat
        } else {
            0nat
        }
    }
}

proof fn lemma_marked_set(m: Seq<bool>, b: int, n: int)
    requires
        0 <= b < m.len(),
        0 <= n <= m.len(),
        !m[b],
    ensures
        marked(m.update(b, true), n) == marked(m, n) + if b < n { 1nat } else { 0nat },
        marked(m, n) <= n,
    decreases n,
{
    if n > 0 {
        lemma_marked_set(m, b, n - 1);
    }
}

/// Marks the blocks reachable from `entry`: [`reachable`].
fn reachable_marks(blocks: &Vec<Block>, entry: BlockId) -> (marks: Vec<bool>)
    requires
        (entry.0 as int) < blocks@.len(),
        targets_within(blocks_v(blocks@)),
    ensures
        marks@.len() == blocks@.len(),
        forall|i: int| 0 <= i < blocks@.len() ==> (marks@[i] <==> reachable(blocks_v(blocks@), entry, i)),
{
    let ghost bs = blocks_v(blocks@);
    let n = blocks.len();
    let mut marks: Vec<bool> = Vec::new();
    let mut q: usize = 0;
    while q < n
        invariant
            q <= n == blocks@.len(),
            marks@.len() == q,
            forall|p: int| 0 <= p < q ==> !marks@[p],
            marked(marks@, q as int) == 0,
        decreases n - q,
    {
        let ghost before = marks@;
        marks.push(false);
        proof {
            assert(marks@.drop_last() =~= before);
            assert(marked(marks@, q as int) == marked(before, q as int)) by {
                lemma_marked_prefix(before, marks@, q as int);
            }
        }
        q = q + 1;
    }
    let mut stack: Vec<u32> = Vec::new();
    stack.push(entry.0);
    assert(stack@[0] == entry.0);
    let mut count: usize = 0;
    while stack.len() > 0
        invariant
            n == blocks@.len(),
            bs == blocks_v(blocks@),
            targets_within(bs),
            (entry.0 as int) < n,
            marks@.len() == n,
            count == marked(marks@, n as int),
            count <= n,
            forall|k: int| 0 <= k < stack@.len() ==> (#[trigger] stack@[k]) < n,
            marks@[entry.0 as int] || stack@.contains(entry.0),
            forall|i: int, k: int|
                #![trigger marks@[i], succs_v(bs[i].term)[k]]
                0 <= i < n && marks@[i] && 0 <= k < succs_v(bs[i].term).len() ==> marks@[succs_v(bs[i].term)[k].0 as int]
                    || stack@.contains(succs_v(bs[i].term)[k].0),
            forall|s: Set<int>|
                #[trigger] closed(bs, s) && s.contains(entry.0 as int) ==> (forall|i: int|
                    0 <= i < n && #[trigger] marks@[i] ==> s.contains(i)) && (forall|k: int|
                    0 <= k < stack@.len() ==> s.contains(#[trigger] stack@[k] as int)),
        decreases n - count, stack@.len(),
    {
        let ghost st0 = stack@;
        let b = stack.pop().unwrap();
        proof {
            assert(st0 == stack@.push(b));
            assert(st0[st0.len() - 1] == b);
        }
        let bi = b as usize;
        if !marks[bi] {
            let ghost m0 = marks@;
            proof {
                lemma_marked_set(m0, bi as int, n as int);
            }
            marks.set(bi, true);
            proof {
                lemma_marked_bound(marks@, n as int);
            }
            count = count + 1;
            let succ = blocks[bi].term.successors();
            proof {
                assert(bs[bi as int].term == tv(blocks@[bi as int].term));
                assert(succ@ =~= succs_v(bs[bi as int].term));
            }
            let ghost st1 = stack@;
            let mut k: usize = 0;
            while k < succ.len()
                invariant
                    k <= succ@.len(),
                    bi < n == blocks@.len(),
                    bs == blocks_v(blocks@),
                    succ@ == succs_v(bs[bi as int].term),
                    stack@ == st1 + succ@.take(k as int).map_values(|x: BlockId| x.0),
                decreases succ@.len() - k,
            {
                stack.push(succ[k].0);
                proof {
                    assert(stack@ =~= st1 + succ@.take(k + 1).map_values(|x: BlockId| x.0));
                }
                k = k + 1;
            }
            proof {
                assert(succ@.take(k as int) =~= succ@);
                let added = succ@.map_values(|x: BlockId| x.0);
                assert(stack@ == st1 + added);
                assert forall|j: int| 0 <= j < stack@.len() implies (#[trigger] stack@[j]) < n by {
                    if j < st1.len() {
                        assert(stack@[j] == st1[j]);
                        assert(st1[j] == st0[j]);
                    } else {
                        assert(stack@[j] == succ@[j - st1.len()].0);
                    }
                }
                assert forall|x: u32| st0.contains(x) && x != b implies stack@.contains(x) by {
                    let j = choose|j: int| 0 <= j < st0.len() && st0[j] == x;
                    assert(stack@[j] == x);
                }
                assert forall|q2: int| 0 <= q2 < succ@.len() implies stack@.contains(#[trigger] succ@[q2].0) by {
                    assert(stack@[st1.len() + q2] == succ@[q2].0);
                }
                assert forall|i: int, k2: int|
                    #![trigger marks@[i], succs_v(bs[i].term)[k2]]
                    0 <= i < n && marks@[i] && 0 <= k2 < succs_v(bs[i].term).len() implies marks@[
                    succs_v(bs[i].term)[k2].0 as int] || stack@.contains(succs_v(bs[i].term)[k2].0) by {
                    if i == bi {
                        assert(stack@.contains(succ@[k2].0));
                    } else {
                        assert(m0[i]);
                        let t = succs_v(bs[i].term)[k2].0;
                        if !marks@[t as int] {
                            assert(m0[t as int] || st0.contains(t));
                            if t == b {
                                assert(marks@[bi as int]);
                            }
                        }
                    }
                }
                if !marks@[entry.0 as int] {
                    assert(st0.contains(entry.0));
                }
                assert forall|s: Set<int>|
                    #[trigger] closed(bs, s) && s.contains(entry.0 as int) implies (forall|i: int|
                        0 <= i < n && #[trigger] marks@[i] ==> s.contains(i)) && (forall|j: int|
                        0 <= j < stack@.len() ==> s.contains(#[trigger] stack@[j] as int)) by {
                    assert(s.contains(b as int)) by {
                        assert(st0[st0.len() - 1] == b);
                    }
                    assert forall|i: int| 0 <= i < n && #[trigger] marks@[i] implies s.contains(i) by {
                        if i != bi {
                            assert(m0[i]);
                        }
                    }
                    assert forall|j: int| 0 <= j < stack@.len() implies s.contains(#[trigger] stack@[j] as int) by {
                        if j < st1.len() {
                            assert(stack@[j] == st0[j]);
                        } else {
                            let q2 = j - st1.len();
                            assert(stack@[j] == succs_v(bs[bi as int].term)[q2].0);
                            assert(s.contains(bi as int));
                        }
                    }
                }
            }
        } else {
            proof {
                assert forall|x: u32| st0.contains(x) && x != b implies stack@.contains(x) by {
                    let j = choose|j: int| 0 <= j < st0.len() && st0[j] == x;
                    assert(stack@[j] == x);
                }
                assert forall|i: int, k2: int|
                    #![trigger marks@[i], succs_v(bs[i].term)[k2]]
                    0 <= i < n && marks@[i] && 0 <= k2 < succs_v(bs[i].term).len() implies marks@[
                    succs_v(bs[i].term)[k2].0 as int] || stack@.contains(succs_v(bs[i].term)[k2].0) by {
                    let t = succs_v(bs[i].term)[k2].0;
                    if !marks@[t as int] {
                        assert(st0.contains(t));
                    }
                }
                if !marks@[entry.0 as int] {
                    assert(st0.contains(entry.0));
                }
                assert forall|s: Set<int>|
                    #[trigger] closed(bs, s) && s.contains(entry.0 as int) implies (forall|j: int|
                        0 <= j < stack@.len() ==> s.contains(#[trigger] stack@[j] as int)) by {
                    assert forall|j: int| 0 <= j < stack@.len() implies s.contains(#[trigger] stack@[j] as int) by {
                        assert(stack@[j] == st0[j]);
                    }
                }
            }
        }
    }
    proof {
        let sm = Set::new(|i: int| 0 <= i < n && marks@[i]);
        assert(closed(bs, sm)) by {
            assert forall|i: int, k: int|
                #![trigger sm.contains(i), succs_v(bs[i].term)[k]]
                sm.contains(i) && 0 <= i < bs.len() && 0 <= k < succs_v(bs[i].term).len() implies sm.contains(
                succs_v(bs[i].term)[k].0 as int) by {
                assert(marks@[i]);
                assert(marks@[succs_v(bs[i].term)[k].0 as int]);
            }
        }
        assert(sm.contains(entry.0 as int));
        assert forall|i: int| 0 <= i < n implies (marks@[i] <==> reachable(bs, entry, i)) by {
            if reachable(bs, entry, i) {
                assert(sm.contains(i));
            }
        }
    }
    marks
}

proof fn lemma_marked_bound(m: Seq<bool>, n: int)
    requires
        0 <= n <= m.len(),
    ensures
        marked(m, n) <= n,
    decreases n,
{
    if n > 0 {
        lemma_marked_bound(m, n - 1);
    }
}

proof fn lemma_marked_prefix(a: Seq<bool>, b: Seq<bool>, n: int)
    requires
        0 <= n <= a.len(),
        n <= b.len(),
        forall|i: int| 0 <= i < n ==> a[i] == b[i],
    ensures
        marked(a, n) == marked(b, n),
    decreases n,
{
    if n > 0 {
        lemma_marked_prefix(a, b, n - 1);
    }
}

/// Whether every block of `bs` is reachable from `entry`.
pub open spec fn all_reachable(bs: Seq<BlockView>, entry: BlockId) -> bool {
    forall|i: int| 0 <= i < bs.len() ==> #[trigger] reachable(bs, entry, i)
}

/// Collapses branches whose arms coincide, threads every jump one hop
/// through empty blocks that only jump elsewhere ([`threaded`]), then drops
/// the blocks unreachable from the entry and renumbers the rest
/// ([`pruned`]). Returns the number of blocks removed.
pub fn simplify_cfg(func: &mut Function) -> (count: usize)
    requires
        (old(func).entry.0 as int) < old(func).blocks@.len(),
        targets_within(blocks_v(old(func).blocks@)),
        old(func).blocks@.len() <= u32::MAX,
    ensures
        final(func).name@ == old(func).name@,
        final(func).param_count == old(func).param_count,
        final(func).locals@ == old(func).locals@,
        final(func).reg_count == old(func).reg_count,
        targets_within(blocks_v(final(func).blocks@)),
        (final(func).entry.0 as int) < final(func).blocks@.len() <= old(func).blocks@.len(),
        ({
            let bs = threaded(collapsed(blocks_v(old(func).blocks@)));
            let e = old(func).entry;
            if all_reachable(bs, e) {
                &&& blocks_v(final(func).blocks@) == bs
                &&& final(func).entry == e
                &&& count == 0
            } else {
                &&& blocks_v(final(func).blocks@) == pruned(bs, e, bs.len())
                &&& final(func).entry == BlockId(rank(bs, e, e.0 as int) as u32)
                &&& count == bs.len() - rank(bs, e, bs.len() as int)
            }
        }),
{
    let ghost bs0 = blocks_v(func.blocks@);
    let n = func.blocks.len();
    // Collapse branches whose arms coincide.
    let mut k: usize = 0;
    while k < n
        invariant
            k <= n == func.blocks@.len() == old(func).blocks@.len(),
            same_frame(*old(func), *func),
            bs0 == blocks_v(old(func).blocks@),
            forall|j: int| 0 <= j < k ==> blv(#[trigger] func.blocks@[j]) == collapsed(bs0)[j],
            forall|j: int| k <= j < n ==> #[trigger] func.blocks@[j] == old(func).blocks@[j],
        decreases n - k,
    {
        let mut blk = Block { insts: Vec::new(), term: Terminator::Unreachable };
        func.blocks.set_and_swap(k, &mut blk);
        let same = match &blk.term {
            Terminator::Branch { then_bb, else_bb, .. } => if then_bb.0 == else_bb.0 {
                Some(*then_bb)
            } else {
                None
            },
            _ => None,
        };
        match same {
            Some(t) => {
                blk.term = Terminator::Goto(t);
            },
            None => {},
        }
        func.blocks.set_and_swap(k, &mut blk);
        k = k + 1;
    }
    let ghost bs1 = blocks_v(func.blocks@);
    proof {
        assert(bs1 =~= collapsed(bs0));
    }
    // Thread jumps through empty blocks that only jump elsewhere.
    let mut fwd: Vec<u32> = Vec::new();
    let mut k: usize = 0;
    while k < n
        invariant
            k <= n == func.blocks@.len() <= u32::MAX,
            bs1 == blocks_v(func.blocks@),
            fwd@.len() == k,
            forall|j: int| 0 <= j < k ==> BlockId(#[trigger] fwd@[j]) == hop(bs1, BlockId(j as u32)),
        decreases n - k,
    {
        let blk = &func.blocks[k];
        proof {
            assert(bs1[k as int] == blv(*blk));
        }
        let to = match &blk.term {
            Terminator::Goto(t) => if blk.insts.len() == 0 && t.0 != k as u32 {
                t.0
            } else {
                k as u32
            },
            _ => k as u32,
        };
        fwd.push(to);
        k = k + 1;
    }
    let mut k: usize = 0;
    while k < n
        invariant
            k <= n == func.blocks@.len() <= u32::MAX,
            same_frame(*old(func), *func),
            fwd@.len() == n,
            forall|j: int| 0 <= j < n ==> BlockId(#[trigger] fwd@[j]) == hop(bs1, BlockId(j as u32)),
            bs1.len() == n,
            forall|j: int| 0 <= j < k ==> blv(#[trigger] func.blocks@[j]) == threaded(bs1)[j],
            forall|j: int| k <= j < n ==> blv(#[trigger] func.blocks@[j]) == bs1[j],
        decreases n - k,
    {
        let mut blk = Block { insts: Vec::new(), term: Terminator::Unreachable };
        func.blocks.set_and_swap(k, &mut blk);
        let t = match &blk.term {
            Terminator::Goto(b) => Terminator::Goto(hop_with(&fwd, *b)),
            Terminator::Branch { cond, then_bb, else_bb } => Terminator::Branch {
                cond: copy_operand(cond),
                then_bb: hop_with(&fwd, *then_bb),
                else_bb: hop_with(&fwd, *else_bb),
            },
            Terminator::Return(o) => Terminator::Return(copy_operand(o)),
            Terminator::Unreachable => Terminator::Unreachable,
        };
        proof {
            assert(tv(t) == redirect_t(bs1, bs1[k as int].term));
        }
        blk.term = t;
        func.blocks.set_and_swap(k, &mut blk);
        k = k + 1;
    }
    let ghost bs2 = blocks_v(func.blocks@);
    proof {
        assert(bs2 =~= threaded(bs1));
        assert(targets_within(bs2)) by {
            assert forall|i: int, q: int|
                0 <= i < bs2.len() && 0 <= q < succs_v(bs2[i].term).len() implies (#[trigger] succs_v(
                bs2[i].term,
            )[q]).0 < bs2.len() by {
                assert(succs_v(bs0[i].term)[q].0 < bs0.len()) by {
                    if bs0[i].term is Branch {
                        assert(succs_v(bs0[i].term)[0].0 < bs0.len());
                        assert(succs_v(bs0[i].term)[1].0 < bs0.len());
                    }
                }
                let tgt = succs_v(bs1[i].term)[q];
                if bs0[i].term is Branch {
                    assert(succs_v(bs0[i].term)[0].0 < bs0.len());
                    assert(succs_v(bs0[i].term)[1].0 < bs0.len());
                }
                assert(tgt.0 < bs1.len());
                let h = hop(bs1, tgt);
                if h != tgt {
                    assert(succs_v(bs0[tgt.0 as int].term)[0].0 < bs0.len());
                }
            }
        }
    }
    // Drop the blocks unreachable from the entry.
    let marks = reachable_marks(&func.blocks, func.entry);
    let mut live: usize = 0;
    let mut newix: Vec<u32> = Vec::new();
    let mut k: usize = 0;
    while k < n
        invariant
            k <= n == func.blocks@.len() <= u32::MAX,
            bs2 == blocks_v(func.blocks@),
            marks@.len() == n,
            forall|i: int| 0 <= i < n ==> (marks@[i] <==> reachable(bs2, func.entry, i)),
            live == rank(bs2, func.entry, k as int),
            live <= k,
            newix@.len() == k,
            forall|j: int| 0 <= j < k ==> #[trigger] newix@[j] == rank(bs2, func.entry, j),
        decreases n - k,
    {
        newix.push(live as u32);
        if marks[k] {
            live = live + 1;
        }
        k = k + 1;
    }
    if live == n {
        proof {
            assert forall|i: int| 0 <= i < bs2.len() implies #[trigger] reachable(bs2, func.entry, i) by {
                if !reachable(bs2, func.entry, i) {
                    lemma_rank_step(bs2, func.entry, i + 1, n as int);
                    lemma_rank_bound(bs2, func.entry, i);
                }
            }
        }
        return 0;
    }
    let ghost e = func.entry;
    let mut rest: Vec<Block> = Vec::new();
    std::mem::swap(&mut rest, &mut func.blocks);
    let ghost orig = rest@;
    let mut out: Vec<Block> = Vec::new();
    let mut i: usize = 0;
    while rest.len() > 0
        invariant
            i <= n == orig.len() <= u32::MAX,
            rest@ == orig.skip(i as int),
            bs2 == blocks_v(orig),
            marks@.len() == n,
            newix@.len() == n,
            forall|j: int| 0 <= j < n ==> (marks@[j] <==> reachable(bs2, e, j)),
            forall|j: int| 0 <= j < n ==> #[trigger] newix@[j] == rank(bs2, e, j),
            blocks_v(out@) == pruned(bs2, e, i as nat),
            targets_within(bs2),
            (e.0 as int) < n,
            forall|j: int, q: int|
                0 <= j < out@.len() && 0 <= q < succs_v(blocks_v(out@)[j].term).len() ==> (#[trigger] succs_v(
                    blocks_v(out@)[j].term,
                )[q]).0 < rank(bs2, e, n as int),
            func.entry == e,
            func.name@ == old(func).name@,
            func.param_count == old(func).param_count,
            func.locals@ == old(func).locals@,
            func.reg_count == old(func).reg_count,
        decreases rest@.len(),
    {
        let mut blk = rest.remove(0);
        assert(blk == orig[i as int]);
        assert(rest@ =~= orig.skip(i + 1));
        if marks[i] {
            let t = match &blk.term {
                Terminator::Goto(b) => Terminator::Goto(renumber_with(&marks, &newix, *b)),
                Terminator::Branch { cond, then_bb, else_bb } => Terminator::Branch {
                    cond: copy_operand(cond),
                    then_bb: renumber_with(&marks, &newix, *then_bb),
                    else_bb: renumber_with(&marks, &newix, *else_bb),
                },
                Terminator::Return(o) => Terminator::Return(copy_operand(o)),
                Terminator::Unreachable => Terminator::Unreachable,
            };
            proof {
                assert(bs2[i as int] == blv(orig[i as int]));
                assert(tv(t) == renumber_t(bs2, e, bs2[i as int].term));
            }
            blk.term = t;
            let ghost before = out@;
            out.push(blk);
            proof {
                assert(blocks_v(out@) =~= blocks_v(before).push(blv(blk)));
                let src = bs2[i as int].term;
                assert forall|q: int| 0 <= q < succs_v(tv(t)).len() implies (#[trigger] succs_v(tv(t))[q]).0 < rank(
                    bs2,
                    e,
                    n as int,
                ) by {
                    let tg = succs_v(src)[q];
                    assert(tg.0 < n);
                    assert(reachable(bs2, e, tg.0 as int)) by {
                        assert forall|s2: Set<int>| #[trigger] closed(bs2, s2) && s2.contains(e.0 as int) implies s2.contains(
                            tg.0 as int,
                        ) by {
                            assert(s2.contains(i as int));
                            assert(succs_v(bs2[i as int].term)[q] == tg);
                        }
                    }
                    lemma_rank_mono(bs2, e, tg.0 as int, n as int);
                    lemma_rank_bound(bs2, e, tg.0 as int);
                }
                assert forall|j: int, q: int|
                    0 <= j < out@.len() && 0 <= q < succs_v(blocks_v(out@)[j].term).len() implies (#[trigger] succs_v(
                    blocks_v(out@)[j].term,
                )[q]).0 < rank(bs2, e, n as int) by {
                    if j < before.len() {
                        assert(blocks_v(out@)[j] == blocks_v(before)[j]);
                    }
                }
            }
        }
        i = i + 1;
    }
    proof {
        lemma_pruned_len(bs2, e, n as nat);
        if all_reachable(bs2, e) {
            lemma_rank_all(bs2, e, n as int);
        }
        assert(reachable(bs2, e, e.0 as int));
        lemma_rank_mono(bs2, e, e.0 as int, n as int);
        lemma_rank_bound(bs2, e, n as int);
    }
    func.blocks = out;
    func.entry = BlockId(newix[func.entry.0 as usize]);
    n - live
}

proof fn lemma_rank_step(bs: Seq<BlockView>, entry: BlockId, a: int, b: int)
    requires
        0 <= a <= b,
    ensures
        rank(bs, entry, b) <= rank(bs, entry, a) + (b - a),
    decreases b,
{
    if a < b {
        lemma_rank_step(bs, entry, a, b - 1);
    }
}

proof fn lemma_rank_all(bs: Seq<BlockView>, entry: BlockId, n: int)
    requires
        0 <= n <= bs.len(),
        all_reachable(bs, entry),
    ensures
        rank(bs, entry, n) == n,
    decreases n,
{
    if n > 0 {
        assert(reachable(bs, entry, n - 1));
        lemma_rank_all(bs, entry, n - 1);
    }
}

proof fn lemma_pruned_len(bs: Seq<BlockView>, entry: BlockId, n: nat)
    requires
        n <= bs.len(),
    ensures
        pruned(bs, entry, n).len() == rank(bs, entry, n as int),
    decreases n,
{
    if n > 0 {
        lemma_pruned_len(bs, entry, (n - 1) as nat);
    }
}

/// A target moved one hop through the forwarding table.
fn hop_with(fwd: &Vec<u32>, b: BlockId) -> (r: BlockId)
    ensures
        (b.0 as int) < fwd@.len() ==> r == BlockId(fwd@[b.0 as int]),
        (b.0 as int) >= fwd@.len() ==> r == b,
{
    if (b.0 as usize) < fwd.len() {
        BlockId(fwd[b.0 as usize])
    } else {
        b
    }
}

/// A target renumbered for the kept blocks.
fn renumber_with(marks: &Vec<bool>, newix: &Vec<u32>, b: BlockId) -> (r: BlockId)
    requires
        marks@.len() == newix@.len(),
    ensures
        (b.0 as int) < marks@.len() && marks@[b.0 as int] ==> r == BlockId(newix@[b.0 as int]),
        !((b.0 as int) < marks@.len() && marks@[b.0 as int]) ==> r == b,
{
    if (b.0 as usize) < marks.len() && marks[b.0 as usize] {
        BlockId(newix[b.0 as usize])
    } else {
        b
    }
}


// ---- the whole pipeline ----

/// Counts of rewrites, one per pass.
pub struct CountsV {
    pub folded: nat,
    pub simplified: nat,
    pub propagated: nat,
    pub cse: nat,
    pub dead_stores: nat,
    pub removed: nat,
    pub blocks_removed: nat,
}

pub open spec fn zero_counts() -> CountsV {
    CountsV { folded: 0, simplified: 0, propagated: 0, cse: 0, dead_stores: 0, removed: 0, blocks_removed: 0 }
}

pub open spec fn add_counts(a: CountsV, b: CountsV) -> CountsV {
    CountsV {
        folded: a.folded + b.folded,
        simplified: a.simplified + b.simplified,
        propagated: a.propagated + b.propagated,
        cse: a.cse + b.cse,
        dead_stores: a.dead_stores + b.dead_stores,
        removed: a.removed + b.removed,
        blocks_removed: a.blocks_removed + b.blocks_removed,
    }
}

pub open spec fn no_counts(c: CountsV) -> bool {
    c == zero_counts()
}

/// A function's graph as a value: its blocks and its entry.
pub struct GraphV {
    pub blocks: Seq<BlockView>,
    pub entry: BlockId,
}

/// What [`simplify_cfg`] makes of a graph, and how many blocks go.
pub open spec fn cfg_v(g: GraphV) -> (GraphV, nat) {
    let bs = threaded(collapsed(g.blocks));
    if all_reachable(bs, g.entry) {
        (GraphV { blocks: bs, entry: g.entry }, 0)
    } else {
        (
            GraphV { blocks: pruned(bs, g.entry, bs.len()), entry: BlockId(rank(bs, g.entry, g.entry.0 as int) as u32) },
            (bs.len() - rank(bs, g.entry, bs.len() as int)) as nat,
        )
    }
}

/// One round of every pass, in order: folding, algebraic laws, copy
/// propagation, reuse of computations, dead stores, dead code, and the
/// control-flow simplification; with each pass's count.
pub open spec fn round_v(g: GraphV) -> (GraphV, CountsV) {
    let b0 = g.blocks;
    let b1 = b0.map_values(|b: BlockView| fold_block(b));
    let b2 = b1.map_values(|b: BlockView| simplify_block(b));
    let m = copies_bs(b2, b2.len());
    let b3 = b2.map_values(|b: BlockView| copy_block(b, m));
    let b4 = b3.map_values(|b: BlockView| cse_block(b));
    let b5 = b4.map_values(|b: BlockView| dead_store_block(b));
    let u = used_regs_v(b5, b5.len());
    let b6 = b5.map_values(|b: BlockView| dce_block(b, u));
    let (g7, c7) = cfg_v(GraphV { blocks: b6, entry: g.entry });
    (
        g7,
        CountsV {
            folded: capped(fold_total(b0, b0.len())),
            simplified: capped(simplify_total(b1, b1.len())),
            propagated: capped(copy_total(b2, b2.len(), m)),
            cse: capped(cse_total(b3, b3.len())),
            dead_stores: capped(dead_store_total(b4, b4.len())),
            removed: capped(dce_total(b5, b5.len(), u)),
            blocks_removed: c7,
        },
    )
}

/// Up to `fuel` rounds, stopping after a round that changes nothing it
/// counts; with the summed counts.
pub open spec fn rounds_v(g: GraphV, fuel: nat) -> (GraphV, CountsV)
    decreases fuel,
{
    if fuel == 0 {
        (g, zero_counts())
    } else {
        let (g1, c1) = round_v(g);
        if no_counts(c1) {
            (g1, c1)
        } else {
            let (g2, c2) = rounds_v(g1, (fuel - 1) as nat);
            (g2, add_counts(c1, c2))
        }
    }
}

/// The graph of a function.
pub open spec fn graph_of(f: Function) -> GraphV {
    GraphV { blocks: blocks_v(f.blocks@), entry: f.entry }
}

/// Whether a graph can be optimized: its entry is one of its blocks, every
/// jump names one of them, and the blocks can be numbered in 32 bits.
pub open spec fn graph_ok(g: GraphV) -> bool {
    &&& (g.entry.0 as int) < g.blocks.len()
    &&& targets_within(g.blocks)
    &&& g.blocks.len() <= u32::MAX
}

/// The counts over the first `n` functions.
pub open spec fn program_counts(fs: Seq<Function>, n: nat) -> CountsV
    decreases n,
{
    if n == 0 || n > fs.len() {
        zero_counts()
    } else {
        add_counts(program_counts(fs, (n - 1) as nat), rounds_v(graph_of(fs[n - 1]), 8).1)
    }
}

/// Whether the statistics are the counts, each held at `usize::MAX`.
pub open spec fn stats_are(s: MirStats, c: CountsV) -> bool {
    &&& s.folded == capped(c.folded)
    &&& s.simplified == capped(c.simplified)
    &&& s.propagated == capped(c.propagated)
    &&& s.cse == capped(c.cse)
    &&& s.dead_stores == capped(c.dead_stores)
    &&& s.removed == capped(c.removed)
    &&& s.blocks_removed == capped(c.blocks_removed)
}

/// One round keeps a graph well formed.
pub proof fn lemma_round_ok(g: GraphV)
    requires
        graph_ok(g),
    ensures
        graph_ok(round_v(g).0),
{
    let b0 = g.blocks;
    let b1 = b0.map_values(|b: BlockView| fold_block(b));
    let b2 = b1.map_values(|b: BlockView| simplify_block(b));
    let m = copies_bs(b2, b2.len());
    let b3 = b2.map_values(|b: BlockView| copy_block(b, m));
    let b4 = b3.map_values(|b: BlockView| cse_block(b));
    let b5 = b4.map_values(|b: BlockView| dead_store_block(b));
    let u = used_regs_v(b5, b5.len());
    let b6 = b5.map_values(|b: BlockView| dce_block(b, u));
    assert forall|i: int, q: int| 0 <= i < b6.len() && 0 <= q < succs_v(b6[i].term).len() implies (#[trigger] succs_v(
        b6[i].term,
    )[q]).0 < b6.len() by {
        assert(b6[i].term == b5[i].term);
        assert(b5[i].term == b4[i].term);
        assert(b4[i].term == b3[i].term);
        assert(succs_v(b3[i].term) == succs_v(b2[i].term));
        assert(b2[i].term == b1[i].term);
        let t0 = b0[i].term;
        if t0 is Branch {
            assert(succs_v(t0)[0].0 < b0.len());
            assert(succs_v(t0)[1].0 < b0.len());
        } else {
            assert(succs_v(b1[i].term) == succs_v(t0));
        }
    }
    let bs = threaded(collapsed(b6));
    assert forall|i: int, q: int| 0 <= i < bs.len() && 0 <= q < succs_v(bs[i].term).len() implies (#[trigger] succs_v(
        bs[i].term,
    )[q]).0 < bs.len() by {
        let c = collapsed(b6);
        if b6[i].term is Branch {
            assert(succs_v(b6[i].term)[0].0 < b6.len());
            assert(succs_v(b6[i].term)[1].0 < b6.len());
        }
        let tgt = succs_v(c[i].term)[q];
        assert(tgt.0 < c.len());
        if hop(c, tgt) != tgt {
            assert(succs_v(b6[tgt.0 as int].term)[0].0 < b6.len());
        }
    }
    if !all_reachable(bs, g.entry) {
        let e = g.entry;
        let n = bs.len();
        lemma_pruned_targets(bs, e, n);
        lemma_pruned_len(bs, e, n);
        assert(reachable(bs, e, e.0 as int));
        lemma_rank_mono(bs, e, e.0 as int, n as int);
        lemma_rank_bound(bs, e, n as int);
    }
}

proof fn lemma_pruned_targets(bs: Seq<BlockView>, e: BlockId, n: nat)
    requires
        n <= bs.len(),
        targets_within(bs),
    ensures
        forall|j: int, q: int|
            0 <= j < pruned(bs, e, n).len() && 0 <= q < succs_v(pruned(bs, e, n)[j].term).len() ==> (#[trigger] succs_v(
                pruned(bs, e, n)[j].term,
            )[q]).0 < rank(bs, e, bs.len() as int),
    decreases n,
{
    if n > 0 {
        lemma_pruned_targets(bs, e, (n - 1) as nat);
        let i = n - 1;
        if reachable(bs, e, i) {
            let p0 = pruned(bs, e, (n - 1) as nat);
            let t = renumber_t(bs, e, bs[i].term);
            assert forall|j: int, q: int|
                0 <= j < pruned(bs, e, n).len() && 0 <= q < succs_v(pruned(bs, e, n)[j].term).len() implies (#[trigger] succs_v(
                pruned(bs, e, n)[j].term,
            )[q]).0 < rank(bs, e, bs.len() as int) by {
                if j < p0.len() {
                    assert(pruned(bs, e, n)[j] == p0[j]);
                } else {
                    let tg = succs_v(bs[i].term)[q];
                    assert(tg.0 < bs.len());
                    assert(reachable(bs, e, tg.0 as int)) by {
                        assert forall|s2: Set<int>| #[trigger] closed(bs, s2) && s2.contains(e.0 as int) implies s2.contains(
                            tg.0 as int,
                        ) by {
                            assert(s2.contains(i));
                            assert(succs_v(bs[i].term)[q] == tg);
                        }
                    }
                    lemma_rank_mono(bs, e, tg.0 as int, bs.len() as int);
                    lemma_rank_bound(bs, e, tg.0 as int);
                }
            }
        }
    }
}

/// Optimization keeps a graph well formed: after any number of rounds the
/// entry is still one of the blocks, every jump still names one of them,
/// and there are no more blocks than before.
pub proof fn lemma_rounds_ok(g: GraphV, fuel: nat)
    requires
        graph_ok(g),
    ensures
        graph_ok(rounds_v(g, fuel).0),
    decreases fuel,
{
    if fuel > 0 {
        lemma_round_ok(g);
        lemma_rounds_ok(round_v(g).0, (fuel - 1) as nat);
    }
}

/// One round of every pass on a function: [`round_v`].
fn round(func: &mut Function) -> (c: MirStats)
    requires
        graph_ok(graph_of(*old(func))),
    ensures
        graph_of(*final(func)) == round_v(graph_of(*old(func))).0,
        stats_are(c, round_v(graph_of(*old(func))).1),
        final(func).name@ == old(func).name@,
        final(func).param_count == old(func).param_count,
        final(func).locals@ == old(func).locals@,
        final(func).reg_count == old(func).reg_count,
{
    proof {
        lemma_round_ok(graph_of(*func));
    }
    let folded = const_fold(func);
    let simplified = algebraic_simplify(func);
    let propagated = copy_propagation(func);
    let cse = local_cse(func);
    let dead_stores = dead_store(func);
    let removed = dead_code(func);
    proof {
        let g = graph_of(*old(func));
        let b0 = g.blocks;
        let b1 = b0.map_values(|b: BlockView| fold_block(b));
        let b2 = b1.map_values(|b: BlockView| simplify_block(b));
        let m = copies_bs(b2, b2.len());
        let b3 = b2.map_values(|b: BlockView| copy_block(b, m));
        let b4 = b3.map_values(|b: BlockView| cse_block(b));
        let b5 = b4.map_values(|b: BlockView| dead_store_block(b));
        let u = used_regs_v(b5, b5.len());
        let b6 = b5.map_values(|b: BlockView| dce_block(b, u));
        assert(blocks_v(func.blocks@) == b6);
        assert(func.entry == g.entry);
        // The jumps are those of the input, one branch possibly narrowed.
        assert forall|i: int, q: int| 0 <= i < b6.len() && 0 <= q < succs_v(b6[i].term).len() implies (#[trigger] succs_v(
            b6[i].term,
        )[q]).0 < b6.len() by {
            assert(b6[i].term == b5[i].term);
            assert(b5[i].term == b4[i].term);
            assert(b4[i].term == b3[i].term);
            assert(succs_v(b3[i].term) == succs_v(b2[i].term));
            assert(b2[i].term == b1[i].term);
            let t0 = b0[i].term;
            if t0 is Branch {
                assert(succs_v(t0)[0].0 < b0.len());
                assert(succs_v(t0)[1].0 < b0.len());
            } else {
                assert(succs_v(b1[i].term) == succs_v(t0));
            }
        }
    }
    let blocks_removed = simplify_cfg(func);
    MirStats { folded, simplified, propagated, cse, dead_stores, removed, blocks_removed }
}

/// Adds statistics, each sum held at `usize::MAX`.
fn add_stats(a: MirStats, b: MirStats) -> (r: MirStats)
    ensures
        forall|x: CountsV, y: CountsV| stats_are(a, x) && stats_are(b, y) ==> #[trigger] stats_are(r, add_counts(x, y)),
{
    MirStats {
        folded: add_capped(a.folded, b.folded),
        simplified: add_capped(a.simplified, b.simplified),
        propagated: add_capped(a.propagated, b.propagated),
        cse: add_capped(a.cse, b.cse),
        dead_stores: add_capped(a.dead_stores, b.dead_stores),
        removed: add_capped(a.removed, b.removed),
        blocks_removed: add_capped(a.blocks_removed, b.blocks_removed),
    }
}

/// Optimizes every function: up to eight rounds of every pass
/// ([`rounds_v`]), stopping after a round that changes nothing it counts.
/// Each function's graph must be one that [`graph_ok`] accepts, as the
/// lowering builds. Returns the counts summed over all functions, each held
/// at `usize::MAX`.
pub fn optimize(program: &mut Program) -> (stats: MirStats)
    requires
        forall|i: int| 0 <= i < old(program).functions@.len() ==> graph_ok(graph_of(#[trigger] old(program).functions@[i])),
    ensures
        final(program).main == old(program).main,
        final(program).functions@.len() == old(program).functions@.len(),
        forall|i: int|
            0 <= i < final(program).functions@.len() ==> graph_of(#[trigger] final(program).functions@[i]) == rounds_v(
                graph_of(old(program).functions@[i]),
                8,
            ).0 && final(program).functions@[i].name@ == old(program).functions@[i].name@
                && final(program).functions@[i].param_count == old(program).functions@[i].param_count
                && final(program).functions@[i].locals@ == old(program).functions@[i].locals@,
        stats_are(stats, program_counts(old(program).functions@, old(program).functions@.len())),
{
    let ghost fs0 = program.functions@;
    let mut stats = MirStats { folded: 0, simplified: 0, propagated: 0, cse: 0, dead_stores: 0, removed: 0, blocks_removed: 0 };
    let mut k: usize = 0;
    while k < program.functions.len()
        invariant
            k <= program.functions@.len() == fs0.len(),
            fs0 == old(program).functions@,
            program.main == old(program).main,
            forall|i: int| 0 <= i < fs0.len() ==> graph_ok(graph_of(#[trigger] fs0[i])),
            forall|j: int|
                0 <= j < k ==> graph_of(#[trigger] program.functions@[j]) == rounds_v(graph_of(fs0[j]), 8).0
                    && program.functions@[j].name@ == fs0[j].name@ && program.functions@[j].param_count
                    == fs0[j].param_count && program.functions@[j].locals@ == fs0[j].locals@,
            forall|j: int| k <= j < fs0.len() ==> #[trigger] program.functions@[j] == fs0[j],
            stats_are(stats, program_counts(fs0, k as nat)),
        decreases fs0.len() - k,
    {
        let mut f = Function {
            name: String::new(),
            param_count: 0,
            locals: Vec::new(),
            reg_count: 0,
            blocks: Vec::new(),
            entry: BlockId(0),
        };
        program.functions.set_and_swap(k, &mut f);
        let ghost f0 = f;
        let mut total = MirStats { folded: 0, simplified: 0, propagated: 0, cse: 0, dead_stores: 0, removed: 0, blocks_removed: 0 };
        let ghost mut acc = zero_counts();
        let mut r: usize = 0;
        let mut stop = false;
        proof {
            assert(f0 == fs0[k as int]);
        }
        while r < 8 && !stop
            invariant
                r <= 8,
                graph_ok(graph_of(f)),
                stats_are(total, acc),
                stop ==> rounds_v(graph_of(f0), 8) == (graph_of(f), acc),
                !stop ==> rounds_v(graph_of(f0), 8) == (
                    rounds_v(graph_of(f), (8 - r) as nat).0,
                    add_counts(acc, rounds_v(graph_of(f), (8 - r) as nat).1),
                ),
                f.name@ == f0.name@,
                f.param_count == f0.param_count,
                f.locals@ == f0.locals@,
            decreases 8 - r,
        {
            let ghost g = graph_of(f);
            let ghost acc0 = acc;
            let c = round(&mut f);
            proof {
                lemma_round_ok(g);
                acc = add_counts(acc0, round_v(g).1);
            }
            let t2 = add_stats(total, c);
            proof {
                assert(stats_are(t2, add_counts(acc0, round_v(g).1)));
            }
            total = t2;
            if c.folded == 0 && c.simplified == 0 && c.propagated == 0 && c.cse == 0 && c.dead_stores == 0
                && c.removed == 0 && c.blocks_removed == 0 {
                stop = true;
                proof {
                    assert(no_counts(round_v(g).1));
                    assert(add_counts(acc0, round_v(g).1) == acc);
                }
            } else {
                proof {
                    assert(!no_counts(round_v(g).1));
                    let rest = rounds_v(graph_of(f), (8 - r - 1) as nat);
                    assert(rounds_v(g, (8 - r) as nat) == (rest.0, add_counts(round_v(g).1, rest.1)));
                    assert(add_counts(acc0, add_counts(round_v(g).1, rest.1)) == add_counts(acc, rest.1));
                }
            }
            r = r + 1;
        }
        proof {
            if !stop {
                assert(add_counts(acc, zero_counts()) == acc);
            }
        }
        let s2 = add_stats(stats, total);
        proof {
            assert(stats_are(s2, add_counts(program_counts(fs0, k as nat), acc)));
        }
        stats = s2;
        program.functions.set_and_swap(k, &mut f);
        k = k + 1;
    }
    stats
}

/// Neither dead-code nor dead-store removal ever drops a call or an
/// indexed store: every such instruction of a block is still there after
/// either pass.
pub proof fn lemma_effects_survive(is: Seq<InstV>, used: Set<u32>, i: int)
    requires
        0 <= i < is.len(),
        is[i] is Call || is[i] is SetIndex,
    ensures
        kept_insts(is, is.len(), used).contains(is[i]),
        live_insts(is, is.len()).contains(is[i]),
{
    lemma_kept_contains(is, is.len(), used, i);
    lemma_live_contains(is, is.len(), i);
}

proof fn lemma_kept_contains(is: Seq<InstV>, n: nat, used: Set<u32>, i: int)
    requires
        0 <= i < n <= is.len(),
        keep_inst(is[i], used),
    ensures
        kept_insts(is, n, used).contains(is[i]),
    decreases n,
{
    let k = kept_insts(is, (n - 1) as nat, used);
    if i < n - 1 {
        lemma_kept_contains(is, (n - 1) as nat, used, i);
        if keep_inst(is[n - 1], used) {
            let j = choose|j: int| 0 <= j < k.len() && k[j] == is[i];
            assert(k.push(is[n - 1])[j] == is[i]);
        }
    } else {
        assert(k.push(is[i])[k.len() as int] == is[i]);
    }
}

proof fn lemma_live_contains(is: Seq<InstV>, n: nat, i: int)
    requires
        0 <= i < n <= is.len(),
        !(is[i] is Store),
    ensures
        live_insts(is, n).contains(is[i]),
    decreases n,
{
    let k = live_insts(is, (n - 1) as nat);
    if i < n - 1 {
        lemma_live_contains(is, (n - 1) as nat, i);
        if !overwritten(is, n - 1, is.len() as int) {
            let j = choose|j: int| 0 <= j < k.len() && k[j] == is[i];
            assert(k.push(is[n - 1])[j] == is[i]);
        }
    } else {
        assert(!overwritten(is, i, is.len() as int));
        assert(k.push(is[i])[k.len() as int] == is[i]);
    }
}

proof fn lemma_pruned_at(bs: Seq<BlockView>, e: BlockId, n: nat, i: int)
    requires
        0 <= i < n <= bs.len(),
        reachable(bs, e, i),
    ensures
        rank(bs, e, i) < pruned(bs, e, n).len(),
        pruned(bs, e, n)[rank(bs, e, i) as int] == (BlockView {
            insts: bs[i].insts,
            term: renumber_t(bs, e, bs[i].term),
        }),
    decreases n,
{
    lemma_pruned_len(bs, e, n);
    lemma_pruned_len(bs, e, (n - 1) as nat);
    if i < n - 1 {
        lemma_pruned_at(bs, e, (n - 1) as nat, i);
    }
}

proof fn lemma_pruned_index(bs: Seq<BlockView>, e: BlockId, n: nat, j: int)
    requires
        n <= bs.len(),
        0 <= j < rank(bs, e, n as int),
    ensures
        exists|i: int| 0 <= i < n && reachable(bs, e, i) && rank(bs, e, i) == j,
    decreases n,
{
    if n > 0 {
        if j < rank(bs, e, n - 1) {
            lemma_pruned_index(bs, e, (n - 1) as nat, j);
            let i = choose|i: int| 0 <= i < n - 1 && reachable(bs, e, i) && rank(bs, e, i) == j;
            assert(0 <= i < n && reachable(bs, e, i) && rank(bs, e, i) == j);
        } else {
            assert(reachable(bs, e, n - 1) && rank(bs, e, n - 1) == j);
        }
    }
}

/// After [`simplify_cfg`] every block is reachable from the entry.
pub proof fn lemma_cfg_all_reachable(g: GraphV)
    requires
        graph_ok(g),
    ensures
        all_reachable(cfg_v(g).0.blocks, cfg_v(g).0.entry),
{
    let bs = threaded(collapsed(g.blocks));
    let e = g.entry;
    let n = bs.len();
    if !all_reachable(bs, e) {
        let nb = pruned(bs, e, n);
        let ne = BlockId(rank(bs, e, e.0 as int) as u32);
        lemma_pruned_len(bs, e, n);
        lemma_rank_bound(bs, e, n as int);
        assert(targets_within(bs)) by {
            lemma_threaded_ok(g.blocks);
        }
        assert forall|j: int| 0 <= j < nb.len() implies #[trigger] reachable(nb, ne, j) by {
            assert forall|s2: Set<int>| #[trigger] closed(nb, s2) && s2.contains(ne.0 as int) implies s2.contains(j) by {
                let s1 = Set::new(|i: int| 0 <= i < n && reachable(bs, e, i) && s2.contains(rank(bs, e, i) as int));
                assert(reachable(bs, e, e.0 as int));
                lemma_rank_mono(bs, e, e.0 as int, n as int);
                assert(s1.contains(e.0 as int));
                assert(closed(bs, s1)) by {
                    assert forall|i: int, k: int|
                        #![trigger s1.contains(i), succs_v(bs[i].term)[k]]
                        s1.contains(i) && 0 <= i < bs.len() && 0 <= k < succs_v(bs[i].term).len() implies s1.contains(
                        succs_v(bs[i].term)[k].0 as int) by {
                        let t = succs_v(bs[i].term)[k];
                        assert(t.0 < n);
                        assert(reachable(bs, e, t.0 as int)) by {
                            assert forall|s3: Set<int>| #[trigger] closed(bs, s3) && s3.contains(e.0 as int) implies s3.contains(
                                t.0 as int,
                            ) by {
                                assert(s3.contains(i));
                            }
                        }
                        lemma_pruned_at(bs, e, n, i);
                        let r = rank(bs, e, i) as int;
                        assert(nb[r].term == renumber_t(bs, e, bs[i].term));
                        assert(succs_v(nb[r].term)[k] == BlockId(rank(bs, e, t.0 as int) as u32));
                        lemma_rank_mono(bs, e, t.0 as int, n as int);
                        assert(s2.contains(r));
                        assert(s2.contains(succs_v(nb[r].term)[k].0 as int));
                    }
                }
                lemma_pruned_index(bs, e, n, j);
                let i = choose|i: int| 0 <= i < n && reachable(bs, e, i) && rank(bs, e, i) == j;
                assert(s1.contains(i));
            }
        }
    }
}

proof fn lemma_threaded_ok(b6: Seq<BlockView>)
    requires
        targets_within(b6),
    ensures
        targets_within(threaded(collapsed(b6))),
{
    let bs = threaded(collapsed(b6));
    assert forall|i: int, q: int| 0 <= i < bs.len() && 0 <= q < succs_v(bs[i].term).len() implies (#[trigger] succs_v(
        bs[i].term,
    )[q]).0 < bs.len() by {
        let c = collapsed(b6);
        if b6[i].term is Branch {
            assert(succs_v(b6[i].term)[0].0 < b6.len());
            assert(succs_v(b6[i].term)[1].0 < b6.len());
        }
        let tgt = succs_v(c[i].term)[q];
        assert(tgt.0 < c.len());
        if hop(c, tgt) != tgt {
            assert(succs_v(b6[tgt.0 as int].term)[0].0 < b6.len());
        }
    }
}

} // verus!
