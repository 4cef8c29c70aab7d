//! Code generation: HIR → bytecode [`Program`].
//!
//! Every expression compiles to a sequence of instructions that net-pushes
//! exactly one value; every statement net-pushes zero. A block evaluates its
//! statements and then its tail (or a `unit`) for the block's value; an `if`
//! arranges for both arms to leave one value; a call pushes its arguments
//! then a result.
//!
//! Because HIR is typed, operator instructions are chosen monomorphically
//! from the operand type. Jumps are emitted with a placeholder target and
//! backpatched once the destination index is known; a `break` or `continue`
//! outside any loop (which the checker rejects) keeps the placeholder.

use vstd::prelude::*;

use crate::arith::{div_faults, trunc_div_rem, wraps_to};
use crate::backend::bytecode::{Chunk, Op, Program};
use crate::backend::machine::{at_int_pair, float_op, lemma_int_instructions, next_op, pushes, spec_step, ActionV, HostOpV, StateV, Val};
use crate::backend::vm::VmError;
use crate::hir::{
    block_slots_below, expr_slots_below, exprs_slots_below, function_wf, kind_slots_below, slot_bound,
    stmt_slots_below, stmts_slots_below, BinOp, Block, Callee, Expr, ExprKind, Function, Hir, LocalId, Stmt, UnOp,
};
use crate::sema::types::{Builtin, Type};
use crate::text::str_eq;

verus! {

/// The placeholder target of a jump not yet patched.
pub const UNPATCHED: usize = usize::MAX;

/// Whether an instruction is a jump.
pub open spec fn is_jump(op: Op) -> bool {
    op is Jump || op is JumpIfFalse
}

/// Whether `b` is `a` with at most its jump target changed.
pub open spec fn same_shape(a: Op, b: Op) -> bool {
    &&& a is Jump <==> b is Jump
    &&& a is JumpIfFalse <==> b is JumpIfFalse
    &&& !is_jump(a) ==> a == b
}

/// Whether an instruction's operands are in range: a string constant in a
/// pool of `n_consts`, a local slot below `slots`, a jump target no further
/// than `len` (or the placeholder).
pub open spec fn op_in_range(op: Op, len: nat, n_consts: nat, slots: nat) -> bool {
    match op {
        Op::PushStr(k) => k < n_consts,
        Op::LoadLocal(s) => s < slots,
        Op::StoreLocal(s) => s < slots,
        Op::Jump(t) => t <= len || t == UNPATCHED,
        Op::JumpIfFalse(t) => t <= len || t == UNPATCHED,
        _ => true,
    }
}

/// No string appears twice in a constant pool.
pub open spec fn distinct_strings(consts: Seq<String>) -> bool {
    forall|i: int, j: int| 0 <= i < j < consts.len() ==> consts[i]@ != consts[j]@
}

/// The unresolved jumps of one enclosing loop.
struct LoopCtx {
    /// `break` jumps, patched to the instruction after the loop.
    break_jumps: Vec<usize>,
    /// `continue` jumps, patched to the loop's continuation point.
    continue_jumps: Vec<usize>,
}

struct FnCompiler {
    code: Vec<Op>,
    consts: Vec<String>,
    /// Enclosing loops; the innermost is last.
    loops: Vec<LoopCtx>,
}

/// Whether every index in `jumps` names a `Jump` of `code`.
pub open spec fn all_jumps(jumps: Seq<usize>, code: Seq<Op>) -> bool {
    forall|k: int| 0 <= k < jumps.len() ==> #[trigger] jumps[k] < code.len() && code[jumps[k] as int] is Jump
}

impl FnCompiler {
    /// The code so far is in range for `slots` local slots, the pool holds
    /// no duplicates, and every recorded loop jump is a `Jump`.
    spec fn inv(&self, slots: nat) -> bool {
        &&& forall|i: int|
            0 <= i < self.code@.len() ==> #[trigger] op_in_range(
                self.code@[i],
                self.code@.len(),
                self.consts@.len(),
                slots,
            )
        &&& distinct_strings(self.consts@)
        &&& forall|l: int|
            0 <= l < self.loops@.len() ==> all_jumps((#[trigger] self.loops@[l]).break_jumps@, self.code@)
                && all_jumps(self.loops@[l].continue_jumps@, self.code@)
    }

    /// Code is only appended or has jump targets patched, the pool only
    /// grows, and the loops keep their depth with their jump lists grown.
    spec fn kept(&self, before: &FnCompiler) -> bool {
        &&& before.code@.len() <= self.code@.len()
        &&& forall|i: int| 0 <= i < before.code@.len() ==> same_shape(before.code@[i], #[trigger] self.code@[i])
        &&& before.consts@.len() <= self.consts@.len()
        &&& forall|i: int| 0 <= i < before.consts@.len() ==> #[trigger] self.consts@[i] == before.consts@[i]
        &&& self.loops@.len() == before.loops@.len()
        &&& forall|l: int|
            0 <= l < self.loops@.len() ==> before.loops@[l].break_jumps@.len() <= (
            #[trigger] self.loops@[l]).break_jumps@.len() && before.loops@[l].continue_jumps@.len()
                <= self.loops@[l].continue_jumps@.len()
    }

    proof fn lemma_kept_trans(a: &FnCompiler, b: &FnCompiler, c: &FnCompiler)
        requires
            b.kept(a),
            c.kept(b),
        ensures
            c.kept(a),
    {
        assert forall|i: int| 0 <= i < a.code@.len() implies same_shape(a.code@[i], #[trigger] c.code@[i]) by {
            assert(same_shape(a.code@[i], b.code@[i]));
            assert(same_shape(b.code@[i], c.code@[i]));
        }
        assert forall|i: int| 0 <= i < a.consts@.len() implies #[trigger] c.consts@[i] == a.consts@[i] by {
            assert(b.consts@[i] == a.consts@[i]);
        }
        assert forall|l: int| 0 <= l < c.loops@.len() implies a.loops@[l].break_jumps@.len() <= (
        #[trigger] c.loops@[l]).break_jumps@.len() && a.loops@[l].continue_jumps@.len()
            <= c.loops@[l].continue_jumps@.len() by {
            assert(b.loops@[l].break_jumps@.len() <= c.loops@[l].break_jumps@.len());
        }
    }

    /// Appends an instruction, returning its index.
    fn emit(&mut self, op: Op, Ghost(slots): Ghost<nat>) -> (idx: usize)
        requires
            old(self).inv(slots),
            op_in_range(op, old(self).code@.len() + 1, old(self).consts@.len(), slots),
        ensures
            final(self).inv(slots),
            final(self).kept(old(self)),
            final(self).code@ == old(self).code@.push(op),
            final(self).consts == old(self).consts,
            final(self).loops == old(self).loops,
            idx == old(self).code@.len(),
    {
        let ghost before = *self;
        self.code.push(op);
        proof {
            assert forall|i: int| 0 <= i < self.code@.len() implies #[trigger] op_in_range(
                self.code@[i],
                self.code@.len(),
                self.consts@.len(),
                slots,
            ) by {
                if i < before.code@.len() {
                    assert(op_in_range(before.code@[i], before.code@.len(), before.consts@.len(), slots));
                }
            }
            assert forall|l: int| 0 <= l < self.loops@.len() implies all_jumps(
                (#[trigger] self.loops@[l]).break_jumps@,
                self.code@,
            ) && all_jumps(self.loops@[l].continue_jumps@, self.code@) by {
                assert(all_jumps(before.loops@[l].break_jumps@, before.code@));
                assert(all_jumps(before.loops@[l].continue_jumps@, before.code@));
            }
            assert forall|i: int| 0 <= i < before.code@.len() implies same_shape(
                before.code@[i],
                #[trigger] self.code@[i],
            ) by {
                assert(self.code@[i] == before.code@[i]);
            }
        }
        self.code.len() - 1
    }

    /// Interns a string constant and returns its pool index.
    fn intern(&mut self, s: &str, Ghost(slots): Ghost<nat>) -> (idx: u32)
        requires
            old(self).inv(slots),
        ensures
            final(self).inv(slots),
            final(self).kept(old(self)),
            final(self).code == old(self).code,
            final(self).loops == old(self).loops,
            idx < final(self).consts@.len(),
            final(self).consts@.len() <= u32::MAX ==> final(self).consts@[idx as int]@ == s@,
    {
        let mut i: usize = 0;
        while i < self.consts.len()
            invariant
                i <= self.consts@.len(),
                forall|k: int| 0 <= k < i ==> self.consts@[k]@ != s@,
                self.inv(slots),
                self.code == old(self).code,
                self.consts == old(self).consts,
                self.loops == old(self).loops,
            decreases self.consts@.len() - i,
        {
            if str_eq(self.consts[i].as_str(), s) {
                return i as u32;
            }
            i = i + 1;
        }
        let ghost before = *self;
        self.consts.push(s.to_owned());
        proof {
            assert forall|i: int| 0 <= i < self.code@.len() implies #[trigger] op_in_range(
                self.code@[i],
                self.code@.len(),
                self.consts@.len(),
                slots,
            ) by {
                assert(op_in_range(before.code@[i], before.code@.len(), before.consts@.len(), slots));
            }
            assert forall|a: int, b: int| 0 <= a < b < self.consts@.len() implies self.consts@[a]@ != self.consts@[b]@ by {
                if b < before.consts@.len() {
                    assert(before.consts@[a]@ != before.consts@[b]@);
                }
            }
        }
        (self.consts.len() - 1) as u32
    }

    /// Sets the target of the jump at `idx`.
    fn patch(&mut self, idx: usize, target: usize, Ghost(slots): Ghost<nat>)
        requires
            old(self).inv(slots),
            idx < old(self).code@.len(),
            is_jump(old(self).code@[idx as int]),
            target <= old(self).code@.len(),
        ensures
            final(self).inv(slots),
            final(self).kept(old(self)),
            final(self).code@.len() == old(self).code@.len(),
            final(self).consts == old(self).consts,
            final(self).loops == old(self).loops,
            final(self).code@[idx as int] matches Op::Jump(t) ==> t == target,
            final(self).code@[idx as int] matches Op::JumpIfFalse(t) ==> t == target,
            forall|i: int| 0 <= i < old(self).code@.len() && i != idx ==> #[trigger] final(self).code@[i] == old(
                self,
            ).code@[i],
    {
        let ghost before = *self;
        let is_plain = match &self.code[idx] {
            Op::Jump(_) => true,
            _ => false,
        };
        if is_plain {
            self.code.set(idx, Op::Jump(target));
        } else {
            self.code.set(idx, Op::JumpIfFalse(target));
        }
        proof {
            assert forall|i: int| 0 <= i < self.code@.len() implies #[trigger] op_in_range(
                self.code@[i],
                self.code@.len(),
                self.consts@.len(),
                slots,
            ) by {
                if i != idx {
                    assert(op_in_range(before.code@[i], before.code@.len(), before.consts@.len(), slots));
                }
            }
            assert forall|l: int| 0 <= l < self.loops@.len() implies all_jumps(
                (#[trigger] self.loops@[l]).break_jumps@,
                self.code@,
            ) && all_jumps(self.loops@[l].continue_jumps@, self.code@) by {
                assert(all_jumps(before.loops@[l].break_jumps@, before.code@));
                assert(all_jumps(before.loops@[l].continue_jumps@, before.code@));
            }
        }
    }

    /// Sets the target of the jump at `idx` to the next instruction.
    fn patch_to_here(&mut self, idx: usize, Ghost(slots): Ghost<nat>)
        requires
            old(self).inv(slots),
            idx < old(self).code@.len(),
            is_jump(old(self).code@[idx as int]),
        ensures
            final(self).inv(slots),
            final(self).kept(old(self)),
            final(self).code@.len() == old(self).code@.len(),
            final(self).consts == old(self).consts,
            final(self).loops == old(self).loops,
            forall|i: int| 0 <= i < old(self).code@.len() && i != idx ==> #[trigger] final(self).code@[i] == old(
                self,
            ).code@[i],
            final(self).code@[idx as int] matches Op::Jump(t) ==> t == old(self).code@.len(),
            final(self).code@[idx as int] matches Op::JumpIfFalse(t) ==> t == old(self).code@.len(),
    {
        let target = self.code.len();
        self.patch(idx, target, Ghost(slots));
    }

    /// Patches every jump in `jumps` to `target`.
    fn patch_all(&mut self, jumps: &Vec<usize>, target: usize, Ghost(slots): Ghost<nat>)
        requires
            old(self).inv(slots),
            all_jumps(jumps@, old(self).code@),
            target <= old(self).code@.len(),
        ensures
            final(self).inv(slots),
            final(self).kept(old(self)),
            final(self).code@.len() == old(self).code@.len(),
            final(self).consts == old(self).consts,
            final(self).loops == old(self).loops,
            forall|k: int| 0 <= k < jumps@.len() ==> #[trigger] final(self).code@[jumps@[k] as int] == Op::Jump(target),
            forall|i: int|
                0 <= i < old(self).code@.len() && !jumps@.contains(i as usize) ==> #[trigger] final(self).code@[i]
                    == old(self).code@[i],
    {
        let ghost start = *self;
        let mut k: usize = 0;
        while k < jumps.len()
            invariant
                self.inv(slots),
                self.kept(&start),
                self.code@.len() == start.code@.len(),
                self.consts == start.consts,
                self.loops == start.loops,
                target <= self.code@.len(),
                k <= jumps@.len(),
                all_jumps(jumps@, start.code@),
                forall|q: int| 0 <= q < k ==> #[trigger] self.code@[jumps@[q] as int] == Op::Jump(target),
                forall|i: int|
                    0 <= i < start.code@.len() && !jumps@.take(k as int).contains(i as usize) ==> #[trigger] self.code@[i]
                        == start.code@[i],
            decreases jumps@.len() - k,
        {
            let ghost before = *self;
            let idx = jumps[k];
            assert(same_shape(start.code@[idx as int], self.code@[idx as int]));
            self.patch(idx, target, Ghost(slots));
            proof {
                FnCompiler::lemma_kept_trans(&start, &before, self);
                assert(start.code@[idx as int] is Jump);
                assert(jumps@.take(k + 1) == jumps@.take(k as int).push(idx));
                assert forall|q: int| 0 <= q < k + 1 implies #[trigger] self.code@[jumps@[q] as int] == Op::Jump(target) by {
                    if q < k && jumps@[q] != idx {
                        assert(self.code@[jumps@[q] as int] == before.code@[jumps@[q] as int]);
                    }
                }
                assert forall|i: int|
                    0 <= i < start.code@.len() && !jumps@.take(k + 1).contains(i as usize) implies #[trigger] self.code@[i]
                    == start.code@[i] by {
                    assert(i != idx) by {
                        if i == idx {
                            assert(jumps@.take(k + 1)[k as int] == idx);
                        }
                    }
                    if jumps@.take(k as int).contains(i as usize) {
                        let q = choose|q: int| 0 <= q < k && jumps@.take(k as int)[q] == i as usize;
                        assert(jumps@.take(k + 1)[q] == i as usize);
                    }
                }
            }
            k = k + 1;
        }
        proof {
            assert(jumps@.take(k as int) =~= jumps@);
        }
    }
}


/// The instruction for an arithmetic or comparison operator on operands of
/// a type. Equality is type-agnostic; ordering and arithmetic are
/// monomorphic.
pub open spec fn arithmetic_op_spec(op: BinOp, operand: Type) -> Op {
    let f = operand is Float;
    match op {
        BinOp::Add => if f { Op::AddFloat } else { Op::AddInt },
        BinOp::Sub => if f { Op::SubFloat } else { Op::SubInt },
        BinOp::Mul => if f { Op::MulFloat } else { Op::MulInt },
        BinOp::Div => if f { Op::DivFloat } else { Op::DivInt },
        BinOp::Rem => if f { Op::RemFloat } else { Op::RemInt },
        BinOp::Lt => if f { Op::LtFloat } else { Op::LtInt },
        BinOp::Le => if f { Op::LeFloat } else { Op::LeInt },
        BinOp::Gt => if f { Op::GtFloat } else { Op::GtInt },
        BinOp::Ge => if f { Op::GeFloat } else { Op::GeInt },
        BinOp::Eq => Op::Eq,
        BinOp::Ne => Op::Ne,
        BinOp::And => Op::Eq,
        BinOp::Or => Op::Eq,
    }
}

/// The instruction selected for an operator on integers computes that
/// operator: run on two integers, it pushes the comparison of the numbers,
/// their sum, difference or product modulo 2^64, or their truncated quotient
/// or remainder (stopping on a zero divisor or on `i64::MIN / -1`).
pub proof fn lemma_int_instruction_selection(op: BinOp, s: StateV, p: &Program, a: i64, b: i64)
    requires
        at_int_pair(s, p, a, b),
        next_op(s, p) == arithmetic_op_spec(op, Type::Int),
        !(op is And || op is Or),
    ensures
        op is Lt ==> pushes(s, p, Val::Bool((a as int) < (b as int))),
        op is Le ==> pushes(s, p, Val::Bool((a as int) <= (b as int))),
        op is Gt ==> pushes(s, p, Val::Bool((a as int) > (b as int))),
        op is Ge ==> pushes(s, p, Val::Bool((a as int) >= (b as int))),
        op is Eq ==> pushes(s, p, Val::Bool(a as int == b as int)),
        op is Ne ==> pushes(s, p, Val::Bool(a as int != b as int)),
        op is Add ==> exists|r: i64| wraps_to(r, a + b) && #[trigger] pushes(s, p, Val::Int(r)),
        op is Sub ==> exists|r: i64| wraps_to(r, a - b) && #[trigger] pushes(s, p, Val::Int(r)),
        op is Mul ==> exists|r: i64| wraps_to(r, a * b) && #[trigger] pushes(s, p, Val::Int(r)),
        (op is Div || op is Rem) && b == 0 ==> spec_step(s, p).1 == Err::<ActionV, VmError>(VmError::DivisionByZero),
        (op is Div || op is Rem) && a == i64::MIN && b == -1 ==> spec_step(s, p).1 == Err::<ActionV, VmError>(
            VmError::IntegerOverflow,
        ),
        op is Div && !div_faults(a, b) ==> exists|q: i64, r: i64|
            #[trigger] trunc_div_rem(a as int, b as int, q as int, r as int) && pushes(s, p, Val::Int(q)),
        op is Rem && !div_faults(a, b) ==> exists|q: i64, r: i64|
            #[trigger] trunc_div_rem(a as int, b as int, q as int, r as int) && pushes(s, p, Val::Int(r)),
{
    lemma_int_instructions(s, p, a, b);
}

/// The instruction selected for an operator on floats hands the machine's
/// host the same operator.
pub proof fn lemma_float_instruction_selection(op: BinOp)
    ensures
        op is Add ==> float_op(arithmetic_op_spec(op, Type::Float)) == Some(HostOpV::Add),
        op is Sub ==> float_op(arithmetic_op_spec(op, Type::Float)) == Some(HostOpV::Sub),
        op is Mul ==> float_op(arithmetic_op_spec(op, Type::Float)) == Some(HostOpV::Mul),
        op is Div ==> float_op(arithmetic_op_spec(op, Type::Float)) == Some(HostOpV::Div),
        op is Rem ==> float_op(arithmetic_op_spec(op, Type::Float)) == Some(HostOpV::Rem),
        op is Lt ==> float_op(arithmetic_op_spec(op, Type::Float)) == Some(HostOpV::Lt),
        op is Le ==> float_op(arithmetic_op_spec(op, Type::Float)) == Some(HostOpV::Le),
        op is Gt ==> float_op(arithmetic_op_spec(op, Type::Float)) == Some(HostOpV::Gt),
        op is Ge ==> float_op(arithmetic_op_spec(op, Type::Float)) == Some(HostOpV::Ge),
{
}

/// Selects the arithmetic or comparison instruction for an operator and
/// operand type; logical operators compile to control flow instead.
fn arithmetic_op(op: BinOp, operand: Type) -> (r: Op)
    requires
        !(op is And),
        !(op is Or),
    ensures
        r == arithmetic_op_spec(op, operand),
{
    let is_float = match operand {
        Type::Float => true,
        _ => false,
    };
    match op {
        BinOp::Add => if is_float { Op::AddFloat } else { Op::AddInt },
        BinOp::Sub => if is_float { Op::SubFloat } else { Op::SubInt },
        BinOp::Mul => if is_float { Op::MulFloat } else { Op::MulInt },
        BinOp::Div => if is_float { Op::DivFloat } else { Op::DivInt },
        BinOp::Rem => if is_float { Op::RemFloat } else { Op::RemInt },
        BinOp::Lt => if is_float { Op::LtFloat } else { Op::LtInt },
        BinOp::Le => if is_float { Op::LeFloat } else { Op::LeInt },
        BinOp::Gt => if is_float { Op::GtFloat } else { Op::GtInt },
        BinOp::Ge => if is_float { Op::GeFloat } else { Op::GeInt },
        BinOp::Eq => Op::Eq,
        BinOp::Ne => Op::Ne,
        BinOp::And => Op::Eq,
        BinOp::Or => Op::Eq,
    }
}

/// What the first instruction compiled for a construct is: exactly a given
/// instruction, or one of a kind (a string or float push, whose operand
/// depends on the pool or the literal's text, or a jump, whose target is
/// patched later).
pub enum FirstOp {
    Exact(Op),
    PushStrOp,
    PushFloatOp,
    JumpOp,
}

/// Whether `op` is the instruction `f` describes.
pub open spec fn first_matches(f: FirstOp, op: Op) -> bool {
    match f {
        FirstOp::Exact(o) => op == o && !is_jump(o),
        FirstOp::PushStrOp => op is PushStr,
        FirstOp::PushFloatOp => op is PushFloat,
        FirstOp::JumpOp => op is Jump,
    }
}

/// The first instruction of an expression's code: that of its leftmost
/// operand, so operands are evaluated left to right.
pub open spec fn first_e(e: Expr) -> FirstOp
    decreases e, 1int,
{
    first_k(e.kind)
}

/// [`first_e`] of an expression node.
pub open spec fn first_k(k: ExprKind) -> FirstOp
    decreases k, 0int,
{
    match k {
        ExprKind::Int(v) => FirstOp::Exact(Op::PushInt(v)),
        ExprKind::Float(_) => FirstOp::PushFloatOp,
        ExprKind::Bool(b) => FirstOp::Exact(Op::PushBool(b)),
        ExprKind::Str(_) => FirstOp::PushStrOp,
        ExprKind::Local(id) => FirstOp::Exact(Op::LoadLocal(id.0)),
        ExprKind::Unary { rhs, .. } => first_e(*rhs),
        ExprKind::Binary { lhs, .. } => first_e(*lhs),
        ExprKind::Call { callee, args } => if args@.len() > 0 {
            first_es(args@)
        } else {
            match callee {
                Callee::Fn(id) => FirstOp::Exact(Op::Call { func: id.0 as usize, argc: 0 }),
                Callee::Builtin(Builtin::Len) => FirstOp::Exact(Op::ArrayLen),
                Callee::Builtin(b) => FirstOp::Exact(Op::CallBuiltin { builtin: b, argc: 0 }),
            }
        },
        ExprKind::Assign { value, .. } => first_e(*value),
        ExprKind::ArrayLit(es) => if es@.len() > 0 {
            first_es(es@)
        } else {
            FirstOp::Exact(Op::MakeArray(0))
        },
        ExprKind::StructLit(es) => if es@.len() > 0 {
            first_es(es@)
        } else {
            FirstOp::Exact(Op::MakeArray(0))
        },
        ExprKind::Index { base, .. } => first_e(*base),
        ExprKind::SetIndex { base, .. } => first_e(*base),
        ExprKind::GetField { base, .. } => first_e(*base),
        ExprKind::SetField { base, .. } => first_e(*base),
        ExprKind::If { cond, .. } => first_e(*cond),
        ExprKind::Block(b) => first_b(b),
    }
}

/// [`first_e`] of the first of a list of expressions.
pub open spec fn first_es(es: Seq<Expr>) -> FirstOp
    decreases es, 0int,
{
    if es.len() > 0 {
        first_e(es[0])
    } else {
        FirstOp::Exact(Op::PushUnit)
    }
}

/// The first instruction of a block in value position.
pub open spec fn first_b(b: Block) -> FirstOp
    decreases b, 1int,
{
    if b.stmts@.len() > 0 {
        first_ss(b.stmts@)
    } else {
        match b.tail {
            Some(t) => first_e(*t),
            None => FirstOp::Exact(Op::PushUnit),
        }
    }
}

/// [`first_s`] of the first of a list of statements.
pub open spec fn first_ss(ss: Seq<Stmt>) -> FirstOp
    decreases ss, 0int,
{
    if ss.len() > 0 {
        first_s(ss[0])
    } else {
        FirstOp::Exact(Op::PushUnit)
    }
}

/// The first instruction of a statement.
pub open spec fn first_s(s: Stmt) -> FirstOp
    decreases s, 0int,
{
    match s {
        Stmt::Let { value, .. } => first_e(value),
        Stmt::Expr(e) => first_e(e),
        Stmt::Return(Some(e)) => first_e(e),
        Stmt::Return(None) => FirstOp::Exact(Op::PushUnit),
        Stmt::While { cond, .. } => first_e(cond),
        Stmt::For { start, .. } => first_e(start),
        Stmt::Break | Stmt::Continue => FirstOp::JumpOp,
    }
}

/// Later compilation keeps an instruction as [`first_matches`] describes it.
proof fn lemma_first_kept(f: FirstOp, a: &FnCompiler, b: &FnCompiler, idx: int)
    requires
        b.kept(a),
        0 <= idx < a.code@.len(),
        first_matches(f, a.code@[idx]),
    ensures
        first_matches(f, b.code@[idx]),
{
    assert(same_shape(a.code@[idx], b.code@[idx]));
}

impl FnCompiler {
    /// Compiles a block in value position: its statements, then its tail or
    /// a `unit`.
    fn block_value(&mut self, block: &Block, Ghost(slots): Ghost<nat>)
        requires
            old(self).inv(slots),
            block_slots_below(*block, slots),
        ensures
            final(self).inv(slots),
            final(self).kept(old(self)),
            first_matches(first_b(*block), final(self).code@[old(self).code@.len() as int]),
            final(self).code@.len() > old(self).code@.len(),
            block.tail is None ==> final(self).code@.last() == Op::PushUnit,
            block.stmts@.len() == 0 && block.tail is None ==> final(self).code@ == old(self).code@.push(Op::PushUnit),
        decreases *block, 2int,
    {
        let ghost start = *self;
        let mut i: usize = 0;
        proof {
            lemma_stmts_all(block.stmts@, block.stmts@.len(), slots);
        }
        while i < block.stmts.len()
            invariant
                self.inv(slots),
                self.kept(&start),
                i <= block.stmts@.len(),
                forall|k: int| 0 <= k < block.stmts@.len() ==> #[trigger] stmt_slots_below(block.stmts@[k], slots),
                block.stmts@.len() == 0 ==> *self == start,
                i == 0 ==> *self == start,
                i > 0 ==> self.code@.len() > start.code@.len(),
                i > 0 ==> first_matches(first_ss(block.stmts@), self.code@[start.code@.len() as int]),
            decreases block.stmts@.len() - i,
        {
            let ghost before = *self;
            assert(decreases_to!(*block => block.stmts@[i as int]));
            self.stmt(&block.stmts[i], Ghost(slots));
            proof {
                FnCompiler::lemma_kept_trans(&start, &before, self);
                if i > 0 {
                    lemma_first_kept(first_ss(block.stmts@), &before, self, start.code@.len() as int);
                }
            }
            i = i + 1;
        }
        let ghost mid = *self;
        match &block.tail {
            Some(tail) => self.expr(tail, Ghost(slots)),
            None => {
                self.emit(Op::PushUnit, Ghost(slots));
            },
        }
        proof {
            FnCompiler::lemma_kept_trans(&start, &mid, self);
            if block.stmts@.len() > 0 {
                lemma_first_kept(first_ss(block.stmts@), &mid, self, start.code@.len() as int);
            }
        }
    }

    /// Compiles a statement: net stack effect zero.
    fn stmt(&mut self, stmt: &Stmt, Ghost(slots): Ghost<nat>)
        requires
            old(self).inv(slots),
            stmt_slots_below(*stmt, slots),
        ensures
            final(self).inv(slots),
            final(self).kept(old(self)),
            first_matches(first_s(*stmt), final(self).code@[old(self).code@.len() as int]),
            final(self).code@.len() > old(self).code@.len(),
            stmt is Let ==> final(self).code@.last() == Op::StoreLocal(stmt->Let_local.0),
            stmt is Expr ==> final(self).code@.last() == Op::Pop,
            stmt is Return ==> final(self).code@.last() == Op::Return,
            stmt is While ==> final(self).code@.last() == Op::Jump(old(self).code@.len() as usize),
            (stmt is Break || stmt is Continue) ==> final(self).code@ == old(self).code@.push(Op::Jump(UNPATCHED)),
        decreases *stmt, 2int,
    {
        let ghost start = *self;
        match stmt {
            Stmt::Let { local, value } => {
                self.expr(value, Ghost(slots));
                let ghost mid = *self;
                self.emit(Op::StoreLocal(local.0), Ghost(slots));
                proof {
                    FnCompiler::lemma_kept_trans(&start, &mid, self);
                }
            },
            Stmt::Expr(e) => {
                self.expr(e, Ghost(slots));
                let ghost mid = *self;
                self.emit(Op::Pop, Ghost(slots));
                proof {
                    FnCompiler::lemma_kept_trans(&start, &mid, self);
                }
            },
            Stmt::Return(value) => {
                match value {
                    Some(e) => self.expr(e, Ghost(slots)),
                    None => {
                        self.emit(Op::PushUnit, Ghost(slots));
                    },
                }
                let ghost mid = *self;
                self.emit(Op::Return, Ghost(slots));
                proof {
                    FnCompiler::lemma_kept_trans(&start, &mid, self);
                }
            },
            Stmt::While { .. } => self.while_loop(stmt, Ghost(slots)),
            Stmt::For { .. } => self.for_loop(stmt, Ghost(slots)),
            Stmt::Break => self.loop_jump(true, Ghost(slots)),
            Stmt::Continue => self.loop_jump(false, Ghost(slots)),
        }
    }

    /// Opens a loop: a new, empty set of pending jumps.
    fn enter_loop(&mut self, Ghost(slots): Ghost<nat>)
        requires
            old(self).inv(slots),
        ensures
            final(self).inv(slots),
            final(self).code == old(self).code,
            final(self).consts == old(self).consts,
            final(self).loops@.len() == old(self).loops@.len() + 1,
            final(self).loops@.drop_last() == old(self).loops@,
    {
        let ghost before = *self;
        self.loops.push(LoopCtx { break_jumps: Vec::new(), continue_jumps: Vec::new() });
        proof {
            assert(self.loops@.drop_last() =~= before.loops@);
            assert forall|l: int| 0 <= l < self.loops@.len() implies all_jumps(
                (#[trigger] self.loops@[l]).break_jumps@,
                self.code@,
            ) && all_jumps(self.loops@[l].continue_jumps@, self.code@) by {
                if l < before.loops@.len() {
                    assert(self.loops@[l] == before.loops@[l]);
                }
            }
        }
    }

    /// Closes the innermost loop, handing back its pending jumps.
    fn leave_loop(&mut self, Ghost(slots): Ghost<nat>, Ghost(outer): Ghost<FnCompiler>) -> (ctx: LoopCtx)
        requires
            old(self).inv(slots),
            old(self).loops@.len() == outer.loops@.len() + 1,
            forall|l: int| 0 <= l < outer.loops@.len() ==> outer.loops@[l].break_jumps@.len() <= (
            #[trigger] old(self).loops@[l]).break_jumps@.len() && outer.loops@[l].continue_jumps@.len()
                <= old(self).loops@[l].continue_jumps@.len(),
            outer.code@.len() <= old(self).code@.len(),
            forall|i: int| 0 <= i < outer.code@.len() ==> same_shape(outer.code@[i], #[trigger] old(self).code@[i]),
            outer.consts@.len() <= old(self).consts@.len(),
            forall|i: int| 0 <= i < outer.consts@.len() ==> #[trigger] old(self).consts@[i] == outer.consts@[i],
        ensures
            final(self).inv(slots),
            final(self).kept(&outer),
            final(self).code == old(self).code,
            final(self).consts == old(self).consts,
            all_jumps(ctx.break_jumps@, final(self).code@),
            all_jumps(ctx.continue_jumps@, final(self).code@),
    {
        let ghost before = *self;
        let ctx = self.loops.pop().unwrap();
        proof {
            assert(ctx == before.loops@[before.loops@.len() - 1]);
            assert forall|l: int| 0 <= l < self.loops@.len() implies all_jumps(
                (#[trigger] self.loops@[l]).break_jumps@,
                self.code@,
            ) && all_jumps(self.loops@[l].continue_jumps@, self.code@) by {
                assert(self.loops@[l] == before.loops@[l]);
            }
            assert forall|l: int| 0 <= l < self.loops@.len() implies outer.loops@[l].break_jumps@.len() <= (
            #[trigger] self.loops@[l]).break_jumps@.len() && outer.loops@[l].continue_jumps@.len()
                <= self.loops@[l].continue_jumps@.len() by {
                assert(self.loops@[l] == before.loops@[l]);
            }
        }
        ctx
    }

    /// Compiles a loop body in a fresh loop context, discarding its value,
    /// and hands back the body's pending `break` and `continue` jumps.
    fn loop_body(&mut self, body: &Block, Ghost(slots): Ghost<nat>) -> (ctx: LoopCtx)
        requires
            old(self).inv(slots),
            block_slots_below(*body, slots),
        ensures
            final(self).inv(slots),
            final(self).kept(old(self)),
            first_matches(first_b(*body), final(self).code@[old(self).code@.len() as int]),
            final(self).code@.len() > old(self).code@.len(),
            final(self).code@.last() == Op::Pop,
            final(self).loops@.len() == old(self).loops@.len(),
            all_jumps(ctx.break_jumps@, final(self).code@),
            all_jumps(ctx.continue_jumps@, final(self).code@),
        decreases *body, 3int,
    {
        let ghost m2 = *self;
        self.enter_loop(Ghost(slots));
        let ghost m3 = *self;
        self.block_value(body, Ghost(slots));
        let ghost m4 = *self;
        self.emit(Op::Pop, Ghost(slots));
        proof {
            let m5 = *self;
            FnCompiler::lemma_kept_trans(&m4, &m4, &m5);
            assert forall|l: int| 0 <= l < m2.loops@.len() implies m2.loops@[l].break_jumps@.len() <= (
            #[trigger] self.loops@[l]).break_jumps@.len() && m2.loops@[l].continue_jumps@.len()
                <= self.loops@[l].continue_jumps@.len() by {
                assert(m3.loops@[l] == m2.loops@[l]);
                assert(m4.loops@[l].break_jumps@.len() <= self.loops@[l].break_jumps@.len());
            }
            assert forall|i: int| 0 <= i < m2.code@.len() implies same_shape(m2.code@[i], #[trigger] self.code@[i]) by {
                assert(same_shape(m3.code@[i], m4.code@[i]));
                assert(same_shape(m4.code@[i], self.code@[i]));
            }
            assert forall|i: int| 0 <= i < m2.consts@.len() implies #[trigger] self.consts@[i] == m2.consts@[i] by {
                assert(m4.consts@[i] == m3.consts@[i]);
            }
        }
        self.leave_loop(Ghost(slots), Ghost(m2))
    }

    /// `while cond { body }`: test, run the body, jump back; `break` leaves
    /// the loop and `continue` re-tests the condition.
    fn while_loop(&mut self, stmt: &Stmt, Ghost(slots): Ghost<nat>)
        requires
            old(self).inv(slots),
            stmt_slots_below(*stmt, slots),
            stmt is While,
        ensures
            final(self).inv(slots),
            final(self).kept(old(self)),
            first_matches(first_s(*stmt), final(self).code@[old(self).code@.len() as int]),
            final(self).code@.len() > old(self).code@.len(),
            final(self).code@.last() == Op::Jump(old(self).code@.len() as usize),
        decreases *stmt, 1int,
    {
        let ghost s0 = *self;
        let (cond, body) = match stmt {
            Stmt::While { cond, body } => (cond, body),
            _ => {
                return ;
            },
        };
        let cond_start = self.code.len();
        self.expr(cond, Ghost(slots));
        let ghost s1 = *self;
        let exit = self.emit(Op::JumpIfFalse(UNPATCHED), Ghost(slots));
        let ghost s2 = *self;
        let ctx = self.loop_body(body, Ghost(slots));
        let ghost s3 = *self;
        self.emit(Op::Jump(cond_start), Ghost(slots));
        let ghost s4 = *self;
        proof {
            FnCompiler::lemma_kept_trans(&s0, &s1, &s2);
            FnCompiler::lemma_kept_trans(&s0, &s2, &s3);
            FnCompiler::lemma_kept_trans(&s0, &s3, &s4);
            FnCompiler::lemma_kept_trans(&s2, &s3, &s4);
            lemma_all_jumps_kept(ctx.break_jumps@, &s3, &s4);
            lemma_all_jumps_kept(ctx.continue_jumps@, &s3, &s4);
            assert(same_shape(s2.code@[exit as int], s4.code@[exit as int]));
        }
        self.patch_to_here(exit, Ghost(slots));
        let ghost s5 = *self;
        proof {
            lemma_all_jumps_kept(ctx.break_jumps@, &s4, &s5);
            lemma_all_jumps_kept(ctx.continue_jumps@, &s4, &s5);
        }
        let end = self.code.len();
        self.patch_all(&ctx.break_jumps, end, Ghost(slots));
        let ghost s6 = *self;
        proof {
            lemma_all_jumps_kept(ctx.continue_jumps@, &s5, &s6);
        }
        self.patch_all(&ctx.continue_jumps, cond_start, Ghost(slots));
        proof {
            FnCompiler::lemma_kept_trans(&s0, &s4, &s5);
            FnCompiler::lemma_kept_trans(&s0, &s5, &s6);
            FnCompiler::lemma_kept_trans(&s0, &s6, self);
        }
    }

    /// `for var in start..end { body }`: initialise `var` and the cached
    /// bound, then loop with the increment as the `continue` target.
    fn for_loop(&mut self, stmt: &Stmt, Ghost(slots): Ghost<nat>)
        requires
            old(self).inv(slots),
            stmt_slots_below(*stmt, slots),
            stmt is For,
        ensures
            final(self).inv(slots),
            final(self).kept(old(self)),
            first_matches(first_s(*stmt), final(self).code@[old(self).code@.len() as int]),
            final(self).code@.len() >= old(self).code@.len() + 10,
            ({
                let c = final(self).code@;
                let n = c.len() as int;
                &&& c[n - 5] == Op::LoadLocal(stmt->For_var.0)
                &&& c[n - 4] == Op::PushInt(1)
                &&& c[n - 3] == Op::AddInt
                &&& c[n - 2] == Op::StoreLocal(stmt->For_var.0)
                &&& c[n - 1] is Jump
            }),
        decreases *stmt, 1int,
    {
        let ghost s0 = *self;
        let (var, end_var, start, end, body) = match stmt {
            Stmt::For { var, end_var, start, end, body } => (*var, *end_var, start, end, body),
            _ => {
                return ;
            },
        };
        self.expr(start, Ghost(slots));
        let ghost a1 = *self;
        self.emit(Op::StoreLocal(var.0), Ghost(slots));
        let ghost a2 = *self;
        self.expr(end, Ghost(slots));
        let ghost a3 = *self;
        self.emit(Op::StoreLocal(end_var.0), Ghost(slots));
        let ghost a4 = *self;
        let cond_start = self.code.len();
        self.emit(Op::LoadLocal(var.0), Ghost(slots));
        let ghost a5 = *self;
        self.emit(Op::LoadLocal(end_var.0), Ghost(slots));
        let ghost a6 = *self;
        self.emit(Op::LtInt, Ghost(slots));
        let ghost a7 = *self;
        let exit = self.emit(Op::JumpIfFalse(UNPATCHED), Ghost(slots));
        let ghost s2 = *self;
        proof {
            FnCompiler::lemma_kept_trans(&s0, &a1, &a2);
            FnCompiler::lemma_kept_trans(&s0, &a2, &a3);
            FnCompiler::lemma_kept_trans(&s0, &a3, &a4);
            FnCompiler::lemma_kept_trans(&s0, &a4, &a5);
            FnCompiler::lemma_kept_trans(&s0, &a5, &a6);
            FnCompiler::lemma_kept_trans(&s0, &a6, &a7);
            FnCompiler::lemma_kept_trans(&s0, &a7, &s2);
        }
        let ctx = self.loop_body(body, Ghost(slots));
        let ghost s3 = *self;
        // The increment point, also where `continue` lands.
        let incr = self.code.len();
        self.emit(Op::LoadLocal(var.0), Ghost(slots));
        let ghost b1 = *self;
        self.emit(Op::PushInt(1), Ghost(slots));
        let ghost b2 = *self;
        self.emit(Op::AddInt, Ghost(slots));
        let ghost b3 = *self;
        self.emit(Op::StoreLocal(var.0), Ghost(slots));
        let ghost b4 = *self;
        self.emit(Op::Jump(cond_start), Ghost(slots));
        let ghost s4 = *self;
        proof {
            FnCompiler::lemma_kept_trans(&s3, &b1, &b2);
            FnCompiler::lemma_kept_trans(&s3, &b2, &b3);
            FnCompiler::lemma_kept_trans(&s3, &b3, &b4);
            FnCompiler::lemma_kept_trans(&s3, &b4, &s4);
            FnCompiler::lemma_kept_trans(&s0, &s2, &s3);
            FnCompiler::lemma_kept_trans(&s0, &s3, &s4);
            FnCompiler::lemma_kept_trans(&s2, &s3, &s4);
            lemma_all_jumps_kept(ctx.break_jumps@, &s3, &s4);
            lemma_all_jumps_kept(ctx.continue_jumps@, &s3, &s4);
            assert(same_shape(s2.code@[exit as int], s4.code@[exit as int]));
        }
        self.patch_to_here(exit, Ghost(slots));
        let ghost s5 = *self;
        proof {
            lemma_all_jumps_kept(ctx.break_jumps@, &s4, &s5);
            lemma_all_jumps_kept(ctx.continue_jumps@, &s4, &s5);
        }
        let end_label = self.code.len();
        self.patch_all(&ctx.break_jumps, end_label, Ghost(slots));
        let ghost s6 = *self;
        proof {
            lemma_all_jumps_kept(ctx.continue_jumps@, &s5, &s6);
        }
        self.patch_all(&ctx.continue_jumps, incr, Ghost(slots));
        proof {
            FnCompiler::lemma_kept_trans(&s0, &s4, &s5);
            FnCompiler::lemma_kept_trans(&s0, &s5, &s6);
            FnCompiler::lemma_kept_trans(&s0, &s6, self);
        }
    }

    /// Emits a `break` (`is_break`) or `continue` jump, recorded for
    /// backpatching by the innermost loop. Outside a loop it keeps its
    /// placeholder target.
    fn loop_jump(&mut self, is_break: bool, Ghost(slots): Ghost<nat>)
        requires
            old(self).inv(slots),
        ensures
            final(self).inv(slots),
            final(self).kept(old(self)),
            final(self).code@ == old(self).code@.push(Op::Jump(UNPATCHED)),
            final(self).consts == old(self).consts,
            final(self).loops@.len() == old(self).loops@.len(),
            forall|l: int| 0 <= l < old(self).loops@.len() - 1 ==> #[trigger] final(self).loops@[l] == old(self).loops@[l],
            old(self).loops@.len() > 0 && is_break ==> final(self).loops@.last().break_jumps@ == old(
                self,
            ).loops@.last().break_jumps@.push(old(self).code@.len() as usize) && final(self).loops@.last().continue_jumps
                == old(self).loops@.last().continue_jumps,
            old(self).loops@.len() > 0 && !is_break ==> final(self).loops@.last().continue_jumps@ == old(
                self,
            ).loops@.last().continue_jumps@.push(old(self).code@.len() as usize) && final(self).loops@.last().break_jumps
                == old(self).loops@.last().break_jumps,
    {
        let ghost start = *self;
        let idx = self.emit(Op::Jump(UNPATCHED), Ghost(slots));
        let ghost mid = *self;
        if self.loops.len() > 0 {
            let mut ctx = self.loops.pop().unwrap();
            if is_break {
                ctx.break_jumps.push(idx);
            } else {
                ctx.continue_jumps.push(idx);
            }
            self.loops.push(ctx);
            proof {
                let last = mid.loops@.len() - 1;
                assert forall|l: int| 0 <= l < self.loops@.len() implies all_jumps(
                    (#[trigger] self.loops@[l]).break_jumps@,
                    self.code@,
                ) && all_jumps(self.loops@[l].continue_jumps@, self.code@) by {
                    assert(all_jumps(mid.loops@[l].break_jumps@, mid.code@));
                    assert(all_jumps(mid.loops@[l].continue_jumps@, mid.code@));
                    if l == last {
                        assert forall|k: int| 0 <= k < self.loops@[l].break_jumps@.len() implies #[trigger] self.loops@[l].break_jumps@[k]
                            < self.code@.len() && self.code@[self.loops@[l].break_jumps@[k] as int] is Jump by {
                            if k < mid.loops@[l].break_jumps@.len() {
                                assert(self.loops@[l].break_jumps@[k] == mid.loops@[l].break_jumps@[k]);
                            }
                        }
                        assert forall|k: int| 0 <= k < self.loops@[l].continue_jumps@.len() implies #[trigger] self.loops@[l].continue_jumps@[k]
                            < self.code@.len() && self.code@[self.loops@[l].continue_jumps@[k] as int] is Jump by {
                            if k < mid.loops@[l].continue_jumps@.len() {
                                assert(self.loops@[l].continue_jumps@[k] == mid.loops@[l].continue_jumps@[k]);
                            }
                        }
                    } else {
                        assert(self.loops@[l] == mid.loops@[l]);
                    }
                }
                assert forall|l: int| 0 <= l < self.loops@.len() implies mid.loops@[l].break_jumps@.len() <= (
                #[trigger] self.loops@[l]).break_jumps@.len() && mid.loops@[l].continue_jumps@.len()
                    <= self.loops@[l].continue_jumps@.len() by {
                    if l != last {
                        assert(self.loops@[l] == mid.loops@[l]);
                    }
                }
                assert(self.kept(&mid));
                FnCompiler::lemma_kept_trans(&start, &mid, self);
            }
        }
    }
}

/// Pending jumps stay jumps while code is only appended or patched.
proof fn lemma_all_jumps_kept(jumps: Seq<usize>, a: &FnCompiler, b: &FnCompiler)
    requires
        all_jumps(jumps, a.code@),
        b.kept(a),
    ensures
        all_jumps(jumps, b.code@),
{
    assert forall|k: int| 0 <= k < jumps.len() implies #[trigger] jumps[k] < b.code@.len() && b.code@[jumps[k] as int] is Jump by {
        assert(same_shape(a.code@[jumps[k] as int], b.code@[jumps[k] as int]));
    }
}

/// The recursive statement of slots over a list says it of every member.
proof fn lemma_stmts_all(ss: Seq<Stmt>, k: nat, n: nat)
    requires
        k <= ss.len(),
        stmts_slots_below(ss, k, n),
    ensures
        forall|i: int| 0 <= i < k ==> #[trigger] stmt_slots_below(ss[i], n),
    decreases k,
{
    if k > 0 {
        lemma_stmts_all(ss, (k - 1) as nat, n);
    }
}

/// The recursive statement of slots over a list says it of every member.
proof fn lemma_exprs_all(es: Seq<Expr>, k: nat, n: nat)
    requires
        k <= es.len(),
        exprs_slots_below(es, k, n),
    ensures
        forall|i: int| 0 <= i < k ==> #[trigger] expr_slots_below(es[i], n),
    decreases k,
{
    if k > 0 {
        lemma_exprs_all(es, (k - 1) as nat, n);
    }
}


impl FnCompiler {
    /// Compiles each expression of a list in order.
    fn exprs(&mut self, es: &Vec<Expr>, Ghost(slots): Ghost<nat>, Ghost(outer): Ghost<&Expr>)
        requires
            old(self).inv(slots),
            exprs_slots_below(es@, es@.len(), slots),
            forall|k: int| 0 <= k < es@.len() ==> decreases_to!(*outer => #[trigger] es@[k]),
        ensures
            final(self).inv(slots),
            final(self).kept(old(self)),
            final(self).code@.len() >= old(self).code@.len() + es@.len(),
            es@.len() > 0 ==> first_matches(first_e(es@[0]), final(self).code@[old(self).code@.len() as int]),
            es@.len() == 0 ==> *final(self) == *old(self),
        decreases *outer, 0int,
    {
        let ghost start = *self;
        proof {
            lemma_exprs_all(es@, es@.len(), slots);
        }
        let mut i: usize = 0;
        while i < es.len()
            invariant
                self.inv(slots),
                self.kept(&start),
                i <= es@.len(),
                self.code@.len() >= start.code@.len() + i,
                i == 0 ==> *self == start,
                i > 0 ==> first_matches(first_e(es@[0]), self.code@[start.code@.len() as int]),
                forall|k: int| 0 <= k < es@.len() ==> #[trigger] expr_slots_below(es@[k], slots),
                forall|k: int| 0 <= k < es@.len() ==> decreases_to!(*outer => #[trigger] es@[k]),
            decreases es@.len() - i,
        {
            let ghost before = *self;
            self.expr(&es[i], Ghost(slots));
            proof {
                FnCompiler::lemma_kept_trans(&start, &before, self);
                if i > 0 {
                    lemma_first_kept(first_e(es@[0]), &before, self, start.code@.len() as int);
                }
            }
            i = i + 1;
        }
    }

    /// Compiles an expression: net stack effect one value.
    fn expr(&mut self, expr: &Expr, Ghost(slots): Ghost<nat>)
        requires
            old(self).inv(slots),
            expr_slots_below(*expr, slots),
        ensures
            final(self).inv(slots),
            final(self).kept(old(self)),
            final(self).code@.len() > old(self).code@.len(),
            first_matches(first_e(*expr), final(self).code@[old(self).code@.len() as int]),
            expr.kind is Int ==> final(self).code@ == old(self).code@.push(Op::PushInt(expr.kind->Int_0)),
            expr.kind is Bool ==> final(self).code@ == old(self).code@.push(Op::PushBool(expr.kind->Bool_0)),
            expr.kind is Local ==> final(self).code@ == old(self).code@.push(Op::LoadLocal(expr.kind->Local_0.0)),
            expr.kind is Unary ==> final(self).code@.last() == (match expr.kind->Unary_op {
                UnOp::Neg => if expr.kind->Unary_rhs.ty is Int {
                    Op::NegInt
                } else {
                    Op::NegFloat
                },
                UnOp::Not => Op::NotBool,
            }),
            expr.kind is Assign ==> final(self).code@.last() == Op::PushUnit && final(self).code@[final(self).code@.len()
                - 2] == Op::StoreLocal(expr.kind->Assign_local.0),
            (expr.kind is ArrayLit) ==> final(self).code@.last() == Op::MakeArray(expr.kind->ArrayLit_0@.len() as u32),
            (expr.kind is StructLit) ==> final(self).code@.last() == Op::MakeArray(expr.kind->StructLit_0@.len() as u32),
            (expr.kind is Index || expr.kind is GetField) ==> final(self).code@.last() == Op::Index,
            (expr.kind is SetIndex || expr.kind is SetField) ==> final(self).code@.last() == Op::SetIndex,
        decreases *expr, 2int,
    {
        let ghost s0 = *self;
        match &expr.kind {
            ExprKind::Int(v) => {
                self.emit(Op::PushInt(*v), Ghost(slots));
            },
            ExprKind::Float(t) => {
                self.emit(Op::PushFloat(t.clone()), Ghost(slots));
            },
            ExprKind::Bool(b) => {
                self.emit(Op::PushBool(*b), Ghost(slots));
            },
            ExprKind::Str(t) => {
                let idx = self.intern(t.as_str(), Ghost(slots));
                let ghost s1 = *self;
                self.emit(Op::PushStr(idx), Ghost(slots));
                proof {
                    FnCompiler::lemma_kept_trans(&s0, &s1, self);
                }
            },
            ExprKind::Local(id) => {
                self.emit(Op::LoadLocal(id.0), Ghost(slots));
            },
            ExprKind::Unary { op, rhs } => {
                self.expr(rhs, Ghost(slots));
                let instr = match op {
                    UnOp::Neg => match rhs.ty {
                        Type::Int => Op::NegInt,
                        _ => Op::NegFloat,
                    },
                    UnOp::Not => Op::NotBool,
                };
                let ghost s1 = *self;
                self.emit(instr, Ghost(slots));
                proof {
                    FnCompiler::lemma_kept_trans(&s0, &s1, self);
                    lemma_first_kept(first_e(**rhs), &s1, self, s0.code@.len() as int);
                }
            },
            ExprKind::Binary { .. } => self.binary(expr, Ghost(slots)),
            ExprKind::Call { .. } => self.call(expr, Ghost(slots)),
            ExprKind::Assign { local, value } => {
                self.expr(value, Ghost(slots));
                let ghost s1 = *self;
                self.emit(Op::StoreLocal(local.0), Ghost(slots));
                let ghost s2 = *self;
                // Assignment evaluates to unit, preserving the one-value rule.
                self.emit(Op::PushUnit, Ghost(slots));
                proof {
                    FnCompiler::lemma_kept_trans(&s0, &s1, &s2);
                    FnCompiler::lemma_kept_trans(&s0, &s2, self);
                    FnCompiler::lemma_kept_trans(&s1, &s2, self);
                    lemma_first_kept(first_e(**value), &s1, self, s0.code@.len() as int);
                }
            },
            ExprKind::ArrayLit(elems) => {
                proof {
                    assert forall|k: int| 0 <= k < elems@.len() implies decreases_to!(*expr => #[trigger] elems@[k]) by {
                        assert(decreases_to!(*expr => elems@[k]));
                    }
                }
                self.exprs(elems, Ghost(slots), Ghost(expr));
                let ghost s1 = *self;
                self.emit(Op::MakeArray(elems.len() as u32), Ghost(slots));
                proof {
                    FnCompiler::lemma_kept_trans(&s0, &s1, self);
                    assert(first_e(*expr) == first_k(expr.kind));
                    if elems@.len() > 0 {
                        assert(first_es(elems@) == first_e(elems@[0]));
                        lemma_first_kept(first_e(elems@[0]), &s1, self, s0.code@.len() as int);
                    } else {
                        assert(s1.code@.len() == s0.code@.len());
                    }
                }
            },
            ExprKind::Index { base, index } => {
                self.expr(base, Ghost(slots));
                let ghost s1 = *self;
                self.expr(index, Ghost(slots));
                let ghost s2 = *self;
                self.emit(Op::Index, Ghost(slots));
                proof {
                    FnCompiler::lemma_kept_trans(&s0, &s1, &s2);
                    FnCompiler::lemma_kept_trans(&s0, &s2, self);
                    FnCompiler::lemma_kept_trans(&s1, &s2, self);
                    lemma_first_kept(first_e(**base), &s1, self, s0.code@.len() as int);
                }
            },
            ExprKind::SetIndex { base, index, value } => {
                self.expr(base, Ghost(slots));
                let ghost s1 = *self;
                self.expr(index, Ghost(slots));
                let ghost s2 = *self;
                self.expr(value, Ghost(slots));
                let ghost s3 = *self;
                // Consumes the three operands and leaves unit.
                self.emit(Op::SetIndex, Ghost(slots));
                proof {
                    FnCompiler::lemma_kept_trans(&s0, &s1, &s2);
                    FnCompiler::lemma_kept_trans(&s0, &s2, &s3);
                    FnCompiler::lemma_kept_trans(&s0, &s3, self);
                    FnCompiler::lemma_kept_trans(&s1, &s2, &s3);
                    FnCompiler::lemma_kept_trans(&s1, &s3, self);
                    lemma_first_kept(first_e(**base), &s1, self, s0.code@.len() as int);
                }
            },
            // A struct is laid out as a fixed array of field values, so struct
            // construction and field access reuse the array instructions.
            ExprKind::StructLit(fields) => {
                proof {
                    assert forall|k: int| 0 <= k < fields@.len() implies decreases_to!(*expr => #[trigger] fields@[k]) by {
                        assert(decreases_to!(*expr => fields@[k]));
                    }
                }
                self.exprs(fields, Ghost(slots), Ghost(expr));
                let ghost s1 = *self;
                self.emit(Op::MakeArray(fields.len() as u32), Ghost(slots));
                proof {
                    FnCompiler::lemma_kept_trans(&s0, &s1, self);
                    assert(first_e(*expr) == first_k(expr.kind));
                    if fields@.len() > 0 {
                        assert(first_es(fields@) == first_e(fields@[0]));
                        lemma_first_kept(first_e(fields@[0]), &s1, self, s0.code@.len() as int);
                    } else {
                        assert(s1.code@.len() == s0.code@.len());
                    }
                }
            },
            ExprKind::GetField { base, idx } => {
                self.expr(base, Ghost(slots));
                let ghost s1 = *self;
                self.emit(Op::PushInt(*idx as i64), Ghost(slots));
                let ghost s2 = *self;
                self.emit(Op::Index, Ghost(slots));
                proof {
                    FnCompiler::lemma_kept_trans(&s0, &s1, &s2);
                    FnCompiler::lemma_kept_trans(&s0, &s2, self);
                    FnCompiler::lemma_kept_trans(&s1, &s2, self);
                    lemma_first_kept(first_e(**base), &s1, self, s0.code@.len() as int);
                }
            },
            ExprKind::SetField { base, idx, value } => {
                self.expr(base, Ghost(slots));
                let ghost s1 = *self;
                self.emit(Op::PushInt(*idx as i64), Ghost(slots));
                let ghost s2 = *self;
                self.expr(value, Ghost(slots));
                let ghost s3 = *self;
                self.emit(Op::SetIndex, Ghost(slots));
                proof {
                    FnCompiler::lemma_kept_trans(&s0, &s1, &s2);
                    FnCompiler::lemma_kept_trans(&s0, &s2, &s3);
                    FnCompiler::lemma_kept_trans(&s0, &s3, self);
                    FnCompiler::lemma_kept_trans(&s1, &s2, &s3);
                    FnCompiler::lemma_kept_trans(&s1, &s3, self);
                    lemma_first_kept(first_e(**base), &s1, self, s0.code@.len() as int);
                }
            },
            ExprKind::If { .. } => self.if_expr(expr, Ghost(slots)),
            ExprKind::Block(block) => self.block_value(block, Ghost(slots)),
        }
    }

    /// A binary operator: logical ones short-circuit; `+` on strings is
    /// concatenation; the rest are monomorphic instructions.
    fn binary(&mut self, expr: &Expr, Ghost(slots): Ghost<nat>)
        requires
            old(self).inv(slots),
            expr_slots_below(*expr, slots),
            expr.kind is Binary,
        ensures
            final(self).inv(slots),
            final(self).kept(old(self)),
            first_matches(first_e(*expr), final(self).code@[old(self).code@.len() as int]),
            final(self).code@.len() > old(self).code@.len(),
            expr.kind->Binary_op is And ==> final(self).code@.last() == Op::PushBool(false),
            !(expr.kind->Binary_op is And || expr.kind->Binary_op is Or) ==> final(self).code@.last() == (if expr.kind->Binary_op
                is Add && expr.kind->Binary_lhs.ty is Str {
                Op::ConcatStr
            } else {
                arithmetic_op_spec(expr.kind->Binary_op, expr.kind->Binary_lhs.ty)
            }),
        decreases *expr, 1int,
    {
        let ghost s0 = *self;
        let (op, lhs, rhs) = match &expr.kind {
            ExprKind::Binary { op, lhs, rhs } => (*op, lhs, rhs),
            _ => {
                return ;
            },
        };
        match op {
            BinOp::And => {
                // `a && b`: if `a` is false, the result is false and `b` is
                // not evaluated.
                self.expr(lhs, Ghost(slots));
                let ghost s1 = *self;
                let to_false = self.emit(Op::JumpIfFalse(UNPATCHED), Ghost(slots));
                let ghost s2 = *self;
                self.expr(rhs, Ghost(slots));
                let ghost s3 = *self;
                let end = self.emit(Op::Jump(UNPATCHED), Ghost(slots));
                let ghost s4 = *self;
                proof {
                    FnCompiler::lemma_kept_trans(&s2, &s3, &s4);
                    assert(same_shape(s2.code@[to_false as int], s4.code@[to_false as int]));
                }
                self.patch_to_here(to_false, Ghost(slots));
                let ghost s5 = *self;
                self.emit(Op::PushBool(false), Ghost(slots));
                let ghost s6 = *self;
                proof {
                    FnCompiler::lemma_kept_trans(&s4, &s5, &s6);
                    assert(same_shape(s4.code@[end as int], s6.code@[end as int]));
                }
                self.patch_to_here(end, Ghost(slots));
                proof {
                    FnCompiler::lemma_kept_trans(&s0, &s1, &s2);
                    FnCompiler::lemma_kept_trans(&s0, &s2, &s4);
                    FnCompiler::lemma_kept_trans(&s0, &s4, &s6);
                    FnCompiler::lemma_kept_trans(&s0, &s6, self);
                }
            },
            BinOp::Or => {
                // `a || b`: if `a` is true, the result is true and `b` is not
                // evaluated.
                self.expr(lhs, Ghost(slots));
                let ghost s1 = *self;
                let eval_rhs = self.emit(Op::JumpIfFalse(UNPATCHED), Ghost(slots));
                let ghost s2 = *self;
                self.emit(Op::PushBool(true), Ghost(slots));
                let ghost s3 = *self;
                let end = self.emit(Op::Jump(UNPATCHED), Ghost(slots));
                let ghost s4 = *self;
                proof {
                    FnCompiler::lemma_kept_trans(&s2, &s3, &s4);
                    assert(same_shape(s2.code@[eval_rhs as int], s4.code@[eval_rhs as int]));
                }
                self.patch_to_here(eval_rhs, Ghost(slots));
                let ghost s5 = *self;
                self.expr(rhs, Ghost(slots));
                let ghost s6 = *self;
                proof {
                    FnCompiler::lemma_kept_trans(&s4, &s5, &s6);
                    assert(same_shape(s4.code@[end as int], s6.code@[end as int]));
                }
                self.patch_to_here(end, Ghost(slots));
                proof {
                    FnCompiler::lemma_kept_trans(&s0, &s1, &s2);
                    FnCompiler::lemma_kept_trans(&s0, &s2, &s4);
                    FnCompiler::lemma_kept_trans(&s0, &s4, &s6);
                    FnCompiler::lemma_kept_trans(&s0, &s6, self);
                }
            },
            _ => {
                self.expr(lhs, Ghost(slots));
                let ghost s1 = *self;
                self.expr(rhs, Ghost(slots));
                let ghost s2 = *self;
                let is_str = match lhs.ty {
                    Type::Str => true,
                    _ => false,
                };
                // `+` on strings is concatenation, not arithmetic.
                let instr = if op == BinOp::Add && is_str {
                    Op::ConcatStr
                } else {
                    arithmetic_op(op, lhs.ty)
                };
                self.emit(instr, Ghost(slots));
                proof {
                    FnCompiler::lemma_kept_trans(&s0, &s1, &s2);
                    FnCompiler::lemma_kept_trans(&s0, &s2, self);
                }
            },
        }
    }

    /// A call: the arguments, then the call instruction (`len` has an
    /// instruction of its own).
    fn call(&mut self, expr: &Expr, Ghost(slots): Ghost<nat>)
        requires
            old(self).inv(slots),
            expr_slots_below(*expr, slots),
            expr.kind is Call,
        ensures
            final(self).inv(slots),
            final(self).kept(old(self)),
            first_matches(first_e(*expr), final(self).code@[old(self).code@.len() as int]),
            final(self).code@.len() > old(self).code@.len(),
            final(self).code@.last() == (match expr.kind->Call_callee {
                Callee::Fn(id) => Op::Call { func: id.0 as usize, argc: expr.kind->Call_args@.len() as u8 },
                Callee::Builtin(Builtin::Len) => Op::ArrayLen,
                Callee::Builtin(b) => Op::CallBuiltin { builtin: b, argc: expr.kind->Call_args@.len() as u8 },
            }),
        decreases *expr, 1int,
    {
        let ghost s0 = *self;
        let (callee, args) = match &expr.kind {
            ExprKind::Call { callee, args } => (*callee, args),
            _ => {
                return ;
            },
        };
        proof {
            assert forall|k: int| 0 <= k < args@.len() implies decreases_to!(*expr => #[trigger] args@[k]) by {
                assert(decreases_to!(*expr => args@[k]));
            }
        }
        self.exprs(args, Ghost(slots), Ghost(expr));
        let ghost s1 = *self;
        let argc = args.len() as u8;
        match callee {
            Callee::Fn(id) => {
                self.emit(Op::Call { func: id.0 as usize, argc }, Ghost(slots));
            },
            Callee::Builtin(Builtin::Len) => {
                self.emit(Op::ArrayLen, Ghost(slots));
            },
            Callee::Builtin(builtin) => {
                self.emit(Op::CallBuiltin { builtin, argc }, Ghost(slots));
            },
        }
        proof {
            FnCompiler::lemma_kept_trans(&s0, &s1, self);
            assert(first_e(*expr) == first_k(expr.kind));
            if args@.len() > 0 {
                assert(first_es(args@) == first_e(args@[0]));
                lemma_first_kept(first_e(args@[0]), &s1, self, s0.code@.len() as int);
            } else {
                assert(s1.code@.len() == s0.code@.len());
            }
        }
    }

    /// `if cond { then } else { else }`: both arms leave one value; with no
    /// `else`, the `if` yields unit.
    fn if_expr(&mut self, expr: &Expr, Ghost(slots): Ghost<nat>)
        requires
            old(self).inv(slots),
            expr_slots_below(*expr, slots),
            expr.kind is If,
        ensures
            final(self).inv(slots),
            final(self).kept(old(self)),
            first_matches(first_e(*expr), final(self).code@[old(self).code@.len() as int]),
            final(self).code@.len() > old(self).code@.len() + 2,
            expr.kind->If_else_branch is None ==> final(self).code@.last() == Op::PushUnit,
        decreases *expr, 1int,
    {
        let ghost s0 = *self;
        let (cond, then_branch, else_branch) = match &expr.kind {
            ExprKind::If { cond, then_branch, else_branch } => (cond, then_branch, else_branch),
            _ => {
                return ;
            },
        };
        self.expr(cond, Ghost(slots));
        let ghost s1 = *self;
        let to_else = self.emit(Op::JumpIfFalse(UNPATCHED), Ghost(slots));
        let ghost s2 = *self;
        self.block_value(then_branch, Ghost(slots));
        let ghost s3 = *self;
        let to_end = self.emit(Op::Jump(UNPATCHED), Ghost(slots));
        let ghost s4 = *self;
        proof {
            FnCompiler::lemma_kept_trans(&s2, &s3, &s4);
            assert(same_shape(s2.code@[to_else as int], s4.code@[to_else as int]));
        }
        self.patch_to_here(to_else, Ghost(slots));
        let ghost s5 = *self;
        match else_branch {
            Some(e) => self.expr(e, Ghost(slots)),
            None => {
                self.emit(Op::PushUnit, Ghost(slots));
            },
        }
        let ghost s6 = *self;
        proof {
            FnCompiler::lemma_kept_trans(&s4, &s5, &s6);
            assert(same_shape(s4.code@[to_end as int], s6.code@[to_end as int]));
        }
        self.patch_to_here(to_end, Ghost(slots));
        proof {
            FnCompiler::lemma_kept_trans(&s0, &s1, &s2);
            FnCompiler::lemma_kept_trans(&s0, &s2, &s4);
            FnCompiler::lemma_kept_trans(&s0, &s4, &s6);
            FnCompiler::lemma_kept_trans(&s0, &s6, self);
        }
    }
}


/// Any expression names only slots a `u32` can number.
proof fn lemma_expr_slots_any(e: Expr)
    ensures
        expr_slots_below(e, 0x1_0000_0000),
    decreases e, 0int,
{
    match e.kind {
        ExprKind::Unary { rhs, .. } => lemma_expr_slots_any(*rhs),
        ExprKind::Binary { lhs, rhs, .. } => {
            lemma_expr_slots_any(*lhs);
            lemma_expr_slots_any(*rhs);
        },
        ExprKind::Call { args, .. } => lemma_exprs_slots_any(args@, args@.len()),
        ExprKind::Assign { value, .. } => lemma_expr_slots_any(*value),
        ExprKind::ArrayLit(es) => lemma_exprs_slots_any(es@, es@.len()),
        ExprKind::Index { base, index } => {
            lemma_expr_slots_any(*base);
            lemma_expr_slots_any(*index);
        },
        ExprKind::SetIndex { base, index, value } => {
            lemma_expr_slots_any(*base);
            lemma_expr_slots_any(*index);
            lemma_expr_slots_any(*value);
        },
        ExprKind::StructLit(es) => lemma_exprs_slots_any(es@, es@.len()),
        ExprKind::GetField { base, .. } => lemma_expr_slots_any(*base),
        ExprKind::SetField { base, value, .. } => {
            lemma_expr_slots_any(*base);
            lemma_expr_slots_any(*value);
        },
        ExprKind::If { cond, then_branch, else_branch } => {
            lemma_expr_slots_any(*cond);
            lemma_block_slots_any(then_branch);
            match else_branch {
                Some(e) => lemma_expr_slots_any(*e),
                None => {},
            }
        },
        ExprKind::Block(b) => lemma_block_slots_any(b),
        _ => {},
    }
}

proof fn lemma_exprs_slots_any(es: Seq<Expr>, k: nat)
    ensures
        exprs_slots_below(es, k, 0x1_0000_0000),
    decreases es, k,
{
    if k != 0 && k <= es.len() {
        lemma_exprs_slots_any(es, (k - 1) as nat);
        lemma_expr_slots_any(es[k - 1]);
    }
}

proof fn lemma_block_slots_any(b: Block)
    ensures
        block_slots_below(b, 0x1_0000_0000),
    decreases b, 1int,
{
    lemma_stmts_slots_any(b.stmts@, b.stmts@.len());
    match b.tail {
        Some(t) => lemma_expr_slots_any(*t),
        None => {},
    }
}

proof fn lemma_stmts_slots_any(ss: Seq<Stmt>, k: nat)
    ensures
        stmts_slots_below(ss, k, 0x1_0000_0000),
    decreases ss, k,
{
    if k != 0 && k <= ss.len() {
        lemma_stmts_slots_any(ss, (k - 1) as nat);
        lemma_stmt_slots_any(ss[k - 1]);
    }
}

proof fn lemma_stmt_slots_any(s: Stmt)
    ensures
        stmt_slots_below(s, 0x1_0000_0000),
    decreases s, 0int,
{
    match s {
        Stmt::Let { value, .. } => lemma_expr_slots_any(value),
        Stmt::Expr(e) => lemma_expr_slots_any(e),
        Stmt::Return(v) => match v {
            Some(e) => lemma_expr_slots_any(e),
            None => {},
        },
        Stmt::While { cond, body } => {
            lemma_expr_slots_any(cond);
            lemma_block_slots_any(body);
        },
        Stmt::For { start, end, body, .. } => {
            lemma_expr_slots_any(start);
            lemma_expr_slots_any(end);
            lemma_block_slots_any(body);
        },
        _ => {},
    }
}

/// What the compiled form of a function is: it keeps the function's name
/// and slot counts, ends in `return`, names only constants of its own pool
/// (which holds no string twice), jumps only within its code (or, for a
/// `break` or `continue` outside any loop, to the placeholder target), and,
/// for a well-formed function, names only its own local slots.
pub open spec fn compiled(f: Function, c: Chunk) -> bool {
    let code = c.code@;
    &&& c.name@ == f.name@
    &&& c.n_locals == f.locals@.len()
    &&& c.n_params == f.param_count
    &&& code.len() > 0
    &&& code.last() == Op::Return
    &&& distinct_strings(c.consts@)
    &&& forall|i: int| 0 <= i < code.len() ==> match #[trigger] code[i] {
        Op::PushStr(k) => k < c.consts@.len(),
        Op::Jump(t) => t < code.len() || t == UNPATCHED,
        Op::JumpIfFalse(t) => t < code.len() || t == UNPATCHED,
        Op::LoadLocal(s) => function_wf(f) ==> s < slot_bound(c.n_locals as nat),
        Op::StoreLocal(s) => function_wf(f) ==> s < slot_bound(c.n_locals as nat),
        _ => true,
    }
}

/// Compiles one function: its body's value is returned.
fn compile_function(func: &Function) -> (c: Chunk)
    ensures
        compiled(*func, c),
{
    let ghost slots: nat = if function_wf(*func) {
        slot_bound(func.locals@.len())
    } else {
        0x1_0000_0000
    };
    proof {
        if !function_wf(*func) {
            lemma_block_slots_any(func.body);
        }
    }
    let mut c = FnCompiler { code: Vec::new(), consts: Vec::new(), loops: Vec::new() };
    c.block_value(&func.body, Ghost(slots));
    let ghost before = c;
    c.emit(Op::Return, Ghost(slots));
    proof {
        assert forall|i: int| 0 <= i < c.code@.len() implies match #[trigger] c.code@[i] {
            Op::PushStr(k) => k < c.consts@.len(),
            Op::Jump(t) => t < c.code@.len() || t == UNPATCHED,
            Op::JumpIfFalse(t) => t < c.code@.len() || t == UNPATCHED,
            Op::LoadLocal(s) => function_wf(*func) ==> s < slot_bound(func.locals@.len()),
            Op::StoreLocal(s) => function_wf(*func) ==> s < slot_bound(func.locals@.len()),
            _ => true,
        } by {
            if i < before.code@.len() {
                assert(op_in_range(before.code@[i], before.code@.len(), before.consts@.len(), slots));
                assert(c.code@[i] == before.code@[i]);
            }
        }
    }
    Chunk {
        name: func.name.clone(),
        n_locals: func.locals.len(),
        n_params: func.param_count,
        code: c.code,
        consts: c.consts,
    }
}

/// Compiles a lowered program to bytecode: one chunk per function, in order,
/// with the same entry point.
pub fn generate(hir: &Hir) -> (p: Program)
    ensures
        p.functions@.len() == hir.functions@.len(),
        p.main == hir.main.0 as usize,
        forall|i: int| 0 <= i < p.functions@.len() ==> compiled(hir.functions@[i], #[trigger] p.functions@[i]),
{
    let mut functions: Vec<Chunk> = Vec::new();
    let mut i: usize = 0;
    while i < hir.functions.len()
        invariant
            i <= hir.functions@.len(),
            functions@.len() == i,
            forall|k: int| 0 <= k < i ==> compiled(hir.functions@[k], #[trigger] functions@[k]),
        decreases hir.functions@.len() - i,
    {
        let c = compile_function(&hir.functions[i]);
        functions.push(c);
        i = i + 1;
    }
    Program { functions, main: hir.main.0 as usize }
}

} // verus!
