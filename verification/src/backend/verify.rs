//! A bytecode verifier.
//!
//! The code generator only ever emits well-formed bytecode, but a [`Program`]
//! can also arrive from an untrusted source, such as a hand-edited object
//! file. Running such a program directly could make the VM index past the end
//! of the stack, jump to a bogus address, or read a local that does not
//! exist. [`verify`] rejects those programs up front with a clear diagnostic.
//!
//! The verifier abstractly interprets each function, tracking only the height
//! of the operand stack. Starting from an empty stack at the entry, it walks
//! every reachable instruction along both edges of each conditional jump and
//! establishes: no underflow; consistent heights where control-flow paths
//! merge; in-range local slots, string constants, jump and call targets, with
//! calls passing as many arguments as the callee declares; and no
//! fall-through past the last instruction.

use vstd::prelude::*;
use vstd::string::*;

use crate::backend::bytecode::{Chunk, Op, Program};
use crate::sema::types::{builtin_name, builtin_params, Builtin};
use crate::text::{decimal, push_decimal, push_str};

verus! {

/// The specific malformedness the bytecode verifier detected.
#[derive(Debug, Clone, PartialEq, Eq)]
pub enum VerifyErrorKind {
    /// An instruction needed more operands than the stack held.
    StackUnderflow { needed: usize, found: usize },
    /// Two paths reached one instruction with differing stack heights.
    InconsistentStack { expected: usize, found: usize },
    /// A jump or fall-through left the bounds of the code.
    JumpOutOfRange { target: usize },
    /// A local slot index was not within the function's locals.
    BadLocal { slot: u32, locals: usize },
    /// A string-constant index was not within the constant pool.
    BadConst { index: u32, consts: usize },
    /// A call named a function index that does not exist.
    BadCallTarget { target: usize, functions: usize },
    /// A call passed the wrong number of arguments for the callee.
    ArityMismatch { expected: usize, found: usize },
    /// A builtin call passed the wrong number of arguments.
    BuiltinArity { builtin: &'static str, expected: usize, found: usize },
    /// Control reached the end of the function without returning.
    FellOffEnd,
}

/// A reason a program was rejected, naming the offending function and offset.
#[derive(Debug, Clone, PartialEq, Eq)]
pub struct VerifyError {
    /// Index of the function in the program.
    pub func: usize,
    /// Name of the function, for a readable message.
    pub name: String,
    /// Instruction offset at which the problem was found.
    pub pc: usize,
    pub kind: VerifyErrorKind,
}

/// The description of a verifier finding.
pub open spec fn verify_kind_text(k: VerifyErrorKind) -> Seq<char> {
    match k {
        VerifyErrorKind::StackUnderflow { needed, found } => "stack underflow (needed "@ + decimal(needed as nat)
            + ", had "@ + decimal(found as nat) + ")"@,
        VerifyErrorKind::InconsistentStack { expected, found } => "inconsistent stack height ("@ + decimal(
            expected as nat,
        ) + " vs "@ + decimal(found as nat) + ")"@,
        VerifyErrorKind::JumpOutOfRange { target } => "jump target "@ + decimal(target as nat) + " is out of range"@,
        VerifyErrorKind::BadLocal { slot, locals } => "local slot "@ + decimal(slot as nat)
            + " out of range (function has "@ + decimal(locals as nat) + ")"@,
        VerifyErrorKind::BadConst { index, consts } => "string constant "@ + decimal(index as nat)
            + " out of range (pool has "@ + decimal(consts as nat) + ")"@,
        VerifyErrorKind::BadCallTarget { target, functions } => "call target "@ + decimal(target as nat)
            + " out of range ("@ + decimal(functions as nat) + " functions)"@,
        VerifyErrorKind::ArityMismatch { expected, found } => "call passes "@ + decimal(found as nat)
            + " arguments but callee takes "@ + decimal(expected as nat),
        VerifyErrorKind::BuiltinArity { builtin, expected, found } => "builtin `"@ + builtin@ + "` takes "@
            + decimal(expected as nat) + " arguments, got "@ + decimal(found as nat),
        VerifyErrorKind::FellOffEnd => "control runs past the end without returning"@,
    }
}

/// The message of a verifier finding: where, then what.
pub open spec fn verify_error_text(e: VerifyError) -> Seq<char> {
    "in `"@ + e.name@ + "` at offset "@ + decimal(e.pc as nat) + ": "@ + verify_kind_text(e.kind)
}

impl VerifyError {
    /// The finding's message.
    pub fn to_string(&self) -> (s: String)
        ensures
            s@ == verify_error_text(*self),
    {
        proof {
            reveal_strlit("in `");
            reveal_strlit("` at offset ");
            reveal_strlit(": ");
            reveal_strlit("stack underflow (needed ");
            reveal_strlit(", had ");
            reveal_strlit(")");
            reveal_strlit("inconsistent stack height (");
            reveal_strlit(" vs ");
            reveal_strlit("jump target ");
            reveal_strlit(" is out of range");
            reveal_strlit("local slot ");
            reveal_strlit(" out of range (function has ");
            reveal_strlit("string constant ");
            reveal_strlit(" out of range (pool has ");
            reveal_strlit("call target ");
            reveal_strlit(" out of range (");
            reveal_strlit(" functions)");
            reveal_strlit("call passes ");
            reveal_strlit(" arguments but callee takes ");
            reveal_strlit("builtin `");
            reveal_strlit("` takes ");
            reveal_strlit(" arguments, got ");
            reveal_strlit("control runs past the end without returning");
        }
        let mut s = "in `".to_owned();
        push_str(&mut s, self.name.as_str());
        push_str(&mut s, "` at offset ");
        push_decimal(&mut s, self.pc as u64);
        push_str(&mut s, ": ");
        let ghost head = s@;
        match &self.kind {
            VerifyErrorKind::StackUnderflow { needed, found } => {
                push_str(&mut s, "stack underflow (needed ");
                push_decimal(&mut s, *needed as u64);
                push_str(&mut s, ", had ");
                push_decimal(&mut s, *found as u64);
                push_str(&mut s, ")");
            },
            VerifyErrorKind::InconsistentStack { expected, found } => {
                push_str(&mut s, "inconsistent stack height (");
                push_decimal(&mut s, *expected as u64);
                push_str(&mut s, " vs ");
                push_decimal(&mut s, *found as u64);
                push_str(&mut s, ")");
            },
            VerifyErrorKind::JumpOutOfRange { target } => {
                push_str(&mut s, "jump target ");
                push_decimal(&mut s, *target as u64);
                push_str(&mut s, " is out of range");
            },
            VerifyErrorKind::BadLocal { slot, locals } => {
                push_str(&mut s, "local slot ");
                push_decimal(&mut s, *slot as u64);
                push_str(&mut s, " out of range (function has ");
                push_decimal(&mut s, *locals as u64);
                push_str(&mut s, ")");
            },
            VerifyErrorKind::BadConst { index, consts } => {
                push_str(&mut s, "string constant ");
                push_decimal(&mut s, *index as u64);
                push_str(&mut s, " out of range (pool has ");
                push_decimal(&mut s, *consts as u64);
                push_str(&mut s, ")");
            },
            VerifyErrorKind::BadCallTarget { target, functions } => {
                push_str(&mut s, "call target ");
                push_decimal(&mut s, *target as u64);
                push_str(&mut s, " out of range (");
                push_decimal(&mut s, *functions as u64);
                push_str(&mut s, " functions)");
            },
            VerifyErrorKind::ArityMismatch { expected, found } => {
                push_str(&mut s, "call passes ");
                push_decimal(&mut s, *found as u64);
                push_str(&mut s, " arguments but callee takes ");
                push_decimal(&mut s, *expected as u64);
            },
            VerifyErrorKind::BuiltinArity { builtin, expected, found } => {
                push_str(&mut s, "builtin `");
                push_str(&mut s, builtin);
                push_str(&mut s, "` takes ");
                push_decimal(&mut s, *expected as u64);
                push_str(&mut s, " arguments, got ");
                push_decimal(&mut s, *found as u64);
            },
            VerifyErrorKind::FellOffEnd => {
                push_str(&mut s, "control runs past the end without returning");
            },
        }
        s
    }
}


/// The operand-stack effect of an instruction: how many values it needs
/// beneath it, and how many it pushes after popping those.
pub open spec fn op_effect(op: Op) -> (nat, nat) {
    match op {
        Op::PushInt(_) | Op::PushFloat(_) | Op::PushBool(_) | Op::PushUnit | Op::PushStr(_)
        | Op::LoadLocal(_) => (0, 1),
        Op::StoreLocal(_) | Op::Pop => (1, 0),
        Op::AddInt | Op::SubInt | Op::MulInt | Op::DivInt | Op::RemInt => (2, 1),
        Op::AddFloat | Op::SubFloat | Op::MulFloat | Op::DivFloat | Op::RemFloat => (2, 1),
        Op::LtInt | Op::LeInt | Op::GtInt | Op::GeInt => (2, 1),
        Op::LtFloat | Op::LeFloat | Op::GtFloat | Op::GeFloat => (2, 1),
        Op::ConcatStr | Op::Eq | Op::Ne => (2, 1),
        Op::NegInt | Op::NegFloat | Op::NotBool | Op::ArrayLen => (1, 1),
        Op::MakeArray(n) => (n as nat, 1),
        Op::Index => (2, 1),
        Op::SetIndex => (3, 1),
        Op::Jump(_) => (0, 0),
        Op::JumpIfFalse(_) => (1, 0),
        Op::Call { argc, .. } => (argc as nat, 1),
        Op::CallBuiltin { argc, .. } => (argc as nat, 1),
        Op::Return => (1, 0),
    }
}

/// The number of arguments a builtin takes: one for the generic `len`, the
/// length of its parameter list for every other.
pub open spec fn builtin_arity(b: Builtin) -> nat {
    if b is Len {
        1
    } else {
        builtin_params(b).len()
    }
}

/// Whether the index and arity operands an instruction carries refer to
/// something that exists.
pub open spec fn operands_ok(program: &Program, chunk: &Chunk, op: Op) -> bool {
    match op {
        Op::LoadLocal(slot) | Op::StoreLocal(slot) => slot < chunk.n_locals,
        Op::PushStr(index) => index < chunk.consts@.len(),
        Op::Call { func, argc } => func < program.functions@.len()
            && program.functions@[func as int].n_params == argc,
        Op::CallBuiltin { builtin, argc } => builtin_arity(builtin) == argc,
        _ => true,
    }
}

/// Whether an edge to `target` arrives with stack height `height` under the
/// height assignment `hs`.
pub open spec fn edge_ok(hs: Seq<Option<usize>>, target: int, height: int) -> bool {
    &&& 0 <= target < hs.len()
    &&& hs[target] matches Some(h) && h == height
}

/// Whether instruction `pc`, entered at the height `hs` gives it, has its
/// operands, and leaves along each of its edges at the height `hs` gives the
/// successor.
pub open spec fn step_ok(program: &Program, chunk: &Chunk, hs: Seq<Option<usize>>, pc: int) -> bool {
    let op = chunk.code@[pc];
    let h = hs[pc]->0;
    let (needed, pushes) = op_effect(op);
    let next = h - needed + pushes;
    &&& needed <= h
    &&& operands_ok(program, chunk, op)
    &&& match op {
        Op::Return => true,
        Op::Jump(target) => edge_ok(hs, target as int, next),
        Op::JumpIfFalse(target) => edge_ok(hs, target as int, next) && edge_ok(hs, pc + 1, next),
        _ => edge_ok(hs, pc + 1, next),
    }
}

/// A stack height for each instruction of function `f` that control can
/// reach: there is an entry instruction (control cannot run off the end of
/// empty code), the entry starts empty, and every instruction that has a
/// height steps soundly to successors that agree with it.
pub open spec fn heights_ok(program: &Program, f: int, hs: Seq<Option<usize>>) -> bool {
    let chunk = program.functions@[f];
    &&& hs.len() == chunk.code@.len()
    &&& chunk.code@.len() > 0
    &&& hs[0] == Some(0usize)
    &&& forall|pc: int| 0 <= pc < hs.len() && hs[pc] is Some ==> #[trigger] step_ok(program, &chunk, hs, pc)
}

/// Whether function `f` of a program is well formed.
pub open spec fn chunk_verifies(program: &Program, f: int) -> bool {
    exists|hs: Seq<Option<usize>>| heights_ok(program, f, hs)
}

/// Whether a whole program is well formed: its entry exists and every
/// function verifies.
pub open spec fn program_verifies(program: &Program) -> bool {
    &&& program.main < program.functions@.len()
    &&& forall|f: int| 0 <= f < program.functions@.len() ==> #[trigger] chunk_verifies(program, f)
}

/// Whether the reported finding names a real fault at its offset of the
/// function it names.
pub open spec fn fault_at(program: &Program, e: VerifyError) -> bool {
    let chunk = program.functions@[e.func as int];
    let code = chunk.code@;
    let n = code.len();
    let pc = e.pc as int;
    &&& pc < n || (n == 0 && pc == 0 && e.kind is FellOffEnd)
    &&& match e.kind {
        VerifyErrorKind::StackUnderflow { needed, found } => needed == op_effect(code[pc]).0 && found < needed,
        VerifyErrorKind::InconsistentStack { expected, found } => expected != found,
        VerifyErrorKind::JumpOutOfRange { target } => target >= n && match code[pc] {
            Op::Jump(t) => t == target,
            Op::JumpIfFalse(t) => t == target || pc + 1 == target,
            _ => false,
        },
        VerifyErrorKind::BadLocal { slot, locals } => (code[pc] == Op::LoadLocal(slot) || code[pc]
            == Op::StoreLocal(slot)) && locals == chunk.n_locals && slot >= locals,
        VerifyErrorKind::BadConst { index, consts } => code[pc] == Op::PushStr(index) && consts
            == chunk.consts@.len() && index >= consts,
        VerifyErrorKind::BadCallTarget { target, functions } => (code[pc] matches Op::Call { func, .. }
            && func == target) && functions == program.functions@.len() && target >= functions,
        VerifyErrorKind::ArityMismatch { expected, found } => code[pc] matches Op::Call { func, argc }
            && func < program.functions@.len() && expected == program.functions@[func as int].n_params
            && found == argc && expected != found,
        VerifyErrorKind::BuiltinArity { builtin, expected, found } => code[pc] matches Op::CallBuiltin {
            builtin: b,
            argc,
        } && builtin@ == builtin_name(b) && expected == builtin_arity(b) && found == argc && expected != found,
        VerifyErrorKind::FellOffEnd => n == 0 || (pc == n - 1 && !(code[pc] is Return) && !(code[pc] is Jump)
            && !(code[pc] is JumpIfFalse)),
    }
}

/// The number of instructions that have a height.
pub open spec fn count_known(hs: Seq<Option<usize>>) -> nat
    decreases hs.len(),
{
    if hs.len() == 0 {
        0
    } else {
        count_known(hs.drop_last()) + if hs.last() is Some {
            1nat
        } else {
            0nat
        }
    }
}

proof fn lemma_count_known_bound(hs: Seq<Option<usize>>)
    ensures
        count_known(hs) <= hs.len(),
    decreases hs.len(),
{
    if hs.len() > 0 {
        lemma_count_known_bound(hs.drop_last());
    }
}

proof fn lemma_count_known_none(hs: Seq<Option<usize>>)
    requires
        forall|i: int| 0 <= i < hs.len() ==> #[trigger] hs[i] is None,
    ensures
        count_known(hs) == 0,
    decreases hs.len(),
{
    if hs.len() > 0 {
        lemma_count_known_none(hs.drop_last());
    }
}

proof fn lemma_count_known_update(hs: Seq<Option<usize>>, i: int, h: usize)
    requires
        0 <= i < hs.len(),
        hs[i] is None,
    ensures
        count_known(hs.update(i, Some(h))) == count_known(hs) + 1,
    decreases hs.len(),
{
    let u = hs.update(i, Some(h));
    if i == hs.len() - 1 {
        assert(u.drop_last() =~= hs.drop_last());
    } else {
        lemma_count_known_update(hs.drop_last(), i, h);
        assert(u.drop_last() =~= hs.drop_last().update(i, Some(h)));
    }
}

/// Whether the work list still holds `pc`.
pub open spec fn pending(work: Seq<(usize, usize)>, pc: int) -> bool {
    exists|i: int| 0 <= i < work.len() && #[trigger] work[i].0 == pc
}

/// Giving a height to an instruction that had none keeps every established
/// step sound.
proof fn lemma_step_ok_grow(program: &Program, chunk: &Chunk, hs: Seq<Option<usize>>, t: int, h: usize, pc: int)
    requires
        0 <= t < hs.len(),
        hs[t] is None,
        0 <= pc < hs.len(),
        hs[pc] is Some,
        step_ok(program, chunk, hs, pc),
    ensures
        step_ok(program, chunk, hs.update(t, Some(h)), pc),
{
}

/// An instruction's stack effect.
struct Effect {
    needed: usize,
    pushes: usize,
}

fn effect(op: &Op) -> (e: Effect)
    ensures
        e.needed == op_effect(*op).0,
        e.pushes == op_effect(*op).1,
{
    match op {
        Op::PushInt(_) | Op::PushFloat(_) | Op::PushBool(_) | Op::PushUnit | Op::PushStr(_)
        | Op::LoadLocal(_) => Effect { needed: 0, pushes: 1 },
        Op::StoreLocal(_) | Op::Pop => Effect { needed: 1, pushes: 0 },
        Op::AddInt | Op::SubInt | Op::MulInt | Op::DivInt | Op::RemInt => Effect { needed: 2, pushes: 1 },
        Op::AddFloat | Op::SubFloat | Op::MulFloat | Op::DivFloat | Op::RemFloat => Effect {
            needed: 2,
            pushes: 1,
        },
        Op::LtInt | Op::LeInt | Op::GtInt | Op::GeInt => Effect { needed: 2, pushes: 1 },
        Op::LtFloat | Op::LeFloat | Op::GtFloat | Op::GeFloat => Effect { needed: 2, pushes: 1 },
        Op::ConcatStr | Op::Eq | Op::Ne => Effect { needed: 2, pushes: 1 },
        Op::NegInt | Op::NegFloat | Op::NotBool | Op::ArrayLen => Effect { needed: 1, pushes: 1 },
        Op::MakeArray(n) => Effect { needed: *n as usize, pushes: 1 },
        Op::Index => Effect { needed: 2, pushes: 1 },
        Op::SetIndex => Effect { needed: 3, pushes: 1 },
        Op::Jump(_) => Effect { needed: 0, pushes: 0 },
        Op::JumpIfFalse(_) => Effect { needed: 1, pushes: 0 },
        Op::Call { argc, .. } => Effect { needed: *argc as usize, pushes: 1 },
        Op::CallBuiltin { argc, .. } => Effect { needed: *argc as usize, pushes: 1 },
        Op::Return => Effect { needed: 1, pushes: 0 },
    }
}

/// The number of arguments a builtin expects.
fn builtin_arity_of(builtin: Builtin) -> (n: usize)
    ensures
        n == builtin_arity(builtin),
{
    if builtin.is_generic() {
        1
    } else {
        builtin.params().len()
    }
}

/// Checks the index and arity operands an instruction carries.
fn check_operands(program: &Program, chunk: &Chunk, op: &Op) -> (r: Result<(), VerifyErrorKind>)
    ensures
        r is Ok <==> operands_ok(program, chunk, *op),
        r matches Err(kind) ==> match kind {
            VerifyErrorKind::BadLocal { slot, locals } => (*op == Op::LoadLocal(slot) || *op == Op::StoreLocal(
                slot,
            )) && locals == chunk.n_locals && slot >= locals,
            VerifyErrorKind::BadConst { index, consts } => *op == Op::PushStr(index) && consts
                == chunk.consts@.len() && index >= consts,
            VerifyErrorKind::BadCallTarget { target, functions } => (*op matches Op::Call { func, .. } && func
                == target) && functions == program.functions@.len() && target >= functions,
            VerifyErrorKind::ArityMismatch { expected, found } => *op matches Op::Call { func, argc } && func
                < program.functions@.len() && expected == program.functions@[func as int].n_params && found
                == argc && expected != found,
            VerifyErrorKind::BuiltinArity { builtin, expected, found } => *op matches Op::CallBuiltin {
                builtin: b,
                argc,
            } && builtin@ == builtin_name(b) && expected == builtin_arity(b) && found == argc && expected
                != found,
            _ => false,
        },
{
    match op {
        Op::LoadLocal(slot) | Op::StoreLocal(slot) => {
            if *slot as usize >= chunk.n_locals {
                return Err(VerifyErrorKind::BadLocal { slot: *slot, locals: chunk.n_locals });
            }
        },
        Op::PushStr(index) => {
            if *index as usize >= chunk.consts.len() {
                return Err(VerifyErrorKind::BadConst { index: *index, consts: chunk.consts.len() });
            }
        },
        Op::Call { func, argc } => {
            if *func >= program.functions.len() {
                return Err(
                    VerifyErrorKind::BadCallTarget { target: *func, functions: program.functions.len() },
                );
            }
            let callee = &program.functions[*func];
            if callee.n_params != *argc as usize {
                return Err(
                    VerifyErrorKind::ArityMismatch { expected: callee.n_params, found: *argc as usize },
                );
            }
        },
        Op::CallBuiltin { builtin, argc } => {
            let expected = builtin_arity_of(*builtin);
            if expected != *argc as usize {
                return Err(
                    VerifyErrorKind::BuiltinArity {
                        builtin: builtin.name(),
                        expected,
                        found: *argc as usize,
                    },
                );
            }
        },
        _ => {},
    }
    Ok(())
}


/// What holds of the search state between instructions: every height is
/// bounded by the number of instructions reached so far, every queued entry
/// records its instruction's height, and every reached instruction other
/// than `cur` either steps soundly or is still queued.
pub open spec fn search_inv(
    program: &Program,
    chunk: &Chunk,
    hs: Seq<Option<usize>>,
    work: Seq<(usize, usize)>,
    cur: int,
) -> bool {
    &&& hs.len() == chunk.code@.len()
    &&& count_known(hs) <= hs.len()
    &&& forall|p: int| 0 <= p < hs.len() && #[trigger] hs[p] is Some ==> hs[p]->0 < count_known(hs)
    &&& forall|i: int|
        0 <= i < work.len() ==> (#[trigger] work[i]).0 < hs.len() && hs[work[i].0 as int] == Some(work[i].1)
    &&& forall|p: int|
        0 <= p < hs.len() && p != cur && hs[p] is Some ==> #[trigger] step_ok(program, chunk, hs, p) || pending(
            work,
            p,
        )
}

/// Reaching a new instruction keeps the search state sound.
proof fn lemma_reach(
    program: &Program,
    chunk: &Chunk,
    hs: Seq<Option<usize>>,
    work: Seq<(usize, usize)>,
    cur: int,
    t: int,
    h: usize,
)
    requires
        search_inv(program, chunk, hs, work, cur),
        0 <= t < hs.len(),
        hs[t] is None,
        h <= count_known(hs),
        hs.len() <= usize::MAX,
    ensures
        search_inv(program, chunk, hs.update(t, Some(h)), work.push((t as usize, h)), cur),
        count_known(hs.update(t, Some(h))) == count_known(hs) + 1,
{
    let hs2 = hs.update(t, Some(h));
    let work2 = work.push((t as usize, h));
    lemma_count_known_update(hs, t, h);
    lemma_count_known_bound(hs2);
    assert forall|i: int| 0 <= i < work2.len() implies (#[trigger] work2[i]).0 < hs2.len() && hs2[work2[i].0 as int]
        == Some(work2[i].1) by {
        if i < work.len() {
            assert(work2[i] == work[i]);
            assert(hs[work[i].0 as int] is Some);
            assert(work[i].0 != t);
        } else {
            assert(work2[i] == (t as usize, h));
        }
    }
    assert forall|p: int|
        0 <= p < hs2.len() && p != cur && hs2[p] is Some implies #[trigger] step_ok(program, chunk, hs2, p)
            || pending(work2, p) by {
        if p == t {
            assert(work2[work.len() as int] == (t as usize, h));
            assert(work2[work.len() as int].0 == p);
        } else if step_ok(program, chunk, hs, p) {
            lemma_step_ok_grow(program, chunk, hs, t, h, p);
        } else {
            let i = choose|i: int| 0 <= i < work.len() && #[trigger] work[i].0 == p;
            assert(work2[i] == work[i]);
        }
    }
}

/// Records a control-flow edge to `target` arriving with stack height
/// `height`, from instruction `from`: a first arrival fixes the target's
/// height and queues it; a later one must agree.
fn push_edge(
    target: usize,
    height: usize,
    from: usize,
    heights: &mut Vec<Option<usize>>,
    work: &mut Vec<(usize, usize)>,
) -> (r: Result<(), (usize, VerifyErrorKind)>)
    ensures
        r is Ok <==> target < old(heights)@.len() && (old(heights)@[target as int] is None
            || old(heights)@[target as int] == Some(height)),
        r is Ok && old(heights)@[target as int] is Some ==> final(heights)@ == old(heights)@ && final(work)@
            == old(work)@,
        r is Ok && old(heights)@[target as int] is None ==> final(heights)@ == old(heights)@.update(
            target as int,
            Some(height),
        ) && final(work)@ == old(work)@.push((target, height)),
        r matches Err((pc, kind)) ==> if target >= old(heights)@.len() {
            pc == from && kind == VerifyErrorKind::JumpOutOfRange { target }
        } else {
            &&& old(heights)@[target as int] is Some
            &&& old(heights)@[target as int]->0 != height
            &&& pc == target
            &&& kind == VerifyErrorKind::InconsistentStack {
                expected: old(heights)@[target as int]->0,
                found: height,
            }
        },
{
    if target >= heights.len() {
        return Err((from, VerifyErrorKind::JumpOutOfRange { target }));
    }
    match heights[target] {
        Some(existing) => {
            if existing != height {
                Err((target, VerifyErrorKind::InconsistentStack { expected: existing, found: height }))
            } else {
                Ok(())
            }
        },
        None => {
            heights.set(target, Some(height));
            work.push((target, height));
            Ok(())
        },
    }
}

/// The finding at offset `pc` of function `func`.
fn finding(func: usize, chunk: &Chunk, pc: usize, kind: VerifyErrorKind) -> (e: VerifyError)
    ensures
        e.func == func,
        e.name@ == chunk.name@,
        e.pc == pc,
        e.kind == kind,
{
    VerifyError { func, name: chunk.name.clone(), pc, kind }
}

/// Verifies one function of a program.
#[verifier::rlimit(60)]
fn verify_chunk(program: &Program, func: usize) -> (r: Result<(), VerifyError>)
    requires
        func < program.functions@.len(),
    ensures
        r is Ok <==> chunk_verifies(program, func as int),
        r matches Err(e) ==> e.func == func && e.name@ == program.functions@[func as int].name@ && fault_at(
            program,
            e,
        ),
{
    let chunk = &program.functions[func];
    let n = chunk.code.len();
    if n == 0 {
        // Empty code has no instruction to return from: control runs off
        // the end at once.
        return Err(finding(func, chunk, 0, VerifyErrorKind::FellOffEnd));
    }
    let ghost wit = choose|hs: Seq<Option<usize>>| heights_ok(program, func as int, hs);
    let ghost wit_ok = heights_ok(program, func as int, wit);
    let mut heights: Vec<Option<usize>> = Vec::new();
    let mut k: usize = 0;
    while k < n
        invariant
            k <= n,
            heights@.len() == k,
            forall|p: int| 0 <= p < k ==> #[trigger] heights@[p] is None,
        decreases n - k,
    {
        heights.push(None);
        k = k + 1;
    }
    let mut work: Vec<(usize, usize)> = Vec::new();
    proof {
        lemma_count_known_none(heights@);
        lemma_reach(program, chunk, heights@, work@, -1, 0, 0);
    }
    heights.set(0, Some(0));
    work.push((0, 0));
    while work.len() > 0
        invariant
            func < program.functions@.len(),
            *chunk == program.functions@[func as int],
            n == chunk.code@.len(),
            n > 0,
            heights@[0] == Some(0usize),
            search_inv(program, chunk, heights@, work@, -1),
            wit_ok == heights_ok(program, func as int, wit),
            chunk_verifies(program, func as int) ==> wit_ok,
            wit_ok ==> forall|p: int| 0 <= p < n && #[trigger] heights@[p] is Some ==> wit[p] == heights@[p],
        decreases n - count_known(heights@), work@.len(),
    {
        let ghost hs0 = heights@;
        let ghost work0 = work@;
        let (pc, height) = work.pop().unwrap();
        assert(work0[work0.len() - 1] == (pc, height));
        let op = &chunk.code[pc];
        proof {
            assert(search_inv(program, chunk, heights@, work@, pc as int)) by {
                assert forall|p: int|
                    0 <= p < heights@.len() && p != pc && heights@[p] is Some implies #[trigger] step_ok(
                        program,
                        chunk,
                        heights@,
                        p,
                    ) || pending(work@, p) by {
                    if !step_ok(program, chunk, heights@, p) {
                        let i = choose|i: int| 0 <= i < work0.len() && #[trigger] work0[i].0 == p;
                        assert(i != work0.len() - 1);
                        assert(work@[i] == work0[i]);
                    }
                }
                assert forall|i: int| 0 <= i < work@.len() implies (#[trigger] work@[i]).0 < heights@.len()
                    && heights@[work@[i].0 as int] == Some(work@[i].1) by {
                    assert(work@[i] == work0[i]);
                }
            }
            if wit_ok {
                assert(heights@[pc as int] is Some);
                assert(step_ok(program, chunk, wit, pc as int));
            }
        }
        let e = effect(op);
        if height < e.needed {
            proof {
                if chunk_verifies(program, func as int) {
                    assert(wit_ok);
                }
            }
            return Err(finding(func, chunk, pc, VerifyErrorKind::StackUnderflow { needed: e.needed, found: height }));
        }
        match check_operands(program, chunk, op) {
            Err(kind) => {
                proof {
                    if chunk_verifies(program, func as int) {
                        assert(wit_ok);
                    }
                }
                return Err(finding(func, chunk, pc, kind));
            },
            Ok(()) => {},
        }
        assert(heights@[pc as int] is Some);
        assert(height < count_known(heights@));
        let next = height - e.needed + e.pushes;
        let ghost hs1 = heights@;
        let ghost w1 = work@;
        match op {
            Op::Return => {},
            Op::Jump(target) => {
                match push_edge(*target, next, pc, &mut heights, &mut work) {
                    Err((at, kind)) => {
                        proof {
                            if chunk_verifies(program, func as int) {
                                assert(wit_ok);
                            }
                        }
                        return Err(finding(func, chunk, at, kind));
                    },
                    Ok(()) => {},
                }
                proof {
                    if hs1[*target as int] is None {
                        lemma_reach(program, chunk, hs1, w1, pc as int, *target as int, next);
                    }
                }
            },
            Op::JumpIfFalse(target) => {
                match push_edge(*target, next, pc, &mut heights, &mut work) {
                    Err((at, kind)) => {
                        proof {
                            if chunk_verifies(program, func as int) {
                                assert(wit_ok);
                            }
                        }
                        return Err(finding(func, chunk, at, kind));
                    },
                    Ok(()) => {},
                }
                proof {
                    if hs1[*target as int] is None {
                        lemma_reach(program, chunk, hs1, w1, pc as int, *target as int, next);
                    }
                }
                let ghost hs2 = heights@;
                let ghost w2 = work@;
                assert(next <= count_known(hs2));
                match push_edge(pc + 1, next, pc, &mut heights, &mut work) {
                    Err((at, kind)) => {
                        proof {
                            if chunk_verifies(program, func as int) {
                                assert(wit_ok);
                            }
                        }
                        return Err(finding(func, chunk, at, kind));
                    },
                    Ok(()) => {},
                }
                proof {
                    if hs2[pc + 1] is None {
                        lemma_reach(program, chunk, hs2, w2, pc as int, pc + 1, next);
                    }
                }
            },
            _ => {
                if pc + 1 >= n {
                    proof {
                        if chunk_verifies(program, func as int) {
                            assert(wit_ok);
                        }
                    }
                    return Err(finding(func, chunk, pc, VerifyErrorKind::FellOffEnd));
                }
                match push_edge(pc + 1, next, pc, &mut heights, &mut work) {
                    Err((at, kind)) => {
                        proof {
                            if chunk_verifies(program, func as int) {
                                assert(wit_ok);
                            }
                        }
                        return Err(finding(func, chunk, at, kind));
                    },
                    Ok(()) => {},
                }
                proof {
                    if hs1[pc + 1] is None {
                        lemma_reach(program, chunk, hs1, w1, pc as int, pc + 1, next);
                    }
                }
            },
        }
        proof {
            assert(step_ok(program, chunk, heights@, pc as int));
        }
    }
    proof {
        assert(heights_ok(program, func as int, heights@));
    }
    Ok(())
}

/// Verifies an entire program, returning the first problem found: an entry
/// index out of range, or else the first function, in order, that does not
/// verify.
pub fn verify(program: &Program) -> (r: Result<(), VerifyError>)
    ensures
        r is Ok <==> program_verifies(program),
        program.main >= program.functions@.len() ==> (r matches Err(e) && e.func == program.main && e.name@
            == "<entry>"@ && e.pc == 0 && e.kind == (VerifyErrorKind::BadCallTarget {
            target: program.main,
            functions: program.functions@.len() as usize,
        })),
        program.main < program.functions@.len() ==> (r matches Err(e) ==> e.func < program.functions@.len()
            && !chunk_verifies(program, e.func as int) && (forall|g: int|
            0 <= g < e.func ==> #[trigger] chunk_verifies(program, g)) && e.name@
            == program.functions@[e.func as int].name@ && fault_at(program, e)),
{
    if program.main >= program.functions.len() {
        return Err(
            VerifyError {
                func: program.main,
                name: "<entry>".to_owned(),
                pc: 0,
                kind: VerifyErrorKind::BadCallTarget { target: program.main, functions: program.functions.len() },
            },
        );
    }
    let mut i: usize = 0;
    while i < program.functions.len()
        invariant
            i <= program.functions@.len(),
            program.main < program.functions@.len(),
            forall|g: int| 0 <= g < i ==> #[trigger] chunk_verifies(program, g),
        decreases program.functions@.len() - i,
    {
        match verify_chunk(program, i) {
            Err(e) => {
                return Err(e);
            },
            Ok(()) => {},
        }
        i = i + 1;
    }
    Ok(())
}

} // verus!
