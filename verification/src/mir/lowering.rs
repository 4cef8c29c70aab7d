//! Lowering from HIR to MIR.
//!
//! Expressions are flattened into a sequence of three-address instructions
//! writing to fresh [`Reg`]s, and every control-flow construct is turned into
//! explicit basic blocks and branches:
//!
//! * `if` evaluates each arm into a synthesised result local, then both arms
//!   jump to a common merge block that loads it.
//! * `while`/`for` become header/body/after blocks; `break`/`continue` jump to
//!   the after/continuation block of the innermost loop (tracked on a stack).
//! * `&&`/`||` short-circuit through a temporary local, mirroring their
//!   runtime semantics.
//!
//! What a built function is stated as is its shape: every branch names a
//! block of the function, and every block ends in a real terminator.

use vstd::prelude::*;

use crate::hir;
use crate::hir::view::{
    bv, ev, evs, lemma_evs_len, lemma_svs_len, local_v, locals_v, sv, svs, BlockV, ExprV, KindV, StmtV,
};
use crate::hir::{BinOp, ExprKind, Hir, LocalDecl, LocalId, Stmt};
use crate::mir::{succs, Block, BlockId, Const, Function, Inst, Operand, Program, Reg, Rvalue, Terminator};
use crate::sema::types::Type;
use crate::text::{cat3, decimal_string};

verus! {

/// Whether every block a terminator may go to is below `n`.
pub open spec fn targets_below(t: Terminator, n: nat) -> bool {
    forall|i: int| 0 <= i < succs(t).len() ==> (#[trigger] succs(t)[i]).0 < n
}

/// Whether every branch of a list of blocks names one of them.
pub open spec fn targets_ok(bs: Seq<Block>) -> bool {
    forall|i: int| 0 <= i < bs.len() ==> targets_below(#[trigger] bs[i].term, bs.len())
}

/// Whether a built function is a finished control-flow graph: its entry is
/// one of its blocks, every branch names one of its blocks, and, where its
/// blocks can all be numbered, every block ends in a real terminator.
pub open spec fn finished(f: Function) -> bool {
    &&& (f.entry.0 as int) < f.blocks@.len()
    &&& targets_ok(f.blocks@)
    &&& f.blocks@.len() <= u32::MAX ==> forall|i: int|
        0 <= i < f.blocks@.len() ==> !((#[trigger] f.blocks@[i]).term is Unreachable)
}

/// Whether every `break` and `continue` in an expression stands inside a
/// loop (`inside` tells whether the expression itself does).
pub open spec fn jumps_e(e: ExprV, inside: bool) -> bool
    decreases e, 1int,
{
    jumps_k(e.kind, inside)
}

/// [`jumps_e`] of a node.
pub open spec fn jumps_k(k: KindV, inside: bool) -> bool
    decreases k, 0int,
{
    match k {
        KindV::Unary { rhs, .. } => jumps_e(*rhs, inside),
        KindV::Binary { lhs, rhs, .. } => jumps_e(*lhs, inside) && jumps_e(*rhs, inside),
        KindV::Call { args, .. } => jumps_es(args, args.len(), inside),
        KindV::Assign { value, .. } => jumps_e(*value, inside),
        KindV::ArrayLit(es) => jumps_es(es, es.len(), inside),
        KindV::StructLit(es) => jumps_es(es, es.len(), inside),
        KindV::Index { base, index } => jumps_e(*base, inside) && jumps_e(*index, inside),
        KindV::SetIndex { base, index, value } => jumps_e(*base, inside) && jumps_e(*index, inside) && jumps_e(
            *value,
            inside,
        ),
        KindV::GetField { base, .. } => jumps_e(*base, inside),
        KindV::SetField { base, value, .. } => jumps_e(*base, inside) && jumps_e(*value, inside),
        KindV::If { cond, then_branch, else_branch } => jumps_e(*cond, inside) && jumps_b(then_branch, inside)
            && match else_branch {
            Some(e) => jumps_e(*e, inside),
            None => true,
        },
        KindV::Block(b) => jumps_b(b, inside),
        _ => true,
    }
}

/// [`jumps_e`] of the first `n` expressions.
pub open spec fn jumps_es(es: Seq<ExprV>, n: nat, inside: bool) -> bool
    decreases es, n,
{
    if n == 0 || n > es.len() {
        true
    } else {
        jumps_es(es, (n - 1) as nat, inside) && jumps_e(es[n - 1], inside)
    }
}

/// [`jumps_e`] of a block.
pub open spec fn jumps_b(b: BlockV, inside: bool) -> bool
    decreases b, 1int,
{
    jumps_ss(b.stmts, b.stmts.len(), inside) && match b.tail {
        Some(t) => jumps_e(*t, inside),
        None => true,
    }
}

/// [`jumps_e`] of the first `n` statements.
pub open spec fn jumps_ss(ss: Seq<StmtV>, n: nat, inside: bool) -> bool
    decreases ss, n,
{
    if n == 0 || n > ss.len() {
        true
    } else {
        jumps_ss(ss, (n - 1) as nat, inside) && jumps_s(ss[n - 1], inside)
    }
}

/// [`jumps_e`] of a statement: a loop's body is inside it.
pub open spec fn jumps_s(s: StmtV, inside: bool) -> bool
    decreases s, 0int,
{
    match s {
        StmtV::Let { value, .. } => jumps_e(value, inside),
        StmtV::Expr(e) => jumps_e(e, inside),
        StmtV::Return(Some(e)) => jumps_e(e, inside),
        StmtV::While { cond, body } => jumps_e(cond, inside) && jumps_b(body, true),
        StmtV::For { start, end, body, .. } => jumps_e(start, inside) && jumps_e(end, inside) && jumps_b(body, true),
        StmtV::Break | StmtV::Continue => inside,
        _ => true,
    }
}

pub proof fn lemma_jumps_es(es: Seq<ExprV>, n: nat, inside: bool, i: int)
    requires
        jumps_es(es, n, inside),
        n <= es.len(),
        0 <= i < n,
    ensures
        jumps_e(es[i], inside),
    decreases n,
{
    if i < n - 1 {
        lemma_jumps_es(es, (n - 1) as nat, inside, i);
    }
}

pub proof fn lemma_jumps_ss(ss: Seq<StmtV>, n: nat, inside: bool, i: int)
    requires
        jumps_ss(ss, n, inside),
        n <= ss.len(),
        0 <= i < n,
    ensures
        jumps_s(ss[i], inside),
    decreases n,
{
    if i < n - 1 {
        lemma_jumps_ss(ss, (n - 1) as nat, inside, i);
    }
}

/// Builds the MIR of a whole program, one function at a time.
pub fn build(hir: &Hir) -> (p: Program)
    ensures
        p.main == hir.main.0 as usize,
        p.functions@.len() == hir.functions@.len(),
        forall|i: int| 0 <= i < p.functions@.len() ==> built_from(#[trigger] p.functions@[i], hir.functions@[i]),
{
    let mut functions: Vec<Function> = Vec::new();
    let mut i: usize = 0;
    while i < hir.functions.len()
        invariant
            i <= hir.functions@.len(),
            functions@.len() == i,
            forall|k: int| 0 <= k < i ==> built_from(#[trigger] functions@[k], hir.functions@[k]),
        decreases hir.functions@.len() - i,
    {
        let f = build_function(&hir.functions[i]);
        functions.push(f);
        i = i + 1;
    }
    Program { functions, main: hir.main.0 as usize }
}

/// What a function built from `func` keeps of it: its name, its parameter
/// count and its locals (compiler temporaries come after them); its entry
/// is one of its blocks and every branch names one of its blocks; and where
/// every `break` and `continue` of the body stands inside a loop, it is a
/// [`finished`] graph.
pub open spec fn built_from(f: Function, func: hir::Function) -> bool {
    &&& f.name@ == func.name@
    &&& f.param_count == func.param_count
    &&& func.locals@.len() <= f.locals@.len()
    &&& forall|i: int| 0 <= i < func.locals@.len() ==> local_v(#[trigger] f.locals@[i]) == local_v(func.locals@[i])
    &&& (f.entry.0 as int) < f.blocks@.len()
    &&& targets_ok(f.blocks@)
    &&& jumps_b(bv(func.body), false) ==> finished(f)
}

/// Builds the control-flow graph of one function: its body is lowered into a
/// fresh entry block whose value is returned.
pub fn build_function(func: &hir::Function) -> (f: Function)
    ensures
        built_from(f, *func),
{
    let mut locals: Vec<LocalDecl> = Vec::new();
    let mut i: usize = 0;
    while i < func.locals.len()
        invariant
            i <= func.locals@.len(),
            locals@.len() == i,
            forall|k: int| 0 <= k < i ==> local_v(#[trigger] locals@[k]) == local_v(func.locals@[k]),
        decreases func.locals@.len() - i,
    {
        let d = &func.locals[i];
        locals.push(LocalDecl { name: d.name.clone(), ty: d.ty });
        i = i + 1;
    }
    let mut b = Builder {
        locals,
        reg_count: 0,
        blocks: Vec::new(),
        cur: BlockId(0),
        loops: Vec::new(),
    };
    b.blocks.push(Block { insts: Vec::new(), term: Terminator::Unreachable });
    let entry = BlockId(0);
    let ghost s0 = b;
    let ghost g = jumps_b(bv(func.body), false);
    proof {
        assert(targets_below(b.blocks@[0].term, 1));
        assert(b.wf());
    }
    let value = b.lower_block(&func.body, Ghost(g));
    let ghost s1 = b;
    b.terminate(Terminator::Return(value));
    proof {
        lemma_steps_trans(s0, s1, b, g);
    }
    let f = Function {
        name: func.name.clone(),
        param_count: func.param_count,
        locals: b.locals,
        reg_count: b.reg_count,
        blocks: b.blocks,
        entry,
    };
    proof {
        if g && f.blocks@.len() <= u32::MAX {
            assert forall|i: int| 0 <= i < f.blocks@.len() implies !((#[trigger] f.blocks@[i]).term is Unreachable) by {
                if i != b.cur.0 {
                    if i == 0 {
                        assert(b.cur != s0.cur);
                    }
                }
            }
        }
    }
    f
}

/// The continuation targets of an enclosing loop.
struct Loop {
    continue_bb: BlockId,
    break_bb: BlockId,
}

/// How a lowering step may change the builder: blocks are only added; the
/// terminators of old blocks other than the current one stay; where all
/// blocks can be numbered, every new block but the new current one is
/// terminated, and so is the old current block once it is left; the loop
/// stack and the locals so far stay.
spec fn steps(a: Builder, b: Builder, g: bool) -> bool {
    &&& b.wf()
    &&& a.blocks@.len() <= b.blocks@.len()
    &&& b.loops@ == a.loops@
    &&& a.locals@.len() <= b.locals@.len()
    &&& forall|i: int| 0 <= i < a.locals@.len() ==> local_v(#[trigger] b.locals@[i]) == local_v(a.locals@[i])
    &&& g && b.blocks@.len() <= u32::MAX ==> {
        &&& forall|i: int|
            0 <= i < a.blocks@.len() && i != a.cur.0 ==> (#[trigger] b.blocks@[i]).term == a.blocks@[i].term
        &&& forall|i: int|
            a.blocks@.len() <= i < b.blocks@.len() && i != b.cur.0 ==> !((#[trigger] b.blocks@[i]).term is Unreachable)
        &&& b.cur != a.cur ==> b.cur.0 >= a.blocks@.len() && !(b.blocks@[a.cur.0 as int].term is Unreachable)
    }
}

proof fn lemma_steps_trans(a: Builder, b: Builder, c: Builder, g: bool)
    requires
        a.wf(),
        steps(a, b, g),
        steps(b, c, g),
    ensures
        steps(a, c, g),
{
    if g && c.blocks@.len() <= u32::MAX {
        assert forall|i: int| a.blocks@.len() <= i < c.blocks@.len() && i != c.cur.0 implies !((
        #[trigger] c.blocks@[i]).term is Unreachable) by {
            if i < b.blocks@.len() && i != b.cur.0 {
                assert(c.blocks@[i].term == b.blocks@[i].term);
            }
        }
        assert forall|i: int| 0 <= i < a.blocks@.len() && i != a.cur.0 implies (#[trigger] c.blocks@[i]).term
            == a.blocks@[i].term by {
            assert(b.blocks@[i].term == a.blocks@[i].term);
        }
    }
}

struct Builder {
    locals: Vec<LocalDecl>,
    reg_count: usize,
    blocks: Vec<Block>,
    /// The block instructions are currently appended to.
    cur: BlockId,
    loops: Vec<Loop>,
}

impl Builder {
    /// The builder's invariant: its current block and every loop target are
    /// blocks, and every branch names a block.
    spec fn wf(&self) -> bool {
        &&& (self.cur.0 as int) < self.blocks@.len()
        &&& targets_ok(self.blocks@)
        &&& forall|i: int|
            0 <= i < self.loops@.len() ==> ((#[trigger] self.loops@[i]).continue_bb.0 as int) < self.blocks@.len()
                && (self.loops@[i].break_bb.0 as int) < self.blocks@.len()
    }

    fn new_block(&mut self) -> (id: BlockId)
        requires
            old(self).wf(),
        ensures
            final(self).wf(),
            final(self).cur == old(self).cur,
            final(self).loops@ == old(self).loops@,
            final(self).locals@ == old(self).locals@,
            final(self).blocks@ == old(self).blocks@.push(Block { insts: final(self).blocks@.last().insts, term: Terminator::Unreachable }),
            final(self).blocks@.last().insts@.len() == 0,
            id.0 as int == old(self).blocks@.len() || old(self).blocks@.len() > u32::MAX,
            (id.0 as int) < final(self).blocks@.len(),
            final(self).reg_count == old(self).reg_count,
    {
        let id = BlockId(#[verifier::truncate] (self.blocks.len() as u32));
        self.blocks.push(Block { insts: Vec::new(), term: Terminator::Unreachable });
        proof {
            let bs = self.blocks@;
            assert forall|i: int| 0 <= i < bs.len() implies targets_below(#[trigger] bs[i].term, bs.len()) by {
                if i < bs.len() - 1 {
                    assert(targets_below(old(self).blocks@[i].term, old(self).blocks@.len()));
                }
            }
        }
        id
    }

    fn fresh_reg(&mut self) -> (r: Reg)
        requires
            old(self).wf(),
        ensures
            steps(*old(self), *final(self), true),
            final(self).cur == old(self).cur,
            final(self).blocks@ == old(self).blocks@,
            final(self).locals@ == old(self).locals@,
            r == Reg(old(self).reg_count as u32),
            final(self).reg_count == if old(self).reg_count < usize::MAX {
                old(self).reg_count + 1
            } else {
                old(self).reg_count as int
            },
    {
        let r = Reg(#[verifier::truncate] (self.reg_count as u32));
        if self.reg_count < usize::MAX {
            self.reg_count = self.reg_count + 1;
        }
        r
    }

    /// Allocates a fresh, compiler-internal local of the given type.
    fn fresh_local(&mut self, ty: Type) -> (id: LocalId)
        requires
            old(self).wf(),
        ensures
            steps(*old(self), *final(self), true),
            final(self).cur == old(self).cur,
            final(self).blocks@ == old(self).blocks@,
            final(self).locals@.len() == old(self).locals@.len() + 1,
            final(self).locals@.last().ty == ty,
            id == LocalId(old(self).locals@.len() as u32),
            final(self).reg_count == old(self).reg_count,
    {
        let id = LocalId(#[verifier::truncate] (self.locals.len() as u32));
        let name = cat3("<t", decimal_string(id.0 as u64).as_str(), ">");
        self.locals.push(LocalDecl { name, ty });
        id
    }

    /// Appends an instruction to the current block.
    fn emit(&mut self, inst: Inst)
        requires
            old(self).wf(),
        ensures
            steps(*old(self), *final(self), true),
            final(self).cur == old(self).cur,
            final(self).blocks@.len() == old(self).blocks@.len(),
            forall|i: int| 0 <= i < old(self).blocks@.len() ==> (#[trigger] final(self).blocks@[i]).term == old(self).blocks@[i].term,
            final(self).locals@ == old(self).locals@,
            final(self).reg_count == old(self).reg_count,
            forall|i: int|
                0 <= i < old(self).blocks@.len() && i != old(self).cur.0 ==> #[trigger] final(self).blocks@[i]
                    == old(self).blocks@[i],
            final(self).blocks@[old(self).cur.0 as int].insts@ == old(self).blocks@[old(self).cur.0 as int].insts@.push(inst),
    {
        let i = self.cur.0 as usize;
        let mut tmp = Block { insts: Vec::new(), term: Terminator::Unreachable };
        self.blocks.set_and_swap(i, &mut tmp);
        tmp.insts.push(inst);
        self.blocks.set_and_swap(i, &mut tmp);
        proof {
            let bs = self.blocks@;
            assert forall|k: int| 0 <= k < bs.len() implies targets_below(#[trigger] bs[k].term, bs.len()) by {
                assert(bs[k].term == old(self).blocks@[k].term);
            }
        }
    }

    /// Sets the current block's terminator if it has none yet.
    fn terminate(&mut self, term: Terminator)
        requires
            old(self).wf(),
            targets_below(term, old(self).blocks@.len()),
            !(term is Unreachable),
        ensures
            steps(*old(self), *final(self), true),
            final(self).cur == old(self).cur,
            final(self).blocks@.len() == old(self).blocks@.len(),
            !(final(self).blocks@[final(self).cur.0 as int].term is Unreachable),
            final(self).locals@ == old(self).locals@,
            final(self).reg_count == old(self).reg_count,
            forall|i: int|
                0 <= i < old(self).blocks@.len() && i != old(self).cur.0 ==> #[trigger] final(self).blocks@[i]
                    == old(self).blocks@[i],
            final(self).blocks@[old(self).cur.0 as int].insts == old(self).blocks@[old(self).cur.0 as int].insts,
            final(self).blocks@[old(self).cur.0 as int].term == (if old(self).blocks@[old(self).cur.0 as int].term is Unreachable {
                term
            } else {
                old(self).blocks@[old(self).cur.0 as int].term
            }),
    {
        let i = self.cur.0 as usize;
        let mut tmp = Block { insts: Vec::new(), term: Terminator::Unreachable };
        self.blocks.set_and_swap(i, &mut tmp);
        let t = match tmp.term {
            Terminator::Unreachable => term,
            other => other,
        };
        tmp.term = t;
        self.blocks.set_and_swap(i, &mut tmp);
        proof {
            let bs = self.blocks@;
            assert forall|k: int| 0 <= k < bs.len() implies targets_below(#[trigger] bs[k].term, bs.len()) by {
                if k != i {
                    assert(bs[k].term == old(self).blocks@[k].term);
                }
            }
        }
    }

    /// Materialises an rvalue into a fresh register and returns it as an
    /// operand.
    fn push_value(&mut self, rvalue: Rvalue) -> (o: Operand)
        requires
            old(self).wf(),
        ensures
            steps(*old(self), *final(self), true),
            final(self).cur == old(self).cur,
            final(self).blocks@.len() == old(self).blocks@.len(),
            forall|i: int| 0 <= i < old(self).blocks@.len() ==> (#[trigger] final(self).blocks@[i]).term == old(self).blocks@[i].term,
            final(self).locals@ == old(self).locals@,
            o == Operand::Reg(Reg(old(self).reg_count as u32)),
            forall|i: int|
                0 <= i < old(self).blocks@.len() && i != old(self).cur.0 ==> #[trigger] final(self).blocks@[i]
                    == old(self).blocks@[i],
            final(self).blocks@[old(self).cur.0 as int].insts@ == old(self).blocks@[old(self).cur.0 as int].insts@.push(
                Inst::Assign { dst: Reg(old(self).reg_count as u32), rvalue },
            ),
    {
        let dst = self.fresh_reg();
        self.emit(Inst::Assign { dst, rvalue });
        Operand::Reg(dst)
    }

    /// Continues in a fresh block once the current one is terminated.
    fn enter_new_block(&mut self)
        requires
            old(self).wf(),
            !(old(self).blocks@[old(self).cur.0 as int].term is Unreachable),
        ensures
            steps(*old(self), *final(self), true),
            final(self).blocks@.len() == old(self).blocks@.len() + 1,
            forall|i: int| 0 <= i < old(self).blocks@.len() ==> #[trigger] final(self).blocks@[i] == old(self).blocks@[i],
            final(self).blocks@.last().term is Unreachable,
            final(self).blocks@.last().insts@.len() == 0,
            old(self).blocks@.len() <= u32::MAX ==> final(self).cur.0 == old(self).blocks@.len(),
            final(self).reg_count == old(self).reg_count,
            final(self).locals@ == old(self).locals@,
    {
        let nb = self.new_block();
        self.cur = nb;
    }

    // ---- blocks & statements ----

    fn lower_block(&mut self, block: &hir::Block, Ghost(g): Ghost<bool>) -> (o: Operand)
        requires
            old(self).wf(),
            g ==> jumps_b(bv(*block), old(self).loops@.len() > 0),
        ensures
            steps(*old(self), *final(self), g),
            block.tail is None ==> o == Operand::Const(Const::Unit),
            block.stmts@.len() == 0 && block.tail is None ==> *final(self) == *old(self),
        decreases *block, 0int,
    {
        let ghost s0 = *self;
        let ghost inside = s0.loops@.len() > 0;
        let ghost vs = svs(block.stmts@, block.stmts@.len());
        proof {
            lemma_svs_len(block.stmts@, block.stmts@.len());
        }
        let mut i: usize = 0;
        while i < block.stmts.len()
            invariant
                s0.wf(),
                steps(s0, *self, g),
                i <= block.stmts@.len(),
                inside == (s0.loops@.len() > 0),
                vs == svs(block.stmts@, block.stmts@.len()),
                vs.len() == block.stmts@.len(),
                forall|k: int| 0 <= k < block.stmts@.len() ==> vs[k] == sv(#[trigger] block.stmts@[k]),
                g ==> jumps_ss(vs, vs.len(), inside),
                block.stmts@.len() == 0 ==> *self == s0,
            decreases block.stmts@.len() - i,
        {
            let ghost s1 = *self;
            proof {
                if g {
                    lemma_jumps_ss(vs, vs.len(), inside, i as int);
                }
                assert(vs[i as int] == sv(block.stmts@[i as int]));
            }
            self.lower_stmt(&block.stmts[i], Ghost(g));
            proof {
                lemma_steps_trans(s0, s1, *self, g);
            }
            i = i + 1;
        }
        match &block.tail {
            Some(tail) => {
                let ghost s1 = *self;
                let o = self.lower_expr(tail, Ghost(g));
                proof {
                    lemma_steps_trans(s0, s1, *self, g);
                }
                o
            },
            None => Operand::Const(Const::Unit),
        }
    }

    fn lower_stmt(&mut self, stmt: &Stmt, Ghost(g): Ghost<bool>)
        requires
            old(self).wf(),
            g ==> jumps_s(sv(*stmt), old(self).loops@.len() > 0),
        ensures
            steps(*old(self), *final(self), g),
            stmt is Let ==> (final(self).blocks@[final(self).cur.0 as int].insts@.last() matches Inst::Store {
                local: l,
                ..
            } && l == stmt->Let_local),
            (stmt is Break || stmt is Continue) ==> final(self).blocks@.len() == old(self).blocks@.len() + 1 && (
            old(self).blocks@.len() <= u32::MAX ==> final(self).cur.0 == old(self).blocks@.len()) && final(self).blocks@[
                old(self).cur.0 as int].term == (if old(self).loops@.len() > 0 && old(self).blocks@[
                old(self).cur.0 as int].term is Unreachable {
                Terminator::Goto(
                    if stmt is Break {
                        old(self).loops@.last().break_bb
                    } else {
                        old(self).loops@.last().continue_bb
                    },
                )
            } else {
                old(self).blocks@[old(self).cur.0 as int].term
            }),
            stmt is While && old(self).blocks@.len() + 3 <= u32::MAX ==> final(self).cur.0 == old(self).blocks@.len() + 2,
        decreases *stmt, 0int,
    {
        let ghost s0 = *self;
        match stmt {
            Stmt::Let { local, value } => {
                let src = self.lower_expr(value, Ghost(g));
                let ghost s1 = *self;
                self.emit(Inst::Store { local: *local, src });
                proof {
                    lemma_steps_trans(s0, s1, *self, g);
                }
            },
            Stmt::Expr(e) => {
                self.lower_expr(e, Ghost(g));
            },
            Stmt::Return(value) => {
                let op = match value {
                    Some(e) => self.lower_expr(e, Ghost(g)),
                    None => Operand::Const(Const::Unit),
                };
                let ghost s1 = *self;
                self.terminate(Terminator::Return(op));
                let ghost s2 = *self;
                // Subsequent statements are unreachable; continue in a dead block.
                self.enter_new_block();
                proof {
                    lemma_steps_trans(s0, s1, s2, g);
                    lemma_steps_trans(s0, s2, *self, g);
                }
            },
            Stmt::While { cond, body } => {
                let header = self.new_block();
                let body_bb = self.new_block();
                let after = self.new_block();
                self.terminate(Terminator::Goto(header));
                let ghost s1 = *self;
                self.cur = header;
                let ghost s2 = *self;
                let cond_op = self.lower_expr(cond, Ghost(g));
                let ghost s3 = *self;
                self.terminate(Terminator::Branch { cond: cond_op, then_bb: body_bb, else_bb: after });
                let ghost s4 = *self;
                self.cur = body_bb;
                self.loops.push(Loop { continue_bb: header, break_bb: after });
                let ghost s5 = *self;
                self.lower_block(body, Ghost(g));
                let ghost s6 = *self;
                self.loops.pop();
                self.terminate(Terminator::Goto(header));
                let ghost s7 = *self;
                self.cur = after;
                proof {
                    let n0 = s0.blocks@.len();
                    let fin = *self;
                    if g && fin.blocks@.len() <= u32::MAX {
                        assert(header.0 == n0 && body_bb.0 == n0 + 1 && after.0 == n0 + 2);
                        assert forall|i: int| n0 <= i < fin.blocks@.len() && i != fin.cur.0 implies !((
                        #[trigger] fin.blocks@[i]).term is Unreachable) by {
                            assert(fin.blocks@[i] == s7.blocks@[i]);
                            if i == s6.cur.0 {
                            } else {
                                assert(s7.blocks@[i].term == s6.blocks@[i].term);
                                if i >= s5.blocks@.len() {
                                } else if i == body_bb.0 {
                                } else {
                                    assert(s6.blocks@[i].term == s5.blocks@[i].term);
                                    assert(s5.blocks@[i] == s4.blocks@[i]);
                                    if i == s3.cur.0 {
                                    } else {
                                        assert(s4.blocks@[i].term == s3.blocks@[i].term);
                                        if i == header.0 {
                                        } else {
                                            assert(i >= s2.blocks@.len());
                                        }
                                    }
                                }
                            }
                        }
                        assert forall|i: int| 0 <= i < n0 && i != s0.cur.0 implies (#[trigger] fin.blocks@[i]).term
                            == s0.blocks@[i].term by {
                            assert(s3.blocks@[i].term == s2.blocks@[i].term);
                            assert(s6.blocks@[i].term == s5.blocks@[i].term);
                        }
                        assert(!(fin.blocks@[s0.cur.0 as int].term is Unreachable)) by {
                            assert(s3.blocks@[s0.cur.0 as int].term == s2.blocks@[s0.cur.0 as int].term);
                            assert(s6.blocks@[s0.cur.0 as int].term == s5.blocks@[s0.cur.0 as int].term);
                        }
                    }
                    assert(s6.loops@ == s4.loops@.push(Loop { continue_bb: header, break_bb: after }));
                    assert(fin.loops@ =~= s0.loops@);
                    assert(fin.wf());
                    assert(s0.locals@.len() <= fin.locals@.len());
                    assert(steps(s0, fin, g));
                }
            },
            Stmt::For { var, end_var, start, end, body } => {
                let start_op = self.lower_expr(start, Ghost(g));
                let ghost sa = *self;
                self.emit(Inst::Store { local: *var, src: start_op });
                let ghost sb = *self;
                let end_op = self.lower_expr(end, Ghost(g));
                let ghost sc = *self;
                self.emit(Inst::Store { local: *end_var, src: end_op });
                let ghost sd = *self;
                proof {
                    lemma_steps_trans(s0, sa, sb, g);
                    lemma_steps_trans(s0, sb, sc, g);
                    lemma_steps_trans(s0, sc, sd, g);
                }
                self.lower_for_loop(*var, *end_var, body, Ghost(g));
                proof {
                    lemma_steps_trans(s0, sd, *self, g);
                }
            },
            Stmt::Break => self.lower_jump(true, Ghost(g)),
            Stmt::Continue => self.lower_jump(false, Ghost(g)),
        }
    }


    /// Lowers a counted loop whose counter and cached bound are initialised.
    fn lower_for_loop(&mut self, var: LocalId, end_var: LocalId, body: &hir::Block, Ghost(g): Ghost<bool>)
        requires
            old(self).wf(),
            g ==> jumps_b(bv(*body), true),
        ensures
            steps(*old(self), *final(self), g),
            old(self).blocks@.len() + 4 <= u32::MAX ==> final(self).cur.0 == old(self).blocks@.len() + 3,
            g && final(self).blocks@.len() <= u32::MAX && old(self).blocks@[old(self).cur.0 as int].term is Unreachable
                ==> final(self).blocks@[old(self).cur.0 as int].term == Terminator::Goto(
                BlockId(old(self).blocks@.len() as u32),
            ),
            g && final(self).blocks@.len() <= u32::MAX ==> final(self).blocks@[old(self).blocks@.len() + 2int]
                == (Block {
                insts: final(self).blocks@[old(self).blocks@.len() + 2int].insts,
                term: Terminator::Goto(BlockId(old(self).blocks@.len() as u32)),
            }),
        decreases *body, 1int,
    {
        let ghost s0 = *self;
        let header = self.new_block();
        let body_bb = self.new_block();
        let incr = self.new_block();
        let after = self.new_block();
        self.terminate(Terminator::Goto(header));
        self.cur = header;
        let ghost s2 = *self;
        // header: var < end_var ?
        let v = self.push_value(Rvalue::Load(var));
        let e = self.push_value(Rvalue::Load(end_var));
        let cond = self.push_value(Rvalue::Binary(BinOp::Lt, v, e));
        self.terminate(Terminator::Branch { cond, then_bb: body_bb, else_bb: after });
        let ghost s4 = *self;
        // body
        self.cur = body_bb;
        self.loops.push(Loop { continue_bb: incr, break_bb: after });
        let ghost s5 = *self;
        self.lower_block(body, Ghost(g));
        let ghost s6 = *self;
        self.loops.pop();
        self.terminate(Terminator::Goto(incr));
        let ghost s7 = *self;
        // incr: var = var + 1
        self.cur = incr;
        let ghost s8 = *self;
        let v = self.push_value(Rvalue::Load(var));
        let next = self.push_value(Rvalue::Binary(BinOp::Add, v, Operand::Const(Const::Int(1))));
        self.emit(Inst::Store { local: var, src: next });
        self.terminate(Terminator::Goto(header));
        let ghost s10 = *self;
        self.cur = after;
        proof {
            let n0 = s0.blocks@.len();
            let fin = *self;
            assert(s6.loops@ == s4.loops@.push(Loop { continue_bb: incr, break_bb: after }));
            assert(fin.loops@ =~= s0.loops@);
            if g && fin.blocks@.len() <= u32::MAX {
                assert(header.0 == n0 && body_bb.0 == n0 + 1 && incr.0 == n0 + 2 && after.0 == n0 + 3);
                assert forall|i: int| n0 <= i < fin.blocks@.len() && i != fin.cur.0 implies !((
                #[trigger] fin.blocks@[i]).term is Unreachable) by {
                    assert(fin.blocks@[i] == s10.blocks@[i]);
                    if i == incr.0 {
                    } else {
                        assert(s10.blocks@[i].term == s8.blocks@[i].term);
                        assert(s8.blocks@[i] == s7.blocks@[i]);
                        if i == s6.cur.0 {
                        } else {
                            assert(s7.blocks@[i].term == s6.blocks@[i].term);
                            if i >= s5.blocks@.len() {
                            } else if i == body_bb.0 {
                            } else {
                                assert(s6.blocks@[i].term == s5.blocks@[i].term);
                                assert(s5.blocks@[i] == s4.blocks@[i]);
                            }
                        }
                    }
                }
                assert forall|i: int| 0 <= i < n0 && i != s0.cur.0 implies (#[trigger] fin.blocks@[i]).term
                    == s0.blocks@[i].term by {
                    assert(s6.blocks@[i].term == s5.blocks@[i].term);
                }
                assert(!(fin.blocks@[s0.cur.0 as int].term is Unreachable)) by {
                    assert(s6.blocks@[s0.cur.0 as int].term == s5.blocks@[s0.cur.0 as int].term);
                }
            }
            assert(fin.wf());
            assert(steps(s0, fin, g));
        }
    }

    /// `break` or `continue`: a jump to the innermost loop's target, then
    /// lowering goes on in a fresh (dead) block.
    fn lower_jump(&mut self, is_break: bool, Ghost(g): Ghost<bool>)
        requires
            old(self).wf(),
            g ==> old(self).loops@.len() > 0,
        ensures
            steps(*old(self), *final(self), g),
            final(self).blocks@.len() == old(self).blocks@.len() + 1,
            forall|i: int|
                0 <= i < old(self).blocks@.len() && i != old(self).cur.0 ==> #[trigger] final(self).blocks@[i]
                    == old(self).blocks@[i],
            final(self).blocks@.last().term is Unreachable && final(self).blocks@.last().insts@.len() == 0,
            old(self).blocks@.len() <= u32::MAX ==> final(self).cur.0 == old(self).blocks@.len(),
            final(self).blocks@[old(self).cur.0 as int].insts == old(self).blocks@[old(self).cur.0 as int].insts,
            final(self).blocks@[old(self).cur.0 as int].term == (if old(self).loops@.len() > 0 && old(self).blocks@[
                old(self).cur.0 as int].term is Unreachable {
                Terminator::Goto(
                    if is_break {
                        old(self).loops@.last().break_bb
                    } else {
                        old(self).loops@.last().continue_bb
                    },
                )
            } else {
                old(self).blocks@[old(self).cur.0 as int].term
            }),
            final(self).reg_count == old(self).reg_count,
    {
        let ghost s0 = *self;
        if self.loops.len() > 0 {
            let last = self.loops.len() - 1;
            let target = if is_break {
                self.loops[last].break_bb
            } else {
                self.loops[last].continue_bb
            };
            self.terminate(Terminator::Goto(target));
            let ghost s1 = *self;
            self.enter_new_block();
            proof {
                lemma_steps_trans(s0, s1, *self, g);
            }
        } else {
            // Outside any loop the jump goes nowhere: the current block is
            // left open and lowering continues in a fresh one.
            let nb = self.new_block();
            self.cur = nb;
        }
    }


    // ---- expressions ----

    /// Lowers a list of expressions in order, one operand each.
    fn lower_operands(&mut self, es: &Vec<hir::Expr>, Ghost(g): Ghost<bool>) -> (ops: Vec<Operand>)
        requires
            old(self).wf(),
            g ==> jumps_es(evs(es@, es@.len()), es@.len(), old(self).loops@.len() > 0),
        ensures
            steps(*old(self), *final(self), g),
            ops@.len() == es@.len(),
        decreases es@, 0int,
    {
        let ghost s0 = *self;
        let ghost inside = s0.loops@.len() > 0;
        let ghost vs = evs(es@, es@.len());
        proof {
            lemma_evs_len(es@, es@.len());
        }
        let mut ops: Vec<Operand> = Vec::new();
        let mut i: usize = 0;
        while i < es.len()
            invariant
                s0.wf(),
                steps(s0, *self, g),
                i <= es@.len(),
                ops@.len() == i,
                inside == (s0.loops@.len() > 0),
                vs == evs(es@, es@.len()),
                vs.len() == es@.len(),
                forall|k: int| 0 <= k < es@.len() ==> vs[k] == ev(#[trigger] es@[k]),
                g ==> jumps_es(vs, vs.len(), inside),
            decreases es@.len() - i,
        {
            let ghost s1 = *self;
            proof {
                if g {
                    lemma_jumps_es(vs, vs.len(), inside, i as int);
                }
                assert(vs[i as int] == ev(es@[i as int]));
            }
            let o = self.lower_expr(&es[i], Ghost(g));
            proof {
                lemma_steps_trans(s0, s1, *self, g);
            }
            ops.push(o);
            i = i + 1;
        }
        ops
    }

    fn lower_expr(&mut self, expr: &hir::Expr, Ghost(g): Ghost<bool>) -> (o: Operand)
        requires
            old(self).wf(),
            g ==> jumps_e(ev(*expr), old(self).loops@.len() > 0),
        ensures
            steps(*old(self), *final(self), g),
            expr.kind is Int ==> o == Operand::Const(Const::Int(expr.kind->Int_0)) && *final(self) == *old(self),
            expr.kind is Bool ==> o == Operand::Const(Const::Bool(expr.kind->Bool_0)) && *final(self) == *old(self),
            (expr.kind matches ExprKind::Str(t)) ==> (o matches Operand::Const(Const::Str(u)) && u@ == expr.kind->Str_0@)
                && *final(self) == *old(self),
            (expr.kind matches ExprKind::Float(t)) ==> (o matches Operand::Const(Const::Float(u)) && u@
                == expr.kind->Float_0@) && *final(self) == *old(self),
            (expr.kind matches ExprKind::Local(id)) ==> o == Operand::Reg(Reg(old(self).reg_count as u32))
                && final(self).cur == old(self).cur && final(self).blocks@[old(self).cur.0 as int].insts@
                == old(self).blocks@[old(self).cur.0 as int].insts@.push(
                Inst::Assign { dst: Reg(old(self).reg_count as u32), rvalue: Rvalue::Load(expr.kind->Local_0) },
            ),
            expr.kind is If ==> o is Reg,
            (expr.kind matches ExprKind::Binary { op, .. } && (op == BinOp::And || op == BinOp::Or)) ==> o is Reg,
        decreases *expr, 1int,
    {
        let ghost s0 = *self;
        match &expr.kind {
            ExprKind::Int(v) => Operand::Const(Const::Int(*v)),
            ExprKind::Float(v) => Operand::Const(Const::Float(v.clone())),
            ExprKind::Bool(v) => Operand::Const(Const::Bool(*v)),
            ExprKind::Str(v) => Operand::Const(Const::Str(v.clone())),
            ExprKind::Local(id) => self.push_value(Rvalue::Load(*id)),
            ExprKind::Unary { op, rhs } => {
                let o = self.lower_expr(rhs, Ghost(g));
                let ghost s1 = *self;
                let r = self.push_value(Rvalue::Unary(*op, o));
                proof {
                    lemma_steps_trans(s0, s1, *self, g);
                }
                r
            },
            ExprKind::Binary { op, lhs, rhs } => {
                if *op == BinOp::And || *op == BinOp::Or {
                    self.lower_logical(expr, Ghost(g))
                } else {
                    let l = self.lower_expr(lhs, Ghost(g));
                    let ghost s1 = *self;
                    let r = self.lower_expr(rhs, Ghost(g));
                    let ghost s2 = *self;
                    let rv = if *op == BinOp::Add && lhs.ty == Type::Str {
                        Rvalue::Concat(l, r)
                    } else {
                        Rvalue::Binary(*op, l, r)
                    };
                    let res = self.push_value(rv);
                    proof {
                        lemma_steps_trans(s0, s1, s2, g);
                        lemma_steps_trans(s0, s2, *self, g);
                    }
                    res
                }
            },
            ExprKind::Call { callee, args } => {
                proof {
                    lemma_evs_len(args@, args@.len());
                }
                let ops = self.lower_operands(args, Ghost(g));
                let ghost s1 = *self;
                let dst = self.fresh_reg();
                let ghost s2 = *self;
                self.emit(Inst::Call { dst, callee: *callee, args: ops, ret: expr.ty });
                proof {
                    lemma_steps_trans(s0, s1, s2, g);
                    lemma_steps_trans(s0, s2, *self, g);
                }
                Operand::Reg(dst)
            },
            ExprKind::Assign { local, value } => {
                let src = self.lower_expr(value, Ghost(g));
                let ghost s1 = *self;
                self.emit(Inst::Store { local: *local, src });
                proof {
                    lemma_steps_trans(s0, s1, *self, g);
                }
                Operand::Const(Const::Unit)
            },
            ExprKind::ArrayLit(elems) => {
                proof {
                    lemma_evs_len(elems@, elems@.len());
                }
                let ops = self.lower_operands(elems, Ghost(g));
                let ghost s1 = *self;
                let r = self.push_value(Rvalue::MakeArray(ops));
                proof {
                    lemma_steps_trans(s0, s1, *self, g);
                }
                r
            },
            ExprKind::Index { base, index } => {
                let b = self.lower_expr(base, Ghost(g));
                let ghost s1 = *self;
                let i = self.lower_expr(index, Ghost(g));
                let ghost s2 = *self;
                let r = self.push_value(Rvalue::Index(b, i));
                proof {
                    lemma_steps_trans(s0, s1, s2, g);
                    lemma_steps_trans(s0, s2, *self, g);
                }
                r
            },
            ExprKind::SetIndex { base, index, value } => {
                let b = self.lower_expr(base, Ghost(g));
                let ghost s1 = *self;
                let i = self.lower_expr(index, Ghost(g));
                let ghost s2 = *self;
                let v = self.lower_expr(value, Ghost(g));
                let ghost s3 = *self;
                self.emit(Inst::SetIndex { base: b, index: i, value: v });
                proof {
                    lemma_steps_trans(s0, s1, s2, g);
                    lemma_steps_trans(s0, s2, s3, g);
                    lemma_steps_trans(s0, s3, *self, g);
                }
                Operand::Const(Const::Unit)
            },
            // Structs share the array representation (fixed-length records).
            ExprKind::StructLit(fields) => {
                proof {
                    lemma_evs_len(fields@, fields@.len());
                }
                let ops = self.lower_operands(fields, Ghost(g));
                let ghost s1 = *self;
                let r = self.push_value(Rvalue::MakeArray(ops));
                proof {
                    lemma_steps_trans(s0, s1, *self, g);
                }
                r
            },
            ExprKind::GetField { base, idx } => {
                let b = self.lower_expr(base, Ghost(g));
                let ghost s1 = *self;
                let r = self.push_value(Rvalue::Index(b, Operand::Const(Const::Int(*idx as i64))));
                proof {
                    lemma_steps_trans(s0, s1, *self, g);
                }
                r
            },
            ExprKind::SetField { base, idx, value } => {
                let b = self.lower_expr(base, Ghost(g));
                let ghost s1 = *self;
                let v = self.lower_expr(value, Ghost(g));
                let ghost s2 = *self;
                self.emit(Inst::SetIndex { base: b, index: Operand::Const(Const::Int(*idx as i64)), value: v });
                proof {
                    lemma_steps_trans(s0, s1, s2, g);
                    lemma_steps_trans(s0, s2, *self, g);
                }
                Operand::Const(Const::Unit)
            },
            ExprKind::If { .. } => self.lower_if(expr, Ghost(g)),
            ExprKind::Block(block) => self.lower_block(block, Ghost(g)),
        }
    }

    /// `a && b` or `a || b`, short-circuiting through a result local.
    fn lower_logical(&mut self, expr: &hir::Expr, Ghost(g): Ghost<bool>) -> (o: Operand)
        requires
            old(self).wf(),
            g ==> jumps_e(ev(*expr), old(self).loops@.len() > 0),
            expr.kind matches ExprKind::Binary { op, .. } && (op == BinOp::And || op == BinOp::Or),
        ensures
            steps(*old(self), *final(self), g),
            o is Reg,
            final(self).locals@.len() > old(self).locals@.len(),
            final(self).blocks@[final(self).cur.0 as int].insts@.last() == (Inst::Assign {
                dst: o->Reg_0,
                rvalue: Rvalue::Load(LocalId(old(self).locals@.len() as u32)),
            }),
        decreases *expr, 0int,
    {
        let ghost s0 = *self;
        match &expr.kind {
            ExprKind::Binary { op, lhs, rhs } => {
                let or_else = *op == BinOp::Or;
                let result = self.fresh_local(Type::Bool);
                let ghost sa = *self;
                let l = self.lower_expr(lhs, Ghost(g));
                let ghost sb = *self;
                proof {
                    lemma_steps_trans(s0, sa, sb, g);
                }
                let eval_rhs = self.new_block();
                let short = self.new_block();
                let merge = self.new_block();
                // For `&&`: if lhs is false, short-circuit; for `||`: if lhs is true.
                let (then_bb, else_bb) = if or_else {
                    (short, eval_rhs)
                } else {
                    (eval_rhs, short)
                };
                self.terminate(Terminator::Branch { cond: l, then_bb, else_bb });
                let ghost s1 = *self;
                self.cur = eval_rhs;
                let ghost s2 = *self;
                let r = self.lower_expr(rhs, Ghost(g));
                let ghost s3 = *self;
                self.emit(Inst::Store { local: result, src: r });
                self.terminate(Terminator::Goto(merge));
                let ghost s4 = *self;
                self.cur = short;
                let ghost s5 = *self;
                self.emit(Inst::Store { local: result, src: Operand::Const(Const::Bool(or_else)) });
                self.terminate(Terminator::Goto(merge));
                let ghost s6 = *self;
                self.cur = merge;
                let ghost s7 = *self;
                let res = self.push_value(Rvalue::Load(result));
                proof {
                    let n0 = sb.blocks@.len();
                    let fin = s7;
                    if g && self.blocks@.len() <= u32::MAX {
                        assert(eval_rhs.0 == n0 && short.0 == n0 + 1 && merge.0 == n0 + 2);
                        assert forall|i: int| n0 <= i < fin.blocks@.len() && i != fin.cur.0 implies !((
                        #[trigger] fin.blocks@[i]).term is Unreachable) by {
                            assert(fin.blocks@[i] == s6.blocks@[i]);
                            if i == short.0 {
                            } else {
                                assert(s6.blocks@[i].term == s5.blocks@[i].term);
                                assert(s5.blocks@[i] == s4.blocks@[i]);
                                if i == s3.cur.0 {
                                } else {
                                    assert(s4.blocks@[i].term == s3.blocks@[i].term);
                                }
                            }
                        }
                        assert forall|i: int| 0 <= i < n0 && i != sb.cur.0 implies (#[trigger] fin.blocks@[i]).term
                            == sb.blocks@[i].term by {
                            assert(s3.blocks@[i].term == s2.blocks@[i].term);
                        }
                        assert(!(fin.blocks@[sb.cur.0 as int].term is Unreachable)) by {
                            assert(s3.blocks@[sb.cur.0 as int].term == s2.blocks@[sb.cur.0 as int].term);
                        }
                    }
                    assert(fin.wf());
                    assert(steps(sb, fin, g));
                    lemma_steps_trans(s0, sb, fin, g);
                    lemma_steps_trans(s0, fin, *self, g);
                }
                res
            },
            _ => Operand::Const(Const::Unit),
        }
    }

    /// `if`: each arm stores its value into a result local, then both jump
    /// to a merge block that loads it.
    fn lower_if(&mut self, expr: &hir::Expr, Ghost(g): Ghost<bool>) -> (o: Operand)
        requires
            old(self).wf(),
            g ==> jumps_e(ev(*expr), old(self).loops@.len() > 0),
            expr.kind is If,
        ensures
            steps(*old(self), *final(self), g),
            o is Reg,
            final(self).locals@.len() > old(self).locals@.len(),
            final(self).blocks@[final(self).cur.0 as int].insts@.last() == (Inst::Assign {
                dst: o->Reg_0,
                rvalue: Rvalue::Load(LocalId(old(self).locals@.len() as u32)),
            }),
        decreases *expr, 0int,
    {
        let ghost s0 = *self;
        match &expr.kind {
            ExprKind::If { cond, then_branch, else_branch } => {
                let result = self.fresh_local(expr.ty);
                let ghost sa = *self;
                let cond_op = self.lower_expr(cond, Ghost(g));
                let ghost sb = *self;
                proof {
                    lemma_steps_trans(s0, sa, sb, g);
                }
                let then_bb = self.new_block();
                let else_bb = self.new_block();
                let merge = self.new_block();
                self.terminate(Terminator::Branch { cond: cond_op, then_bb, else_bb });
                let ghost s1 = *self;
                self.cur = then_bb;
                let ghost s2 = *self;
                let then_val = self.lower_block(then_branch, Ghost(g));
                let ghost s3 = *self;
                self.emit(Inst::Store { local: result, src: then_val });
                self.terminate(Terminator::Goto(merge));
                let ghost s4 = *self;
                self.cur = else_bb;
                let ghost s5 = *self;
                let else_val = match else_branch {
                    Some(e) => self.lower_expr(e, Ghost(g)),
                    None => Operand::Const(Const::Unit),
                };
                let ghost s6 = *self;
                self.emit(Inst::Store { local: result, src: else_val });
                self.terminate(Terminator::Goto(merge));
                let ghost s7 = *self;
                self.cur = merge;
                let ghost s8 = *self;
                let res = self.push_value(Rvalue::Load(result));
                proof {
                    let n0 = sb.blocks@.len();
                    let fin = s8;
                    if g && self.blocks@.len() <= u32::MAX {
                        assert(then_bb.0 == n0 && else_bb.0 == n0 + 1 && merge.0 == n0 + 2);
                        assert forall|i: int| n0 <= i < fin.blocks@.len() && i != fin.cur.0 implies !((
                        #[trigger] fin.blocks@[i]).term is Unreachable) by {
                            assert(fin.blocks@[i] == s7.blocks@[i]);
                            if i == s6.cur.0 {
                            } else {
                                assert(s7.blocks@[i].term == s6.blocks@[i].term);
                                if i >= s5.blocks@.len() {
                                } else if i == else_bb.0 {
                                } else {
                                    assert(s6.blocks@[i].term == s5.blocks@[i].term);
                                    assert(s5.blocks@[i] == s4.blocks@[i]);
                                    if i == s3.cur.0 {
                                    } else {
                                        assert(s4.blocks@[i].term == s3.blocks@[i].term);
                                    }
                                }
                            }
                        }
                        assert forall|i: int| 0 <= i < n0 && i != sb.cur.0 implies (#[trigger] fin.blocks@[i]).term
                            == sb.blocks@[i].term by {
                            assert(s3.blocks@[i].term == s2.blocks@[i].term);
                            assert(s6.blocks@[i].term == s5.blocks@[i].term);
                        }
                        assert(!(fin.blocks@[sb.cur.0 as int].term is Unreachable)) by {
                            assert(s3.blocks@[sb.cur.0 as int].term == s2.blocks@[sb.cur.0 as int].term);
                            assert(s6.blocks@[sb.cur.0 as int].term == s5.blocks@[sb.cur.0 as int].term);
                        }
                    }
                    assert(fin.wf());
                    assert(steps(sb, fin, g));
                    lemma_steps_trans(s0, sb, fin, g);
                    lemma_steps_trans(s0, fin, *self, g);
                }
                res
            },
            _ => Operand::Const(Const::Unit),
        }
    }

}

} // verus!
