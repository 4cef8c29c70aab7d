//! Dead-code elimination.
//!
//! Removes code that cannot affect the program's result, in three sound
//! forms:
//!
//! * **Unreachable after `return`**: statements (and the tail) following a
//!   `return` in a block are deleted.
//! * **`while false`**: a loop whose condition is the literal `false` never
//!   runs and is removed.
//! * **Unused pure `let`**: a binding whose slot is never read and whose
//!   initialiser is side-effect-free is removed. Reads are counted across the
//!   whole function, so this is conservative and correct.
//!
//! Nested blocks (branches, loop bodies, block expressions) are processed
//! first. The pass never removes anything with side effects; that judgement
//! is delegated entirely to [`is_pure`](crate::opt::is_pure).

use std::collections::HashSet;

use vstd::prelude::*;

use crate::hir::view::{
    bv, ev, evs, fv, funcs_v, kv, lemma_evs_len, lemma_evs_push, lemma_svs_len, lemma_svs_push, sv, svs, BlockV, ExprV, FunctionV, KindV, StmtV,
};
use crate::hir::{Block, Expr, ExprKind, Function, Hir, Stmt};
use crate::opt::fold::sat;
use crate::opt::{is_pure, pure_e};

verus! {

// ---- the slots a function reads ----

/// The local slots an expression reads. An assignment's target is written,
/// not read.
pub open spec fn reads_e(e: ExprV) -> Set<u32>
    decreases e, 1int,
{
    reads_k(e.kind)
}

/// The local slots a node reads: [`reads_e`].
pub open spec fn reads_k(k: KindV) -> Set<u32>
    decreases k, 0int,
{
    match k {
        KindV::Local(id) => set![id.0],
        KindV::Unary { rhs, .. } => reads_e(*rhs),
        KindV::Binary { lhs, rhs, .. } => reads_e(*lhs) + reads_e(*rhs),
        KindV::Call { args, .. } => reads_es(args, args.len()),
        KindV::Assign { value, .. } => reads_e(*value),
        KindV::ArrayLit(es) => reads_es(es, es.len()),
        KindV::Index { base, index } => reads_e(*base) + reads_e(*index),
        KindV::SetIndex { base, index, value } => reads_e(*base) + reads_e(*index) + reads_e(*value),
        KindV::StructLit(es) => reads_es(es, es.len()),
        KindV::GetField { base, .. } => reads_e(*base),
        KindV::SetField { base, value, .. } => reads_e(*base) + reads_e(*value),
        KindV::If { cond, then_branch, else_branch } => reads_e(*cond) + reads_b(then_branch) + match else_branch {
            Some(e) => reads_e(*e),
            None => Set::empty(),
        },
        KindV::Block(b) => reads_b(b),
        _ => Set::empty(),
    }
}

/// The slots the first `n` expressions read.
pub open spec fn reads_es(es: Seq<ExprV>, n: nat) -> Set<u32>
    decreases es, n,
{
    if n == 0 || n > es.len() {
        Set::empty()
    } else {
        reads_es(es, (n - 1) as nat) + reads_e(es[n - 1])
    }
}

/// The slots a block reads.
pub open spec fn reads_b(b: BlockV) -> Set<u32>
    decreases b, 1int,
{
    reads_ss(b.stmts, b.stmts.len()) + match b.tail {
        Some(t) => reads_e(*t),
        None => Set::empty(),
    }
}

/// The slots the first `n` statements read.
pub open spec fn reads_ss(ss: Seq<StmtV>, n: nat) -> Set<u32>
    decreases ss, n,
{
    if n == 0 || n > ss.len() {
        Set::empty()
    } else {
        reads_ss(ss, (n - 1) as nat) + reads_s(ss[n - 1])
    }
}

/// The slots a statement reads; a counted loop reads its counter and its
/// cached bound.
pub open spec fn reads_s(s: StmtV) -> Set<u32>
    decreases s, 0int,
{
    match s {
        StmtV::Let { value, .. } => reads_e(value),
        StmtV::Expr(e) => reads_e(e),
        StmtV::Return(Some(e)) => reads_e(e),
        StmtV::While { cond, body } => reads_e(cond) + reads_b(body),
        StmtV::For { var, end_var, start, end, body } => set![var.0, end_var.0] + reads_e(start) + reads_e(end)
            + reads_b(body),
        _ => Set::empty(),
    }
}

// ---- the pass ----

/// Whether a statement stays: not a `while false`, and not a `let` of a
/// slot nobody reads with a pure initialiser.
pub open spec fn keep_s(s: StmtV, reads: Set<u32>) -> bool {
    match s {
        StmtV::While { cond, .. } => !(cond.kind matches KindV::Bool(b) && !b),
        StmtV::Let { local, value } => reads.contains(local.0) || !pure_e(value),
        _ => true,
    }
}

/// The statements that stay, in order.
pub open spec fn kept(ss: Seq<StmtV>, reads: Set<u32>) -> Seq<StmtV>
    decreases ss.len(),
{
    if ss.len() == 0 {
        ss
    } else {
        let k = kept(ss.drop_last(), reads);
        if keep_s(ss.last(), reads) {
            k.push(ss.last())
        } else {
            k
        }
    }
}

/// The index of the first `return` at or after `i`, or the length.
pub open spec fn first_return(ss: Seq<StmtV>, i: nat) -> nat
    decreases ss.len() - i,
{
    if i >= ss.len() || ss[i as int] is Return {
        i
    } else {
        first_return(ss, i + 1)
    }
}

/// An expression with dead code removed from its nested blocks, and the
/// number of removals.
pub open spec fn dce_e(e: ExprV, reads: Set<u32>) -> (ExprV, nat)
    decreases e, 1int,
{
    let (k, n) = dce_k(e.kind, reads);
    (ExprV { kind: k, ty: e.ty, span: e.span }, n)
}

/// A node with dead code removed from its nested blocks: [`dce_e`].
pub open spec fn dce_k(k: KindV, reads: Set<u32>) -> (KindV, nat)
    decreases k, 0int,
{
    match k {
        KindV::Unary { op, rhs } => {
            let (r, n) = dce_e(*rhs, reads);
            (KindV::Unary { op, rhs: Box::new(r) }, n)
        },
        KindV::Binary { op, lhs, rhs } => {
            let (l, n1) = dce_e(*lhs, reads);
            let (r, n2) = dce_e(*rhs, reads);
            (KindV::Binary { op, lhs: Box::new(l), rhs: Box::new(r) }, n1 + n2)
        },
        KindV::Call { callee, args } => {
            let (a, n) = dce_es(args, args.len(), reads);
            (KindV::Call { callee, args: a }, n)
        },
        KindV::Assign { local, value } => {
            let (v, n) = dce_e(*value, reads);
            (KindV::Assign { local, value: Box::new(v) }, n)
        },
        KindV::ArrayLit(es) => {
            let (a, n) = dce_es(es, es.len(), reads);
            (KindV::ArrayLit(a), n)
        },
        KindV::Index { base, index } => {
            let (b, n1) = dce_e(*base, reads);
            let (i, n2) = dce_e(*index, reads);
            (KindV::Index { base: Box::new(b), index: Box::new(i) }, n1 + n2)
        },
        KindV::SetIndex { base, index, value } => {
            let (b, n1) = dce_e(*base, reads);
            let (i, n2) = dce_e(*index, reads);
            let (v, n3) = dce_e(*value, reads);
            (KindV::SetIndex { base: Box::new(b), index: Box::new(i), value: Box::new(v) }, n1 + n2 + n3)
        },
        KindV::StructLit(es) => {
            let (a, n) = dce_es(es, es.len(), reads);
            (KindV::StructLit(a), n)
        },
        KindV::GetField { base, idx } => {
            let (b, n) = dce_e(*base, reads);
            (KindV::GetField { base: Box::new(b), idx }, n)
        },
        KindV::SetField { base, idx, value } => {
            let (b, n1) = dce_e(*base, reads);
            let (v, n2) = dce_e(*value, reads);
            (KindV::SetField { base: Box::new(b), idx, value: Box::new(v) }, n1 + n2)
        },
        KindV::If { cond, then_branch, else_branch } => {
            let (c, n1) = dce_e(*cond, reads);
            let (t, n2) = dce_b(then_branch, reads);
            match else_branch {
                Some(e) => {
                    let (x, n3) = dce_e(*e, reads);
                    (KindV::If { cond: Box::new(c), then_branch: t, else_branch: Some(Box::new(x)) }, n1 + n2 + n3)
                },
                None => (KindV::If { cond: Box::new(c), then_branch: t, else_branch: None }, n1 + n2),
            }
        },
        KindV::Block(b) => {
            let (r, n) = dce_b(b, reads);
            (KindV::Block(r), n)
        },
        _ => (k, 0),
    }
}

/// The first `n` expressions with dead code removed.
pub open spec fn dce_es(es: Seq<ExprV>, n: nat, reads: Set<u32>) -> (Seq<ExprV>, nat)
    decreases es, n,
{
    if n == 0 || n > es.len() {
        (Seq::empty(), 0)
    } else {
        let (a, c1) = dce_es(es, (n - 1) as nat, reads);
        let (x, c2) = dce_e(es[n - 1], reads);
        (a.push(x), c1 + c2)
    }
}

/// A block with dead code removed: nested code first, then everything after
/// the first `return`, then the statements that do not stay.
pub open spec fn dce_b(b: BlockV, reads: Set<u32>) -> (BlockV, nat)
    decreases b, 1int,
{
    let (ss1, n1) = dce_ss(b.stmts, b.stmts.len(), reads);
    let (t1, n2) = match b.tail {
        Some(t) => {
            let (r, n) = dce_e(*t, reads);
            (Some(Box::new(r)), n)
        },
        None => (None, 0),
    };
    let p = first_return(ss1, 0);
    let after = if p < ss1.len() {
        (ss1.len() - (p + 1) + if t1 is Some {
            1int
        } else {
            0int
        }) as nat
    } else {
        0
    };
    let ss2 = if after > 0 {
        ss1.take(p + 1 as int)
    } else {
        ss1
    };
    let t2 = if after > 0 {
        None
    } else {
        t1
    };
    let ss3 = kept(ss2, reads);
    (BlockV { stmts: ss3, tail: t2, ty: b.ty }, n1 + n2 + after + (ss2.len() - ss3.len()) as nat)
}

/// The first `n` statements with dead code removed from their nested code.
pub open spec fn dce_ss(ss: Seq<StmtV>, n: nat, reads: Set<u32>) -> (Seq<StmtV>, nat)
    decreases ss, n,
{
    if n == 0 || n > ss.len() {
        (Seq::empty(), 0)
    } else {
        let (a, c1) = dce_ss(ss, (n - 1) as nat, reads);
        let (x, c2) = dce_s(ss[n - 1], reads);
        (a.push(x), c1 + c2)
    }
}

/// A statement with dead code removed from its nested code.
pub open spec fn dce_s(s: StmtV, reads: Set<u32>) -> (StmtV, nat)
    decreases s, 0int,
{
    match s {
        StmtV::Let { local, value } => {
            let (v, n) = dce_e(value, reads);
            (StmtV::Let { local, value: v }, n)
        },
        StmtV::Expr(e) => {
            let (v, n) = dce_e(e, reads);
            (StmtV::Expr(v), n)
        },
        StmtV::Return(Some(e)) => {
            let (v, n) = dce_e(e, reads);
            (StmtV::Return(Some(v)), n)
        },
        StmtV::While { cond, body } => {
            let (c, n1) = dce_e(cond, reads);
            let (b, n2) = dce_b(body, reads);
            (StmtV::While { cond: c, body: b }, n1 + n2)
        },
        StmtV::For { var, end_var, start, end, body } => {
            let (s1, n1) = dce_e(start, reads);
            let (e1, n2) = dce_e(end, reads);
            let (b, n3) = dce_b(body, reads);
            (StmtV::For { var, end_var, start: s1, end: e1, body: b }, n1 + n2 + n3)
        },
        _ => (s, 0),
    }
}


// ---- executable: collecting reads ----

/// Adds the slots an expression reads: [`reads_e`].
fn collect_expr(e: &Expr, reads: &mut HashSet<u32>)
    ensures
        final(reads)@ == old(reads)@ + reads_e(ev(*e)),
    decreases *e,
{
    broadcast use vstd::std_specs::hash::group_hash_axioms;

    let ghost before = reads@;
    match &e.kind {
        ExprKind::Local(id) => {
            reads.insert(id.0);
        },
        ExprKind::Unary { rhs, .. } => collect_expr(rhs, reads),
        ExprKind::Binary { lhs, rhs, .. } => {
            collect_expr(lhs, reads);
            collect_expr(rhs, reads);
        },
        ExprKind::Call { args, .. } => collect_exprs(args, reads),
        ExprKind::Assign { value, .. } => collect_expr(value, reads),
        ExprKind::ArrayLit(es) => collect_exprs(es, reads),
        ExprKind::Index { base, index } => {
            collect_expr(base, reads);
            collect_expr(index, reads);
        },
        ExprKind::SetIndex { base, index, value } => {
            collect_expr(base, reads);
            collect_expr(index, reads);
            collect_expr(value, reads);
        },
        ExprKind::StructLit(es) => collect_exprs(es, reads),
        ExprKind::GetField { base, .. } => collect_expr(base, reads),
        ExprKind::SetField { base, value, .. } => {
            collect_expr(base, reads);
            collect_expr(value, reads);
        },
        ExprKind::If { cond, then_branch, else_branch } => {
            collect_expr(cond, reads);
            collect_block(then_branch, reads);
            match else_branch {
                Some(x) => collect_expr(x, reads),
                None => {},
            }
        },
        ExprKind::Block(b) => collect_block(b, reads),
        _ => {},
    }
    assert(reads@ =~= before + reads_e(ev(*e)));
}

/// Adds the slots a list of expressions reads: [`reads_es`].
fn collect_exprs(es: &Vec<Expr>, reads: &mut HashSet<u32>)
    ensures
        final(reads)@ == old(reads)@ + reads_es(evs(es@, es@.len()), es@.len()),
        evs(es@, es@.len()).len() == es@.len(),
    decreases es@,
{
    let ghost before = reads@;
    let ghost vs = evs(es@, es@.len());
    proof {
        lemma_evs_len(es@, es@.len());
    }
    let mut i: usize = 0;
    while i < es.len()
        invariant
            i <= es@.len(),
            vs == evs(es@, es@.len()),
            vs.len() == es@.len(),
            forall|k: int| 0 <= k < es@.len() ==> vs[k] == ev(#[trigger] es@[k]),
            reads@ == before + reads_es(vs, i as nat),
        decreases es@.len() - i,
    {
        assert(vs[i as int] == ev(es@[i as int]));
        let ghost mid = reads@;
        collect_expr(&es[i], reads);
        assert(reads@ =~= before + reads_es(vs, (i + 1) as nat));
        i = i + 1;
    }
}

/// Adds the slots a block reads: [`reads_b`].
fn collect_block(b: &Block, reads: &mut HashSet<u32>)
    ensures
        final(reads)@ == old(reads)@ + reads_b(bv(*b)),
    decreases *b,
{
    let ghost before = reads@;
    let ghost vs = svs(b.stmts@, b.stmts@.len());
    proof {
        lemma_svs_len(b.stmts@, b.stmts@.len());
    }
    let mut i: usize = 0;
    while i < b.stmts.len()
        invariant
            i <= b.stmts@.len(),
            vs == svs(b.stmts@, b.stmts@.len()),
            vs.len() == b.stmts@.len(),
            forall|k: int| 0 <= k < b.stmts@.len() ==> vs[k] == sv(#[trigger] b.stmts@[k]),
            reads@ == before + reads_ss(vs, i as nat),
        decreases b.stmts@.len() - i,
    {
        assert(vs[i as int] == sv(b.stmts@[i as int]));
        collect_stmt(&b.stmts[i], reads);
        assert(reads@ =~= before + reads_ss(vs, (i + 1) as nat));
        i = i + 1;
    }
    let ghost mid = reads@;
    match &b.tail {
        Some(t) => collect_expr(t, reads),
        None => {},
    }
    assert(reads@ =~= before + reads_b(bv(*b)));
}

/// Adds the slots a statement reads: [`reads_s`].
fn collect_stmt(s: &Stmt, reads: &mut HashSet<u32>)
    ensures
        final(reads)@ == old(reads)@ + reads_s(sv(*s)),
    decreases *s,
{
    broadcast use vstd::std_specs::hash::group_hash_axioms;

    let ghost before = reads@;
    match s {
        Stmt::Let { value, .. } => collect_expr(value, reads),
        Stmt::Expr(e) => collect_expr(e, reads),
        Stmt::Return(Some(e)) => collect_expr(e, reads),
        Stmt::While { cond, body } => {
            collect_expr(cond, reads);
            collect_block(body, reads);
        },
        Stmt::For { var, end_var, start, end, body } => {
            reads.insert(var.0);
            reads.insert(end_var.0);
            collect_expr(start, reads);
            collect_expr(end, reads);
            collect_block(body, reads);
        },
        _ => {},
    }
    assert(reads@ =~= before + reads_s(sv(*s)));
}


// ---- executable: the pass ----

/// `a + b`, held at `usize::MAX`.
fn add_sat(a: usize, b: usize) -> (r: usize)
    ensures
        r == sat(a as int, b as int),
{
    if a > usize::MAX - b {
        usize::MAX
    } else {
        a + b
    }
}

proof fn lemma_sat_assoc(a: int, b: int, c: int)
    requires
        0 <= a <= usize::MAX,
        0 <= b,
        0 <= c,
    ensures
        sat(sat(a, b), c) == sat(a, b + c),
{
}

/// Removes dead code from an expression's nested blocks: [`dce_e`].
fn dce_expr(e: Expr, reads: &HashSet<u32>, count: usize) -> (r: (Expr, usize))
    ensures
        ev(r.0) == dce_e(ev(e), reads@).0,
        r.1 == sat(count as int, dce_e(ev(e), reads@).1 as int),
    decreases e,
{
    let Expr { kind, ty, span } = e;
    let (k, c) = dce_kind(kind, reads, count);
    (Expr { kind: k, ty, span }, c)
}

/// Removes dead code from a node's nested blocks: [`dce_k`].
fn dce_kind(k: ExprKind, reads: &HashSet<u32>, count: usize) -> (r: (ExprKind, usize))
    ensures
        kv(r.0) == dce_k(kv(k), reads@).0,
        r.1 == sat(count as int, dce_k(kv(k), reads@).1 as int),
    decreases k,
{
    match k {
        ExprKind::Unary { op, rhs } => {
            let (r, c) = dce_expr(*rhs, reads, count);
            (ExprKind::Unary { op, rhs: Box::new(r) }, c)
        },
        ExprKind::Binary { op, lhs, rhs } => {
            let (l, c) = dce_expr(*lhs, reads, count);
            let (r, c) = dce_expr(*rhs, reads, c);
            (ExprKind::Binary { op, lhs: Box::new(l), rhs: Box::new(r) }, c)
        },
        ExprKind::Call { callee, args } => {
            let (a, c) = dce_exprs(args, reads, count);
            (ExprKind::Call { callee, args: a }, c)
        },
        ExprKind::Assign { local, value } => {
            let (v, c) = dce_expr(*value, reads, count);
            (ExprKind::Assign { local, value: Box::new(v) }, c)
        },
        ExprKind::ArrayLit(es) => {
            let (a, c) = dce_exprs(es, reads, count);
            (ExprKind::ArrayLit(a), c)
        },
        ExprKind::Index { base, index } => {
            let (b, c) = dce_expr(*base, reads, count);
            let (i, c) = dce_expr(*index, reads, c);
            (ExprKind::Index { base: Box::new(b), index: Box::new(i) }, c)
        },
        ExprKind::SetIndex { base, index, value } => {
            let (b, c) = dce_expr(*base, reads, count);
            let (i, c) = dce_expr(*index, reads, c);
            let (v, c) = dce_expr(*value, reads, c);
            (ExprKind::SetIndex { base: Box::new(b), index: Box::new(i), value: Box::new(v) }, c)
        },
        ExprKind::StructLit(es) => {
            let (a, c) = dce_exprs(es, reads, count);
            (ExprKind::StructLit(a), c)
        },
        ExprKind::GetField { base, idx } => {
            let (b, c) = dce_expr(*base, reads, count);
            (ExprKind::GetField { base: Box::new(b), idx }, c)
        },
        ExprKind::SetField { base, idx, value } => {
            let (b, c) = dce_expr(*base, reads, count);
            let (v, c) = dce_expr(*value, reads, c);
            (ExprKind::SetField { base: Box::new(b), idx, value: Box::new(v) }, c)
        },
        ExprKind::If { cond, then_branch, else_branch } => {
            let (cd, c) = dce_expr(*cond, reads, count);
            let (t, c) = dce_block(then_branch, reads, c);
            match else_branch {
                Some(e) => {
                    let (x, c) = dce_expr(*e, reads, c);
                    (ExprKind::If { cond: Box::new(cd), then_branch: t, else_branch: Some(Box::new(x)) }, c)
                },
                None => (ExprKind::If { cond: Box::new(cd), then_branch: t, else_branch: None }, c),
            }
        },
        ExprKind::Block(b) => {
            let (r, c) = dce_block(b, reads, count);
            (ExprKind::Block(r), c)
        },
        other => (other, count),
    }
}

proof fn lemma_dce_es_prefix(s: Seq<ExprV>, t: Seq<ExprV>, n: nat, reads: Set<u32>)
    requires
        n <= s.len(),
        n <= t.len(),
        s.take(n as int) == t.take(n as int),
    ensures
        dce_es(s, n, reads) == dce_es(t, n, reads),
    decreases n,
{
    if n > 0 {
        assert(s.take(n - 1) =~= s.take(n as int).take(n - 1));
        assert(t.take(n - 1) =~= t.take(n as int).take(n - 1));
        assert(s[n - 1] == s.take(n as int)[n - 1]);
        assert(t[n - 1] == t.take(n as int)[n - 1]);
        lemma_dce_es_prefix(s, t, (n - 1) as nat, reads);
    }
}

proof fn lemma_dce_ss_prefix(s: Seq<StmtV>, t: Seq<StmtV>, n: nat, reads: Set<u32>)
    requires
        n <= s.len(),
        n <= t.len(),
        s.take(n as int) == t.take(n as int),
    ensures
        dce_ss(s, n, reads) == dce_ss(t, n, reads),
    decreases n,
{
    if n > 0 {
        assert(s.take(n - 1) =~= s.take(n as int).take(n - 1));
        assert(t.take(n - 1) =~= t.take(n as int).take(n - 1));
        assert(s[n - 1] == s.take(n as int)[n - 1]);
        assert(t[n - 1] == t.take(n as int)[n - 1]);
        lemma_dce_ss_prefix(s, t, (n - 1) as nat, reads);
    }
}

/// Removes dead code from a list of expressions, in order: [`dce_es`].
fn dce_exprs(es: Vec<Expr>, reads: &HashSet<u32>, count: usize) -> (r: (Vec<Expr>, usize))
    ensures
        evs(r.0@, r.0@.len()) == dce_es(evs(es@, es@.len()), es@.len(), reads@).0,
        r.1 == sat(count as int, dce_es(evs(es@, es@.len()), es@.len(), reads@).1 as int),
        evs(es@, es@.len()).len() == es@.len(),
    decreases es@,
{
    let ghost orig = es@;
    proof {
        lemma_evs_len(orig, orig.len());
    }
    let mut es = es;
    match es.pop() {
        None => (es, count),
        Some(x) => {
            proof {
                assert(es@ =~= orig.drop_last());
                assert(orig =~= es@.push(x));
                lemma_evs_push(es@, x);
            }
            let ghost pre = es@;
            let (mut out, c) = dce_exprs(es, reads, count);
            let (y, c) = dce_expr(x, reads, c);
            proof {
                lemma_evs_push(out@, y);
                let v = evs(orig, orig.len());
                let w = evs(pre, pre.len());
                assert(v == w.push(ev(x)));
                assert(v.take(pre.len() as int) =~= w.take(pre.len() as int));
                lemma_dce_es_prefix(v, w, pre.len(), reads@);
            }
            out.push(y);
            (out, c)
        },
    }
}

/// Removes dead code from a list of statements' nested code: [`dce_ss`].
fn dce_stmts(ss: Vec<Stmt>, reads: &HashSet<u32>, count: usize) -> (r: (Vec<Stmt>, usize))
    ensures
        svs(r.0@, r.0@.len()) == dce_ss(svs(ss@, ss@.len()), ss@.len(), reads@).0,
        r.1 == sat(count as int, dce_ss(svs(ss@, ss@.len()), ss@.len(), reads@).1 as int),
        svs(ss@, ss@.len()).len() == ss@.len(),
    decreases ss@,
{
    let ghost orig = ss@;
    proof {
        lemma_svs_len(orig, orig.len());
    }
    let mut ss = ss;
    match ss.pop() {
        None => (ss, count),
        Some(x) => {
            proof {
                assert(ss@ =~= orig.drop_last());
                assert(orig =~= ss@.push(x));
                lemma_svs_push(ss@, x);
            }
            let ghost pre = ss@;
            let (mut out, c) = dce_stmts(ss, reads, count);
            let (y, c) = dce_stmt(x, reads, c);
            proof {
                lemma_svs_push(out@, y);
                let v = svs(orig, orig.len());
                let w = svs(pre, pre.len());
                assert(v == w.push(sv(x)));
                assert(v.take(pre.len() as int) =~= w.take(pre.len() as int));
                lemma_dce_ss_prefix(v, w, pre.len(), reads@);
            }
            out.push(y);
            (out, c)
        },
    }
}

/// Removes dead code from a statement's nested code: [`dce_s`].
fn dce_stmt(s: Stmt, reads: &HashSet<u32>, count: usize) -> (r: (Stmt, usize))
    ensures
        sv(r.0) == dce_s(sv(s), reads@).0,
        r.1 == sat(count as int, dce_s(sv(s), reads@).1 as int),
    decreases s,
{
    match s {
        Stmt::Let { local, value } => {
            let (v, c) = dce_expr(value, reads, count);
            (Stmt::Let { local, value: v }, c)
        },
        Stmt::Expr(e) => {
            let (v, c) = dce_expr(e, reads, count);
            (Stmt::Expr(v), c)
        },
        Stmt::Return(Some(e)) => {
            let (v, c) = dce_expr(e, reads, count);
            (Stmt::Return(Some(v)), c)
        },
        Stmt::While { cond, body } => {
            let (cd, c) = dce_expr(cond, reads, count);
            let (b, c) = dce_block(body, reads, c);
            (Stmt::While { cond: cd, body: b }, c)
        },
        Stmt::For { var, end_var, start, end, body } => {
            let (s1, c) = dce_expr(start, reads, count);
            let (e1, c) = dce_expr(end, reads, c);
            let (b, c) = dce_block(body, reads, c);
            (Stmt::For { var, end_var, start: s1, end: e1, body: b }, c)
        },
        other => (other, count),
    }
}

/// Whether a statement stays: [`keep_s`].
fn keep_stmt(s: &Stmt, reads: &HashSet<u32>) -> (b: bool)
    ensures
        b == keep_s(sv(*s), reads@),
{
    broadcast use vstd::std_specs::hash::group_hash_axioms;

    match s {
        Stmt::While { cond, .. } => match cond.kind {
            ExprKind::Bool(false) => false,
            _ => true,
        },
        Stmt::Let { local, value } => reads.contains(&local.0) || !is_pure(value),
        _ => true,
    }
}

/// The statements that stay, in order: [`kept`].
fn keep_stmts(ss: Vec<Stmt>, reads: &HashSet<u32>) -> (r: Vec<Stmt>)
    ensures
        svs(r@, r@.len()) == kept(svs(ss@, ss@.len()), reads@),
    decreases ss@.len(),
{
    let ghost orig = ss@;
    let mut ss = ss;
    match ss.pop() {
        None => {
            assert(svs(orig, 0) =~= Seq::<StmtV>::empty());
            ss
        },
        Some(x) => {
            proof {
                assert(ss@ =~= orig.drop_last());
                assert(orig =~= ss@.push(x));
                lemma_svs_push(ss@, x);
                lemma_svs_len(ss@, ss@.len());
            }
            let ghost pre = ss@;
            let keep = keep_stmt(&x, reads);
            let mut out = keep_stmts(ss, reads);
            proof {
                let v = svs(orig, orig.len());
                assert(v.drop_last() =~= svs(pre, pre.len()));
                assert(v.last() == sv(x));
            }
            if keep {
                proof {
                    lemma_svs_push(out@, x);
                }
                out.push(x);
            }
            out
        },
    }
}

/// Whether a statement is a `return`.
fn is_return(s: &Stmt) -> (b: bool)
    ensures
        b == (sv(*s) is Return),
{
    match s {
        Stmt::Return(_) => true,
        _ => false,
    }
}


/// Removes dead code from a block: [`dce_b`].
fn dce_block(b: Block, reads: &HashSet<u32>, count: usize) -> (r: (Block, usize))
    ensures
        bv(r.0) == dce_b(bv(b), reads@).0,
        r.1 == sat(count as int, dce_b(bv(b), reads@).1 as int),
    decreases b,
{
    let ghost bvv = bv(b);
    let Block { stmts, tail, ty } = b;
    let (ss1, c) = dce_stmts(stmts, reads, count);
    let ghost v1 = svs(ss1@, ss1@.len());
    proof {
        lemma_svs_len(ss1@, ss1@.len());
    }
    let ghost c1 = c;
    let (t1, c) = match tail {
        Some(t) => {
            let (r, c) = dce_expr(*t, reads, c);
            (Some(Box::new(r)), c)
        },
        None => (None, c),
    };
    let mut p: usize = 0;
    while p < ss1.len() && !is_return(&ss1[p])
        invariant
            p <= ss1@.len(),
            v1 == svs(ss1@, ss1@.len()),
            v1.len() == ss1@.len(),
            forall|k: int| 0 <= k < ss1@.len() ==> v1[k] == sv(#[trigger] ss1@[k]),
            first_return(v1, p as nat) == first_return(v1, 0),
        decreases ss1@.len() - p,
    {
        assert(v1[p as int] == sv(ss1@[p as int]));
        p = p + 1;
    }
    proof {
        if p < ss1@.len() {
            assert(v1[p as int] == sv(ss1@[p as int]));
        }
    }
    assert(first_return(v1, p as nat) == p);
    let mut ss2 = ss1;
    let mut t2 = t1;
    let mut c = c;
    let ghost c2 = c;
    if p < ss2.len() {
        let removed = ss2.len() - (p + 1) + if t2.is_some() {
            1
        } else {
            0
        };
        if removed > 0 {
            let ghost whole = ss2@;
            ss2.truncate(p + 1);
            proof {
                assert(ss2@ =~= whole.take(p + 1));
                lemma_svs_len(whole, whole.len());
                lemma_svs_len(ss2@, ss2@.len());
                assert forall|k: int| 0 <= k < p + 1 implies svs(ss2@, ss2@.len())[k] == v1.take(p + 1)[k] by {
                    assert(ss2@[k] == whole[k]);
                }
                assert(svs(ss2@, ss2@.len()) =~= v1.take(p + 1));
            }
            t2 = None;
            c = add_sat(c, removed);
        }
    }
    let n2 = ss2.len();
    proof {
        lemma_svs_len(ss2@, ss2@.len());
        lemma_kept_len(svs(ss2@, ss2@.len()), reads@);
    }
    let ss3 = keep_stmts(ss2, reads);
    proof {
        lemma_svs_len(ss3@, ss3@.len());
    }
    let dropped = n2 - ss3.len();
    c = add_sat(c, dropped);
    (Block { stmts: ss3, tail: t2, ty }, c)
}

pub proof fn lemma_kept_len(ss: Seq<StmtV>, reads: Set<u32>)
    ensures
        kept(ss, reads).len() <= ss.len(),
    decreases ss.len(),
{
    if ss.len() > 0 {
        lemma_kept_len(ss.drop_last(), reads);
    }
}


/// A function with dead code removed from its body, against the slots that
/// body reads.
pub open spec fn dce_fn(f: FunctionV) -> FunctionV {
    FunctionV { body: dce_b(f.body, reads_b(f.body)).0, ..f }
}

/// The removals dead-code elimination makes in the first `n` functions.
pub open spec fn dce_sum(fs: Seq<FunctionV>, n: nat) -> nat
    decreases n,
{
    if n == 0 || n > fs.len() {
        0
    } else {
        dce_sum(fs, (n - 1) as nat) + dce_b(fs[n - 1].body, reads_b(fs[n - 1].body)).1
    }
}

/// A program with dead code removed from every body, and the number of
/// removals.
pub open spec fn dce_prog(fs: Seq<FunctionV>) -> (Seq<FunctionV>, nat) {
    (fs.map_values(|f: FunctionV| dce_fn(f)), dce_sum(fs, fs.len()))
}

/// Runs dead-code elimination over the whole program: each function's body
/// is cleaned ([`dce_b`]) against the slots that body reads; returns the
/// number of removals.
pub fn run(hir: &mut Hir) -> (count: usize)
    ensures
        final(hir).main == old(hir).main,
        funcs_v(final(hir).functions@) == dce_prog(funcs_v(old(hir).functions@)).0,
        count == sat(0, dce_prog(funcs_v(old(hir).functions@)).1 as int),
{
    broadcast use vstd::std_specs::hash::group_hash_axioms;

    let mut rest: Vec<Function> = Vec::new();
    std::mem::swap(&mut rest, &mut hir.functions);
    let ghost orig = rest@;
    let ghost ov = funcs_v(orig);
    assert(orig.len() == rest.len());
    let mut out: Vec<Function> = Vec::new();
    let mut count: usize = 0;
    let mut i: usize = 0;
    while rest.len() > 0
        invariant
            i <= orig.len() <= usize::MAX,
            rest@ == orig.skip(i as int),
            out@.len() == i,
            ov == funcs_v(orig),
            forall|k: int| 0 <= k < i ==> fv(#[trigger] out@[k]) == dce_fn(ov[k]),
            count == sat(0, dce_sum(ov, i as nat) as int),
        decreases rest@.len(),
    {
        let f = rest.remove(0);
        assert(f == orig[i as int]);
        assert(ov[i as int] == fv(f));
        assert(rest@ =~= orig.skip(i + 1));
        let mut reads: HashSet<u32> = HashSet::new();
        collect_block(&f.body, &mut reads);
        assert(reads@ =~= reads_b(bv(f.body)));
        let Function { name, locals, param_count, ret, body } = f;
        let (b, c) = dce_block(body, &reads, count);
        let g = Function { name, locals, param_count, ret, body: b };
        let ghost before = out@;
        out.push(g);
        proof {
            assert forall|k: int| 0 <= k < i + 1 implies fv(#[trigger] out@[k]) == dce_fn(ov[k]) by {
                if k < i {
                    assert(out@[k] == before[k]);
                }
            }
        }
        count = c;
        i = i + 1;
    }
    assert(funcs_v(out@) =~= dce_prog(ov).0);
    hir.functions = out;
    count
}


/// Dead-code elimination never drops code with side effects: a statement
/// it filters out of a block is a `while false` loop, or a `let` of a slot
/// nobody reads whose initialiser is pure.
pub proof fn lemma_only_dead_code_is_dropped(ss: Seq<StmtV>, reads: Set<u32>, s: StmtV)
    requires
        ss.contains(s),
        !kept(ss, reads).contains(s),
    ensures
        match s {
            StmtV::While { cond, .. } => cond.kind == KindV::Bool(false),
            StmtV::Let { local, value } => !reads.contains(local.0) && pure_e(value),
            _ => false,
        },
    decreases ss.len(),
{
    let k = kept(ss.drop_last(), reads);
    if ss.last() == s {
        if keep_s(s, reads) {
            assert(kept(ss, reads) == k.push(s));
            assert(kept(ss, reads)[k.len() as int] == s);
        }
    } else {
        let i = choose|i: int| 0 <= i < ss.len() && ss[i] == s;
        assert(ss.drop_last()[i] == s);
        if keep_s(ss.last(), reads) {
            assert(kept(ss, reads) == k.push(ss.last()));
            if k.contains(s) {
                let j = choose|j: int| 0 <= j < k.len() && k[j] == s;
                assert(kept(ss, reads)[j] == s);
            }
        }
        lemma_only_dead_code_is_dropped(ss.drop_last(), reads, s);
    }
}

} // verus!
