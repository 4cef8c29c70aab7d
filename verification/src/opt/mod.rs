//! Options and statistics of the HIR optimizer.
//!
//! The optimizer rewrites to a fixpoint, bounded by
//! [`OptOptions::max_iterations`], so that one pass can expose opportunities
//! for another; [`OptStats`] counts what it did.

pub mod dce;
pub mod fold;
pub mod inline;

use vstd::prelude::*;

use crate::hir::view::{bv, ev, funcs_v, BlockV, ExprV, FunctionV, KindV, StmtV};
use crate::hir::{BinOp, Block, Expr, ExprKind, FnId, Hir, Stmt};
use crate::opt::dce::dce_prog;
use crate::opt::fold::{fold_prog, sat};
use crate::opt::inline::inline_prog;

verus! {

/// Optimizer configuration.
#[derive(Debug, Clone, Copy, PartialEq, Eq, Structural)]
pub struct OptOptions {
    /// Whether to run any passes at all (`-O0` turns this off).
    pub enabled: bool,
    /// Maximum fixpoint iterations before stopping.
    pub max_iterations: usize,
}

impl Default for OptOptions {
    /// Optimizing, with at most 8 fixpoint iterations.
    fn default() -> (o: OptOptions)
        ensures
            o.enabled,
            o.max_iterations == 8,
    {
        OptOptions { enabled: true, max_iterations: 8 }
    }
}

/// Per-run statistics, surfaced through tracing and the driver's `--stats`.
#[derive(Debug, Clone, Copy, PartialEq, Eq, Structural)]
pub struct OptStats {
    /// Constant folds / algebraic simplifications applied.
    pub folded: usize,
    /// Dead statements or branches removed.
    pub eliminated: usize,
    /// Call sites replaced by an inlined function body.
    pub inlined: usize,
    /// Fixpoint iterations performed.
    pub iterations: usize,
}

impl Default for OptStats {
    /// Nothing done yet.
    fn default() -> (s: OptStats)
        ensures
            s.folded == 0,
            s.eliminated == 0,
            s.inlined == 0,
            s.iterations == 0,
    {
        OptStats { folded: 0, eliminated: 0, inlined: 0, iterations: 0 }
    }
}

impl OptStats {
    /// Total rewrites across all passes (iterations are not rewrites).
    pub fn total(&self) -> (n: usize)
        requires
            self.folded + self.eliminated + self.inlined <= usize::MAX,
        ensures
            n == self.folded + self.eliminated + self.inlined,
    {
        self.folded + self.eliminated + self.inlined
    }
}


// ---- purity, shared by the passes ----

/// Whether evaluating an expression has no observable side effect, so that
/// it may be removed or duplicated. Anything that could call a function,
/// assign a variable or store into a value is impure, and so is anything
/// that can fail at run time (a division or remainder, which traps on a zero
/// divisor or overflow, and an array index, which traps out of bounds); so
/// is any statement other than a `let` or an expression.
pub open spec fn pure_e(e: ExprV) -> bool
    decreases e, 1int,
{
    pure_k(e.kind)
}

/// Purity of an expression node: [`pure_e`].
pub open spec fn pure_k(k: KindV) -> bool
    decreases k, 0int,
{
    match k {
        KindV::Int(_) | KindV::Float(_) | KindV::Bool(_) | KindV::Str(_) | KindV::Local(_) => true,
        KindV::Unary { rhs, .. } => pure_e(*rhs),
        KindV::Binary { op, lhs, rhs } => !(op is Div) && !(op is Rem) && pure_e(*lhs) && pure_e(*rhs),
        KindV::If { cond, then_branch, else_branch } => pure_e(*cond) && pure_b(then_branch) && match else_branch {
            Some(e) => pure_e(*e),
            None => true,
        },
        KindV::Block(b) => pure_b(b),
        KindV::ArrayLit(es) => pure_es(es, es.len()),
        KindV::StructLit(es) => pure_es(es, es.len()),
        KindV::GetField { base, .. } => pure_e(*base),
        KindV::Index { .. } | KindV::Call { .. } | KindV::Assign { .. } | KindV::SetIndex { .. } | KindV::SetField {
            ..
        } => false,
    }
}

/// Whether the first `n` expressions are pure.
pub open spec fn pure_es(es: Seq<ExprV>, n: nat) -> bool
    decreases es, n,
{
    if n == 0 || n > es.len() {
        true
    } else {
        pure_es(es, (n - 1) as nat) && pure_e(es[n - 1])
    }
}

/// Whether a block is pure: every statement and its tail.
pub open spec fn pure_b(b: BlockV) -> bool
    decreases b, 1int,
{
    pure_ss(b.stmts, b.stmts.len()) && match b.tail {
        Some(t) => pure_e(*t),
        None => true,
    }
}

/// Whether the first `n` statements are pure.
pub open spec fn pure_ss(ss: Seq<StmtV>, n: nat) -> bool
    decreases ss, n,
{
    if n == 0 || n > ss.len() {
        true
    } else {
        pure_ss(ss, (n - 1) as nat) && pure_s(ss[n - 1])
    }
}

/// Whether a statement is pure: a `let` or an expression statement whose
/// expression is; control transfers and loops are not.
pub open spec fn pure_s(s: StmtV) -> bool
    decreases s, 0int,
{
    match s {
        StmtV::Let { value, .. } => pure_e(value),
        StmtV::Expr(e) => pure_e(e),
        _ => false,
    }
}

/// Whether evaluating `expr` has no observable side effect: [`pure_e`].
pub fn is_pure(expr: &Expr) -> (b: bool)
    ensures
        b == pure_e(ev(*expr)),
    decreases *expr,
{
    match &expr.kind {
        ExprKind::Int(_) | ExprKind::Float(_) | ExprKind::Bool(_) | ExprKind::Str(_) | ExprKind::Local(_) => true,
        ExprKind::Unary { rhs, .. } => is_pure(rhs),
        ExprKind::Binary { op, lhs, rhs } => *op != BinOp::Div && *op != BinOp::Rem && is_pure(lhs) && is_pure(rhs),
        ExprKind::If { cond, then_branch, else_branch } => {
            is_pure(cond) && block_is_pure(then_branch) && match else_branch {
                Some(e) => is_pure(e),
                None => true,
            }
        },
        ExprKind::Block(block) => block_is_pure(block),
        ExprKind::ArrayLit(es) => all_pure(es),
        ExprKind::StructLit(es) => all_pure(es),
        ExprKind::GetField { base, .. } => is_pure(base),
        ExprKind::Index { .. } | ExprKind::Call { .. } | ExprKind::Assign { .. } | ExprKind::SetIndex { .. }
        | ExprKind::SetField { .. } => false,
    }
}

/// Whether every expression of a list is pure.
fn all_pure(es: &Vec<Expr>) -> (b: bool)
    ensures
        b == pure_es(crate::hir::view::evs(es@, es@.len()), es@.len()),
        crate::hir::view::evs(es@, es@.len()).len() == es@.len(),
    decreases es@,
{
    let ghost vs = crate::hir::view::evs(es@, es@.len());
    proof {
        crate::hir::view::lemma_evs_len(es@, es@.len());
    }
    let mut i: usize = 0;
    while i < es.len()
        invariant
            i <= es@.len(),
            vs == crate::hir::view::evs(es@, es@.len()),
            vs.len() == es@.len(),
            forall|k: int| 0 <= k < es@.len() ==> vs[k] == ev(#[trigger] es@[k]),
            pure_es(vs, i as nat),
        decreases es@.len() - i,
    {
        assert(vs[i as int] == ev(es@[i as int]));
        if !is_pure(&es[i]) {
            proof {
                lemma_pure_es_prefix(vs, (i + 1) as nat, vs.len());
            }
            return false;
        }
        i = i + 1;
    }
    true
}

/// A list whose first `m` items are not all pure is not pure up to any
/// `n >= m`.
proof fn lemma_pure_es_prefix(es: Seq<ExprV>, m: nat, n: nat)
    requires
        m <= n <= es.len(),
        !pure_es(es, m),
    ensures
        !pure_es(es, n),
    decreases n - m,
{
    if m < n {
        lemma_pure_es_prefix(es, m, (n - 1) as nat);
    }
}

/// Whether a block is pure: [`pure_b`].
pub fn block_is_pure(block: &Block) -> (b: bool)
    ensures
        b == pure_b(bv(*block)),
    decreases *block,
{
    let ghost vs = crate::hir::view::svs(block.stmts@, block.stmts@.len());
    proof {
        crate::hir::view::lemma_svs_len(block.stmts@, block.stmts@.len());
    }
    let mut i: usize = 0;
    while i < block.stmts.len()
        invariant
            i <= block.stmts@.len(),
            vs == crate::hir::view::svs(block.stmts@, block.stmts@.len()),
            vs.len() == block.stmts@.len(),
            forall|k: int| 0 <= k < block.stmts@.len() ==> vs[k] == crate::hir::view::sv(#[trigger] block.stmts@[k]),
            pure_ss(vs, i as nat),
        decreases block.stmts@.len() - i,
    {
        assert(vs[i as int] == crate::hir::view::sv(block.stmts@[i as int]));
        if !stmt_is_pure(&block.stmts[i]) {
            proof {
                lemma_pure_ss_prefix(vs, (i + 1) as nat, vs.len());
            }
            return false;
        }
        i = i + 1;
    }
    match &block.tail {
        Some(t) => is_pure(t),
        None => true,
    }
}

proof fn lemma_pure_ss_prefix(ss: Seq<StmtV>, m: nat, n: nat)
    requires
        m <= n <= ss.len(),
        !pure_ss(ss, m),
    ensures
        !pure_ss(ss, n),
    decreases n - m,
{
    if m < n {
        lemma_pure_ss_prefix(ss, m, (n - 1) as nat);
    }
}

/// Whether a statement is pure: [`pure_s`].
fn stmt_is_pure(stmt: &Stmt) -> (b: bool)
    ensures
        b == pure_s(crate::hir::view::sv(*stmt)),
    decreases *stmt,
{
    match stmt {
        Stmt::Let { value, .. } => is_pure(value),
        Stmt::Expr(e) => is_pure(e),
        _ => false,
    }
}


// ---- the pass manager ----

/// One round of the optimizer on a program: inline, then fold, then remove
/// dead code; with the counts of each pass.
pub open spec fn round(fs: Seq<FunctionV>, main: FnId) -> (Seq<FunctionV>, nat, nat, nat) {
    let (a, ni) = inline_prog(fs, main);
    let (b, nf) = fold_prog(a);
    let (c, ne) = dce_prog(b);
    (c, ni, nf, ne)
}

/// The running totals of inlined calls, folds and removals.
pub struct Totals {
    pub inlined: int,
    pub folded: int,
    pub eliminated: int,
}

/// Rounds repeated until one changes nothing, at most `left` more of them,
/// `done` having run: the program, the totals (each pass's count and each
/// total held at `usize::MAX`) and the number of rounds run.
pub open spec fn rounds(fs: Seq<FunctionV>, main: FnId, left: nat, done: nat, acc: Totals) -> (
    Seq<FunctionV>,
    Totals,
    nat,
)
    decreases left,
{
    if left == 0 {
        (fs, acc, done)
    } else {
        let (next, ni, nf, ne) = round(fs, main);
        let (si, sf, se) = (sat(0, ni as int), sat(0, nf as int), sat(0, ne as int));
        let acc2 = Totals {
            inlined: sat(acc.inlined, si),
            folded: sat(acc.folded, sf),
            eliminated: sat(acc.eliminated, se),
        };
        if si == 0 && sf == 0 && se == 0 {
            (next, acc2, done + 1)
        } else {
            rounds(next, main, (left - 1) as nat, done + 1, acc2)
        }
    }
}

/// `a + b`, held at `usize::MAX`.
pub fn add_sat(a: usize, b: usize) -> (r: usize)
    ensures
        r == sat(a as int, b as int),
{
    if a > usize::MAX - b {
        usize::MAX
    } else {
        a + b
    }
}

/// Optimizes `hir` in place: when enabled, rounds of inlining, folding and
/// dead-code elimination ([`rounds`]) until one changes nothing, at most
/// `max_iterations` of them; returns what was done. When disabled, nothing
/// changes.
pub fn optimize(hir: &mut Hir, options: OptOptions) -> (stats: OptStats)
    ensures
        final(hir).main == old(hir).main,
        !options.enabled ==> final(hir).functions@ == old(hir).functions@ && stats.folded == 0
            && stats.eliminated == 0 && stats.inlined == 0 && stats.iterations == 0,
        options.enabled ==> ({
            let (fs, t, n) = rounds(
                funcs_v(old(hir).functions@),
                old(hir).main,
                options.max_iterations as nat,
                0,
                Totals { inlined: 0, folded: 0, eliminated: 0 },
            );
            &&& funcs_v(final(hir).functions@) == fs
            &&& stats.inlined == t.inlined
            &&& stats.folded == t.folded
            &&& stats.eliminated == t.eliminated
            &&& stats.iterations == n
        }),
{
    let mut stats = OptStats { folded: 0, eliminated: 0, inlined: 0, iterations: 0 };
    if !options.enabled {
        return stats;
    }
    let ghost main = hir.main;
    let ghost goal = rounds(
        funcs_v(hir.functions@),
        main,
        options.max_iterations as nat,
        0,
        Totals { inlined: 0, folded: 0, eliminated: 0 },
    );
    let mut it: usize = 0;
    let mut stop = false;
    while it < options.max_iterations && !stop
        invariant
            it <= options.max_iterations,
            hir.main == main,
            !stop ==> stats.iterations == it,
            stop ==> goal == (
                funcs_v(hir.functions@),
                Totals {
                    inlined: stats.inlined as int,
                    folded: stats.folded as int,
                    eliminated: stats.eliminated as int,
                },
                stats.iterations as nat,
            ),
            !stop ==> goal == rounds(
                funcs_v(hir.functions@),
                main,
                (options.max_iterations - it) as nat,
                it as nat,
                Totals {
                    inlined: stats.inlined as int,
                    folded: stats.folded as int,
                    eliminated: stats.eliminated as int,
                },
            ),
        decreases options.max_iterations - it, if stop {
            0int
        } else {
            1int
        },
    {
        let inlined = inline::run(hir);
        let folded = fold::run(hir);
        let eliminated = dce::run(hir);
        stats.inlined = add_sat(stats.inlined, inlined);
        stats.folded = add_sat(stats.folded, folded);
        stats.eliminated = add_sat(stats.eliminated, eliminated);
        stats.iterations = it + 1;
        if inlined == 0 && folded == 0 && eliminated == 0 {
            stop = true;
        } else {
            it = it + 1;
        }
    }
    stats
}

} // verus!
