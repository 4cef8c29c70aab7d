//! Function inlining.
//!
//! Replaces a call to a small, pure, non-recursive *expression function*
//! with a copy of its body, so the optimizer's other passes (constant
//! folding, dead code) can then see across the former call boundary.
//!
//! Only the simplest functions are inlined: those whose body is a single
//! expression that reads only its parameters and performs no statements,
//! loops, assignments, or mutation. For such a callee, `f(a, b)` becomes a
//! block `{ let p0 = a; let p1 = b; <body> }`, with the callee's parameter
//! slots remapped to fresh locals in the caller. Side effects in the
//! arguments still run exactly once, in order, because each argument is
//! bound with a `let`.

use vstd::prelude::*;

use crate::hir::view::{
    bv, ev, evs, fv, funcs_v, kv, lemma_evs_len, lemma_evs_push, lemma_svs_len, lemma_svs_push, locals_v, sv, svs, BlockV,
    ExprV, FunctionV, KindV, StmtV,
};
use crate::hir::{Block, Callee, Expr, ExprKind, FnId, Function, Hir, LocalDecl, LocalId, Stmt};
use crate::opt::fold::sat;
use crate::sema::types::Type;
use crate::text::{cat3, decimal, decimal_string};

verus! {

// ---- which functions are inlined ----

/// Whether an expression is pure, reads only the first `params` locals, and
/// holds no statements, loops, assignments or stores.
pub open spec fn simple_e(e: ExprV, params: nat) -> bool
    decreases e, 1int,
{
    simple_k(e.kind, params)
}

/// Simplicity of a node: [`simple_e`].
pub open spec fn simple_k(k: KindV, params: nat) -> bool
    decreases k, 0int,
{
    match k {
        KindV::Int(_) | KindV::Float(_) | KindV::Bool(_) | KindV::Str(_) => true,
        KindV::Local(id) => id.0 < params,
        KindV::Unary { rhs, .. } => simple_e(*rhs, params),
        KindV::Binary { lhs, rhs, .. } => simple_e(*lhs, params) && simple_e(*rhs, params),
        KindV::Call { args, .. } => simple_es(args, args.len(), params),
        KindV::ArrayLit(es) => simple_es(es, es.len(), params),
        KindV::StructLit(es) => simple_es(es, es.len(), params),
        KindV::Index { base, index } => simple_e(*base, params) && simple_e(*index, params),
        KindV::GetField { base, .. } => simple_e(*base, params),
        KindV::If { cond, then_branch, else_branch } => simple_e(*cond, params) && simple_b(then_branch, params)
            && match else_branch {
            Some(e) => simple_e(*e, params),
            None => true,
        },
        KindV::Block(b) => simple_b(b, params),
        KindV::Assign { .. } | KindV::SetIndex { .. } | KindV::SetField { .. } => false,
    }
}

/// Whether the first `n` expressions are simple.
pub open spec fn simple_es(es: Seq<ExprV>, n: nat, params: nat) -> bool
    decreases es, n,
{
    if n == 0 || n > es.len() {
        true
    } else {
        simple_es(es, (n - 1) as nat, params) && simple_e(es[n - 1], params)
    }
}

/// A block is simple when it has no statements and a simple tail.
pub open spec fn simple_b(b: BlockV, params: nat) -> bool
    decreases b, 0int,
{
    b.stmts.len() == 0 && match b.tail {
        Some(t) => simple_e(*t, params),
        None => true,
    }
}

/// Whether a simple expression calls function `id` (the recursion guard;
/// it looks through the forms a simple expression has).
pub open spec fn calls_e(e: ExprV, id: FnId) -> bool
    decreases e, 1int,
{
    calls_k(e.kind, id)
}

/// Whether a node calls function `id`: [`calls_e`].
pub open spec fn calls_k(k: KindV, id: FnId) -> bool
    decreases k, 0int,
{
    match k {
        KindV::Call { callee, args } => callee == Callee::Fn(id) || calls_es(args, args.len(), id),
        KindV::Unary { rhs, .. } => calls_e(*rhs, id),
        KindV::Binary { lhs, rhs, .. } => calls_e(*lhs, id) || calls_e(*rhs, id),
        KindV::ArrayLit(es) => calls_es(es, es.len(), id),
        KindV::StructLit(es) => calls_es(es, es.len(), id),
        KindV::Index { base, index } => calls_e(*base, id) || calls_e(*index, id),
        KindV::GetField { base, .. } => calls_e(*base, id),
        KindV::If { cond, then_branch, else_branch } => calls_e(*cond, id) || match then_branch.tail {
            Some(t) => calls_e(*t, id),
            None => false,
        } || match else_branch {
            Some(e) => calls_e(*e, id),
            None => false,
        },
        KindV::Block(b) => match b.tail {
            Some(t) => calls_e(*t, id),
            None => false,
        },
        _ => false,
    }
}

/// Whether one of the first `n` expressions calls function `id`.
pub open spec fn calls_es(es: Seq<ExprV>, n: nat, id: FnId) -> bool
    decreases es, n,
{
    if n == 0 || n > es.len() {
        false
    } else {
        calls_es(es, (n - 1) as nat, id) || calls_e(es[n - 1], id)
    }
}

/// The inlining candidate function `i` of a program gives: its parameter
/// count and body, when it is not the entry point and its body is one
/// simple expression that does not call the function itself.
pub open spec fn candidate(f: FunctionV, i: int, main: FnId) -> Option<(nat, ExprV)> {
    let id = FnId(i as u32);
    if id == main || f.body.stmts.len() != 0 {
        None
    } else {
        match f.body.tail {
            Some(t) => if simple_e(*t, f.param_count as nat) && !calls_e(*t, id) {
                Some((f.param_count as nat, *t))
            } else {
                None
            },
            None => None,
        }
    }
}

/// The candidates of a program, by function index.
pub open spec fn candidates(fs: Seq<FunctionV>, main: FnId) -> Seq<Option<(nat, ExprV)>> {
    Seq::new(fs.len(), |i: int| candidate(fs[i], i, main))
}

// ---- the rewrite ----

/// A callee body with parameter `j < k` read as caller slot `base + j`.
pub open spec fn remap_e(e: ExprV, base: nat, k: nat) -> ExprV
    decreases e, 1int,
{
    ExprV { kind: remap_k(e.kind, base, k), ty: e.ty, span: e.span }
}

/// The remapping of a node: [`remap_e`]. Only the forms a simple body has
/// are walked.
pub open spec fn remap_k(kd: KindV, base: nat, k: nat) -> KindV
    decreases kd, 0int,
{
    match kd {
        KindV::Local(id) => if (id.0 as nat) < k {
            KindV::Local(LocalId((base + id.0) as u32))
        } else {
            kd
        },
        KindV::Unary { op, rhs } => KindV::Unary { op, rhs: Box::new(remap_e(*rhs, base, k)) },
        KindV::Binary { op, lhs, rhs } => KindV::Binary {
            op,
            lhs: Box::new(remap_e(*lhs, base, k)),
            rhs: Box::new(remap_e(*rhs, base, k)),
        },
        KindV::Call { callee, args } => KindV::Call { callee, args: remap_es(args, args.len(), base, k) },
        KindV::ArrayLit(es) => KindV::ArrayLit(remap_es(es, es.len(), base, k)),
        KindV::StructLit(es) => KindV::StructLit(remap_es(es, es.len(), base, k)),
        KindV::Index { base: b, index } => KindV::Index {
            base: Box::new(remap_e(*b, base, k)),
            index: Box::new(remap_e(*index, base, k)),
        },
        KindV::GetField { base: b, idx } => KindV::GetField { base: Box::new(remap_e(*b, base, k)), idx },
        KindV::If { cond, then_branch, else_branch } => KindV::If {
            cond: Box::new(remap_e(*cond, base, k)),
            then_branch: BlockV {
                stmts: then_branch.stmts,
                tail: match then_branch.tail {
                    Some(t) => Some(Box::new(remap_e(*t, base, k))),
                    None => None,
                },
                ty: then_branch.ty,
            },
            else_branch: match else_branch {
                Some(e) => Some(Box::new(remap_e(*e, base, k))),
                None => None,
            },
        },
        KindV::Block(b) => KindV::Block(
            BlockV {
                stmts: b.stmts,
                tail: match b.tail {
                    Some(t) => Some(Box::new(remap_e(*t, base, k))),
                    None => None,
                },
                ty: b.ty,
            },
        ),
        _ => kd,
    }
}

/// The first `n` expressions remapped.
pub open spec fn remap_es(es: Seq<ExprV>, n: nat, base: nat, k: nat) -> Seq<ExprV>
    decreases es, n,
{
    if n == 0 || n > es.len() {
        Seq::empty()
    } else {
        remap_es(es, (n - 1) as nat, base, k).push(remap_e(es[n - 1], base, k))
    }
}

/// The name of the fresh local in slot `n`.
pub open spec fn inl_name(n: nat) -> Seq<char> {
    "<inl"@ + decimal(n) + ">"@
}

/// How many arguments an inlined call binds: one per parameter.
pub open spec fn bound(args: Seq<ExprV>, params: nat) -> nat {
    if args.len() < params {
        args.len()
    } else {
        params
    }
}

/// The `let`s binding the first `j` arguments to fresh slots from `base`.
pub open spec fn arg_lets(args: Seq<ExprV>, j: nat, base: nat) -> Seq<StmtV> {
    Seq::new(j, |i: int| StmtV::Let { local: LocalId((base + i) as u32), value: args[i] })
}

/// The fresh locals for the first `j` arguments, slots from `base`.
pub open spec fn arg_locals(args: Seq<ExprV>, j: nat, base: nat) -> Seq<(Seq<char>, Type)> {
    Seq::new(j, |i: int| (inl_name(((base + i) as u32) as nat), args[i].ty))
}

/// The block an inlined call becomes, given the caller's locals so far.
pub open spec fn inlined_kind(params: nat, body: ExprV, args: Seq<ExprV>, ty: Type, base: nat) -> KindV {
    let k = bound(args, params);
    KindV::Block(
        BlockV { stmts: arg_lets(args, k, base), tail: Some(Box::new(remap_e(body, base, k))), ty },
    )
}

/// The candidate a call inlines, if it does: a call of another function
/// that is a candidate.
pub open spec fn inline_target(k: KindV, cands: Seq<Option<(nat, ExprV)>>, self_id: FnId) -> Option<(nat, ExprV)> {
    match k {
        KindV::Call { callee: Callee::Fn(id), .. } => if id != self_id && (id.0 as int) < cands.len() {
            cands[id.0 as int]
        } else {
            None
        },
        _ => None,
    }
}

/// An expression with eligible calls inlined bottom-up, the caller's
/// locals after the fresh ones were added, and the number of inlined calls.
pub open spec fn inline_e(
    e: ExprV,
    cands: Seq<Option<(nat, ExprV)>>,
    self_id: FnId,
    ls: Seq<(Seq<char>, Type)>,
) -> (ExprV, Seq<(Seq<char>, Type)>, nat)
    decreases e, 1int,
{
    let (k, ls1, n) = inline_k(e.kind, cands, self_id, ls);
    match inline_target(k, cands, self_id) {
        Some((params, body)) => {
            let args = k->Call_args;
            let j = bound(args, params);
            (
                ExprV { kind: inlined_kind(params, body, args, e.ty, ls1.len()), ty: e.ty, span: e.span },
                ls1 + arg_locals(args, j, ls1.len()),
                n + 1,
            )
        },
        None => (ExprV { kind: k, ty: e.ty, span: e.span }, ls1, n),
    }
}

/// A node with eligible calls inlined in its children: [`inline_e`].
pub open spec fn inline_k(
    k: KindV,
    cands: Seq<Option<(nat, ExprV)>>,
    self_id: FnId,
    ls: Seq<(Seq<char>, Type)>,
) -> (KindV, Seq<(Seq<char>, Type)>, nat)
    decreases k, 0int,
{
    match k {
        KindV::Unary { op, rhs } => {
            let (r, l1, n) = inline_e(*rhs, cands, self_id, ls);
            (KindV::Unary { op, rhs: Box::new(r) }, l1, n)
        },
        KindV::Binary { op, lhs, rhs } => {
            let (l, l1, n1) = inline_e(*lhs, cands, self_id, ls);
            let (r, l2, n2) = inline_e(*rhs, cands, self_id, l1);
            (KindV::Binary { op, lhs: Box::new(l), rhs: Box::new(r) }, l2, n1 + n2)
        },
        KindV::Call { callee, args } => {
            let (a, l1, n) = inline_es(args, args.len(), cands, self_id, ls);
            (KindV::Call { callee, args: a }, l1, n)
        },
        KindV::Assign { local, value } => {
            let (v, l1, n) = inline_e(*value, cands, self_id, ls);
            (KindV::Assign { local, value: Box::new(v) }, l1, n)
        },
        KindV::ArrayLit(es) => {
            let (a, l1, n) = inline_es(es, es.len(), cands, self_id, ls);
            (KindV::ArrayLit(a), l1, n)
        },
        KindV::StructLit(es) => {
            let (a, l1, n) = inline_es(es, es.len(), cands, self_id, ls);
            (KindV::StructLit(a), l1, n)
        },
        KindV::Index { base, index } => {
            let (b, l1, n1) = inline_e(*base, cands, self_id, ls);
            let (i, l2, n2) = inline_e(*index, cands, self_id, l1);
            (KindV::Index { base: Box::new(b), index: Box::new(i) }, l2, n1 + n2)
        },
        KindV::GetField { base, idx } => {
            let (b, l1, n) = inline_e(*base, cands, self_id, ls);
            (KindV::GetField { base: Box::new(b), idx }, l1, n)
        },
        KindV::SetIndex { base, index, value } => {
            let (b, l1, n1) = inline_e(*base, cands, self_id, ls);
            let (i, l2, n2) = inline_e(*index, cands, self_id, l1);
            let (v, l3, n3) = inline_e(*value, cands, self_id, l2);
            (KindV::SetIndex { base: Box::new(b), index: Box::new(i), value: Box::new(v) }, l3, n1 + n2 + n3)
        },
        KindV::SetField { base, idx, value } => {
            let (b, l1, n1) = inline_e(*base, cands, self_id, ls);
            let (v, l2, n2) = inline_e(*value, cands, self_id, l1);
            (KindV::SetField { base: Box::new(b), idx, value: Box::new(v) }, l2, n1 + n2)
        },
        KindV::If { cond, then_branch, else_branch } => {
            let (c, l1, n1) = inline_e(*cond, cands, self_id, ls);
            let (t, l2, n2) = inline_b(then_branch, cands, self_id, l1);
            match else_branch {
                Some(e) => {
                    let (x, l3, n3) = inline_e(*e, cands, self_id, l2);
                    (KindV::If { cond: Box::new(c), then_branch: t, else_branch: Some(Box::new(x)) }, l3, n1 + n2 + n3)
                },
                None => (KindV::If { cond: Box::new(c), then_branch: t, else_branch: None }, l2, n1 + n2),
            }
        },
        KindV::Block(b) => {
            let (r, l1, n) = inline_b(b, cands, self_id, ls);
            (KindV::Block(r), l1, n)
        },
        _ => (k, ls, 0),
    }
}

/// The first `n` expressions with calls inlined, in order.
pub open spec fn inline_es(
    es: Seq<ExprV>,
    n: nat,
    cands: Seq<Option<(nat, ExprV)>>,
    self_id: FnId,
    ls: Seq<(Seq<char>, Type)>,
) -> (Seq<ExprV>, Seq<(Seq<char>, Type)>, nat)
    decreases es, n,
{
    if n == 0 || n > es.len() {
        (Seq::empty(), ls, 0)
    } else {
        let (a, l1, c1) = inline_es(es, (n - 1) as nat, cands, self_id, ls);
        let (x, l2, c2) = inline_e(es[n - 1], cands, self_id, l1);
        (a.push(x), l2, c1 + c2)
    }
}

/// A block with calls inlined in its statements and tail.
pub open spec fn inline_b(
    b: BlockV,
    cands: Seq<Option<(nat, ExprV)>>,
    self_id: FnId,
    ls: Seq<(Seq<char>, Type)>,
) -> (BlockV, Seq<(Seq<char>, Type)>, nat)
    decreases b, 1int,
{
    let (ss, l1, n1) = inline_ss(b.stmts, b.stmts.len(), cands, self_id, ls);
    match b.tail {
        Some(t) => {
            let (r, l2, n2) = inline_e(*t, cands, self_id, l1);
            (BlockV { stmts: ss, tail: Some(Box::new(r)), ty: b.ty }, l2, n1 + n2)
        },
        None => (BlockV { stmts: ss, tail: None, ty: b.ty }, l1, n1),
    }
}

/// The first `n` statements with calls inlined, in order.
pub open spec fn inline_ss(
    ss: Seq<StmtV>,
    n: nat,
    cands: Seq<Option<(nat, ExprV)>>,
    self_id: FnId,
    ls: Seq<(Seq<char>, Type)>,
) -> (Seq<StmtV>, Seq<(Seq<char>, Type)>, nat)
    decreases ss, n,
{
    if n == 0 || n > ss.len() {
        (Seq::empty(), ls, 0)
    } else {
        let (a, l1, c1) = inline_ss(ss, (n - 1) as nat, cands, self_id, ls);
        let (x, l2, c2) = inline_s(ss[n - 1], cands, self_id, l1);
        (a.push(x), l2, c1 + c2)
    }
}

/// A statement with calls inlined.
pub open spec fn inline_s(
    s: StmtV,
    cands: Seq<Option<(nat, ExprV)>>,
    self_id: FnId,
    ls: Seq<(Seq<char>, Type)>,
) -> (StmtV, Seq<(Seq<char>, Type)>, nat)
    decreases s, 0int,
{
    match s {
        StmtV::Let { local, value } => {
            let (v, l1, n) = inline_e(value, cands, self_id, ls);
            (StmtV::Let { local, value: v }, l1, n)
        },
        StmtV::Expr(e) => {
            let (v, l1, n) = inline_e(e, cands, self_id, ls);
            (StmtV::Expr(v), l1, n)
        },
        StmtV::Return(Some(e)) => {
            let (v, l1, n) = inline_e(e, cands, self_id, ls);
            (StmtV::Return(Some(v)), l1, n)
        },
        StmtV::While { cond, body } => {
            let (c, l1, n1) = inline_e(cond, cands, self_id, ls);
            let (b, l2, n2) = inline_b(body, cands, self_id, l1);
            (StmtV::While { cond: c, body: b }, l2, n1 + n2)
        },
        StmtV::For { var, end_var, start, end, body } => {
            let (s1, l1, n1) = inline_e(start, cands, self_id, ls);
            let (e1, l2, n2) = inline_e(end, cands, self_id, l1);
            let (b, l3, n3) = inline_b(body, cands, self_id, l2);
            (StmtV::For { var, end_var, start: s1, end: e1, body: b }, l3, n1 + n2 + n3)
        },
        _ => (s, ls, 0),
    }
}


// ---- executable: candidates ----

/// Whether an expression is simple: [`simple_e`].
fn is_simple(e: &Expr, params: usize) -> (b: bool)
    ensures
        b == simple_e(ev(*e), params as nat),
    decreases *e,
{
    match &e.kind {
        ExprKind::Int(_) | ExprKind::Float(_) | ExprKind::Bool(_) | ExprKind::Str(_) => true,
        ExprKind::Local(id) => (id.0 as usize) < params,
        ExprKind::Unary { rhs, .. } => is_simple(rhs, params),
        ExprKind::Binary { lhs, rhs, .. } => is_simple(lhs, params) && is_simple(rhs, params),
        ExprKind::Call { args, .. } => all_simple(args, params),
        ExprKind::ArrayLit(es) => all_simple(es, params),
        ExprKind::StructLit(es) => all_simple(es, params),
        ExprKind::Index { base, index } => is_simple(base, params) && is_simple(index, params),
        ExprKind::GetField { base, .. } => is_simple(base, params),
        ExprKind::If { cond, then_branch, else_branch } => {
            is_simple(cond, params) && simple_block(then_branch, params) && match else_branch {
                Some(x) => is_simple(x, params),
                None => true,
            }
        },
        ExprKind::Block(b) => simple_block(b, params),
        ExprKind::Assign { .. } | ExprKind::SetIndex { .. } | ExprKind::SetField { .. } => false,
    }
}

fn all_simple(es: &Vec<Expr>, params: usize) -> (b: bool)
    ensures
        b == simple_es(evs(es@, es@.len()), es@.len(), params as nat),
        evs(es@, es@.len()).len() == es@.len(),
    decreases es@,
{
    let ghost vs = evs(es@, es@.len());
    proof {
        lemma_evs_len(es@, es@.len());
    }
    let mut i: usize = 0;
    while i < es.len()
        invariant
            i <= es@.len(),
            vs == evs(es@, es@.len()),
            vs.len() == es@.len(),
            forall|k: int| 0 <= k < es@.len() ==> vs[k] == ev(#[trigger] es@[k]),
            simple_es(vs, i as nat, params as nat),
        decreases es@.len() - i,
    {
        assert(vs[i as int] == ev(es@[i as int]));
        if !is_simple(&es[i], params) {
            proof {
                lemma_simple_es_prefix(vs, (i + 1) as nat, vs.len(), params as nat);
            }
            return false;
        }
        i = i + 1;
    }
    true
}

proof fn lemma_simple_es_prefix(es: Seq<ExprV>, m: nat, n: nat, params: nat)
    requires
        m <= n <= es.len(),
        !simple_es(es, m, params),
    ensures
        !simple_es(es, n, params),
    decreases n - m,
{
    if m < n {
        lemma_simple_es_prefix(es, m, (n - 1) as nat, params);
    }
}

fn simple_block(b: &Block, params: usize) -> (r: bool)
    ensures
        r == simple_b(bv(*b), params as nat),
    decreases *b,
{
    proof {
        lemma_svs_len(b.stmts@, b.stmts@.len());
    }
    b.stmts.len() == 0 && match &b.tail {
        Some(t) => is_simple(t, params),
        None => true,
    }
}

/// Whether an expression calls function `id`: [`calls_e`].
fn calls(e: &Expr, id: FnId) -> (b: bool)
    ensures
        b == calls_e(ev(*e), id),
    decreases *e,
{
    match &e.kind {
        ExprKind::Call { callee, args } => {
            let direct = match callee {
                Callee::Fn(f) => f.0 == id.0,
                Callee::Builtin(_) => false,
            };
            assert(direct == (*callee == Callee::Fn(id)));
            let r = direct || calls_any(args, id);
            assert(kv(e.kind) == KindV::Call { callee: *callee, args: evs(args@, args@.len()) });
            r
        },
        ExprKind::Unary { rhs, .. } => calls(rhs, id),
        ExprKind::Binary { lhs, rhs, .. } => calls(lhs, id) || calls(rhs, id),
        ExprKind::ArrayLit(es) => calls_any(es, id),
        ExprKind::StructLit(es) => calls_any(es, id),
        ExprKind::Index { base, index } => calls(base, id) || calls(index, id),
        ExprKind::GetField { base, .. } => calls(base, id),
        ExprKind::If { cond, then_branch, else_branch } => {
            calls(cond, id) || match &then_branch.tail {
                Some(t) => calls(t, id),
                None => false,
            } || match else_branch {
                Some(x) => calls(x, id),
                None => false,
            }
        },
        ExprKind::Block(b) => match &b.tail {
            Some(t) => calls(t, id),
            None => false,
        },
        _ => false,
    }
}

fn calls_any(es: &Vec<Expr>, id: FnId) -> (b: bool)
    ensures
        b == calls_es(evs(es@, es@.len()), es@.len(), id),
        evs(es@, es@.len()).len() == es@.len(),
    decreases es@,
{
    let ghost vs = evs(es@, es@.len());
    proof {
        lemma_evs_len(es@, es@.len());
    }
    let mut i: usize = 0;
    while i < es.len()
        invariant
            i <= es@.len(),
            vs == evs(es@, es@.len()),
            vs.len() == es@.len(),
            forall|k: int| 0 <= k < es@.len() ==> vs[k] == ev(#[trigger] es@[k]),
            !calls_es(vs, i as nat, id),
        decreases es@.len() - i,
    {
        assert(vs[i as int] == ev(es@[i as int]));
        if calls(&es[i], id) {
            proof {
                lemma_calls_es_prefix(vs, (i + 1) as nat, vs.len(), id);
            }
            return true;
        }
        i = i + 1;
    }
    false
}

proof fn lemma_calls_es_prefix(es: Seq<ExprV>, m: nat, n: nat, id: FnId)
    requires
        m <= n <= es.len(),
        calls_es(es, m, id),
    ensures
        calls_es(es, n, id),
    decreases n - m,
{
    if m < n {
        lemma_calls_es_prefix(es, m, (n - 1) as nat, id);
    }
}


// ---- executable: copying and remapping a body ----

/// A copy of an expression.
fn clone_expr(e: &Expr) -> (r: Expr)
    ensures
        ev(r) == ev(*e),
    decreases *e,
{
    let kind = match &e.kind {
        ExprKind::Int(v) => ExprKind::Int(*v),
        ExprKind::Float(t) => ExprKind::Float(t.clone()),
        ExprKind::Bool(b) => ExprKind::Bool(*b),
        ExprKind::Str(t) => ExprKind::Str(t.clone()),
        ExprKind::Local(id) => ExprKind::Local(*id),
        ExprKind::Unary { op, rhs } => ExprKind::Unary { op: *op, rhs: Box::new(clone_expr(rhs)) },
        ExprKind::Binary { op, lhs, rhs } => ExprKind::Binary {
            op: *op,
            lhs: Box::new(clone_expr(lhs)),
            rhs: Box::new(clone_expr(rhs)),
        },
        ExprKind::Call { callee, args } => ExprKind::Call { callee: *callee, args: clone_exprs(args) },
        ExprKind::Assign { local, value } => ExprKind::Assign { local: *local, value: Box::new(clone_expr(value)) },
        ExprKind::ArrayLit(es) => ExprKind::ArrayLit(clone_exprs(es)),
        ExprKind::Index { base, index } => ExprKind::Index {
            base: Box::new(clone_expr(base)),
            index: Box::new(clone_expr(index)),
        },
        ExprKind::SetIndex { base, index, value } => ExprKind::SetIndex {
            base: Box::new(clone_expr(base)),
            index: Box::new(clone_expr(index)),
            value: Box::new(clone_expr(value)),
        },
        ExprKind::StructLit(es) => ExprKind::StructLit(clone_exprs(es)),
        ExprKind::GetField { base, idx } => ExprKind::GetField { base: Box::new(clone_expr(base)), idx: *idx },
        ExprKind::SetField { base, idx, value } => ExprKind::SetField {
            base: Box::new(clone_expr(base)),
            idx: *idx,
            value: Box::new(clone_expr(value)),
        },
        ExprKind::If { cond, then_branch, else_branch } => ExprKind::If {
            cond: Box::new(clone_expr(cond)),
            then_branch: clone_block(then_branch),
            else_branch: match else_branch {
                Some(x) => Some(Box::new(clone_expr(x))),
                None => None,
            },
        },
        ExprKind::Block(b) => ExprKind::Block(clone_block(b)),
    };
    Expr { kind, ty: e.ty, span: e.span }
}

fn clone_exprs(es: &Vec<Expr>) -> (r: Vec<Expr>)
    ensures
        evs(r@, r@.len()) == evs(es@, es@.len()),
    decreases es@,
{
    let mut out: Vec<Expr> = Vec::new();
    let mut i: usize = 0;
    while i < es.len()
        invariant
            i <= es@.len(),
            out@.len() == i,
            evs(out@, i as nat) == evs(es@, i as nat),
        decreases es@.len() - i,
    {
        let c = clone_expr(&es[i]);
        proof {
            lemma_evs_push(out@, c);
        }
        out.push(c);
        i = i + 1;
    }
    out
}

fn clone_block(b: &Block) -> (r: Block)
    ensures
        bv(r) == bv(*b),
    decreases *b,
{
    let mut stmts: Vec<Stmt> = Vec::new();
    let mut i: usize = 0;
    while i < b.stmts.len()
        invariant
            i <= b.stmts@.len(),
            stmts@.len() == i,
            svs(stmts@, i as nat) == svs(b.stmts@, i as nat),
        decreases b.stmts@.len() - i,
    {
        let c = clone_stmt(&b.stmts[i]);
        proof {
            lemma_svs_push(stmts@, c);
        }
        stmts.push(c);
        i = i + 1;
    }
    let tail = match &b.tail {
        Some(t) => Some(Box::new(clone_expr(t))),
        None => None,
    };
    Block { stmts, tail, ty: b.ty }
}

fn clone_stmt(s: &Stmt) -> (r: Stmt)
    ensures
        sv(r) == sv(*s),
    decreases *s,
{
    match s {
        Stmt::Let { local, value } => Stmt::Let { local: *local, value: clone_expr(value) },
        Stmt::Expr(e) => Stmt::Expr(clone_expr(e)),
        Stmt::Return(v) => Stmt::Return(
            match v {
                Some(e) => Some(clone_expr(e)),
                None => None,
            },
        ),
        Stmt::While { cond, body } => Stmt::While { cond: clone_expr(cond), body: clone_block(body) },
        Stmt::For { var, end_var, start, end, body } => Stmt::For {
            var: *var,
            end_var: *end_var,
            start: clone_expr(start),
            end: clone_expr(end),
            body: clone_block(body),
        },
        Stmt::Break => Stmt::Break,
        Stmt::Continue => Stmt::Continue,
    }
}


/// A callee body with its parameters read from the caller's fresh slots:
/// [`remap_e`].
fn remap(e: Expr, base: usize, k: usize) -> (r: Expr)
    requires
        base + k <= usize::MAX,
    ensures
        ev(r) == remap_e(ev(e), base as nat, k as nat),
    decreases e,
{
    let Expr { kind, ty, span } = e;
    let kind = remap_kind(kind, base, k);
    Expr { kind, ty, span }
}

/// A node remapped: [`remap_k`].
fn remap_kind(kind: ExprKind, base: usize, k: usize) -> (r: ExprKind)
    requires
        base + k <= usize::MAX,
    ensures
        kv(r) == remap_k(kv(kind), base as nat, k as nat),
    decreases kind,
{
    match kind {
        ExprKind::Local(id) => {
            if (id.0 as usize) < k {
                let n: usize = base + id.0 as usize;
                let r = ExprKind::Local(LocalId(#[verifier::truncate] (n as u32)));
                assert(kv(r) == KindV::Local(LocalId((base + id.0) as u32)));
                r
            } else {
                ExprKind::Local(id)
            }
        },
        ExprKind::Unary { op, rhs } => ExprKind::Unary { op, rhs: Box::new(remap(*rhs, base, k)) },
        ExprKind::Binary { op, lhs, rhs } => ExprKind::Binary {
            op,
            lhs: Box::new(remap(*lhs, base, k)),
            rhs: Box::new(remap(*rhs, base, k)),
        },
        ExprKind::Call { callee, args } => ExprKind::Call { callee, args: remap_all(args, base, k) },
        ExprKind::ArrayLit(es) => ExprKind::ArrayLit(remap_all(es, base, k)),
        ExprKind::StructLit(es) => ExprKind::StructLit(remap_all(es, base, k)),
        ExprKind::Index { base: b, index } => ExprKind::Index {
            base: Box::new(remap(*b, base, k)),
            index: Box::new(remap(*index, base, k)),
        },
        ExprKind::GetField { base: b, idx } => ExprKind::GetField { base: Box::new(remap(*b, base, k)), idx },
        ExprKind::If { cond, then_branch, else_branch } => {
            let ghost tb = bv(then_branch);
            let ghost cv = ev(*cond);
            let Block { stmts, tail, ty: bty } = then_branch;
            let tail = match tail {
                Some(t) => Some(Box::new(remap(*t, base, k))),
                None => None,
            };
            let c2 = remap(*cond, base, k);
            let e2 = match else_branch {
                Some(x) => Some(Box::new(remap(*x, base, k))),
                None => None,
            };
            let nb = Block { stmts, tail, ty: bty };
            assert(bv(nb).stmts == tb.stmts);
            assert(bv(nb).tail == match tb.tail {
                Some(t) => Some(Box::new(remap_e(*t, base as nat, k as nat))),
                None => None,
            });
            ExprKind::If { cond: Box::new(c2), then_branch: nb, else_branch: e2 }
        },
        ExprKind::Block(b) => {
            let Block { stmts, tail, ty: bty } = b;
            let tail = match tail {
                Some(t) => Some(Box::new(remap(*t, base, k))),
                None => None,
            };
            ExprKind::Block(Block { stmts, tail, ty: bty })
        },
        other => other,
    }
}

proof fn lemma_remap_es_prefix(s: Seq<ExprV>, t: Seq<ExprV>, n: nat, base: nat, k: nat)
    requires
        n <= s.len(),
        n <= t.len(),
        s.take(n as int) == t.take(n as int),
    ensures
        remap_es(s, n, base, k) == remap_es(t, n, base, k),
    decreases n,
{
    if n > 0 {
        assert(s.take(n - 1) =~= s.take(n as int).take(n - 1));
        assert(t.take(n - 1) =~= t.take(n as int).take(n - 1));
        assert(s[n - 1] == s.take(n as int)[n - 1]);
        assert(t[n - 1] == t.take(n as int)[n - 1]);
        lemma_remap_es_prefix(s, t, (n - 1) as nat, base, k);
    }
}

/// A list of expressions remapped: [`remap_es`].
fn remap_all(es: Vec<Expr>, base: usize, k: usize) -> (r: Vec<Expr>)
    requires
        base + k <= usize::MAX,
    ensures
        evs(r@, r@.len()) == remap_es(evs(es@, es@.len()), es@.len(), base as nat, k as nat),
        evs(es@, es@.len()).len() == es@.len(),
    decreases es@,
{
    let ghost orig = es@;
    proof {
        lemma_evs_len(orig, orig.len());
    }
    let mut es = es;
    match es.pop() {
        None => es,
        Some(x) => {
            proof {
                assert(es@ =~= orig.drop_last());
                assert(orig =~= es@.push(x));
                lemma_evs_push(es@, x);
            }
            let ghost pre = es@;
            let mut out = remap_all(es, base, k);
            let y = remap(x, base, k);
            proof {
                lemma_evs_push(out@, y);
                let v = evs(orig, orig.len());
                let w = evs(pre, pre.len());
                assert(v == w.push(ev(x)));
                assert(v.take(pre.len() as int) =~= w.take(pre.len() as int));
                lemma_remap_es_prefix(v, w, pre.len(), base as nat, k as nat);
            }
            out.push(y);
            out
        },
    }
}

/// The block an inlined call becomes: [`inlined_kind`]; a fresh local is
/// added for each bound argument.
fn build_inlined(params: usize, body: &Expr, args: Vec<Expr>, ty: Type, locals: &mut Vec<LocalDecl>) -> (r: ExprKind)
    ensures
        kv(r) == inlined_kind(params as nat, ev(*body), evs(args@, args@.len()), ty, old(locals)@.len()),
        locals_v(final(locals)@) == locals_v(old(locals)@) + arg_locals(
            evs(args@, args@.len()),
            bound(evs(args@, args@.len()), params as nat),
            old(locals)@.len(),
        ),
{
    proof {
        reveal_strlit("<inl");
        reveal_strlit(">");
    }
    let ghost orig = args@;
    let ghost vs = evs(orig, orig.len());
    let ghost l0 = locals@;
    proof {
        lemma_evs_len(orig, orig.len());
    }
    let base = locals.len();
    let k = if args.len() < params {
        args.len()
    } else {
        params
    };
    assert(k as nat == bound(vs, params as nat));
    let mut rest = args;
    let mut stmts: Vec<Stmt> = Vec::new();
    let mut j: usize = 0;
    while j < k
        invariant
            j <= k <= orig.len(),
            base == l0.len(),
            rest@ == orig.skip(j as int),
            vs == evs(orig, orig.len()),
            vs.len() == orig.len(),
            forall|i: int| 0 <= i < orig.len() ==> vs[i] == ev(#[trigger] orig[i]),
            locals@.len() == base + j,
            locals_v(locals@) == locals_v(l0) + arg_locals(vs, j as nat, base as nat),
            stmts@.len() == j,
            svs(stmts@, j as nat) == arg_lets(vs, j as nat, base as nat),
        decreases k - j,
    {
        let a = rest.remove(0);
        assert(a == orig[j as int]);
        assert(rest@ =~= orig.skip(j + 1));
        let id = locals.len() as u32;
        let name = cat3("<inl", decimal_string(id as u64).as_str(), ">");
        let ghost before = locals@;
        locals.push(LocalDecl { name, ty: a.ty });
        proof {
            assert(locals_v(locals@) =~= locals_v(before).push((inl_name(((base + j) as u32) as nat), vs[j as int].ty)));
            assert(arg_locals(vs, (j + 1) as nat, base as nat) =~= arg_locals(vs, j as nat, base as nat).push(
                (inl_name(((base + j) as u32) as nat), vs[j as int].ty),
            ));
            assert(locals_v(locals@) =~= locals_v(l0) + arg_locals(vs, (j + 1) as nat, base as nat));
        }
        let st = Stmt::Let { local: LocalId(id), value: a };
        proof {
            lemma_svs_push(stmts@, st);
            assert(arg_lets(vs, (j + 1) as nat, base as nat) =~= arg_lets(vs, j as nat, base as nat).push(
                StmtV::Let { local: LocalId((base + j) as u32), value: vs[j as int] },
            ));
        }
        stmts.push(st);
        j = j + 1;
    }
    let copy = clone_expr(body);
    assert(locals.len() == base + k);
    let tail = remap(copy, base, k);
    let b = Block { stmts, tail: Some(Box::new(tail)), ty };
    proof {
        lemma_svs_len(b.stmts@, b.stmts@.len());
    }
    ExprKind::Block(b)
}


// ---- executable: the walk ----

/// The candidates as values.
pub open spec fn cands_v(cs: Seq<Option<(usize, Expr)>>) -> Seq<Option<(nat, ExprV)>> {
    cs.map_values(
        |c: Option<(usize, Expr)>|
            match c {
                Some((p, b)) => Some((p as nat, ev(b))),
                None => None,
            },
    )
}

/// `a + 1`, held at `usize::MAX`.
fn bump(a: usize) -> (r: usize)
    ensures
        r == sat(a as int, 1),
{
    if a < usize::MAX {
        a + 1
    } else {
        a
    }
}

/// Inlines eligible calls in an expression, bottom-up: [`inline_e`].
fn inline_expr(
    e: Expr,
    cands: &Vec<Option<(usize, Expr)>>,
    self_id: FnId,
    locals: &mut Vec<LocalDecl>,
    count: usize,
) -> (r: (Expr, usize))
    ensures
        ev(r.0) == inline_e(ev(e), cands_v(cands@), self_id, locals_v(old(locals)@)).0,
        locals_v(final(locals)@) == inline_e(ev(e), cands_v(cands@), self_id, locals_v(old(locals)@)).1,
        r.1 == sat(count as int, inline_e(ev(e), cands_v(cands@), self_id, locals_v(old(locals)@)).2 as int),
    decreases e,
{
    let ghost cv = cands_v(cands@);
    let Expr { kind, ty, span } = e;
    let (k2, c) = inline_kind(kind, cands, self_id, locals, count);
    let ghost l1 = locals@;
    match k2 {
        ExprKind::Call { callee: Callee::Fn(id), args } => {
            if id.0 != self_id.0 && (id.0 as usize) < cands.len() {
                assert(cv[id.0 as int] == match cands@[id.0 as int] {
                    Some((p, b)) => Some((p as nat, ev(b))),
                    None => None,
                });
                match &cands[id.0 as usize] {
                    Some((params, body)) => {
                        proof {
                            lemma_evs_len(args@, args@.len());
                        }
                        let kk = build_inlined(*params, body, args, ty, locals);
                        return (Expr { kind: kk, ty, span }, bump(c));
                    },
                    None => {},
                }
            }
            (Expr { kind: ExprKind::Call { callee: Callee::Fn(id), args }, ty, span }, c)
        },
        other => (Expr { kind: other, ty, span }, c),
    }
}

/// Inlines eligible calls in a node's children: [`inline_k`].
fn inline_kind(
    k: ExprKind,
    cands: &Vec<Option<(usize, Expr)>>,
    self_id: FnId,
    locals: &mut Vec<LocalDecl>,
    count: usize,
) -> (r: (ExprKind, usize))
    ensures
        kv(r.0) == inline_k(kv(k), cands_v(cands@), self_id, locals_v(old(locals)@)).0,
        locals_v(final(locals)@) == inline_k(kv(k), cands_v(cands@), self_id, locals_v(old(locals)@)).1,
        r.1 == sat(count as int, inline_k(kv(k), cands_v(cands@), self_id, locals_v(old(locals)@)).2 as int),
    decreases k,
{
    match k {
        ExprKind::Unary { op, rhs } => {
            let (r, c) = inline_expr(*rhs, cands, self_id, locals, count);
            (ExprKind::Unary { op, rhs: Box::new(r) }, c)
        },
        ExprKind::Binary { op, lhs, rhs } => {
            let (l, c) = inline_expr(*lhs, cands, self_id, locals, count);
            let (r, c) = inline_expr(*rhs, cands, self_id, locals, c);
            (ExprKind::Binary { op, lhs: Box::new(l), rhs: Box::new(r) }, c)
        },
        ExprKind::Call { callee, args } => {
            let (a, c) = inline_exprs(args, cands, self_id, locals, count);
            (ExprKind::Call { callee, args: a }, c)
        },
        ExprKind::Assign { local, value } => {
            let (v, c) = inline_expr(*value, cands, self_id, locals, count);
            (ExprKind::Assign { local, value: Box::new(v) }, c)
        },
        ExprKind::ArrayLit(es) => {
            let (a, c) = inline_exprs(es, cands, self_id, locals, count);
            (ExprKind::ArrayLit(a), c)
        },
        ExprKind::StructLit(es) => {
            let (a, c) = inline_exprs(es, cands, self_id, locals, count);
            (ExprKind::StructLit(a), c)
        },
        ExprKind::Index { base, index } => {
            let (b, c) = inline_expr(*base, cands, self_id, locals, count);
            let (i, c) = inline_expr(*index, cands, self_id, locals, c);
            (ExprKind::Index { base: Box::new(b), index: Box::new(i) }, c)
        },
        ExprKind::GetField { base, idx } => {
            let (b, c) = inline_expr(*base, cands, self_id, locals, count);
            (ExprKind::GetField { base: Box::new(b), idx }, c)
        },
        ExprKind::SetIndex { base, index, value } => {
            let (b, c) = inline_expr(*base, cands, self_id, locals, count);
            let (i, c) = inline_expr(*index, cands, self_id, locals, c);
            let (v, c) = inline_expr(*value, cands, self_id, locals, c);
            (ExprKind::SetIndex { base: Box::new(b), index: Box::new(i), value: Box::new(v) }, c)
        },
        ExprKind::SetField { base, idx, value } => {
            let (b, c) = inline_expr(*base, cands, self_id, locals, count);
            let (v, c) = inline_expr(*value, cands, self_id, locals, c);
            (ExprKind::SetField { base: Box::new(b), idx, value: Box::new(v) }, c)
        },
        ExprKind::If { cond, then_branch, else_branch } => {
            let (cd, c) = inline_expr(*cond, cands, self_id, locals, count);
            let (t, c) = inline_block(then_branch, cands, self_id, locals, c);
            match else_branch {
                Some(e) => {
                    let (x, c) = inline_expr(*e, cands, self_id, locals, c);
                    (ExprKind::If { cond: Box::new(cd), then_branch: t, else_branch: Some(Box::new(x)) }, c)
                },
                None => (ExprKind::If { cond: Box::new(cd), then_branch: t, else_branch: None }, c),
            }
        },
        ExprKind::Block(b) => {
            let (r, c) = inline_block(b, cands, self_id, locals, count);
            (ExprKind::Block(r), c)
        },
        other => (other, count),
    }
}

proof fn lemma_inline_es_prefix(
    s: Seq<ExprV>,
    t: Seq<ExprV>,
    n: nat,
    cands: Seq<Option<(nat, ExprV)>>,
    self_id: FnId,
    ls: Seq<(Seq<char>, Type)>,
)
    requires
        n <= s.len(),
        n <= t.len(),
        s.take(n as int) == t.take(n as int),
    ensures
        inline_es(s, n, cands, self_id, ls) == inline_es(t, n, cands, self_id, ls),
    decreases n,
{
    if n > 0 {
        assert(s.take(n - 1) =~= s.take(n as int).take(n - 1));
        assert(t.take(n - 1) =~= t.take(n as int).take(n - 1));
        assert(s[n - 1] == s.take(n as int)[n - 1]);
        assert(t[n - 1] == t.take(n as int)[n - 1]);
        lemma_inline_es_prefix(s, t, (n - 1) as nat, cands, self_id, ls);
    }
}

proof fn lemma_inline_ss_prefix(
    s: Seq<StmtV>,
    t: Seq<StmtV>,
    n: nat,
    cands: Seq<Option<(nat, ExprV)>>,
    self_id: FnId,
    ls: Seq<(Seq<char>, Type)>,
)
    requires
        n <= s.len(),
        n <= t.len(),
        s.take(n as int) == t.take(n as int),
    ensures
        inline_ss(s, n, cands, self_id, ls) == inline_ss(t, n, cands, self_id, ls),
    decreases n,
{
    if n > 0 {
        assert(s.take(n - 1) =~= s.take(n as int).take(n - 1));
        assert(t.take(n - 1) =~= t.take(n as int).take(n - 1));
        assert(s[n - 1] == s.take(n as int)[n - 1]);
        assert(t[n - 1] == t.take(n as int)[n - 1]);
        lemma_inline_ss_prefix(s, t, (n - 1) as nat, cands, self_id, ls);
    }
}

/// Inlines eligible calls in a list of expressions, in order: [`inline_es`].
fn inline_exprs(
    es: Vec<Expr>,
    cands: &Vec<Option<(usize, Expr)>>,
    self_id: FnId,
    locals: &mut Vec<LocalDecl>,
    count: usize,
) -> (r: (Vec<Expr>, usize))
    ensures
        evs(r.0@, r.0@.len()) == inline_es(evs(es@, es@.len()), es@.len(), cands_v(cands@), self_id, locals_v(old(locals)@)).0,
        locals_v(final(locals)@) == inline_es(evs(es@, es@.len()), es@.len(), cands_v(cands@), self_id, locals_v(old(locals)@)).1,
        r.1 == sat(count as int, inline_es(evs(es@, es@.len()), es@.len(), cands_v(cands@), self_id, locals_v(old(locals)@)).2 as int),
        evs(es@, es@.len()).len() == es@.len(),
    decreases es@,
{
    let ghost orig = es@;
    let ghost l0 = locals_v(locals@);
    proof {
        lemma_evs_len(orig, orig.len());
    }
    let mut es = es;
    match es.pop() {
        None => (es, count),
        Some(x) => {
            proof {
                assert(es@ =~= orig.drop_last());
                assert(orig =~= es@.push(x));
                lemma_evs_push(es@, x);
            }
            let ghost pre = es@;
            let (mut out, c) = inline_exprs(es, cands, self_id, locals, count);
            let (y, c) = inline_expr(x, cands, self_id, locals, c);
            proof {
                lemma_evs_push(out@, y);
                let v = evs(orig, orig.len());
                let w = evs(pre, pre.len());
                assert(v == w.push(ev(x)));
                assert(v.take(pre.len() as int) =~= w.take(pre.len() as int));
                lemma_inline_es_prefix(v, w, pre.len(), cands_v(cands@), self_id, l0);
            }
            out.push(y);
            (out, c)
        },
    }
}

/// Inlines eligible calls in a block: [`inline_b`].
fn inline_block(
    b: Block,
    cands: &Vec<Option<(usize, Expr)>>,
    self_id: FnId,
    locals: &mut Vec<LocalDecl>,
    count: usize,
) -> (r: (Block, usize))
    ensures
        bv(r.0) == inline_b(bv(b), cands_v(cands@), self_id, locals_v(old(locals)@)).0,
        locals_v(final(locals)@) == inline_b(bv(b), cands_v(cands@), self_id, locals_v(old(locals)@)).1,
        r.1 == sat(count as int, inline_b(bv(b), cands_v(cands@), self_id, locals_v(old(locals)@)).2 as int),
    decreases b,
{
    let Block { stmts, tail, ty } = b;
    let (ss, c) = inline_stmts(stmts, cands, self_id, locals, count);
    match tail {
        Some(t) => {
            let (r, c) = inline_expr(*t, cands, self_id, locals, c);
            (Block { stmts: ss, tail: Some(Box::new(r)), ty }, c)
        },
        None => (Block { stmts: ss, tail: None, ty }, c),
    }
}

/// Inlines eligible calls in a list of statements, in order: [`inline_ss`].
fn inline_stmts(
    ss: Vec<Stmt>,
    cands: &Vec<Option<(usize, Expr)>>,
    self_id: FnId,
    locals: &mut Vec<LocalDecl>,
    count: usize,
) -> (r: (Vec<Stmt>, usize))
    ensures
        svs(r.0@, r.0@.len()) == inline_ss(svs(ss@, ss@.len()), ss@.len(), cands_v(cands@), self_id, locals_v(old(locals)@)).0,
        locals_v(final(locals)@) == inline_ss(svs(ss@, ss@.len()), ss@.len(), cands_v(cands@), self_id, locals_v(old(locals)@)).1,
        r.1 == sat(count as int, inline_ss(svs(ss@, ss@.len()), ss@.len(), cands_v(cands@), self_id, locals_v(old(locals)@)).2 as int),
        svs(ss@, ss@.len()).len() == ss@.len(),
    decreases ss@,
{
    let ghost orig = ss@;
    let ghost l0 = locals_v(locals@);
    proof {
        lemma_svs_len(orig, orig.len());
    }
    let mut ss = ss;
    match ss.pop() {
        None => (ss, count),
        Some(x) => {
            proof {
                assert(ss@ =~= orig.drop_last());
                assert(orig =~= ss@.push(x));
                lemma_svs_push(ss@, x);
            }
            let ghost pre = ss@;
            let (mut out, c) = inline_stmts(ss, cands, self_id, locals, count);
            let (y, c) = inline_stmt(x, cands, self_id, locals, c);
            proof {
                lemma_svs_push(out@, y);
                let v = svs(orig, orig.len());
                let w = svs(pre, pre.len());
                assert(v == w.push(sv(x)));
                assert(v.take(pre.len() as int) =~= w.take(pre.len() as int));
                lemma_inline_ss_prefix(v, w, pre.len(), cands_v(cands@), self_id, l0);
            }
            out.push(y);
            (out, c)
        },
    }
}

/// Inlines eligible calls in a statement: [`inline_s`].
fn inline_stmt(
    s: Stmt,
    cands: &Vec<Option<(usize, Expr)>>,
    self_id: FnId,
    locals: &mut Vec<LocalDecl>,
    count: usize,
) -> (r: (Stmt, usize))
    ensures
        sv(r.0) == inline_s(sv(s), cands_v(cands@), self_id, locals_v(old(locals)@)).0,
        locals_v(final(locals)@) == inline_s(sv(s), cands_v(cands@), self_id, locals_v(old(locals)@)).1,
        r.1 == sat(count as int, inline_s(sv(s), cands_v(cands@), self_id, locals_v(old(locals)@)).2 as int),
    decreases s,
{
    match s {
        Stmt::Let { local, value } => {
            let (v, c) = inline_expr(value, cands, self_id, locals, count);
            (Stmt::Let { local, value: v }, c)
        },
        Stmt::Expr(e) => {
            let (v, c) = inline_expr(e, cands, self_id, locals, count);
            (Stmt::Expr(v), c)
        },
        Stmt::Return(Some(e)) => {
            let (v, c) = inline_expr(e, cands, self_id, locals, count);
            (Stmt::Return(Some(v)), c)
        },
        Stmt::While { cond, body } => {
            let (cd, c) = inline_expr(cond, cands, self_id, locals, count);
            let (b, c) = inline_block(body, cands, self_id, locals, c);
            (Stmt::While { cond: cd, body: b }, c)
        },
        Stmt::For { var, end_var, start, end, body } => {
            let (s1, c) = inline_expr(start, cands, self_id, locals, count);
            let (e1, c) = inline_expr(end, cands, self_id, locals, c);
            let (b, c) = inline_block(body, cands, self_id, locals, c);
            (Stmt::For { var, end_var, start: s1, end: e1, body: b }, c)
        },
        other => (other, count),
    }
}


// ---- the pass ----

/// Gathers the functions that are safe to inline: [`candidates`].
fn collect_candidates(hir: &Hir) -> (r: Vec<Option<(usize, Expr)>>)
    ensures
        cands_v(r@) == candidates(funcs_v(hir.functions@), hir.main),
{
    let mut out: Vec<Option<(usize, Expr)>> = Vec::new();
    let mut i: usize = 0;
    while i < hir.functions.len()
        invariant
            i <= hir.functions@.len(),
            out@.len() == i,
            forall|k: int| 0 <= k < i ==> cands_v(out@)[k] == candidate(fv(#[trigger] hir.functions@[k]), k, hir.main),
        decreases hir.functions@.len() - i,
    {
        let f = &hir.functions[i];
        proof {
            lemma_svs_len(f.body.stmts@, f.body.stmts@.len());
        }
        let id = FnId(#[verifier::truncate] (i as u32));
        let c = if id == hir.main || f.body.stmts.len() != 0 {
            None
        } else {
            match &f.body.tail {
                Some(t) => if is_simple(t, f.param_count) && !calls(t, id) {
                    Some((f.param_count, clone_expr(t)))
                } else {
                    None
                },
                None => None,
            }
        };
        let ghost before = out@;
        out.push(c);
        proof {
            assert forall|k: int| 0 <= k < i + 1 implies cands_v(out@)[k] == candidate(
                fv(#[trigger] hir.functions@[k]),
                k,
                hir.main,
            ) by {
                if k < i {
                    assert(out@[k] == before[k]);
                    assert(cands_v(before)[k] == candidate(fv(hir.functions@[k]), k, hir.main));
                }
            }
        }
        i = i + 1;
    }
    assert(cands_v(out@) =~= candidates(funcs_v(hir.functions@), hir.main));
    out
}

/// Whether some function is a candidate.
fn has_candidate(cands: &Vec<Option<(usize, Expr)>>) -> (b: bool)
    ensures
        b == !no_candidates(cands_v(cands@)),
{
    let mut j: usize = 0;
    while j < cands.len()
        invariant
            j <= cands@.len(),
            forall|k: int| 0 <= k < j ==> (#[trigger] cands_v(cands@)[k]) is None,
        decreases cands@.len() - j,
    {
        if cands[j].is_some() {
            assert(cands_v(cands@)[j as int] is Some);
            return true;
        }
        assert(cands_v(cands@)[j as int] is None);
        j = j + 1;
    }
    false
}

/// Whether a program has no inlining candidate.
pub open spec fn no_candidates(cs: Seq<Option<(nat, ExprV)>>) -> bool {
    forall|i: int| 0 <= i < cs.len() ==> cs[i] is None
}

/// Function `i` with its eligible calls inlined: its body and its locals,
/// grown by the fresh ones.
pub open spec fn inline_fn(f: FunctionV, i: int, cs: Seq<Option<(nat, ExprV)>>) -> FunctionV {
    let r = inline_b(f.body, cs, FnId(i as u32), f.locals);
    FunctionV { body: r.0, locals: r.1, ..f }
}

/// The calls inlined in the first `n` functions.
pub open spec fn inline_sum(fs: Seq<FunctionV>, n: nat, cs: Seq<Option<(nat, ExprV)>>) -> nat
    decreases n,
{
    if n == 0 || n > fs.len() {
        0
    } else {
        inline_sum(fs, (n - 1) as nat, cs) + inline_b(fs[n - 1].body, cs, FnId((n - 1) as u32), fs[n - 1].locals).2
    }
}

/// A program with eligible calls inlined everywhere, and the number of
/// inlined calls; with no candidate, the program as it was.
pub open spec fn inline_prog(fs: Seq<FunctionV>, main: FnId) -> (Seq<FunctionV>, nat) {
    let cs = candidates(fs, main);
    if no_candidates(cs) {
        (fs, 0)
    } else {
        (Seq::new(fs.len(), |i: int| inline_fn(fs[i], i, cs)), inline_sum(fs, fs.len(), cs))
    }
}

/// Inlines eligible calls throughout the program: [`inline_prog`]; returns
/// how many call sites were inlined.
pub fn run(hir: &mut Hir) -> (count: usize)
    ensures
        final(hir).main == old(hir).main,
        funcs_v(final(hir).functions@) == inline_prog(funcs_v(old(hir).functions@), old(hir).main).0,
        count == sat(0, inline_prog(funcs_v(old(hir).functions@), old(hir).main).1 as int),
{
    let cands = collect_candidates(hir);
    let ghost cs = cands_v(cands@);
    let any = has_candidate(&cands);
    if !any {
        return 0;
    }
    let mut rest: Vec<Function> = Vec::new();
    std::mem::swap(&mut rest, &mut hir.functions);
    let ghost orig = rest@;
    let ghost ov = funcs_v(orig);
    assert(orig.len() == rest.len());
    let mut out: Vec<Function> = Vec::new();
    let mut count: usize = 0;
    let mut i: usize = 0;
    while rest.len() > 0
        invariant
            i <= orig.len() <= usize::MAX,
            rest@ == orig.skip(i as int),
            out@.len() == i,
            cs == cands_v(cands@),
            ov == funcs_v(orig),
            forall|k: int| 0 <= k < i ==> fv(#[trigger] out@[k]) == inline_fn(ov[k], k, cs),
            count == sat(0, inline_sum(ov, i as nat, cs) as int),
        decreases rest@.len(),
    {
        let f = rest.remove(0);
        assert(f == orig[i as int]);
        assert(ov[i as int] == fv(f));
        assert(rest@ =~= orig.skip(i + 1));
        let Function { name, locals, param_count, ret, body } = f;
        let mut locals = locals;
        let (b, c) = inline_block(body, &cands, FnId(#[verifier::truncate] (i as u32)), &mut locals, count);
        let g = Function { name, locals, param_count, ret, body: b };
        let ghost before = out@;
        out.push(g);
        proof {
            assert forall|k: int| 0 <= k < i + 1 implies fv(#[trigger] out@[k]) == inline_fn(ov[k], k, cs) by {
                if k < i {
                    assert(out@[k] == before[k]);
                }
            }
        }
        count = c;
        i = i + 1;
    }
    assert(funcs_v(out@) =~= inline_prog(ov, hir.main).0);
    hir.functions = out;
    count
}

} // verus!
