//! Constant folding, algebraic simplification, and constant-condition collapse.
//!
//! A single post-order walk: children are simplified before their parent, so
//! a parent sees already-folded operands. Each rewrite is value-preserving:
//!
//! * **Constant folding**: operators on integer, boolean or string literal
//!   operands become a literal (`1 + 2` to `3`, `1 < 2` to `true`). Integer
//!   arithmetic wraps as the VM does; division or remainder by zero, and
//!   `i64::MIN / -1`, are left unfolded so the runtime error is preserved.
//! * **Algebraic identities**: `x + 0`, `0 + x`, `x - 0`, `x * 1`, `1 * x` to
//!   `x`; `x * 0` to `0` only when `x` is pure.
//! * **Short-circuit logic**: `true || x` to `true`, `false && x` to
//!   `false`, `true && x` and `false || x` to `x`.
//! * **Constant conditions**: `if true { a } else { b }` to `{ a }`.
//!
//! Float literals are kept as the text they were written as and are not
//! folded: their arithmetic is left to the VM.

use vstd::prelude::*;

use crate::hir::view::{
    bv, ev, evs, fv, funcs_v, kv, lemma_evs_len, lemma_evs_push, lemma_svs_len, lemma_svs_push, sv, svs, BlockV, ExprV, FunctionV, KindV, StmtV,
};
use crate::arith::{div_faults, lemma_i64_ops, trunc_div_rem, wraps_to};
use crate::hir::{BinOp, Block, Expr, ExprKind, Function, Hir, Stmt, UnOp};
use crate::opt::{is_pure, pure_e};
use crate::sema::types::Type;
use crate::span::Span;
use crate::text::str_eq;

verus! {

// ---- the rewrite of one node ----

/// Whether a node is the integer literal `0`.
pub open spec fn is_zero(k: KindV) -> bool {
    k matches KindV::Int(v) && v == 0
}

/// Whether a node is the integer literal `1`.
pub open spec fn is_one(k: KindV) -> bool {
    k matches KindV::Int(v) && v == 1
}

/// The boolean a literal node holds.
pub open spec fn as_bool(k: KindV) -> Option<bool> {
    match k {
        KindV::Bool(b) => Some(b),
        _ => None,
    }
}

/// An integer operator on two literals, unless it must stay for its
/// runtime error.
pub open spec fn const_int(op: BinOp, a: i64, b: i64) -> Option<KindV> {
    match op {
        BinOp::Add => Some(KindV::Int(a.wrapping_add(b))),
        BinOp::Sub => Some(KindV::Int(a.wrapping_sub(b))),
        BinOp::Mul => Some(KindV::Int(a.wrapping_mul(b))),
        BinOp::Div => match a.checked_div(b) {
            Some(q) => Some(KindV::Int(q)),
            None => None,
        },
        BinOp::Rem => match a.checked_rem(b) {
            Some(q) => Some(KindV::Int(q)),
            None => None,
        },
        BinOp::Eq => Some(KindV::Bool(a == b)),
        BinOp::Ne => Some(KindV::Bool(a != b)),
        BinOp::Lt => Some(KindV::Bool(a < b)),
        BinOp::Le => Some(KindV::Bool(a <= b)),
        BinOp::Gt => Some(KindV::Bool(a > b)),
        BinOp::Ge => Some(KindV::Bool(a >= b)),
        BinOp::And | BinOp::Or => None,
    }
}

/// A boolean operator on two literals.
pub open spec fn const_bool(op: BinOp, a: bool, b: bool) -> Option<KindV> {
    match op {
        BinOp::Eq => Some(KindV::Bool(a == b)),
        BinOp::Ne => Some(KindV::Bool(a != b)),
        BinOp::And => Some(KindV::Bool(a && b)),
        BinOp::Or => Some(KindV::Bool(a || b)),
        _ => None,
    }
}

/// An operator on two literal operands, where it can be computed.
pub open spec fn const_binary(op: BinOp, l: KindV, r: KindV) -> Option<KindV> {
    match (l, r) {
        (KindV::Int(a), KindV::Int(b)) => const_int(op, a, b),
        (KindV::Bool(a), KindV::Bool(b)) => const_bool(op, a, b),
        (KindV::Str(a), KindV::Str(b)) => if op is Eq {
            Some(KindV::Bool(a == b))
        } else if op is Ne {
            Some(KindV::Bool(a != b))
        } else {
            None
        },
        _ => None,
    }
}

/// A binary node over two operands.
pub open spec fn binary_node(op: BinOp, lhs: ExprV, rhs: ExprV, ty: Type, span: Span) -> ExprV {
    ExprV { kind: KindV::Binary { op, lhs: Box::new(lhs), rhs: Box::new(rhs) }, ty, span }
}

/// A node of the given kind, type and span.
pub open spec fn node(kind: KindV, ty: Type, span: Span) -> ExprV {
    ExprV { kind, ty, span }
}

/// Folding an operator over two integer literals gives the literal the
/// language computes: each comparison is the comparison of the numbers,
/// `+`, `-` and `*` wrap modulo 2^64, and `/` and `%` give the truncated
/// quotient and remainder; a division that would fault is left in place for
/// its runtime error. The folded node keeps the type and span.
pub proof fn lemma_fold_int_semantics(lhs: ExprV, rhs: ExprV, a: i64, b: i64, ty: Type, span: Span)
    requires
        lhs.kind == KindV::Int(a),
        rhs.kind == KindV::Int(b),
    ensures
        rewrite_v(binary_node(BinOp::Eq, lhs, rhs, ty, span)) == Some(node(KindV::Bool(a as int == b as int), ty, span)),
        rewrite_v(binary_node(BinOp::Ne, lhs, rhs, ty, span)) == Some(node(KindV::Bool(a as int != b as int), ty, span)),
        rewrite_v(binary_node(BinOp::Lt, lhs, rhs, ty, span)) == Some(node(KindV::Bool((a as int) < (b as int)), ty, span)),
        rewrite_v(binary_node(BinOp::Le, lhs, rhs, ty, span)) == Some(node(KindV::Bool((a as int) <= (b as int)), ty, span)),
        rewrite_v(binary_node(BinOp::Gt, lhs, rhs, ty, span)) == Some(node(KindV::Bool((a as int) > (b as int)), ty, span)),
        rewrite_v(binary_node(BinOp::Ge, lhs, rhs, ty, span)) == Some(node(KindV::Bool((a as int) >= (b as int)), ty, span)),
        rewrite_v(binary_node(BinOp::Add, lhs, rhs, ty, span)) matches Some(n) && (n.ty == ty && n.span == span
            && (n.kind matches KindV::Int(r) && wraps_to(r, a + b))),
        rewrite_v(binary_node(BinOp::Sub, lhs, rhs, ty, span)) matches Some(n) && (n.ty == ty && n.span == span
            && (n.kind matches KindV::Int(r) && wraps_to(r, a - b))),
        rewrite_v(binary_node(BinOp::Mul, lhs, rhs, ty, span)) matches Some(n) && (n.ty == ty && n.span == span
            && (n.kind matches KindV::Int(r) && wraps_to(r, a * b))),
        rewrite_v(binary_node(BinOp::Div, lhs, rhs, ty, span)) is None <==> div_faults(a, b),
        rewrite_v(binary_node(BinOp::Rem, lhs, rhs, ty, span)) is None <==> div_faults(a, b),
        !div_faults(a, b) ==> (rewrite_v(binary_node(BinOp::Div, lhs, rhs, ty, span)) matches Some(n)
            && (n.kind matches KindV::Int(q) && (rewrite_v(binary_node(BinOp::Rem, lhs, rhs, ty, span)) matches Some(m)
            && (m.kind matches KindV::Int(r) && trunc_div_rem(a as int, b as int, q as int, r as int))))),
{
    lemma_i64_ops(a, b);
}

/// Folding a negation or a `!` of a literal gives the negated literal
/// (negation wrapping modulo 2^64).
pub proof fn lemma_fold_unary_semantics(e: ExprV, a: i64, c: bool, ty: Type, span: Span)
    ensures
        e.kind == KindV::Int(a) ==> (rewrite_v(node(KindV::Unary { op: UnOp::Neg, rhs: Box::new(e) }, ty, span)) matches Some(
            n,
        ) && (n.kind matches KindV::Int(r) && wraps_to(r, -a))),
        e.kind == KindV::Bool(c) ==> rewrite_v(node(KindV::Unary { op: UnOp::Not, rhs: Box::new(e) }, ty, span))
            == Some(node(KindV::Bool(if c { false } else { true }), ty, span)),
{
    lemma_i64_ops(a, a);
}

/// Folding an operator over two boolean or two string literals gives the
/// literal the language computes.
pub proof fn lemma_fold_literal_logic(lhs: ExprV, rhs: ExprV, ty: Type, span: Span)
    ensures
        (lhs.kind matches KindV::Bool(x) && rhs.kind matches KindV::Bool(y)) ==> ({
            let x = lhs.kind->Bool_0;
            let y = rhs.kind->Bool_0;
            &&& rewrite_v(binary_node(BinOp::And, lhs, rhs, ty, span)) == Some(node(KindV::Bool(logic(BinOp::And, x, y)), ty, span))
            &&& rewrite_v(binary_node(BinOp::Or, lhs, rhs, ty, span)) == Some(node(KindV::Bool(logic(BinOp::Or, x, y)), ty, span))
            &&& rewrite_v(binary_node(BinOp::Eq, lhs, rhs, ty, span)) == Some(node(KindV::Bool(x <==> y), ty, span))
            &&& rewrite_v(binary_node(BinOp::Ne, lhs, rhs, ty, span)) == Some(node(KindV::Bool(!(x <==> y)), ty, span))
        }),
        (lhs.kind is Str && rhs.kind is Str) ==> ({
            &&& rewrite_v(binary_node(BinOp::Eq, lhs, rhs, ty, span)) == Some(node(KindV::Bool(lhs.kind == rhs.kind), ty, span))
            &&& rewrite_v(binary_node(BinOp::Ne, lhs, rhs, ty, span)) == Some(node(KindV::Bool(lhs.kind != rhs.kind), ty, span))
        }),
{
}

/// The exact value of an integer operator on two numbers, before wrapping.
pub open spec fn exact(op: BinOp, x: int, y: int) -> int {
    if op is Add {
        x + y
    } else if op is Sub {
        x - y
    } else {
        x * y
    }
}

/// When folding replaces an arithmetic node over one literal `c` and one
/// other operand by one of its operands, the replacement has the node's
/// value whatever the other operand's value `v` is (`x + 0`, `x - 0`,
/// `x * 1`, `1 * x`, `0 + x` become `x`; `x * 0` and `0 * x` become `0`).
pub proof fn lemma_fold_identities_keep_value(op: BinOp, lhs: ExprV, rhs: ExprV, ty: Type, span: Span, c: i64)
    requires
        op is Add || op is Sub || op is Mul,
    ensures
        rhs.kind == KindV::Int(c) && !(lhs.kind is Int) && rewrite_v(binary_node(op, lhs, rhs, ty, span)) == Some(lhs)
            ==> forall|v: i64| #[trigger] wraps_to(v, exact(op, v as int, c as int)),
        rhs.kind == KindV::Int(c) && !(lhs.kind is Int) && rewrite_v(binary_node(op, lhs, rhs, ty, span)) == Some(rhs)
            ==> forall|v: i64| #[trigger] wraps_to(c, exact(op, v as int, c as int)),
        lhs.kind == KindV::Int(c) && !(rhs.kind is Int) && rewrite_v(binary_node(op, lhs, rhs, ty, span)) == Some(rhs)
            ==> forall|v: i64| #[trigger] wraps_to(v, exact(op, c as int, v as int)),
        lhs.kind == KindV::Int(c) && !(rhs.kind is Int) && rewrite_v(binary_node(op, lhs, rhs, ty, span)) == Some(lhs)
            ==> forall|v: i64| #[trigger] wraps_to(c, exact(op, c as int, v as int)),
{
    assert forall|v: i64, w: int| w == 0 implies #[trigger] wraps_to(v, v + w) && wraps_to(v, v - w) && wraps_to(v, v * 1)
        && wraps_to(v, 1 * v) && wraps_to(0, v * 0) && wraps_to(0, 0 * v) by {
        assert(v * 1 == v) by (nonlinear_arith);
        assert(1 * v == v) by (nonlinear_arith);
        assert(v * 0 == 0) by (nonlinear_arith);
        assert(0 * v == 0) by (nonlinear_arith);
    }
}

/// The value of `&&` (or else `||`) on two booleans.
pub open spec fn logic(op: BinOp, a: bool, b: bool) -> bool {
    if op is And {
        a && b
    } else {
        a || b
    }
}

/// Folding `&&` and `||` with a literal left operand keeps the node's
/// value for either value `v` of the right operand.
pub proof fn lemma_fold_logic_keeps_value(op: BinOp, lhs: ExprV, rhs: ExprV, ty: Type, span: Span, c: bool)
    requires
        op is And || op is Or,
        lhs.kind == KindV::Bool(c),
        !(rhs.kind is Bool),
    ensures
        rewrite_v(binary_node(op, lhs, rhs, ty, span)) == Some(rhs) ==> forall|v: bool|
            #[trigger] logic(op, c, v) == v,
        rewrite_v(binary_node(op, lhs, rhs, ty, span)) == Some(lhs) ==> forall|v: bool|
            #[trigger] logic(op, c, v) == c,
{
}

/// The unit value: an empty block.
pub open spec fn unit_v(span: Span) -> ExprV {
    ExprV {
        kind: KindV::Block(BlockV { stmts: Seq::empty(), tail: None, ty: Type::Unit }),
        ty: Type::Unit,
        span,
    }
}

/// What a binary node with (already folded) operands becomes, if it folds.
pub open spec fn fold_binary_v(op: BinOp, lhs: ExprV, rhs: ExprV, ty: Type, span: Span) -> Option<ExprV> {
    match const_binary(op, lhs.kind, rhs.kind) {
        Some(k) => Some(ExprV { kind: k, ty, span }),
        None => match op {
            BinOp::Add => if is_zero(rhs.kind) {
                Some(lhs)
            } else if is_zero(lhs.kind) {
                Some(rhs)
            } else {
                None
            },
            BinOp::Sub => if is_zero(rhs.kind) {
                Some(lhs)
            } else {
                None
            },
            BinOp::Mul => if is_one(rhs.kind) {
                Some(lhs)
            } else if is_one(lhs.kind) {
                Some(rhs)
            } else if is_zero(rhs.kind) && pure_e(lhs) {
                Some(rhs)
            } else if is_zero(lhs.kind) && pure_e(rhs) {
                Some(lhs)
            } else {
                None
            },
            BinOp::And => match as_bool(lhs.kind) {
                Some(true) => Some(rhs),
                Some(false) => Some(lhs),
                None => None,
            },
            BinOp::Or => match as_bool(lhs.kind) {
                Some(true) => Some(lhs),
                Some(false) => Some(rhs),
                None => None,
            },
            _ => None,
        },
    }
}

/// What a node with (already folded) children becomes, if it folds.
pub open spec fn rewrite_v(m: ExprV) -> Option<ExprV> {
    match m.kind {
        KindV::Unary { op, rhs } => match (op, rhs.kind) {
            (UnOp::Neg, KindV::Int(v)) => Some(ExprV { kind: KindV::Int(0i64.wrapping_sub(v)), ty: m.ty, span: m.span }),
            (UnOp::Not, KindV::Bool(b)) => Some(ExprV { kind: KindV::Bool(!b), ty: m.ty, span: m.span }),
            _ => None,
        },
        KindV::Binary { op, lhs, rhs } => fold_binary_v(op, *lhs, *rhs, m.ty, m.span),
        KindV::If { cond, then_branch, else_branch } => match cond.kind {
            KindV::Bool(true) => Some(ExprV { kind: KindV::Block(then_branch), ty: m.ty, span: m.span }),
            KindV::Bool(false) => match else_branch {
                Some(e) => Some(*e),
                None => Some(unit_v(m.span)),
            },
            _ => None,
        },
        _ => None,
    }
}

/// A node that does not fold, as it is kept: the condition of an `if` is
/// retyped `bool`.
pub open spec fn kept_v(m: ExprV) -> ExprV {
    match m.kind {
        KindV::If { cond, then_branch, else_branch } => ExprV {
            kind: KindV::If {
                cond: Box::new(ExprV { kind: cond.kind, ty: Type::Bool, span: cond.span }),
                then_branch,
                else_branch,
            },
            ty: m.ty,
            span: m.span,
        },
        _ => m,
    }
}

/// A node after its own rewrite, and whether one applied.
pub open spec fn settle_v(m: ExprV) -> (ExprV, nat) {
    match rewrite_v(m) {
        Some(r) => (r, 1),
        None => (kept_v(m), 0),
    }
}

// ---- the walk ----

/// An expression folded bottom-up, and the number of rewrites.
pub open spec fn fold_e(e: ExprV) -> (ExprV, nat)
    decreases e, 1int,
{
    let (k, n) = fold_k(e.kind);
    let (r, m) = settle_v(ExprV { kind: k, ty: e.ty, span: e.span });
    (r, n + m)
}

/// A node with its children folded, and the number of rewrites in them.
pub open spec fn fold_k(k: KindV) -> (KindV, nat)
    decreases k, 0int,
{
    match k {
        KindV::Unary { op, rhs } => {
            let (r, n) = fold_e(*rhs);
            (KindV::Unary { op, rhs: Box::new(r) }, n)
        },
        KindV::Binary { op, lhs, rhs } => {
            let (l, n1) = fold_e(*lhs);
            let (r, n2) = fold_e(*rhs);
            (KindV::Binary { op, lhs: Box::new(l), rhs: Box::new(r) }, n1 + n2)
        },
        KindV::Call { callee, args } => {
            let (a, n) = fold_es(args, args.len());
            (KindV::Call { callee, args: a }, n)
        },
        KindV::Assign { local, value } => {
            let (v, n) = fold_e(*value);
            (KindV::Assign { local, value: Box::new(v) }, n)
        },
        KindV::ArrayLit(es) => {
            let (a, n) = fold_es(es, es.len());
            (KindV::ArrayLit(a), n)
        },
        KindV::Index { base, index } => {
            let (b, n1) = fold_e(*base);
            let (i, n2) = fold_e(*index);
            (KindV::Index { base: Box::new(b), index: Box::new(i) }, n1 + n2)
        },
        KindV::SetIndex { base, index, value } => {
            let (b, n1) = fold_e(*base);
            let (i, n2) = fold_e(*index);
            let (v, n3) = fold_e(*value);
            (KindV::SetIndex { base: Box::new(b), index: Box::new(i), value: Box::new(v) }, n1 + n2 + n3)
        },
        KindV::StructLit(es) => {
            let (a, n) = fold_es(es, es.len());
            (KindV::StructLit(a), n)
        },
        KindV::GetField { base, idx } => {
            let (b, n) = fold_e(*base);
            (KindV::GetField { base: Box::new(b), idx }, n)
        },
        KindV::SetField { base, idx, value } => {
            let (b, n1) = fold_e(*base);
            let (v, n2) = fold_e(*value);
            (KindV::SetField { base: Box::new(b), idx, value: Box::new(v) }, n1 + n2)
        },
        KindV::If { cond, then_branch, else_branch } => {
            let (c, n1) = fold_e(*cond);
            let (t, n2) = fold_b(then_branch);
            match else_branch {
                Some(e) => {
                    let (x, n3) = fold_e(*e);
                    (KindV::If { cond: Box::new(c), then_branch: t, else_branch: Some(Box::new(x)) }, n1 + n2 + n3)
                },
                None => (KindV::If { cond: Box::new(c), then_branch: t, else_branch: None }, n1 + n2),
            }
        },
        KindV::Block(b) => {
            let (r, n) = fold_b(b);
            (KindV::Block(r), n)
        },
        _ => (k, 0),
    }
}

/// The first `n` expressions folded, and the number of rewrites.
pub open spec fn fold_es(es: Seq<ExprV>, n: nat) -> (Seq<ExprV>, nat)
    decreases es, n,
{
    if n == 0 || n > es.len() {
        (Seq::empty(), 0)
    } else {
        let (a, c1) = fold_es(es, (n - 1) as nat);
        let (x, c2) = fold_e(es[n - 1]);
        (a.push(x), c1 + c2)
    }
}

/// A block folded: its statements and tail, its type following the tail.
pub open spec fn fold_b(b: BlockV) -> (BlockV, nat)
    decreases b, 1int,
{
    let (ss, n1) = fold_ss(b.stmts, b.stmts.len());
    match b.tail {
        Some(t) => {
            let (r, n2) = fold_e(*t);
            (BlockV { stmts: ss, tail: Some(Box::new(r)), ty: r.ty }, n1 + n2)
        },
        None => (BlockV { stmts: ss, tail: None, ty: b.ty }, n1),
    }
}

/// The first `n` statements folded, and the number of rewrites.
pub open spec fn fold_ss(ss: Seq<StmtV>, n: nat) -> (Seq<StmtV>, nat)
    decreases ss, n,
{
    if n == 0 || n > ss.len() {
        (Seq::empty(), 0)
    } else {
        let (a, c1) = fold_ss(ss, (n - 1) as nat);
        let (x, c2) = fold_s(ss[n - 1]);
        (a.push(x), c1 + c2)
    }
}

/// A statement with its expressions and blocks folded.
pub open spec fn fold_s(s: StmtV) -> (StmtV, nat)
    decreases s, 0int,
{
    match s {
        StmtV::Let { local, value } => {
            let (v, n) = fold_e(value);
            (StmtV::Let { local, value: v }, n)
        },
        StmtV::Expr(e) => {
            let (v, n) = fold_e(e);
            (StmtV::Expr(v), n)
        },
        StmtV::Return(Some(e)) => {
            let (v, n) = fold_e(e);
            (StmtV::Return(Some(v)), n)
        },
        StmtV::While { cond, body } => {
            let (c, n1) = fold_e(cond);
            let (b, n2) = fold_b(body);
            (StmtV::While { cond: c, body: b }, n1 + n2)
        },
        StmtV::For { var, end_var, start, end, body } => {
            let (s1, n1) = fold_e(start);
            let (e1, n2) = fold_e(end);
            let (b, n3) = fold_b(body);
            (StmtV::For { var, end_var, start: s1, end: e1, body: b }, n1 + n2 + n3)
        },
        _ => (s, 0),
    }
}

/// `a + b`, held at `usize::MAX`.
pub open spec fn sat(a: int, b: int) -> int {
    if a + b > usize::MAX {
        usize::MAX as int
    } else {
        a + b
    }
}


// ---- executable ----

/// `a + 1`, held at `usize::MAX`.
fn bump(a: usize) -> (r: usize)
    ensures
        r == sat(a as int, 1),
{
    if a < usize::MAX {
        a + 1
    } else {
        a
    }
}

/// An integer operator on two literals: [`const_int`].
fn const_int_exec(op: BinOp, a: i64, b: i64) -> (r: Option<ExprKind>)
    ensures
        match r {
            Some(k) => const_int(op, a, b) == Some(kv(k)),
            None => const_int(op, a, b) is None,
        },
{
    match op {
        BinOp::Add => Some(ExprKind::Int(a.wrapping_add(b))),
        BinOp::Sub => Some(ExprKind::Int(a.wrapping_sub(b))),
        BinOp::Mul => Some(ExprKind::Int(a.wrapping_mul(b))),
        BinOp::Div => match a.checked_div(b) {
            Some(q) => Some(ExprKind::Int(q)),
            None => None,
        },
        BinOp::Rem => match a.checked_rem(b) {
            Some(q) => Some(ExprKind::Int(q)),
            None => None,
        },
        BinOp::Eq => Some(ExprKind::Bool(a == b)),
        BinOp::Ne => Some(ExprKind::Bool(a != b)),
        BinOp::Lt => Some(ExprKind::Bool(a < b)),
        BinOp::Le => Some(ExprKind::Bool(a <= b)),
        BinOp::Gt => Some(ExprKind::Bool(a > b)),
        BinOp::Ge => Some(ExprKind::Bool(a >= b)),
        BinOp::And | BinOp::Or => None,
    }
}

/// An operator on two literal operands: [`const_binary`].
fn const_binary_exec(op: BinOp, l: &ExprKind, r: &ExprKind) -> (res: Option<ExprKind>)
    ensures
        match res {
            Some(k) => const_binary(op, kv(*l), kv(*r)) == Some(kv(k)),
            None => const_binary(op, kv(*l), kv(*r)) is None,
        },
{
    match (l, r) {
        (ExprKind::Int(a), ExprKind::Int(b)) => const_int_exec(op, *a, *b),
        (ExprKind::Bool(a), ExprKind::Bool(b)) => match op {
            BinOp::Eq => Some(ExprKind::Bool(*a == *b)),
            BinOp::Ne => Some(ExprKind::Bool(*a != *b)),
            BinOp::And => Some(ExprKind::Bool(*a && *b)),
            BinOp::Or => Some(ExprKind::Bool(*a || *b)),
            _ => None,
        },
        (ExprKind::Str(a), ExprKind::Str(b)) => match op {
            BinOp::Eq => Some(ExprKind::Bool(str_eq(a.as_str(), b.as_str()))),
            BinOp::Ne => Some(ExprKind::Bool(!str_eq(a.as_str(), b.as_str()))),
            _ => None,
        },
        _ => None,
    }
}

fn int_lit(k: &ExprKind, v: i64) -> (b: bool)
    ensures
        b == (kv(*k) matches KindV::Int(x) && x == v),
{
    match k {
        ExprKind::Int(x) => *x == v,
        _ => false,
    }
}

fn bool_lit(k: &ExprKind) -> (r: Option<bool>)
    ensures
        r == as_bool(kv(*k)),
{
    match k {
        ExprKind::Bool(b) => Some(*b),
        _ => None,
    }
}

/// A binary node with folded operands after its own rewrite:
/// [`fold_binary_v`], or the node as it was.
fn rewrite_binary(op: BinOp, lhs: Box<Expr>, rhs: Box<Expr>, ty: Type, span: Span) -> (r: (Expr, bool))
    ensures
        ({
            let m = ExprV { kind: KindV::Binary { op, lhs: Box::new(ev(*lhs)), rhs: Box::new(ev(*rhs)) }, ty, span };
            ev(r.0) == settle_v(m).0 && r.1 == (settle_v(m).1 == 1)
        }),
{
    if let Some(k) = const_binary_exec(op, &lhs.kind, &rhs.kind) {
        return (Expr { kind: k, ty, span }, true);
    }
    let l_zero = int_lit(&lhs.kind, 0);
    let r_zero = int_lit(&rhs.kind, 0);
    let l_one = int_lit(&lhs.kind, 1);
    let r_one = int_lit(&rhs.kind, 1);
    let l_bool = bool_lit(&lhs.kind);
    match op {
        BinOp::Add => {
            if r_zero {
                return (*lhs, true);
            }
            if l_zero {
                return (*rhs, true);
            }
        },
        BinOp::Sub => {
            if r_zero {
                return (*lhs, true);
            }
        },
        BinOp::Mul => {
            if r_one {
                return (*lhs, true);
            }
            if l_one {
                return (*rhs, true);
            }
            if r_zero && is_pure(&lhs) {
                return (*rhs, true);
            }
            if l_zero && is_pure(&rhs) {
                return (*lhs, true);
            }
        },
        BinOp::And => match l_bool {
            Some(true) => {
                return (*rhs, true);
            },
            Some(false) => {
                return (*lhs, true);
            },
            None => {},
        },
        BinOp::Or => match l_bool {
            Some(true) => {
                return (*lhs, true);
            },
            Some(false) => {
                return (*rhs, true);
            },
            None => {},
        },
        _ => {},
    }
    (Expr { kind: ExprKind::Binary { op, lhs, rhs }, ty, span }, false)
}

/// The unit value: an empty block.
pub fn unit_expr(span: Span) -> (e: Expr)
    ensures
        ev(e) == unit_v(span),
{
    let b = Block { stmts: Vec::new(), tail: None, ty: Type::Unit };
    proof {
        assert(crate::hir::view::svs(b.stmts@, 0) =~= Seq::<StmtV>::empty());
        assert(bv(b) == BlockV { stmts: Seq::<StmtV>::empty(), tail: None, ty: Type::Unit });
    }
    let e = Expr { kind: ExprKind::Block(b), ty: Type::Unit, span };
    assert(kv(e.kind) == KindV::Block(bv(b)));
    e
}

/// The value of an optional expression.
pub open spec fn opt_ev(o: Option<Box<Expr>>) -> Option<Box<ExprV>> {
    match o {
        Some(e) => Some(Box::new(ev(*e))),
        None => None,
    }
}

/// A node with folded children after its own rewrite: [`settle_v`].
fn rewrite(k: ExprKind, ty: Type, span: Span) -> (r: (Expr, bool))
    ensures
        ({
            let m = ExprV { kind: kv(k), ty, span };
            ev(r.0) == settle_v(m).0 && r.1 == (settle_v(m).1 == 1)
        }),
{
    match k {
        ExprKind::Unary { op, rhs } => {
            let folded = match (op, &rhs.kind) {
                (UnOp::Neg, ExprKind::Int(v)) => Some(ExprKind::Int(0i64.wrapping_sub(*v))),
                (UnOp::Not, ExprKind::Bool(b)) => Some(ExprKind::Bool(!*b)),
                _ => None,
            };
            let ghost m = ExprV { kind: KindV::Unary { op, rhs: Box::new(ev(*rhs)) }, ty, span };
            match folded {
                Some(kind) => {
                    assert(rewrite_v(m) == Some(ev(Expr { kind, ty, span })));
                    (Expr { kind, ty, span }, true)
                },
                None => {
                    assert(rewrite_v(m) is None);
                    (Expr { kind: ExprKind::Unary { op, rhs }, ty, span }, false)
                },
            }
        },
        ExprKind::Binary { op, lhs, rhs } => rewrite_binary(op, lhs, rhs, ty, span),
        ExprKind::If { cond, then_branch, else_branch } => {
            let ghost m = ExprV { kind: kv(ExprKind::If { cond, then_branch, else_branch }), ty, span };
            let ghost cv = ev(*cond);
            let Expr { kind: ck, ty: cty, span: cspan } = *cond;
            assert(cv.kind == kv(ck));
            match ck {
                ExprKind::Bool(true) => {
                    let r = Expr { kind: ExprKind::Block(then_branch), ty, span };
                    assert(rewrite_v(m) == Some(ev(r)));
                    (r, true)
                },
                ExprKind::Bool(false) => match else_branch {
                    Some(e) => (*e, true),
                    None => (unit_expr(span), true),
                },
                other => {
                    let c2 = Expr { kind: other, ty: Type::Bool, span: cspan };
                    assert(ev(c2) == ExprV { kind: cv.kind, ty: Type::Bool, span: cv.span });
                    let cond = Box::new(c2);
                    let ghost tv = bv(then_branch);
                    let ghost evv = opt_ev(else_branch);
                    assert(m.kind == KindV::If { cond: Box::new(cv), then_branch: tv, else_branch: evv });
                    let r = Expr { kind: ExprKind::If { cond, then_branch, else_branch }, ty, span };
                    assert(ev(r).kind == KindV::If { cond: Box::new(ev(c2)), then_branch: tv, else_branch: evv });
                    assert(rewrite_v(m) is None);
                    assert(ev(r) == kept_v(m));
                    (r, false)
                },
            }
        },
        other => {
            let r = Expr { kind: other, ty, span };
            assert(rewrite_v(ev(r)) is None);
            (r, false)
        },
    }
}


/// Folding a prefix looks only at the prefix.
proof fn lemma_fold_es_prefix(s: Seq<ExprV>, t: Seq<ExprV>, n: nat)
    requires
        n <= s.len(),
        n <= t.len(),
        s.take(n as int) == t.take(n as int),
    ensures
        fold_es(s, n) == fold_es(t, n),
    decreases n,
{
    if n > 0 {
        assert(s.take(n - 1) =~= s.take(n as int).take(n - 1));
        assert(t.take(n - 1) =~= t.take(n as int).take(n - 1));
        assert(s[n - 1] == s.take(n as int)[n - 1]);
        assert(t[n - 1] == t.take(n as int)[n - 1]);
        lemma_fold_es_prefix(s, t, (n - 1) as nat);
    }
}

/// Folding a prefix of statements looks only at the prefix.
proof fn lemma_fold_ss_prefix(s: Seq<StmtV>, t: Seq<StmtV>, n: nat)
    requires
        n <= s.len(),
        n <= t.len(),
        s.take(n as int) == t.take(n as int),
    ensures
        fold_ss(s, n) == fold_ss(t, n),
    decreases n,
{
    if n > 0 {
        assert(s.take(n - 1) =~= s.take(n as int).take(n - 1));
        assert(t.take(n - 1) =~= t.take(n as int).take(n - 1));
        assert(s[n - 1] == s.take(n as int)[n - 1]);
        assert(t[n - 1] == t.take(n as int)[n - 1]);
        lemma_fold_ss_prefix(s, t, (n - 1) as nat);
    }
}

/// Folds an expression: [`fold_e`]; `count` grows by its rewrites.
fn fold_expr(e: Expr, count: usize) -> (r: (Expr, usize))
    ensures
        ev(r.0) == fold_e(ev(e)).0,
        r.1 == sat(count as int, fold_e(ev(e)).1 as int),
    decreases e,
{
    let Expr { kind, ty, span } = e;
    let (k, c) = fold_kind(kind, count);
    let (r, hit) = rewrite(k, ty, span);
    if hit {
        (r, bump(c))
    } else {
        (r, c)
    }
}

/// Folds the children of a node: [`fold_k`].
fn fold_kind(k: ExprKind, count: usize) -> (r: (ExprKind, usize))
    ensures
        kv(r.0) == fold_k(kv(k)).0,
        r.1 == sat(count as int, fold_k(kv(k)).1 as int),
    decreases k,
{
    match k {
        ExprKind::Unary { op, rhs } => {
            let ghost rv = ev(*rhs);
            let (r, c) = fold_expr(*rhs, count);
            assert(kv(ExprKind::Unary { op, rhs }) == KindV::Unary { op, rhs: Box::new(rv) });
            assert(fold_k(KindV::Unary { op, rhs: Box::new(rv) }) == (KindV::Unary { op, rhs: Box::new(fold_e(rv).0) }, fold_e(rv).1));
            (ExprKind::Unary { op, rhs: Box::new(r) }, c)
        },
        ExprKind::Binary { op, lhs, rhs } => {
            let (l, c) = fold_expr(*lhs, count);
            let (r, c) = fold_expr(*rhs, c);
            (ExprKind::Binary { op, lhs: Box::new(l), rhs: Box::new(r) }, c)
        },
        ExprKind::Call { callee, args } => {
            let (a, c) = fold_exprs(args, count);
            (ExprKind::Call { callee, args: a }, c)
        },
        ExprKind::Assign { local, value } => {
            let (v, c) = fold_expr(*value, count);
            (ExprKind::Assign { local, value: Box::new(v) }, c)
        },
        ExprKind::ArrayLit(es) => {
            let (a, c) = fold_exprs(es, count);
            (ExprKind::ArrayLit(a), c)
        },
        ExprKind::Index { base, index } => {
            let (b, c) = fold_expr(*base, count);
            let (i, c) = fold_expr(*index, c);
            (ExprKind::Index { base: Box::new(b), index: Box::new(i) }, c)
        },
        ExprKind::SetIndex { base, index, value } => {
            let (b, c) = fold_expr(*base, count);
            let (i, c) = fold_expr(*index, c);
            let (v, c) = fold_expr(*value, c);
            (ExprKind::SetIndex { base: Box::new(b), index: Box::new(i), value: Box::new(v) }, c)
        },
        ExprKind::StructLit(es) => {
            let (a, c) = fold_exprs(es, count);
            (ExprKind::StructLit(a), c)
        },
        ExprKind::GetField { base, idx } => {
            let (b, c) = fold_expr(*base, count);
            (ExprKind::GetField { base: Box::new(b), idx }, c)
        },
        ExprKind::SetField { base, idx, value } => {
            let (b, c) = fold_expr(*base, count);
            let (v, c) = fold_expr(*value, c);
            (ExprKind::SetField { base: Box::new(b), idx, value: Box::new(v) }, c)
        },
        ExprKind::If { cond, then_branch, else_branch } => {
            let (cd, c) = fold_expr(*cond, count);
            let (t, c) = fold_block(then_branch, c);
            match else_branch {
                Some(e) => {
                    let (x, c) = fold_expr(*e, c);
                    (ExprKind::If { cond: Box::new(cd), then_branch: t, else_branch: Some(Box::new(x)) }, c)
                },
                None => (ExprKind::If { cond: Box::new(cd), then_branch: t, else_branch: None }, c),
            }
        },
        ExprKind::Block(b) => {
            let (r, c) = fold_block(b, count);
            (ExprKind::Block(r), c)
        },
        other => (other, count),
    }
}

/// Folds a list of expressions, in order: [`fold_es`].
fn fold_exprs(es: Vec<Expr>, count: usize) -> (r: (Vec<Expr>, usize))
    ensures
        evs(r.0@, r.0@.len()) == fold_es(evs(es@, es@.len()), es@.len()).0,
        r.1 == sat(count as int, fold_es(evs(es@, es@.len()), es@.len()).1 as int),
        evs(es@, es@.len()).len() == es@.len(),
    decreases es@,
{
    let ghost orig = es@;
    proof {
        lemma_evs_len(orig, orig.len());
    }
    let mut es = es;
    match es.pop() {
        None => (es, count),
        Some(x) => {
            proof {
                assert(es@ =~= orig.drop_last());
                assert(orig =~= es@.push(x));
                lemma_evs_push(es@, x);
                lemma_evs_len(es@, es@.len());
            }
            let ghost pre = es@;
            let (mut out, c) = fold_exprs(es, count);
            let (y, c) = fold_expr(x, c);
            proof {
                lemma_evs_push(out@, y);
                let v = evs(orig, orig.len());
                let w = evs(pre, pre.len());
                assert(v == w.push(ev(x)));
                assert(v.take(pre.len() as int) =~= w.take(pre.len() as int));
                lemma_fold_es_prefix(v, w, pre.len());
            }
            out.push(y);
            (out, c)
        },
    }
}

/// Folds a block: [`fold_b`].
fn fold_block(b: Block, count: usize) -> (r: (Block, usize))
    ensures
        bv(r.0) == fold_b(bv(b)).0,
        r.1 == sat(count as int, fold_b(bv(b)).1 as int),
    decreases b,
{
    let Block { stmts, tail, ty } = b;
    let (ss, c) = fold_stmts(stmts, count);
    match tail {
        Some(t) => {
            let (r, c) = fold_expr(*t, c);
            let ty = r.ty;
            (Block { stmts: ss, tail: Some(Box::new(r)), ty }, c)
        },
        None => (Block { stmts: ss, tail: None, ty }, c),
    }
}

/// Folds a list of statements, in order: [`fold_ss`].
fn fold_stmts(ss: Vec<Stmt>, count: usize) -> (r: (Vec<Stmt>, usize))
    ensures
        svs(r.0@, r.0@.len()) == fold_ss(svs(ss@, ss@.len()), ss@.len()).0,
        r.1 == sat(count as int, fold_ss(svs(ss@, ss@.len()), ss@.len()).1 as int),
        svs(ss@, ss@.len()).len() == ss@.len(),
    decreases ss@,
{
    let ghost orig = ss@;
    proof {
        lemma_svs_len(orig, orig.len());
    }
    let mut ss = ss;
    match ss.pop() {
        None => (ss, count),
        Some(x) => {
            proof {
                assert(ss@ =~= orig.drop_last());
                assert(orig =~= ss@.push(x));
                lemma_svs_push(ss@, x);
            }
            let ghost pre = ss@;
            let (mut out, c) = fold_stmts(ss, count);
            let (y, c) = fold_stmt(x, c);
            proof {
                lemma_svs_push(out@, y);
                let v = svs(orig, orig.len());
                let w = svs(pre, pre.len());
                assert(v == w.push(sv(x)));
                assert(v.take(pre.len() as int) =~= w.take(pre.len() as int));
                lemma_fold_ss_prefix(v, w, pre.len());
            }
            out.push(y);
            (out, c)
        },
    }
}

/// Folds a statement: [`fold_s`].
fn fold_stmt(s: Stmt, count: usize) -> (r: (Stmt, usize))
    ensures
        sv(r.0) == fold_s(sv(s)).0,
        r.1 == sat(count as int, fold_s(sv(s)).1 as int),
    decreases s,
{
    match s {
        Stmt::Let { local, value } => {
            let (v, c) = fold_expr(value, count);
            (Stmt::Let { local, value: v }, c)
        },
        Stmt::Expr(e) => {
            let (v, c) = fold_expr(e, count);
            (Stmt::Expr(v), c)
        },
        Stmt::Return(Some(e)) => {
            let (v, c) = fold_expr(e, count);
            (Stmt::Return(Some(v)), c)
        },
        Stmt::While { cond, body } => {
            let (cd, c) = fold_expr(cond, count);
            let (b, c) = fold_block(body, c);
            (Stmt::While { cond: cd, body: b }, c)
        },
        Stmt::For { var, end_var, start, end, body } => {
            let (s1, c) = fold_expr(start, count);
            let (e1, c) = fold_expr(end, c);
            let (b, c) = fold_block(body, c);
            (Stmt::For { var, end_var, start: s1, end: e1, body: b }, c)
        },
        other => (other, count),
    }
}


/// A function with its body folded.
pub open spec fn fold_fn(f: FunctionV) -> FunctionV {
    FunctionV { body: fold_b(f.body).0, ..f }
}

/// The rewrites folding the bodies of the first `n` functions makes.
pub open spec fn fold_sum(fs: Seq<FunctionV>, n: nat) -> nat
    decreases n,
{
    if n == 0 || n > fs.len() {
        0
    } else {
        fold_sum(fs, (n - 1) as nat) + fold_b(fs[n - 1].body).1
    }
}

/// A program with every body folded, and the number of rewrites.
pub open spec fn fold_prog(fs: Seq<FunctionV>) -> (Seq<FunctionV>, nat) {
    (fs.map_values(|f: FunctionV| fold_fn(f)), fold_sum(fs, fs.len()))
}

/// Runs the fold pass over the whole program: each function's body is
/// folded ([`fold_b`]); returns the number of rewrites.
pub fn run(hir: &mut Hir) -> (count: usize)
    ensures
        final(hir).main == old(hir).main,
        funcs_v(final(hir).functions@) == fold_prog(funcs_v(old(hir).functions@)).0,
        count == sat(0, fold_prog(funcs_v(old(hir).functions@)).1 as int),
{
    let mut rest: Vec<Function> = Vec::new();
    std::mem::swap(&mut rest, &mut hir.functions);
    let ghost orig = rest@;
    let ghost ov = funcs_v(orig);
    assert(orig.len() == rest.len());
    let mut out: Vec<Function> = Vec::new();
    let mut count: usize = 0;
    let mut i: usize = 0;
    while rest.len() > 0
        invariant
            i <= orig.len() <= usize::MAX,
            rest@ == orig.skip(i as int),
            out@.len() == i,
            ov == funcs_v(orig),
            forall|k: int| 0 <= k < i ==> fv(#[trigger] out@[k]) == fold_fn(ov[k]),
            count == sat(0, fold_sum(ov, i as nat) as int),
        decreases rest@.len(),
    {
        let f = rest.remove(0);
        assert(f == orig[i as int]);
        assert(ov[i as int] == fv(f));
        assert(rest@ =~= orig.skip(i + 1));
        let Function { name, locals, param_count, ret, body } = f;
        let (b, c) = fold_block(body, count);
        let g = Function { name, locals, param_count, ret, body: b };
        let ghost before = out@;
        out.push(g);
        proof {
            assert forall|k: int| 0 <= k < i + 1 implies fv(#[trigger] out@[k]) == fold_fn(ov[k]) by {
                if k < i {
                    assert(out@[k] == before[k]);
                }
            }
        }
        count = c;
        i = i + 1;
    }
    assert(funcs_v(out@) =~= fold_prog(ov).0);
    hir.functions = out;
    count
}

} // verus!
