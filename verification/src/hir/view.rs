//! HIR as mathematical values: each node with its lists as sequences and
//! its texts as character sequences. The optimizer's passes are stated as
//! functions on these values.

use vstd::prelude::*;

use crate::hir::{BinOp, Block, Callee, Expr, ExprKind, Function, LocalDecl, LocalId, Stmt, UnOp};
use crate::sema::types::Type;
use crate::span::Span;

verus! {

/// An expression as a value.
pub struct ExprV {
    pub kind: KindV,
    pub ty: Type,
    pub span: Span,
}

/// The node of an expression as a value.
pub enum KindV {
    Int(i64),
    Float(Seq<char>),
    Bool(bool),
    Str(Seq<char>),
    Local(LocalId),
    Unary { op: UnOp, rhs: Box<ExprV> },
    Binary { op: BinOp, lhs: Box<ExprV>, rhs: Box<ExprV> },
    Call { callee: Callee, args: Seq<ExprV> },
    Assign { local: LocalId, value: Box<ExprV> },
    ArrayLit(Seq<ExprV>),
    Index { base: Box<ExprV>, index: Box<ExprV> },
    SetIndex { base: Box<ExprV>, index: Box<ExprV>, value: Box<ExprV> },
    StructLit(Seq<ExprV>),
    GetField { base: Box<ExprV>, idx: u32 },
    SetField { base: Box<ExprV>, idx: u32, value: Box<ExprV> },
    If { cond: Box<ExprV>, then_branch: BlockV, else_branch: Option<Box<ExprV>> },
    Block(BlockV),
}

/// A block as a value.
pub struct BlockV {
    pub stmts: Seq<StmtV>,
    pub tail: Option<Box<ExprV>>,
    pub ty: Type,
}

/// A statement as a value.
pub enum StmtV {
    Let { local: LocalId, value: ExprV },
    Expr(ExprV),
    Return(Option<ExprV>),
    While { cond: ExprV, body: BlockV },
    For { var: LocalId, end_var: LocalId, start: ExprV, end: ExprV, body: BlockV },
    Break,
    Continue,
}

/// The value of an expression.
pub open spec fn ev(e: Expr) -> ExprV
    decreases e, 1int,
{
    ExprV { kind: kv(e.kind), ty: e.ty, span: e.span }
}

/// The value of an expression node.
pub open spec fn kv(k: ExprKind) -> KindV
    decreases k, 0int,
{
    match k {
        ExprKind::Int(v) => KindV::Int(v),
        ExprKind::Float(t) => KindV::Float(t@),
        ExprKind::Bool(b) => KindV::Bool(b),
        ExprKind::Str(s) => KindV::Str(s@),
        ExprKind::Local(id) => KindV::Local(id),
        ExprKind::Unary { op, rhs } => KindV::Unary { op, rhs: Box::new(ev(*rhs)) },
        ExprKind::Binary { op, lhs, rhs } => KindV::Binary {
            op,
            lhs: Box::new(ev(*lhs)),
            rhs: Box::new(ev(*rhs)),
        },
        ExprKind::Call { callee, args } => KindV::Call { callee, args: evs(args@, args@.len()) },
        ExprKind::Assign { local, value } => KindV::Assign { local, value: Box::new(ev(*value)) },
        ExprKind::ArrayLit(es) => KindV::ArrayLit(evs(es@, es@.len())),
        ExprKind::Index { base, index } => KindV::Index { base: Box::new(ev(*base)), index: Box::new(ev(*index)) },
        ExprKind::SetIndex { base, index, value } => KindV::SetIndex {
            base: Box::new(ev(*base)),
            index: Box::new(ev(*index)),
            value: Box::new(ev(*value)),
        },
        ExprKind::StructLit(es) => KindV::StructLit(evs(es@, es@.len())),
        ExprKind::GetField { base, idx } => KindV::GetField { base: Box::new(ev(*base)), idx },
        ExprKind::SetField { base, idx, value } => KindV::SetField {
            base: Box::new(ev(*base)),
            idx,
            value: Box::new(ev(*value)),
        },
        ExprKind::If { cond, then_branch, else_branch } => KindV::If {
            cond: Box::new(ev(*cond)),
            then_branch: bv(then_branch),
            else_branch: match else_branch {
                Some(e) => Some(Box::new(ev(*e))),
                None => None,
            },
        },
        ExprKind::Block(b) => KindV::Block(bv(b)),
    }
}

/// The values of the first `n` expressions.
pub open spec fn evs(es: Seq<Expr>, n: nat) -> Seq<ExprV>
    decreases es, n,
{
    if n == 0 || n > es.len() {
        Seq::empty()
    } else {
        evs(es, (n - 1) as nat).push(ev(es[n - 1]))
    }
}

/// The value of a block.
pub open spec fn bv(b: Block) -> BlockV
    decreases b, 1int,
{
    BlockV {
        stmts: svs(b.stmts@, b.stmts@.len()),
        tail: match b.tail {
            Some(t) => Some(Box::new(ev(*t))),
            None => None,
        },
        ty: b.ty,
    }
}

/// The values of the first `n` statements.
pub open spec fn svs(ss: Seq<Stmt>, n: nat) -> Seq<StmtV>
    decreases ss, n,
{
    if n == 0 || n > ss.len() {
        Seq::empty()
    } else {
        svs(ss, (n - 1) as nat).push(sv(ss[n - 1]))
    }
}

/// The value of a statement.
pub open spec fn sv(s: Stmt) -> StmtV
    decreases s, 0int,
{
    match s {
        Stmt::Let { local, value } => StmtV::Let { local, value: ev(value) },
        Stmt::Expr(e) => StmtV::Expr(ev(e)),
        Stmt::Return(v) => StmtV::Return(
            match v {
                Some(e) => Some(ev(e)),
                None => None,
            },
        ),
        Stmt::While { cond, body } => StmtV::While { cond: ev(cond), body: bv(body) },
        Stmt::For { var, end_var, start, end, body } => StmtV::For {
            var,
            end_var,
            start: ev(start),
            end: ev(end),
            body: bv(body),
        },
        Stmt::Break => StmtV::Break,
        Stmt::Continue => StmtV::Continue,
    }
}

pub proof fn lemma_evs_len(es: Seq<Expr>, n: nat)
    requires
        n <= es.len(),
    ensures
        evs(es, n).len() == n,
        forall|i: int| 0 <= i < n ==> evs(es, n)[i] == ev(#[trigger] es[i]),
    decreases n,
{
    if n > 0 {
        lemma_evs_len(es, (n - 1) as nat);
    }
}

pub proof fn lemma_svs_len(ss: Seq<Stmt>, n: nat)
    requires
        n <= ss.len(),
    ensures
        svs(ss, n).len() == n,
        forall|i: int| 0 <= i < n ==> svs(ss, n)[i] == sv(#[trigger] ss[i]),
    decreases n,
{
    if n > 0 {
        lemma_svs_len(ss, (n - 1) as nat);
    }
}

/// The values of a list of expressions.
pub open spec fn evs_all(es: Seq<Expr>) -> Seq<ExprV> {
    evs(es, es.len())
}

/// The values of a list of statements.
pub open spec fn svs_all(ss: Seq<Stmt>) -> Seq<StmtV> {
    svs(ss, ss.len())
}


/// The values of a prefix do not depend on what follows it.
pub proof fn lemma_evs_prefix(s: Seq<Expr>, t: Seq<Expr>, n: nat)
    requires
        n <= s.len(),
        n <= t.len(),
        s.take(n as int) == t.take(n as int),
    ensures
        evs(s, n) == evs(t, n),
    decreases n,
{
    if n > 0 {
        assert(s.take(n - 1) =~= s.take(n as int).take(n - 1));
        assert(t.take(n - 1) =~= t.take(n as int).take(n - 1));
        assert(s[n - 1] == s.take(n as int)[n - 1]);
        assert(t[n - 1] == t.take(n as int)[n - 1]);
        lemma_evs_prefix(s, t, (n - 1) as nat);
    }
}

/// The values of a list with one more expression.
pub proof fn lemma_evs_push(s: Seq<Expr>, x: Expr)
    ensures
        evs(s.push(x), s.len() + 1) == evs(s, s.len()).push(ev(x)),
{
    assert(s.push(x).take(s.len() as int) =~= s.take(s.len() as int));
    lemma_evs_prefix(s.push(x), s, s.len());
}

/// The values of a prefix of statements do not depend on what follows it.
pub proof fn lemma_svs_prefix(s: Seq<Stmt>, t: Seq<Stmt>, n: nat)
    requires
        n <= s.len(),
        n <= t.len(),
        s.take(n as int) == t.take(n as int),
    ensures
        svs(s, n) == svs(t, n),
    decreases n,
{
    if n > 0 {
        assert(s.take(n - 1) =~= s.take(n as int).take(n - 1));
        assert(t.take(n - 1) =~= t.take(n as int).take(n - 1));
        assert(s[n - 1] == s.take(n as int)[n - 1]);
        assert(t[n - 1] == t.take(n as int)[n - 1]);
        lemma_svs_prefix(s, t, (n - 1) as nat);
    }
}

/// The values of a list with one more statement.
pub proof fn lemma_svs_push(s: Seq<Stmt>, x: Stmt)
    ensures
        svs(s.push(x), s.len() + 1) == svs(s, s.len()).push(sv(x)),
{
    assert(s.push(x).take(s.len() as int) =~= s.take(s.len() as int));
    lemma_svs_prefix(s.push(x), s, s.len());
}


/// A function as a value: its locals as (name, type) pairs.
pub struct FunctionV {
    pub name: Seq<char>,
    pub locals: Seq<(Seq<char>, Type)>,
    pub param_count: usize,
    pub ret: Type,
    pub body: BlockV,
}

/// A declared local as a value: its name and type.
pub open spec fn local_v(d: LocalDecl) -> (Seq<char>, Type) {
    (d.name@, d.ty)
}

/// The values of a function's locals.
pub open spec fn locals_v(ls: Seq<LocalDecl>) -> Seq<(Seq<char>, Type)> {
    ls.map_values(|d: LocalDecl| local_v(d))
}

/// The value of a function.
pub open spec fn fv(f: Function) -> FunctionV {
    FunctionV { name: f.name@, locals: locals_v(f.locals@), param_count: f.param_count, ret: f.ret, body: bv(f.body) }
}

/// The values of a program's functions.
pub open spec fn funcs_v(fs: Seq<Function>) -> Seq<FunctionV> {
    fs.map_values(|f: Function| fv(f))
}

} // verus!
