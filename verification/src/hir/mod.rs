//! The High-level Intermediate Representation.
//!
//! HIR is the AST after name resolution and type checking have been baked
//! in. It is self-contained: it carries no node ids and depends on no side
//! tables. Every expression records its [`Type`]; every variable reference is
//! a dense [`LocalId`]; every call names its target directly as a
//! [`Callee`].
//!
//! Lowering desugars names into local slots (parameters first, then `let`
//! bindings and compiler-internal slots) or call targets, `for`-each loops
//! into counted loops, `match` into `if` chains, and compound assignment into
//! plain assignment. Operators are shared with the AST.

pub mod lower;
pub mod print;
pub mod view;

pub use lower::lower;

use vstd::prelude::*;

pub use crate::parser::ast::{BinOp, UnOp};
pub use crate::sema::resolve::FnId;
use crate::sema::types::{Builtin, Type};
use crate::span::Span;

verus! {

/// A local slot within a function: parameters first, then `let` bindings, in
/// declaration order. Indexes into [`Function::locals`].
#[derive(Clone, Copy, Debug, PartialEq, Eq, Hash, Structural)]
pub struct LocalId(pub u32);

/// Declaration of a single local slot.
#[derive(Debug, Clone)]
pub struct LocalDecl {
    pub name: String,
    pub ty: Type,
}

/// The target of a call.
#[derive(Debug, Clone, Copy, PartialEq, Eq, Structural)]
pub enum Callee {
    Fn(FnId),
    Builtin(Builtin),
}

/// A fully-lowered program.
#[derive(Debug)]
pub struct Hir {
    /// Functions indexed by [`FnId`].
    pub functions: Vec<Function>,
    /// The entry point.
    pub main: FnId,
}

/// A lowered function.
#[derive(Debug)]
pub struct Function {
    pub name: String,
    /// All locals; the first `param_count` are the parameters.
    pub locals: Vec<LocalDecl>,
    pub param_count: usize,
    pub ret: Type,
    pub body: Block,
}

/// A lowered block: statements followed by an optional value-producing tail.
#[derive(Debug)]
pub struct Block {
    pub stmts: Vec<Stmt>,
    pub tail: Option<Box<Expr>>,
    /// The block's value type (the tail's type, or `unit`).
    pub ty: Type,
}

/// A lowered statement.
#[derive(Debug)]
pub enum Stmt {
    /// Initialise a local slot.
    Let { local: LocalId, value: Expr },
    /// Evaluate an expression for effect, discarding its value.
    Expr(Expr),
    /// Return from the enclosing function.
    Return(Option<Expr>),
    /// Loop while `cond` holds.
    While { cond: Expr, body: Block },
    /// Count `var` over the half-open range `[start, end)`; `end_var` is a
    /// hidden slot caching the upper bound, so `end` is evaluated once.
    For { var: LocalId, end_var: LocalId, start: Expr, end: Expr, body: Block },
    /// Exit the innermost loop.
    Break,
    /// Jump to the next iteration of the innermost loop.
    Continue,
}

/// A lowered, fully-typed expression.
#[derive(Debug)]
pub struct Expr {
    pub kind: ExprKind,
    pub ty: Type,
    pub span: Span,
}

#[derive(Debug)]
pub enum ExprKind {
    Int(i64),
    /// A floating-point literal, as written.
    Float(String),
    Bool(bool),
    Str(String),
    /// Read a local/parameter slot.
    Local(LocalId),
    Unary { op: UnOp, rhs: Box<Expr> },
    Binary { op: BinOp, lhs: Box<Expr>, rhs: Box<Expr> },
    /// Call a function or builtin.
    Call { callee: Callee, args: Vec<Expr> },
    /// Assign to a local slot; evaluates to `unit`.
    Assign { local: LocalId, value: Box<Expr> },
    /// An array literal; evaluates to a fresh array.
    ArrayLit(Vec<Expr>),
    /// Read `base[index]`.
    Index { base: Box<Expr>, index: Box<Expr> },
    /// Store `base[index] = value`; evaluates to `unit`.
    SetIndex { base: Box<Expr>, index: Box<Expr>, value: Box<Expr> },
    /// A struct value, with field values in declaration order.
    StructLit(Vec<Expr>),
    /// Read field `idx` of a struct.
    GetField { base: Box<Expr>, idx: u32 },
    /// Store field `idx` of a struct; evaluates to `unit`.
    SetField { base: Box<Expr>, idx: u32, value: Box<Expr> },
    If { cond: Box<Expr>, then_branch: Block, else_branch: Option<Box<Expr>> },
    Block(Block),
}

impl Expr {
    /// Constructs an expression node.
    pub fn new(kind: ExprKind, ty: Type, span: Span) -> (e: Expr)
        ensures
            e.kind == kind,
            e.ty == ty,
            e.span == span,
    {
        Expr { kind, ty, span }
    }
}

/// Whether every local slot an expression names is below `n`.
pub open spec fn expr_slots_below(e: Expr, n: nat) -> bool
    decreases e, 1int,
{
    kind_slots_below(e.kind, n)
}

/// Whether every local slot an expression of this kind names is below `n`.
pub open spec fn kind_slots_below(k: ExprKind, n: nat) -> bool
    decreases k, 0int,
{
    match k {
        ExprKind::Local(id) => id.0 < n,
        ExprKind::Unary { rhs, .. } => expr_slots_below(*rhs, n),
        ExprKind::Binary { lhs, rhs, .. } => expr_slots_below(*lhs, n) && expr_slots_below(*rhs, n),
        ExprKind::Call { args, .. } => exprs_slots_below(args@, args@.len(), n),
        ExprKind::Assign { local, value } => local.0 < n && expr_slots_below(*value, n),
        ExprKind::ArrayLit(es) => exprs_slots_below(es@, es@.len(), n),
        ExprKind::Index { base, index } => expr_slots_below(*base, n) && expr_slots_below(*index, n),
        ExprKind::SetIndex { base, index, value } => expr_slots_below(*base, n) && expr_slots_below(*index, n)
            && expr_slots_below(*value, n),
        ExprKind::StructLit(es) => exprs_slots_below(es@, es@.len(), n),
        ExprKind::GetField { base, .. } => expr_slots_below(*base, n),
        ExprKind::SetField { base, value, .. } => expr_slots_below(*base, n) && expr_slots_below(*value, n),
        ExprKind::If { cond, then_branch, else_branch } => expr_slots_below(*cond, n) && block_slots_below(
            then_branch,
            n,
        ) && match else_branch {
            Some(e) => expr_slots_below(*e, n),
            None => true,
        },
        ExprKind::Block(b) => block_slots_below(b, n),
        _ => true,
    }
}

/// Whether every local slot the first `k` expressions name is below `n`.
pub open spec fn exprs_slots_below(es: Seq<Expr>, k: nat, n: nat) -> bool
    decreases es, k,
{
    if k == 0 || k > es.len() {
        true
    } else {
        exprs_slots_below(es, (k - 1) as nat, n) && expr_slots_below(es[k - 1], n)
    }
}

/// Whether every local slot a block names is below `n`.
pub open spec fn block_slots_below(b: Block, n: nat) -> bool
    decreases b, 1int,
{
    stmts_slots_below(b.stmts@, b.stmts@.len(), n) && match b.tail {
        Some(t) => expr_slots_below(*t, n),
        None => true,
    }
}

/// Whether every local slot the first `k` statements name is below `n`.
pub open spec fn stmts_slots_below(ss: Seq<Stmt>, k: nat, n: nat) -> bool
    decreases ss, k,
{
    if k == 0 || k > ss.len() {
        true
    } else {
        stmts_slots_below(ss, (k - 1) as nat, n) && stmt_slots_below(ss[k - 1], n)
    }
}

/// Whether every local slot a statement names is below `n`.
pub open spec fn stmt_slots_below(s: Stmt, n: nat) -> bool
    decreases s, 0int,
{
    match s {
        Stmt::Let { local, value } => local.0 < n && expr_slots_below(value, n),
        Stmt::Expr(e) => expr_slots_below(e, n),
        Stmt::Return(v) => match v {
            Some(e) => expr_slots_below(e, n),
            None => true,
        },
        Stmt::While { cond, body } => expr_slots_below(cond, n) && block_slots_below(body, n),
        Stmt::For { var, end_var, start, end, body } => var.0 < n && end_var.0 < n && expr_slots_below(start, n)
            && expr_slots_below(end, n) && block_slots_below(body, n),
        _ => true,
    }
}

/// Naming only slots below `n` also names only slots below any larger bound.
pub proof fn lemma_expr_slots_grow(e: Expr, n: nat, m: nat)
    requires
        expr_slots_below(e, n),
        n <= m,
    ensures
        expr_slots_below(e, m),
    decreases e, 0int,
{
    match e.kind {
        ExprKind::Unary { rhs, .. } => lemma_expr_slots_grow(*rhs, n, m),
        ExprKind::Binary { lhs, rhs, .. } => {
            lemma_expr_slots_grow(*lhs, n, m);
            lemma_expr_slots_grow(*rhs, n, m);
        },
        ExprKind::Call { args, .. } => lemma_exprs_slots_grow(args@, args@.len(), n, m),
        ExprKind::Assign { value, .. } => lemma_expr_slots_grow(*value, n, m),
        ExprKind::ArrayLit(es) => lemma_exprs_slots_grow(es@, es@.len(), n, m),
        ExprKind::Index { base, index } => {
            lemma_expr_slots_grow(*base, n, m);
            lemma_expr_slots_grow(*index, n, m);
        },
        ExprKind::SetIndex { base, index, value } => {
            lemma_expr_slots_grow(*base, n, m);
            lemma_expr_slots_grow(*index, n, m);
            lemma_expr_slots_grow(*value, n, m);
        },
        ExprKind::StructLit(es) => lemma_exprs_slots_grow(es@, es@.len(), n, m),
        ExprKind::GetField { base, .. } => lemma_expr_slots_grow(*base, n, m),
        ExprKind::SetField { base, value, .. } => {
            lemma_expr_slots_grow(*base, n, m);
            lemma_expr_slots_grow(*value, n, m);
        },
        ExprKind::If { cond, then_branch, else_branch } => {
            lemma_expr_slots_grow(*cond, n, m);
            lemma_block_slots_grow(then_branch, n, m);
            match else_branch {
                Some(e) => lemma_expr_slots_grow(*e, n, m),
                None => {},
            }
        },
        ExprKind::Block(b) => lemma_block_slots_grow(b, n, m),
        _ => {},
    }
}

pub proof fn lemma_exprs_slots_grow(es: Seq<Expr>, k: nat, n: nat, m: nat)
    requires
        exprs_slots_below(es, k, n),
        n <= m,
    ensures
        exprs_slots_below(es, k, m),
    decreases es, k,
{
    if k != 0 && k <= es.len() {
        lemma_exprs_slots_grow(es, (k - 1) as nat, n, m);
        lemma_expr_slots_grow(es[k - 1], n, m);
    }
}

pub proof fn lemma_block_slots_grow(b: Block, n: nat, m: nat)
    requires
        block_slots_below(b, n),
        n <= m,
    ensures
        block_slots_below(b, m),
    decreases b, 1int,
{
    lemma_stmts_slots_grow(b.stmts@, b.stmts@.len(), n, m);
    match b.tail {
        Some(t) => lemma_expr_slots_grow(*t, n, m),
        None => {},
    }
}

pub proof fn lemma_stmts_slots_grow(ss: Seq<Stmt>, k: nat, n: nat, m: nat)
    requires
        stmts_slots_below(ss, k, n),
        n <= m,
    ensures
        stmts_slots_below(ss, k, m),
    decreases ss, k,
{
    if k != 0 && k <= ss.len() {
        lemma_stmts_slots_grow(ss, (k - 1) as nat, n, m);
        lemma_stmt_slots_grow(ss[k - 1], n, m);
    }
}

pub proof fn lemma_stmt_slots_grow(s: Stmt, n: nat, m: nat)
    requires
        stmt_slots_below(s, n),
        n <= m,
    ensures
        stmt_slots_below(s, m),
    decreases s, 0int,
{
    match s {
        Stmt::Let { value, .. } => lemma_expr_slots_grow(value, n, m),
        Stmt::Expr(e) => lemma_expr_slots_grow(e, n, m),
        Stmt::Return(v) => match v {
            Some(e) => lemma_expr_slots_grow(e, n, m),
            None => {},
        },
        Stmt::While { cond, body } => {
            lemma_expr_slots_grow(cond, n, m);
            lemma_block_slots_grow(body, n, m);
        },
        Stmt::For { start, end, body, .. } => {
            lemma_expr_slots_grow(start, n, m);
            lemma_expr_slots_grow(end, n, m);
            lemma_block_slots_grow(body, n, m);
        },
        _ => {},
    }
}

/// The bound on the slots a function with `n` locals may name: its own
/// slots, or slot 0 when it has none (lowering names slot 0 for a name it
/// cannot place, which only an unchecked program has).
pub open spec fn slot_bound(n: nat) -> nat {
    if n == 0 {
        1
    } else {
        n
    }
}

/// A function is well formed when its parameters lead its locals and its
/// body names only its own slots.
pub open spec fn function_wf(f: Function) -> bool {
    &&& f.param_count <= f.locals@.len()
    &&& block_slots_below(f.body, slot_bound(f.locals@.len()))
}

} // verus!
