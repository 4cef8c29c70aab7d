//! The abstract syntax tree produced by the [parser](super).
//!
//! The AST is a faithful, lightly-structured mirror of the source: it keeps
//! enough shape to type-check, but performs no desugaring. Every node carries a
//! [`Span`] so any later phase can point diagnostics back at the source.
//!
//! Selected nodes carry a [`NodeId`], a small dense integer assigned by the
//! parser. Later phases attach information to nodes through side tables keyed by
//! `NodeId` rather than mutating the tree.

use vstd::prelude::*;

use crate::span::Span;

verus! {

/// A dense, unique identifier for an AST node.
#[derive(Clone, Copy, Debug, PartialEq, Eq, Hash, PartialOrd, Ord, Structural)]
pub struct NodeId(pub u32);

/// Monotonic allocator of [`NodeId`]s, owned by the parser.
#[derive(Debug)]
pub struct NodeIdGen {
    next: u32,
}

impl NodeIdGen {
    /// The id the next call of [`NodeIdGen::fresh`] returns.
    pub closed spec fn spec_next(&self) -> u32 {
        self.next
    }

    pub fn new() -> (g: NodeIdGen)
        ensures
            g.spec_next() == 0,
    {
        NodeIdGen { next: 0 }
    }

    /// Returns a fresh id: every id returned before is smaller. The counter
    /// stops at `u32::MAX`, a bound no real program reaches.
    pub fn fresh(&mut self) -> (id: NodeId)
        ensures
            id.0 == old(self).spec_next(),
            old(self).spec_next() < u32::MAX ==> final(self).spec_next() == old(self).spec_next() + 1,
            old(self).spec_next() == u32::MAX ==> final(self).spec_next() == u32::MAX,
    {
        let id = NodeId(self.next);
        if self.next < u32::MAX {
            self.next = self.next + 1;
        }
        id
    }

    /// The number of ids handed out so far, i.e. an upper bound on any `NodeId`.
    pub fn count(&self) -> (n: usize)
        ensures
            n == self.spec_next(),
    {
        self.next as usize
    }
}

/// An identifier occurrence: its text plus the span it was written at.
#[derive(Clone, Debug, PartialEq, Eq)]
pub struct Ident {
    pub name: String,
    pub span: Span,
}

/// The root of a parsed program: a flat list of top-level items.
#[derive(Debug)]
pub struct Ast {
    pub items: Vec<Item>,
}

/// A top-level item: a function, a constant, or a struct declaration.
#[derive(Debug)]
pub struct Item {
    pub id: NodeId,
    pub kind: ItemKind,
    pub span: Span,
}

#[derive(Debug)]
pub enum ItemKind {
    Fn(FnDecl),
    Const(ConstDecl),
    Struct(StructDecl),
}

/// A struct declaration: `struct Name { field: T, ... }`.
#[derive(Debug)]
pub struct StructDecl {
    pub id: NodeId,
    pub name: Ident,
    pub fields: Vec<FieldDef>,
}

/// A single declared field.
#[derive(Debug)]
pub struct FieldDef {
    pub name: Ident,
    pub ty: TypeExpr,
    pub span: Span,
}

/// A top-level constant: `const NAME: T = value;`. The value must be a
/// compile-time constant expression; it is inlined at each use during lowering.
#[derive(Debug)]
pub struct ConstDecl {
    pub id: NodeId,
    pub name: Ident,
    pub ty: TypeExpr,
    pub value: Expr,
}

/// A function declaration: signature plus body block.
#[derive(Debug)]
pub struct FnDecl {
    pub name: Ident,
    pub params: Vec<Param>,
    /// The written return type, or `None` for the implicit `unit` return.
    pub ret: Option<TypeExpr>,
    pub body: Block,
}

/// A single function parameter.
#[derive(Debug)]
pub struct Param {
    pub id: NodeId,
    pub name: Ident,
    pub ty: TypeExpr,
    pub span: Span,
}

/// A syntactic type annotation, e.g. `i64`. Resolved to a semantic
/// [`Type`](crate::sema::Type) during type checking.
#[derive(Debug, PartialEq, Eq)]
pub struct TypeExpr {
    pub kind: TypeExprKind,
    pub span: Span,
}

#[derive(Debug, PartialEq, Eq)]
pub enum TypeExprKind {
    /// A named type such as `i64`, `bool`, or `str`.
    Named(String),
    /// An array type `[T]`.
    Array(Box<TypeExpr>),
    /// A tuple type `(T1, T2, ...)` with two or more elements.
    Tuple(Vec<TypeExpr>),
    /// A placeholder inserted by the parser after a malformed annotation, so
    /// recovery can continue. Type checking treats it as the error type and
    /// emits no further diagnostic.
    Error,
}

/// A braced block: a sequence of statements with an optional trailing
/// expression whose value becomes the block's value (`unit` if absent).
#[derive(Debug)]
pub struct Block {
    pub stmts: Vec<Stmt>,
    pub tail: Option<Box<Expr>>,
    pub span: Span,
}

/// A statement.
#[derive(Debug)]
pub struct Stmt {
    pub kind: StmtKind,
    pub span: Span,
}

#[derive(Debug)]
pub enum StmtKind {
    /// `let [mut] name [: ty] = init;`
    Let(LetStmt),
    /// An expression evaluated for its side effects (`expr;`).
    Expr(Expr),
    /// `return [expr];`
    Return(Option<Expr>),
    /// `while cond { body }`
    While(WhileStmt),
    /// `for var in start..end { body }`
    For(ForStmt),
    /// `for var in array { body }`
    ForEach(ForEachStmt),
    /// `break;` - exit the innermost enclosing loop.
    Break,
    /// `continue;` - skip to the next iteration of the innermost loop.
    Continue,
}

#[derive(Debug)]
pub struct LetStmt {
    pub id: NodeId,
    pub name: Ident,
    pub mutable: bool,
    pub ty: Option<TypeExpr>,
    pub init: Expr,
}

#[derive(Debug)]
pub struct WhileStmt {
    pub cond: Expr,
    pub body: Block,
}

/// `for var in start..end { body }`. The loop variable is an `i64` that takes
/// each value in the half-open range `[start, end)`.
#[derive(Debug)]
pub struct ForStmt {
    /// Definition id of the loop variable, for resolution/lowering.
    pub id: NodeId,
    pub var: Ident,
    pub start: Expr,
    pub end: Expr,
    pub body: Block,
}

/// `for var in array { body }`. The loop variable binds each element of the
/// array in turn, so its type is the array's element type.
#[derive(Debug)]
pub struct ForEachStmt {
    /// Definition id of the loop variable, for resolution/lowering.
    pub id: NodeId,
    pub var: Ident,
    pub iterable: Expr,
    pub body: Block,
}

/// An expression.
#[derive(Debug)]
pub struct Expr {
    pub id: NodeId,
    pub kind: ExprKind,
    pub span: Span,
}

#[derive(Debug)]
pub enum ExprKind {
    Int(i64),
    /// A floating-point literal, as written (`digits.digits`).
    Float(String),
    Bool(bool),
    Str(String),
    /// A reference to a name (variable, parameter, or function).
    Name(String),
    Unary {
        op: UnOp,
        rhs: Box<Expr>,
    },
    Binary {
        op: BinOp,
        lhs: Box<Expr>,
        rhs: Box<Expr>,
    },
    Call {
        callee: Box<Expr>,
        args: Vec<Expr>,
    },
    /// `target = value`. The target's validity as an lvalue is checked in
    /// type checking, not the parser.
    Assign {
        target: Box<Expr>,
        value: Box<Expr>,
    },
    /// `target op= value`, e.g. `x += 1`. Desugared to a plain assignment
    /// during lowering.
    AssignOp {
        target: Box<Expr>,
        op: BinOp,
        value: Box<Expr>,
    },
    /// An array literal `[e0, e1, ...]`.
    ArrayLit(Vec<Expr>),
    /// An indexing expression `base[index]`.
    Index {
        base: Box<Expr>,
        index: Box<Expr>,
    },
    /// A struct literal `Name { field: value, ... }`.
    StructLit {
        name: Ident,
        fields: Vec<FieldInit>,
    },
    /// Field access `base.field`.
    Field {
        base: Box<Expr>,
        field: Ident,
    },
    /// A tuple literal `(e0, e1, ...)` with two or more elements.
    TupleLit(Vec<Expr>),
    /// Tuple element access `base.0`, `base.1`, ...
    TupleIndex {
        base: Box<Expr>,
        index: usize,
        /// Span of the numeric index, for diagnostics.
        index_span: Span,
    },
    If(IfExpr),
    /// `match scrutinee { pat => body, ... }`.
    Match(MatchExpr),
    Block(Block),
}

/// `match scrutinee { arm, arm, ... }`. The scrutinee is an integer or boolean;
/// each arm matches a literal value or the wildcard `_`. Desugared to a chain
/// of `if`/`else` during lowering, so it adds no node to the HIR.
#[derive(Debug)]
pub struct MatchExpr {
    pub scrutinee: Box<Expr>,
    pub arms: Vec<MatchArm>,
}

/// One `pattern => body` arm of a [`MatchExpr`].
#[derive(Debug)]
pub struct MatchArm {
    pub pattern: Pattern,
    pub body: Expr,
    pub span: Span,
}

/// A `match` arm pattern: a scalar literal or the catch-all wildcard.
#[derive(Debug, Clone, Copy, PartialEq, Eq, Structural)]
pub enum Pattern {
    Int(i64),
    Bool(bool),
    /// The wildcard `_`, matching any value.
    Wild,
}

/// A `field: value` pair in a struct literal.
#[derive(Debug)]
pub struct FieldInit {
    pub name: Ident,
    pub value: Expr,
}

/// `if cond { then } [else (block | if)]`. An `if` is an expression; its value
/// is that of the taken branch (or `unit` when there is no `else`).
#[derive(Debug)]
pub struct IfExpr {
    pub cond: Box<Expr>,
    pub then_branch: Block,
    /// Always a `Block` or another `If` expression when present.
    pub else_branch: Option<Box<Expr>>,
}

/// Unary operators.
#[derive(Debug, Clone, Copy, PartialEq, Eq, Structural)]
pub enum UnOp {
    /// Arithmetic negation `-`.
    Neg,
    /// Logical negation `!`.
    Not,
}

/// Binary operators.
#[derive(Debug, Clone, Copy, PartialEq, Eq, Structural)]
pub enum BinOp {
    Add,
    Sub,
    Mul,
    Div,
    Rem,
    Eq,
    Ne,
    Lt,
    Le,
    Gt,
    Ge,
    And,
    Or,
}

impl UnOp {
    pub fn symbol(self) -> (s: &'static str)
        ensures
            s@ == (match self {
                UnOp::Neg => "-"@,
                UnOp::Not => "!"@,
            }),
    {
        match self {
            UnOp::Neg => "-",
            UnOp::Not => "!",
        }
    }
}

/// The spelling of a binary operator.
pub open spec fn binop_text(op: BinOp) -> Seq<char> {
    match op {
        BinOp::Add => "+"@,
        BinOp::Sub => "-"@,
        BinOp::Mul => "*"@,
        BinOp::Div => "/"@,
        BinOp::Rem => "%"@,
        BinOp::Eq => "=="@,
        BinOp::Ne => "!="@,
        BinOp::Lt => "<"@,
        BinOp::Le => "<="@,
        BinOp::Gt => ">"@,
        BinOp::Ge => ">="@,
        BinOp::And => "&&"@,
        BinOp::Or => "||"@,
    }
}

impl BinOp {
    pub fn symbol(self) -> (s: &'static str)
        ensures
            s@ == binop_text(self),
    {
        match self {
            BinOp::Add => "+",
            BinOp::Sub => "-",
            BinOp::Mul => "*",
            BinOp::Div => "/",
            BinOp::Rem => "%",
            BinOp::Eq => "==",
            BinOp::Ne => "!=",
            BinOp::Lt => "<",
            BinOp::Le => "<=",
            BinOp::Gt => ">",
            BinOp::Ge => ">=",
            BinOp::And => "&&",
            BinOp::Or => "||",
        }
    }

    /// Whether this is a comparison/equality operator (result is always `bool`).
    pub fn is_comparison(self) -> (b: bool)
        ensures
            b == (self is Eq || self is Ne || self is Lt || self is Le || self is Gt || self is Ge),
    {
        matches!(self, BinOp::Eq | BinOp::Ne | BinOp::Lt | BinOp::Le | BinOp::Gt | BinOp::Ge)
    }

    /// Whether this is a short-circuiting logical operator.
    pub fn is_logical(self) -> (b: bool)
        ensures
            b == (self is And || self is Or),
    {
        matches!(self, BinOp::And | BinOp::Or)
    }
}

impl Expr {
    /// Whether this expression form may stand as a statement without a trailing
    /// semicolon (block-like: `{ ... }` and `if ...`).
    pub fn is_block_like(&self) -> (b: bool)
        ensures
            b == (self.kind is Block || self.kind is If),
    {
        matches!(self.kind, ExprKind::Block(_) | ExprKind::If(_))
    }
}

} // verus!
