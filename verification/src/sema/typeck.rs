//! Type checking: assigns a [`Type`] to every expression and binding, and
//! verifies the program is well-typed.
//!
//! The checker runs after [resolution](super::resolve), so every name already
//! points at a definition. Expressions are *synthesised* bottom-up, and a
//! handful of positions (`let` annotations, `return`, call arguments,
//! conditions) *check* a synthesised type against an expected one.
//!
//! Lumen has no implicit conversions: `i64` and `f64` never mix, and operators
//! require matching operand types.
//!
//! Like every phase, it reports as much as it can: a type error yields a
//! diagnostic and a [`Type::Error`] result, which is compatible with everything
//! and so suppresses cascading errors.
//!
//! Each typing rule is a function of the operand types with an exact
//! contract (`*_rule` below); the tree walk records every expression's type
//! in [`Typeck::expr_types`] and applies the rules.

use vstd::prelude::*;
use vstd::string::*;

use crate::arith::{div_faults, lemma_i64_ops, trunc_div_rem, wraps_to};
use crate::diagnostics::{Diagnostic, Diagnostics};
use crate::errors::DiagCode;
use crate::lexer::extends;
use crate::node_map::NodeMap;
use crate::parser::ast::{
    Ast, BinOp, Block, ConstDecl, Expr, ExprKind, FieldInit, FnDecl, ForEachStmt, ForStmt, Ident,
    IfExpr, ItemKind, LetStmt, MatchExpr, NodeId, Pattern, Stmt, StmtKind, TypeExpr, TypeExprKind, UnOp,
};
use crate::sema::resolve::{ConstId, FnId, Res, Resolution, StructId, declared, item_name, item_tag, lemma_declared_kind, tables_match};
use crate::sema::types::{Builtin, Elem, Type, builtin_params, builtin_ret, elem_of, elem_type, prim_named, spec_compatible};
use crate::span::Span;
use crate::text::{cat3, cat5, str_eq};

verus! {

/// The resolved layout of a declared struct: its name and ordered fields.
#[derive(Clone, Debug)]
pub struct StructInfo {
    pub name: String,
    /// Fields in declaration order, paired with their resolved types.
    pub fields: Vec<(String, Type)>,
}

impl StructInfo {
    /// The index and type of a field by name, if it exists: the first field
    /// so named.
    pub fn field(&self, name: &str) -> (r: Option<(usize, Type)>)
        ensures
            r matches Some((i, t)) ==> {
                &&& i < self.fields@.len()
                &&& self.fields@[i as int].0@ == name@
                &&& t == self.fields@[i as int].1
                &&& forall|j: int| 0 <= j < i ==> self.fields@[j].0@ != name@
            },
            r is None <==> forall|j: int| 0 <= j < self.fields@.len() ==> self.fields@[j].0@ != name@,
    {
        let mut i: usize = 0;
        while i < self.fields.len()
            invariant
                0 <= i <= self.fields@.len(),
                forall|j: int| 0 <= j < i ==> self.fields@[j].0@ != name@,
            decreases self.fields@.len() - i,
        {
            if str_eq(self.fields[i].0.as_str(), name) {
                return Some((i, self.fields[i].1));
            }
            i = i + 1;
        }
        None
    }
}

/// The resolved signature of a user function.
#[derive(Clone, Debug)]
pub struct FnSig {
    pub name: String,
    pub params: Vec<Type>,
    pub ret: Type,
}

/// The compile-time value of a top-level constant, inlined at each use.
///
/// Integer, boolean and string constants are evaluated here. Floating-point
/// arithmetic is left to the phases after type checking: an `f64` literal is
/// kept as its source text, and a value computed with `f64` operations (of
/// type `f64`, or `bool` for a comparison) as the node of the constant
/// expression that computes it.
#[derive(Clone, Debug, PartialEq, Eq)]
pub enum ConstValue {
    Int(i64),
    /// An `f64` literal, as written.
    Float(String),
    Bool(bool),
    Str(String),
    /// A value of the given type computed with floating-point operations, by
    /// the expression that computes it.
    Computed(Type, NodeId),
}

/// The type of a constant value.
pub open spec fn const_type_of(v: ConstValue) -> Type {
    match v {
        ConstValue::Int(_) => Type::Int,
        ConstValue::Float(_) => Type::Float,
        ConstValue::Bool(_) => Type::Bool,
        ConstValue::Str(_) => Type::Str,
        ConstValue::Computed(t, _) => t,
    }
}

impl ConstValue {
    /// The type of this constant value.
    pub fn ty(&self) -> (t: Type)
        ensures
            t == const_type_of(*self),
    {
        match self {
            ConstValue::Int(_) => Type::Int,
            ConstValue::Float(_) => Type::Float,
            ConstValue::Bool(_) => Type::Bool,
            ConstValue::Str(_) => Type::Str,
            ConstValue::Computed(t, _) => *t,
        }
    }

    /// A copy of this value.
    pub fn duplicate(&self) -> (v: ConstValue)
        ensures
            v == *self,
    {
        match self {
            ConstValue::Int(n) => ConstValue::Int(*n),
            ConstValue::Float(s) => ConstValue::Float(s.clone()),
            ConstValue::Bool(b) => ConstValue::Bool(*b),
            ConstValue::Str(s) => ConstValue::Str(s.clone()),
            ConstValue::Computed(t, id) => ConstValue::Computed(*t, *id),
        }
    }
}

/// Whether `op` compares its operands (`==`, `!=`, `<`, `<=`, `>`, `>=`).
pub open spec fn is_comparison(op: BinOp) -> bool {
    op is Eq || op is Ne || op is Lt || op is Le || op is Gt || op is Ge
}

/// Whether `op` is arithmetic (`+`, `-`, `*`, `/`, `%`).
pub open spec fn is_arithmetic(op: BinOp) -> bool {
    op is Add || op is Sub || op is Mul || op is Div || op is Rem
}

/// A unary operator applied to a constant; `None` if it does not apply.
pub open spec fn const_unary(op: UnOp, v: ConstValue, at: NodeId) -> Option<ConstValue> {
    match (op, v) {
        (UnOp::Neg, ConstValue::Int(n)) => Some(ConstValue::Int(0i64.wrapping_sub(n))),
        (UnOp::Neg, ConstValue::Float(_)) => Some(ConstValue::Computed(Type::Float, at)),
        (UnOp::Neg, ConstValue::Computed(Type::Float, _)) => Some(ConstValue::Computed(Type::Float, at)),
        (UnOp::Not, ConstValue::Bool(b)) => Some(ConstValue::Bool(!b)),
        (UnOp::Not, ConstValue::Computed(Type::Bool, _)) => Some(ConstValue::Computed(Type::Bool, at)),
        _ => None,
    }
}

/// An `f64` constant: a literal or a computed `f64`.
pub open spec fn is_float_const(v: ConstValue) -> bool {
    v is Float || v matches ConstValue::Computed(Type::Float, _)
}

/// A `bool` constant: a literal value or a computed `bool`.
pub open spec fn is_bool_const(v: ConstValue) -> bool {
    v is Bool || v matches ConstValue::Computed(Type::Bool, _)
}

/// A binary operator applied to two constants; `None` if it does not apply
/// or (for `/` and `%` on integers) if the operation fails.
pub open spec fn const_binary(op: BinOp, a: ConstValue, b: ConstValue, at: NodeId) -> Option<ConstValue> {
    match (a, b) {
        (ConstValue::Int(x), ConstValue::Int(y)) => match op {
            BinOp::Add => Some(ConstValue::Int(x.wrapping_add(y))),
            BinOp::Sub => Some(ConstValue::Int(x.wrapping_sub(y))),
            BinOp::Mul => Some(ConstValue::Int(x.wrapping_mul(y))),
            BinOp::Div => match x.checked_div(y) {
                Some(q) => Some(ConstValue::Int(q)),
                None => None,
            },
            BinOp::Rem => match x.checked_rem(y) {
                Some(q) => Some(ConstValue::Int(q)),
                None => None,
            },
            BinOp::Eq => Some(ConstValue::Bool(x == y)),
            BinOp::Ne => Some(ConstValue::Bool(x != y)),
            BinOp::Lt => Some(ConstValue::Bool(x < y)),
            BinOp::Le => Some(ConstValue::Bool(x <= y)),
            BinOp::Gt => Some(ConstValue::Bool(x > y)),
            BinOp::Ge => Some(ConstValue::Bool(x >= y)),
            BinOp::And | BinOp::Or => None,
        },
        (ConstValue::Bool(x), ConstValue::Bool(y)) => match op {
            BinOp::Eq => Some(ConstValue::Bool(x == y)),
            BinOp::Ne => Some(ConstValue::Bool(x != y)),
            BinOp::And => Some(ConstValue::Bool(x && y)),
            BinOp::Or => Some(ConstValue::Bool(x || y)),
            _ => None,
        },
        (ConstValue::Str(x), ConstValue::Str(y)) => match op {
            BinOp::Eq => Some(ConstValue::Bool(x@ == y@)),
            BinOp::Ne => Some(ConstValue::Bool(x@ != y@)),
            _ => None,
        },
        _ => if is_float_const(a) && is_float_const(b) {
            if is_arithmetic(op) {
                Some(ConstValue::Computed(Type::Float, at))
            } else if is_comparison(op) {
                Some(ConstValue::Computed(Type::Bool, at))
            } else {
                None
            }
        } else if is_bool_const(a) && is_bool_const(b) {
            if op is Eq || op is Ne || op is And || op is Or {
                Some(ConstValue::Computed(Type::Bool, at))
            } else {
                None
            }
        } else {
            None
        },
    }
}

/// Constant evaluation follows the language's integer semantics: each
/// comparison is the comparison of the two numbers, `+`, `-`, `*` and
/// negation wrap modulo 2^64, and `/` and `%` give the truncated quotient and
/// remainder, or no value when the division would fault.
pub proof fn lemma_const_int_semantics(x: i64, y: i64, at: NodeId)
    ensures
        const_binary(BinOp::Eq, ConstValue::Int(x), ConstValue::Int(y), at) == Some(
            ConstValue::Bool(x as int == y as int),
        ),
        const_binary(BinOp::Ne, ConstValue::Int(x), ConstValue::Int(y), at) == Some(
            ConstValue::Bool(x as int != y as int),
        ),
        const_binary(BinOp::Lt, ConstValue::Int(x), ConstValue::Int(y), at) == Some(
            ConstValue::Bool((x as int) < (y as int)),
        ),
        const_binary(BinOp::Le, ConstValue::Int(x), ConstValue::Int(y), at) == Some(
            ConstValue::Bool((x as int) <= (y as int)),
        ),
        const_binary(BinOp::Gt, ConstValue::Int(x), ConstValue::Int(y), at) == Some(
            ConstValue::Bool((x as int) > (y as int)),
        ),
        const_binary(BinOp::Ge, ConstValue::Int(x), ConstValue::Int(y), at) == Some(
            ConstValue::Bool((x as int) >= (y as int)),
        ),
        const_binary(BinOp::Add, ConstValue::Int(x), ConstValue::Int(y), at) matches Some(ConstValue::Int(r))
            && wraps_to(r, x + y),
        const_binary(BinOp::Sub, ConstValue::Int(x), ConstValue::Int(y), at) matches Some(ConstValue::Int(r))
            && wraps_to(r, x - y),
        const_binary(BinOp::Mul, ConstValue::Int(x), ConstValue::Int(y), at) matches Some(ConstValue::Int(r))
            && wraps_to(r, x * y),
        const_binary(BinOp::Div, ConstValue::Int(x), ConstValue::Int(y), at) is None <==> div_faults(x, y),
        const_binary(BinOp::Rem, ConstValue::Int(x), ConstValue::Int(y), at) is None <==> div_faults(x, y),
        !div_faults(x, y) ==> (const_binary(BinOp::Div, ConstValue::Int(x), ConstValue::Int(y), at) matches Some(
            ConstValue::Int(q),
        ) && const_binary(BinOp::Rem, ConstValue::Int(x), ConstValue::Int(y), at) matches Some(
            ConstValue::Int(r),
        ) && trunc_div_rem(x as int, y as int, q as int, r as int)),
        const_binary(BinOp::And, ConstValue::Int(x), ConstValue::Int(y), at) is None,
        const_binary(BinOp::Or, ConstValue::Int(x), ConstValue::Int(y), at) is None,
        const_unary(UnOp::Neg, ConstValue::Int(x), at) matches Some(ConstValue::Int(r)) && wraps_to(r, -x),
{
    lemma_i64_ops(x, y);
}

/// Constant evaluation of booleans is boolean logic.
pub proof fn lemma_const_bool_semantics(a: bool, b: bool, at: NodeId)
    ensures
        const_binary(BinOp::And, ConstValue::Bool(a), ConstValue::Bool(b), at) == Some(
            ConstValue::Bool(if a { b } else { false }),
        ),
        const_binary(BinOp::Or, ConstValue::Bool(a), ConstValue::Bool(b), at) == Some(
            ConstValue::Bool(if a { true } else { b }),
        ),
        const_binary(BinOp::Eq, ConstValue::Bool(a), ConstValue::Bool(b), at) == Some(
            ConstValue::Bool(a <==> b),
        ),
        const_binary(BinOp::Ne, ConstValue::Bool(a), ConstValue::Bool(b), at) == Some(
            ConstValue::Bool(!(a <==> b)),
        ),
        const_unary(UnOp::Not, ConstValue::Bool(a), at) == Some(ConstValue::Bool(if a { false } else { true })),
{
}

/// Constant floating-point operands are not computed here: a comparison of
/// two of them is a `bool` computed at run time, an arithmetic operator an
/// `f64`, and `&&`/`||` do not apply.
pub proof fn lemma_const_float_operands(op: BinOp, a: ConstValue, b: ConstValue, at: NodeId)
    requires
        is_float_const(a),
        is_float_const(b),
    ensures
        (op is Lt || op is Le || op is Gt || op is Ge || op is Eq || op is Ne) ==> const_binary(op, a, b, at) == Some(
            ConstValue::Computed(Type::Bool, at),
        ),
        (op is Add || op is Sub || op is Mul || op is Div || op is Rem) ==> const_binary(op, a, b, at) == Some(
            ConstValue::Computed(Type::Float, at),
        ),
        (op is And || op is Or) ==> const_binary(op, a, b, at) is None,
{
}

/// Constant string equality compares the characters.
pub proof fn lemma_const_str_equality(x: String, y: String, at: NodeId)
    ensures
        const_binary(BinOp::Eq, ConstValue::Str(x), ConstValue::Str(y), at) == Some(ConstValue::Bool(x@ =~= y@)),
        const_binary(BinOp::Ne, ConstValue::Str(x), ConstValue::Str(y), at) == Some(ConstValue::Bool(!(x@ =~= y@))),
{
}

/// Evaluates a unary operator over a constant value.
fn eval_const_unary(op: UnOp, v: ConstValue, at: NodeId) -> (r: Option<ConstValue>)
    ensures
        r == const_unary(op, v, at),
{
    match (op, v) {
        (UnOp::Neg, ConstValue::Int(n)) => Some(ConstValue::Int(0i64.wrapping_sub(n))),
        (UnOp::Neg, ConstValue::Float(_)) => Some(ConstValue::Computed(Type::Float, at)),
        (UnOp::Neg, ConstValue::Computed(Type::Float, _)) => Some(ConstValue::Computed(Type::Float, at)),
        (UnOp::Not, ConstValue::Bool(b)) => Some(ConstValue::Bool(!b)),
        (UnOp::Not, ConstValue::Computed(Type::Bool, _)) => Some(ConstValue::Computed(Type::Bool, at)),
        _ => None,
    }
}

fn float_const(v: &ConstValue) -> (b: bool)
    ensures
        b == is_float_const(*v),
{
    match v {
        ConstValue::Float(_) => true,
        ConstValue::Computed(Type::Float, _) => true,
        _ => false,
    }
}

fn bool_const(v: &ConstValue) -> (b: bool)
    ensures
        b == is_bool_const(*v),
{
    match v {
        ConstValue::Bool(_) => true,
        ConstValue::Computed(Type::Bool, _) => true,
        _ => false,
    }
}

/// Evaluates a binary operator over two constant values.
fn eval_const_binary(op: BinOp, a: ConstValue, b: ConstValue, at: NodeId) -> (r: Option<ConstValue>)
    ensures
        r == const_binary(op, a, b, at),
{
    match (&a, &b) {
        (ConstValue::Int(x), ConstValue::Int(y)) => {
            let (x, y) = (*x, *y);
            match op {
                BinOp::Add => Some(ConstValue::Int(x.wrapping_add(y))),
                BinOp::Sub => Some(ConstValue::Int(x.wrapping_sub(y))),
                BinOp::Mul => Some(ConstValue::Int(x.wrapping_mul(y))),
                BinOp::Div => match x.checked_div(y) {
                    Some(q) => Some(ConstValue::Int(q)),
                    None => None,
                },
                BinOp::Rem => match x.checked_rem(y) {
                    Some(q) => Some(ConstValue::Int(q)),
                    None => None,
                },
                BinOp::Eq => Some(ConstValue::Bool(x == y)),
                BinOp::Ne => Some(ConstValue::Bool(x != y)),
                BinOp::Lt => Some(ConstValue::Bool(x < y)),
                BinOp::Le => Some(ConstValue::Bool(x <= y)),
                BinOp::Gt => Some(ConstValue::Bool(x > y)),
                BinOp::Ge => Some(ConstValue::Bool(x >= y)),
                BinOp::And | BinOp::Or => None,
            }
        },
        (ConstValue::Bool(x), ConstValue::Bool(y)) => {
            let (x, y) = (*x, *y);
            match op {
                BinOp::Eq => Some(ConstValue::Bool(x == y)),
                BinOp::Ne => Some(ConstValue::Bool(x != y)),
                BinOp::And => Some(ConstValue::Bool(x && y)),
                BinOp::Or => Some(ConstValue::Bool(x || y)),
                _ => None,
            }
        },
        (ConstValue::Str(x), ConstValue::Str(y)) => match op {
            BinOp::Eq => Some(ConstValue::Bool(str_eq(x.as_str(), y.as_str()))),
            BinOp::Ne => Some(ConstValue::Bool(!str_eq(x.as_str(), y.as_str()))),
            _ => None,
        },
        _ => {
            if float_const(&a) && float_const(&b) {
                if op.is_comparison() {
                    Some(ConstValue::Computed(Type::Bool, at))
                } else if op.is_logical() {
                    None
                } else {
                    Some(ConstValue::Computed(Type::Float, at))
                }
            } else if bool_const(&a) && bool_const(&b) {
                match op {
                    BinOp::Eq | BinOp::Ne | BinOp::And | BinOp::Or => Some(ConstValue::Computed(Type::Bool, at)),
                    _ => None,
                }
            } else {
                None
            }
        },
    }
}

/// The placeholder value of a constant whose initialiser is not constant, so
/// that later phases still see a consistently-typed value: a zero of the
/// declared type (an integer zero for `unit`, arrays, structs, tuples and the
/// error type).
fn default_const_value(ty: Type) -> (v: ConstValue)
    ensures
        ty is Float ==> (v matches ConstValue::Float(s) && s@ == "0.0"@),
        ty is Bool ==> v == ConstValue::Bool(false),
        ty is Str ==> (v matches ConstValue::Str(s) && s@ == Seq::<char>::empty()),
        !(ty is Float || ty is Bool || ty is Str) ==> v == ConstValue::Int(0),
{
    match ty {
        Type::Float => {
            proof {
                reveal_strlit("0.0");
            }
            ConstValue::Float("0.0".to_owned())
        },
        Type::Bool => ConstValue::Bool(false),
        Type::Str => {
            proof {
                reveal_strlit("");
            }
            ConstValue::Str("".to_owned())
        },
        _ => ConstValue::Int(0),
    }
}

/// The product of type checking: types for every node, plus signatures.
#[derive(Debug)]
pub struct Typeck {
    /// Type of each expression, keyed by its [`NodeId`].
    pub expr_types: NodeMap<Type>,
    /// Type of each binding, keyed by its definition's [`NodeId`].
    pub local_types: NodeMap<Type>,
    /// Signatures indexed by [`FnId`].
    pub signatures: Vec<FnSig>,
    /// Declared type of each constant, indexed by [`ConstId`].
    pub const_types: Vec<Type>,
    /// Evaluated value of each constant, indexed by [`ConstId`].
    pub const_values: Vec<ConstValue>,
    /// Layout of each struct, indexed by [`StructId`].
    pub structs: Vec<StructInfo>,
    /// Element types of each interned tuple type, indexed by the `u32` carried
    /// in [`Type::Tuple`]. Tuple types are structural, so identical element
    /// lists share one index.
    pub tuple_types: Vec<Vec<Type>>,
    /// The `main` entry point, if the program has a valid one.
    pub main: Option<FnId>,
}

/// No element list is interned twice.
pub open spec fn distinct_tuples(t: Seq<Vec<Type>>) -> bool {
    forall|i: int, j: int| 0 <= i < j < t.len() ==> t[i]@ != t[j]@
}

impl Typeck {
    pub open spec fn wf(&self) -> bool {
        &&& self.expr_types.wf()
        &&& self.local_types.wf()
        &&& self.tuple_types@.len() <= u32::MAX
        &&& distinct_tuples(self.tuple_types@)
    }

    fn new() -> (tc: Typeck)
        ensures
            tc.wf(),
            tc.expr_types@ == Map::<NodeId, Type>::empty(),
            tc.local_types@ == Map::<NodeId, Type>::empty(),
            tc.signatures@.len() == 0,
            tc.const_types@.len() == 0,
            tc.const_values@.len() == 0,
            tc.structs@.len() == 0,
            tc.tuple_types@.len() == 0,
            tc.main is None,
    {
        Typeck {
            expr_types: NodeMap::new(),
            local_types: NodeMap::new(),
            signatures: Vec::new(),
            const_types: Vec::new(),
            const_values: Vec::new(),
            structs: Vec::new(),
            tuple_types: Vec::new(),
            main: None,
        }
    }

    /// The type assigned to an expression; the error type if the expression
    /// was never typed (only possible on malformed input).
    pub fn type_of(&self, id: NodeId) -> (t: Type)
        ensures
            t == (if self.expr_types@.contains_key(id) {
                self.expr_types@[id]
            } else {
                Type::Error
            }),
    {
        match self.expr_types.get(id) {
            Some(t) => *t,
            None => Type::Error,
        }
    }

    /// The type of a binding (`let`/parameter) by its definition id.
    pub fn local_type(&self, id: NodeId) -> (t: Type)
        ensures
            t == (if self.local_types@.contains_key(id) {
                self.local_types@[id]
            } else {
                Type::Error
            }),
    {
        match self.local_types.get(id) {
            Some(t) => *t,
            None => Type::Error,
        }
    }

    /// The signature of a function.
    pub fn signature(&self, id: FnId) -> (s: &FnSig)
        requires
            id.0 < self.signatures@.len(),
        ensures
            *s == self.signatures@[id.0 as int],
    {
        &self.signatures[id.0 as usize]
    }

    /// The declared type of a constant; the error type for an unknown one.
    pub fn const_type(&self, id: ConstId) -> (t: Type)
        ensures
            t == (if (id.0 as int) < self.const_types@.len() {
                self.const_types@[id.0 as int]
            } else {
                Type::Error
            }),
    {
        if (id.0 as usize) < self.const_types.len() {
            self.const_types[id.0 as usize]
        } else {
            Type::Error
        }
    }

    /// The evaluated value of a constant.
    pub fn const_value(&self, id: ConstId) -> (v: &ConstValue)
        requires
            id.0 < self.const_values@.len(),
        ensures
            *v == self.const_values@[id.0 as int],
    {
        &self.const_values[id.0 as usize]
    }

    /// The layout of a struct.
    pub fn struct_info(&self, id: StructId) -> (s: &StructInfo)
        requires
            id.0 < self.structs@.len(),
        ensures
            *s == self.structs@[id.0 as int],
    {
        &self.structs[id.0 as usize]
    }

    /// The element types of an interned tuple type.
    pub fn tuple_elems(&self, id: u32) -> (t: &[Type])
        requires
            id < self.tuple_types@.len(),
        ensures
            t@ == self.tuple_types@[id as int]@,
    {
        self.tuple_types[id as usize].as_slice()
    }

    /// Interns a tuple type, returning the index identifying it.
    /// Structurally identical tuples share an index, so comparing
    /// [`Type::Tuple`]s compares their elements.
    fn intern_tuple(&mut self, elems: Vec<Type>) -> (k: u32)
        requires
            old(self).wf(),
            old(self).tuple_types@.len() < u32::MAX,
        ensures
            final(self).wf(),
            k < final(self).tuple_types@.len(),
            final(self).tuple_types@[k as int]@ == elems@,
            (exists|i: int| 0 <= i < old(self).tuple_types@.len() && old(self).tuple_types@[i]@ == elems@)
                ==> final(self).tuple_types@ == old(self).tuple_types@,
            !(exists|i: int| 0 <= i < old(self).tuple_types@.len() && old(self).tuple_types@[i]@ == elems@)
                ==> final(self).tuple_types@ == old(self).tuple_types@.push(elems),
            final(self).expr_types == old(self).expr_types,
            final(self).local_types == old(self).local_types,
            final(self).signatures == old(self).signatures,
            final(self).const_types == old(self).const_types,
            final(self).const_values == old(self).const_values,
            final(self).structs == old(self).structs,
            final(self).main == old(self).main,
    {
        let mut i: usize = 0;
        while i < self.tuple_types.len()
            invariant
                self.wf(),
                self.tuple_types@.len() < u32::MAX,
                0 <= i <= self.tuple_types@.len(),
                forall|j: int| 0 <= j < i ==> self.tuple_types@[j]@ != elems@,
            decreases self.tuple_types@.len() - i,
        {
            if types_eq(&self.tuple_types[i], &elems) {
                proof {
                    assert forall|j: int| 0 <= j < self.tuple_types@.len() && self.tuple_types@[j]@ == elems@ implies j == i by {
                        if j != i {
                            assert(self.tuple_types@[j]@ != self.tuple_types@[i as int]@);
                        }
                    }
                }
                return i as u32;
            }
            i = i + 1;
        }
        let ghost before = self.tuple_types@;
        self.tuple_types.push(elems);
        assert forall|a: int, b: int| 0 <= a < b < self.tuple_types@.len() implies self.tuple_types@[a]@ != self.tuple_types@[b]@ by {
            if b == before.len() {
                assert(self.tuple_types@[a] == before[a]);
            } else {
                assert(self.tuple_types@[a] == before[a] && self.tuple_types@[b] == before[b]);
            }
        }
        (self.tuple_types.len() - 1) as u32
    }
}

/// Whether two type lists are equal.
fn types_eq(a: &Vec<Type>, b: &Vec<Type>) -> (r: bool)
    ensures
        r == (a@ == b@),
{
    if a.len() != b.len() {
        return false;
    }
    let mut i: usize = 0;
    while i < a.len()
        invariant
            a@.len() == b@.len(),
            0 <= i <= a@.len(),
            forall|j: int| 0 <= j < i ==> a@[j] == b@[j],
        decreases a@.len() - i,
    {
        if a[i] != b[i] {
            return false;
        }
        i = i + 1;
    }
    assert(a@ =~= b@);
    true
}

// ---- divergence ----

/// Whether control is guaranteed to leave a block via `return` rather than
/// falling off its end: some statement diverges, or the tail does.
///
/// A deliberately simple, conservative analysis (no constant folding of
/// conditions); it only decides whether to check the fall-through value.
pub open spec fn block_diverges_spec(block: Block) -> bool
    decreases block, 2int,
{
    stmts_diverge(block.stmts@, block.stmts@.len()) || match block.tail {
        Some(t) => expr_diverges_spec(*t),
        None => false,
    }
}

/// Whether one of the first `n` statements diverges.
pub open spec fn stmts_diverge(stmts: Seq<Stmt>, n: nat) -> bool
    decreases stmts, n,
{
    if n == 0 || n > stmts.len() {
        false
    } else {
        stmt_diverges_spec(stmts[n - 1]) || stmts_diverge(stmts, (n - 1) as nat)
    }
}

/// Whether a statement diverges: a `return`, or an expression (or `let`
/// initialiser) that diverges. Loops may run zero times, and `break` and
/// `continue` stay within the function, so none of them diverges.
pub open spec fn stmt_diverges_spec(stmt: Stmt) -> bool
    decreases stmt, 0int,
{
    match stmt.kind {
        StmtKind::Return(_) => true,
        StmtKind::Expr(e) => expr_diverges_spec(e),
        StmtKind::Let(l) => expr_diverges_spec(l.init),
        _ => false,
    }
}

/// Whether an expression diverges: a block that diverges, or an `if` with an
/// `else` whose two branches both diverge.
pub open spec fn expr_diverges_spec(expr: Expr) -> bool
    decreases expr, 1int,
{
    match expr.kind {
        ExprKind::Block(b) => block_diverges_spec(b),
        ExprKind::If(i) => block_diverges_spec(i.then_branch) && match i.else_branch {
            Some(e) => expr_diverges_spec(*e),
            None => false,
        },
        _ => false,
    }
}

fn block_diverges(block: &Block) -> (r: bool)
    ensures
        r == block_diverges_spec(*block),
    decreases *block, 2int,
{
    let mut i: usize = 0;
    let mut any = false;
    while i < block.stmts.len()
        invariant
            0 <= i <= block.stmts@.len(),
            any == stmts_diverge(block.stmts@, i as nat),
        decreases block.stmts@.len() - i,
    {
        proof {
            assert(decreases_to!(*block => block.stmts@[i as int]));
        }
        let d = stmt_diverges(&block.stmts[i]);
        any = d || any;
        i = i + 1;
    }
    if any {
        return true;
    }
    match &block.tail {
        Some(t) => expr_diverges(t),
        None => false,
    }
}

fn stmt_diverges(stmt: &Stmt) -> (r: bool)
    ensures
        r == stmt_diverges_spec(*stmt),
    decreases *stmt, 0int,
{
    match &stmt.kind {
        StmtKind::Return(_) => true,
        StmtKind::Expr(e) => expr_diverges(e),
        StmtKind::Let(l) => expr_diverges(&l.init),
        _ => false,
    }
}

fn expr_diverges(expr: &Expr) -> (r: bool)
    ensures
        r == expr_diverges_spec(*expr),
    decreases *expr, 1int,
{
    match &expr.kind {
        ExprKind::Block(block) => block_diverges(block),
        // An `if` diverges only when it has an `else` and both arms diverge.
        ExprKind::If(if_expr) => {
            let then_div = block_diverges(&if_expr.then_branch);
            let else_div = match &if_expr.else_branch {
                Some(e) => expr_diverges(e),
                None => false,
            };
            then_div && else_div
        },
        _ => false,
    }
}

// ---- typing rules ----

/// The result type of a unary operator on an operand of type `t`.
pub open spec fn unary_type(op: UnOp, t: Type) -> Type {
    match op {
        UnOp::Neg => if t is Int || t is Float || t is Error {
            t
        } else {
            Type::Error
        },
        UnOp::Not => if t is Bool || t is Error {
            Type::Bool
        } else {
            Type::Error
        },
    }
}

/// Whether a unary operator applies to an operand of type `t`.
pub open spec fn unary_ok(op: UnOp, t: Type) -> bool {
    match op {
        UnOp::Neg => t is Int || t is Float || t is Error,
        UnOp::Not => t is Bool || t is Error,
    }
}

/// Whether a binary operator applies to operands of types `lt` and `rt`.
/// An operand of the error type was already reported and is accepted.
pub open spec fn binary_ok(op: BinOp, lt: Type, rt: Type) -> bool {
    if lt is Error || rt is Error {
        true
    } else {
        match op {
            BinOp::Add => (lt is Str && rt is Str) || (lt == rt && (lt is Int || lt is Float)),
            BinOp::Sub | BinOp::Mul | BinOp::Div | BinOp::Rem | BinOp::Lt | BinOp::Le | BinOp::Gt
            | BinOp::Ge => lt == rt && (lt is Int || lt is Float),
            // Equality is defined for any two equal types but `unit`.
            BinOp::Eq | BinOp::Ne => lt == rt && !(lt is Unit),
            BinOp::And | BinOp::Or => lt is Bool && rt is Bool,
        }
    }
}

/// The result type of a binary operator. Comparisons and logical operators
/// always yield `bool`, even on error, to limit cascades; `+` on two strings
/// concatenates; other arithmetic yields the operand type, or the error type
/// when it does not apply.
pub open spec fn binary_type(op: BinOp, lt: Type, rt: Type) -> Type {
    if is_comparison(op) || op is And || op is Or {
        Type::Bool
    } else if lt is Error || rt is Error {
        Type::Error
    } else if op is Add && lt is Str && rt is Str {
        Type::Str
    } else if lt == rt && (lt is Int || lt is Float) {
        lt
    } else {
        Type::Error
    }
}

/// The type of indexing into a value of type `base`.
pub open spec fn index_type(base: Type) -> Type {
    match base {
        Type::Array(e) => elem_type(e),
        _ => Type::Error,
    }
}

/// The type of an `if` with an `else`: the branches' shared type (preferring
/// a concrete type over the error type), or the error type when they differ.
pub open spec fn join_type(a: Type, b: Type) -> Type {
    if spec_compatible(a, b) {
        if a is Error {
            b
        } else {
            a
        }
    } else {
        Type::Error
    }
}

/// A `match` is exhaustive when it has a wildcard arm, or matches a `bool`
/// against both `true` and `false`.
pub open spec fn match_exhaustive(scrut: Type, has_wild: bool, saw_true: bool, saw_false: bool) -> bool {
    has_wild || (scrut is Bool && saw_true && saw_false)
}

/// The diagnostics of `c` are those of `b` plus one with the given code.
/// The type of a call: the declared return type of the function or builtin
/// that the callee names, and the error type for any other callee.
pub open spec fn call_type(res: &Resolution, callee: Expr, sigs: Seq<FnSig>) -> Type {
    if callee.kind is Name {
        match use_at(res, callee.id) {
            Some(Res::Fn(id)) => sigs[id.0 as int].ret,
            Some(Res::Builtin(b)) => builtin_ret(b),
            _ => Type::Error,
        }
    } else {
        Type::Error
    }
}

pub open spec fn one_more(b: Seq<crate::diagnostics::Diagnostic>, c: Seq<crate::diagnostics::Diagnostic>, code: DiagCode) -> bool {
    &&& c.len() == b.len() + 1
    &&& extends(b, c)
    &&& c.last().code == code
}

/// Appends `t`'s display form to `s`.
fn push_type(s: &mut String, t: Type)
    ensures
        final(s)@ == old(s)@ + crate::sema::types::type_text(t),
{
    let text = t.to_string();
    crate::text::push_str(s, text.as_str());
}

struct Checker {
    tc: Typeck,
    diags: Diagnostics,
    /// Return type of the function currently being checked.
    cur_ret: Type,
    /// Nesting depth of enclosing loops, for validating `break`/`continue`.
    loop_depth: u32,
}

proof fn lemma_extends_trans<T>(a: Seq<T>, b: Seq<T>, c: Seq<T>)
    requires
        extends(a, b),
        extends(b, c),
    ensures
        extends(a, c),
{
    assert forall|i: int| 0 <= i < a.len() implies #[trigger] c[i] == a[i] by {
        assert(c[i] == b[i]);
    }
}

impl Checker {
    spec fn inv(&self) -> bool {
        &&& self.tc.wf()
        &&& self.diags.wf()
    }

    /// What checking a subtree keeps: the invariant, every earlier diagnostic
    /// and interned tuple, and all tables but the per-node ones.
    spec fn kept(&self, before: &Checker) -> bool {
        &&& self.inv()
        &&& extends(before.diags.spec_items(), self.diags.spec_items())
        &&& extends(before.tc.tuple_types@, self.tc.tuple_types@)
        &&& self.tc.signatures == before.tc.signatures
        &&& self.tc.const_types == before.tc.const_types
        &&& self.tc.const_values == before.tc.const_values
        &&& self.tc.structs == before.tc.structs
        &&& self.tc.main == before.tc.main
        &&& self.cur_ret == before.cur_ret
        &&& self.loop_depth == before.loop_depth
    }

    proof fn lemma_kept_trans(a: &Checker, b: &Checker, c: &Checker)
        requires
            b.kept(a),
            c.kept(b),
        ensures
            c.kept(a),
    {
        lemma_extends_trans(a.diags.spec_items(), b.diags.spec_items(), c.diags.spec_items());
        lemma_extends_trans(a.tc.tuple_types@, b.tc.tuple_types@, c.tc.tuple_types@);
    }

    proof fn lemma_kept_refl(a: &Checker)
        requires
            a.inv(),
        ensures
            a.kept(a),
    {
    }

    fn emit(&mut self, d: Diagnostic)
        requires
            old(self).inv(),
        ensures
            final(self).inv(),
            final(self).tc == old(self).tc,
            final(self).cur_ret == old(self).cur_ret,
            final(self).loop_depth == old(self).loop_depth,
            final(self).diags.spec_items() == old(self).diags.spec_items().push(d),
            final(self).kept(old(self)),
    {
        self.diags.emit(d);
    }

    /// Reports a mismatch if `actual` is not compatible with `expected`.
    fn expect(&mut self, actual: Type, expected: Type, span: Span, code: DiagCode, what: &str)
        requires
            old(self).inv(),
        ensures
            final(self).kept(old(self)),
            final(self).tc == old(self).tc,
            spec_compatible(actual, expected) ==> final(self).diags == old(self).diags,
            !spec_compatible(actual, expected) ==> one_more(
                old(self).diags.spec_items(),
                final(self).diags.spec_items(),
                code,
            ),
    {
        if !actual.compatible(expected) {
            let mut msg = what.to_owned();
            crate::text::push_str(&mut msg, " must be `");
            push_type(&mut msg, expected);
            crate::text::push_str(&mut msg, "`, found `");
            push_type(&mut msg, actual);
            crate::text::push_str(&mut msg, "`");
            let mut label = "expected `".to_owned();
            push_type(&mut label, expected);
            crate::text::push_str(&mut label, "`");
            self.emit(Diagnostic::error(code, msg.as_str()).with_primary(span, label.as_str()));
        }
    }

    fn operand_error(&mut self, op: BinOp, lt: Type, rt: Type, span: Span)
        requires
            old(self).inv(),
        ensures
            final(self).kept(old(self)),
            final(self).tc == old(self).tc,
            one_more(old(self).diags.spec_items(), final(self).diags.spec_items(), DiagCode::InvalidOperands),
    {
        let mut msg = "cannot apply `".to_owned();
        crate::text::push_str(&mut msg, op.symbol());
        crate::text::push_str(&mut msg, "` to `");
        push_type(&mut msg, lt);
        crate::text::push_str(&mut msg, "` and `");
        push_type(&mut msg, rt);
        crate::text::push_str(&mut msg, "`");
        let mut label = "`".to_owned();
        push_type(&mut label, lt);
        crate::text::push_str(&mut label, "` ");
        crate::text::push_str(&mut label, op.symbol());
        crate::text::push_str(&mut label, " `");
        push_type(&mut label, rt);
        crate::text::push_str(&mut label, "`");
        self.emit(Diagnostic::error(DiagCode::InvalidOperands, msg.as_str()).with_primary(span, label.as_str()));
    }

    /// The unary typing rule: reports an operand the operator does not apply to.
    fn unary_rule(&mut self, op: UnOp, t: Type, span: Span) -> (r: Type)
        requires
            old(self).inv(),
        ensures
            final(self).kept(old(self)),
            final(self).tc == old(self).tc,
            r == unary_type(op, t),
            unary_ok(op, t) ==> final(self).diags == old(self).diags,
            !unary_ok(op, t) ==> one_more(
                old(self).diags.spec_items(),
                final(self).diags.spec_items(),
                DiagCode::InvalidOperands,
            ),
    {
        match op {
            UnOp::Neg if t.is_numeric() || t.is_error() => t,
            UnOp::Not if t == Type::Bool || t.is_error() => Type::Bool,
            _ => {
                let mut msg = "cannot apply unary `".to_owned();
                crate::text::push_str(&mut msg, op.symbol());
                crate::text::push_str(&mut msg, "` to `");
                push_type(&mut msg, t);
                crate::text::push_str(&mut msg, "`");
                let mut label = "operand has type `".to_owned();
                push_type(&mut label, t);
                crate::text::push_str(&mut label, "`");
                self.emit(Diagnostic::error(DiagCode::InvalidOperands, msg.as_str()).with_primary(span, label.as_str()));
                Type::Error
            },
        }
    }

    /// The binary typing rule: reports operands the operator does not apply to.
    fn binary_rule(&mut self, op: BinOp, lt: Type, rt: Type, span: Span) -> (r: Type)
        requires
            old(self).inv(),
        ensures
            final(self).kept(old(self)),
            final(self).tc == old(self).tc,
            r == binary_type(op, lt, rt),
            binary_ok(op, lt, rt) ==> final(self).diags == old(self).diags,
            !binary_ok(op, lt, rt) ==> one_more(
                old(self).diags.spec_items(),
                final(self).diags.spec_items(),
                DiagCode::InvalidOperands,
            ),
    {
        if lt.is_error() || rt.is_error() {
            // Result type still follows the operator category to limit cascades.
            return if op.is_comparison() || op.is_logical() {
                Type::Bool
            } else {
                Type::Error
            };
        }
        match op {
            // `+` doubles as string concatenation when both sides are `str`.
            BinOp::Add if lt == Type::Str && rt == Type::Str => Type::Str,
            BinOp::Add | BinOp::Sub | BinOp::Mul | BinOp::Div | BinOp::Rem => {
                if lt == rt && lt.is_numeric() {
                    lt
                } else {
                    self.operand_error(op, lt, rt, span);
                    Type::Error
                }
            },
            BinOp::Lt | BinOp::Le | BinOp::Gt | BinOp::Ge => {
                if !(lt == rt && lt.is_numeric()) {
                    self.operand_error(op, lt, rt, span);
                }
                Type::Bool
            },
            BinOp::Eq | BinOp::Ne => {
                // Equality is defined for any two equal, comparable types.
                if !(lt == rt && lt != Type::Unit) {
                    self.operand_error(op, lt, rt, span);
                }
                Type::Bool
            },
            BinOp::And | BinOp::Or => {
                if !(lt == Type::Bool && rt == Type::Bool) {
                    self.operand_error(op, lt, rt, span);
                }
                Type::Bool
            },
        }
    }
}

/// The type a resolved name has as a value: its binding's type for a local,
/// its declared type for a constant, and the error type otherwise (a
/// function is no value; an unresolved name was already reported).
pub open spec fn name_type(r: Option<Res>, locals: Map<NodeId, Type>, consts: Seq<Type>) -> Type {
    match r {
        Some(Res::Local(def)) => if locals.contains_key(def) {
            locals[def]
        } else {
            Type::Error
        },
        Some(Res::Const(c)) => if (c.0 as int) < consts.len() {
            consts[c.0 as int]
        } else {
            Type::Error
        },
        _ => Type::Error,
    }
}

/// The resolution recorded for a node.
pub open spec fn use_at(res: &Resolution, id: NodeId) -> Option<Res> {
    if res.uses@.contains_key(id) {
        Some(res.uses@[id])
    } else {
        None
    }
}

/// The compile-time value of a constant expression: literals, earlier
/// constants, and operators over them; `None` for anything else.
pub open spec fn const_eval(e: Expr, uses: Map<NodeId, Res>, values: Seq<ConstValue>) -> Option<ConstValue>
    decreases e,
{
    match e.kind {
        ExprKind::Int(v) => Some(ConstValue::Int(v)),
        ExprKind::Float(s) => Some(ConstValue::Float(s)),
        ExprKind::Bool(b) => Some(ConstValue::Bool(b)),
        ExprKind::Str(s) => Some(ConstValue::Str(s)),
        ExprKind::Name(_) => if uses.contains_key(e.id) {
            match uses[e.id] {
                Res::Const(c) => if (c.0 as int) < values.len() {
                    Some(values[c.0 as int])
                } else {
                    None
                },
                _ => None,
            }
        } else {
            None
        },
        ExprKind::Unary { op, rhs } => match const_eval(*rhs, uses, values) {
            Some(v) => const_unary(op, v, e.id),
            None => None,
        },
        ExprKind::Binary { op, lhs, rhs } => match const_eval(*lhs, uses, values) {
            Some(a) => match const_eval(*rhs, uses, values) {
                Some(b) => const_binary(op, a, b, e.id),
                None => None,
            },
            None => None,
        },
        _ => None,
    }
}

impl Checker {
    /// The type of a name used as a value.
    fn check_name(&mut self, res: &Resolution, id: NodeId, name: &str, span: Span) -> (t: Type)
        requires
            old(self).inv(),
        ensures
            final(self).kept(old(self)),
            final(self).tc == old(self).tc,
            t == name_type(use_at(res, id), old(self).tc.local_types@, old(self).tc.const_types@),
            (use_at(res, id) matches Some(r) && (r is Fn || r is Builtin)) ==> one_more(
                old(self).diags.spec_items(),
                final(self).diags.spec_items(),
                DiagCode::TypeMismatch,
            ),
            !(use_at(res, id) matches Some(r) && (r is Fn || r is Builtin)) ==> final(self).diags
                == old(self).diags,
    {
        match res.use_of(id) {
            Some(Res::Local(def)) => self.tc.local_type(def),
            Some(Res::Const(cid)) => self.tc.const_type(cid),
            // A function or builtin name only has meaning as a call target.
            Some(Res::Fn(_)) | Some(Res::Builtin(_)) => {
                let msg = cat3("`", name, "` is a function and cannot be used as a value");
                self.emit(
                    Diagnostic::error(DiagCode::TypeMismatch, msg.as_str()).with_primary(
                        span,
                        "functions are not first-class values in Lumen",
                    ).with_help("call it with `()` instead"),
                );
                Type::Error
            },
            // Unresolved: resolution already reported it.
            None => Type::Error,
        }
    }

    /// Evaluates a constant expression to a [`ConstValue`], or `None` if it
    /// is not a compile-time constant.
    fn eval_const(&self, res: &Resolution, expr: &Expr) -> (r: Option<ConstValue>)
        ensures
            r == const_eval(*expr, res.uses@, self.tc.const_values@),
        decreases *expr,
    {
        match &expr.kind {
            ExprKind::Int(v) => Some(ConstValue::Int(*v)),
            ExprKind::Float(s) => Some(ConstValue::Float(s.clone())),
            ExprKind::Bool(b) => Some(ConstValue::Bool(*b)),
            ExprKind::Str(s) => Some(ConstValue::Str(s.clone())),
            ExprKind::Name(_) => match res.use_of(expr.id) {
                // A reference to an already-evaluated constant.
                Some(Res::Const(id)) => {
                    if (id.0 as usize) < self.tc.const_values.len() {
                        Some(self.tc.const_values[id.0 as usize].duplicate())
                    } else {
                        None
                    }
                },
                _ => None,
            },
            ExprKind::Unary { op, rhs } => match self.eval_const(res, rhs) {
                Some(v) => eval_const_unary(*op, v, expr.id),
                None => None,
            },
            ExprKind::Binary { op, lhs, rhs } => match self.eval_const(res, lhs) {
                Some(a) => match self.eval_const(res, rhs) {
                    Some(b) => eval_const_binary(*op, a, b, expr.id),
                    None => None,
                },
                None => None,
            },
            _ => None,
        }
    }

    /// Reports `break`/`continue` used outside any loop.
    fn loop_jump_rule(&mut self, kw: &str, span: Span)
        requires
            old(self).inv(),
        ensures
            final(self).kept(old(self)),
            final(self).tc == old(self).tc,
            old(self).loop_depth == 0 ==> one_more(
                old(self).diags.spec_items(),
                final(self).diags.spec_items(),
                DiagCode::BreakOutsideLoop,
            ),
            old(self).loop_depth != 0 ==> final(self).diags == old(self).diags,
    {
        if self.loop_depth == 0 {
            let msg = cat3("`", kw, "` outside of a loop");
            let label = cat3("`", kw, "` can only be used inside a loop");
            self.emit(Diagnostic::error(DiagCode::BreakOutsideLoop, msg.as_str()).with_primary(span, label.as_str()));
        }
    }

    /// Reports a returned value incompatible with the function's return type.
    fn return_rule(&mut self, actual: Type, span: Span)
        requires
            old(self).inv(),
        ensures
            final(self).kept(old(self)),
            final(self).tc == old(self).tc,
            !spec_compatible(actual, old(self).cur_ret) ==> one_more(
                old(self).diags.spec_items(),
                final(self).diags.spec_items(),
                DiagCode::ReturnTypeMismatch,
            ),
            spec_compatible(actual, old(self).cur_ret) ==> final(self).diags == old(self).diags,
    {
        if !actual.compatible(self.cur_ret) {
            let mut msg = "returning `".to_owned();
            push_type(&mut msg, actual);
            crate::text::push_str(&mut msg, "` from a function declared to return `");
            push_type(&mut msg, self.cur_ret);
            crate::text::push_str(&mut msg, "`");
            let mut label = "expected `".to_owned();
            push_type(&mut label, self.cur_ret);
            crate::text::push_str(&mut label, "`, found `");
            push_type(&mut label, actual);
            crate::text::push_str(&mut label, "`");
            self.emit(Diagnostic::error(DiagCode::ReturnTypeMismatch, msg.as_str()).with_primary(span, label.as_str()));
        }
    }

    /// The indexing rule: an array yields its element type.
    fn index_rule(&mut self, base_ty: Type, base_span: Span) -> (t: Type)
        requires
            old(self).inv(),
        ensures
            final(self).kept(old(self)),
            final(self).tc == old(self).tc,
            t == index_type(base_ty),
            (base_ty is Array || base_ty is Error) ==> final(self).diags == old(self).diags,
            !(base_ty is Array || base_ty is Error) ==> one_more(
                old(self).diags.spec_items(),
                final(self).diags.spec_items(),
                DiagCode::NotIndexable,
            ),
    {
        match base_ty {
            Type::Array(elem) => elem.ty(),
            Type::Error => Type::Error,
            other => {
                let mut msg = "`".to_owned();
                push_type(&mut msg, other);
                crate::text::push_str(&mut msg, "` cannot be indexed");
                self.emit(Diagnostic::error(DiagCode::NotIndexable, msg.as_str()).with_primary(base_span, "not an array"));
                Type::Error
            },
        }
    }

    /// The rule for an `if` with an `else`: both branches must agree.
    fn if_else_rule(&mut self, then_ty: Type, else_ty: Type, span: Span) -> (t: Type)
        requires
            old(self).inv(),
        ensures
            final(self).kept(old(self)),
            final(self).tc == old(self).tc,
            t == join_type(then_ty, else_ty),
            spec_compatible(then_ty, else_ty) ==> final(self).diags == old(self).diags,
            !spec_compatible(then_ty, else_ty) ==> one_more(
                old(self).diags.spec_items(),
                final(self).diags.spec_items(),
                DiagCode::IfBranchMismatch,
            ),
    {
        if then_ty.compatible(else_ty) {
            // Prefer the concrete type if one side is the error type.
            if then_ty.is_error() {
                else_ty
            } else {
                then_ty
            }
        } else {
            let mut label = "`".to_owned();
            push_type(&mut label, then_ty);
            crate::text::push_str(&mut label, "` vs `");
            push_type(&mut label, else_ty);
            crate::text::push_str(&mut label, "`");
            self.emit(
                Diagnostic::error(DiagCode::IfBranchMismatch, "`if` and `else` branches have incompatible types")
                    .with_primary(span, label.as_str())
                    .with_help("both branches of an `if` expression must have the same type"),
            );
            Type::Error
        }
    }

    /// The rule for an `if` without `else`: it yields `unit`, so the
    /// then-branch must too.
    fn if_without_else_rule(&mut self, then_ty: Type, then_span: Span) -> (t: Type)
        requires
            old(self).inv(),
        ensures
            final(self).kept(old(self)),
            final(self).tc == old(self).tc,
            t == Type::Unit,
            spec_compatible(then_ty, Type::Unit) ==> final(self).diags == old(self).diags,
            !spec_compatible(then_ty, Type::Unit) ==> one_more(
                old(self).diags.spec_items(),
                final(self).diags.spec_items(),
                DiagCode::IfBranchMismatch,
            ),
    {
        if !then_ty.compatible(Type::Unit) {
            let mut label = "this block has type `".to_owned();
            push_type(&mut label, then_ty);
            crate::text::push_str(&mut label, "`");
            self.emit(
                Diagnostic::error(DiagCode::IfBranchMismatch, "`if` without `else` must have type `unit`")
                    .with_primary(then_span, label.as_str())
                    .with_help("add an `else` branch that yields the same type"),
            );
        }
        Type::Unit
    }

    /// Folds one arm's type into the type of a `match` so far.
    fn arm_join_rule(&mut self, prev: Option<Type>, body_ty: Type, span: Span) -> (t: Type)
        requires
            old(self).inv(),
        ensures
            final(self).kept(old(self)),
            final(self).tc == old(self).tc,
            t == (match prev {
                None => body_ty,
                Some(p) => join_type(p, body_ty),
            }),
            (prev matches Some(p) && !spec_compatible(p, body_ty)) ==> one_more(
                old(self).diags.spec_items(),
                final(self).diags.spec_items(),
                DiagCode::IfBranchMismatch,
            ),
            !(prev matches Some(p) && !spec_compatible(p, body_ty)) ==> final(self).diags == old(self).diags,
    {
        match prev {
            None => body_ty,
            Some(p) => {
                if p.compatible(body_ty) {
                    if p.is_error() {
                        body_ty
                    } else {
                        p
                    }
                } else {
                    let mut label = "`".to_owned();
                    push_type(&mut label, p);
                    crate::text::push_str(&mut label, "` vs `");
                    push_type(&mut label, body_ty);
                    crate::text::push_str(&mut label, "`");
                    self.emit(
                        Diagnostic::error(DiagCode::IfBranchMismatch, "`match` arms have incompatible types")
                            .with_primary(span, label.as_str())
                            .with_help("every arm of a `match` must yield the same type"),
                    );
                    Type::Error
                }
            },
        }
    }

    /// Checks one arm pattern against the scrutinee type.
    fn arm_pattern_rule(&mut self, pattern: Pattern, scrut: Type, span: Span)
        requires
            old(self).inv(),
        ensures
            final(self).kept(old(self)),
            final(self).tc == old(self).tc,
            ({
                let pat_ty = match pattern {
                    Pattern::Int(_) => Type::Int,
                    _ => Type::Bool,
                };
                !(pattern is Wild) && !(scrut is Error) && scrut != pat_ty
            }) ==> one_more(old(self).diags.spec_items(), final(self).diags.spec_items(), DiagCode::TypeMismatch),
            !({
                let pat_ty = match pattern {
                    Pattern::Int(_) => Type::Int,
                    _ => Type::Bool,
                };
                !(pattern is Wild) && !(scrut is Error) && scrut != pat_ty
            }) ==> final(self).diags == old(self).diags,
    {
        let pat_ty = match pattern {
            Pattern::Int(_) => Type::Int,
            Pattern::Bool(_) => Type::Bool,
            Pattern::Wild => return ,
        };
        if !scrut.is_error() && scrut != pat_ty {
            let mut msg = "pattern of type `".to_owned();
            push_type(&mut msg, pat_ty);
            crate::text::push_str(&mut msg, "` cannot match `");
            push_type(&mut msg, scrut);
            crate::text::push_str(&mut msg, "`");
            let mut label = "expected a `".to_owned();
            push_type(&mut label, scrut);
            crate::text::push_str(&mut label, "` pattern");
            self.emit(Diagnostic::error(DiagCode::TypeMismatch, msg.as_str()).with_primary(span, label.as_str()));
        }
    }

    /// Reports a `match` on a scalar that does not cover every value.
    fn exhaustive_rule(&mut self, scrut: Type, has_wild: bool, saw_true: bool, saw_false: bool, span: Span)
        requires
            old(self).inv(),
        ensures
            final(self).kept(old(self)),
            final(self).tc == old(self).tc,
            ((scrut is Int || scrut is Bool) && !match_exhaustive(scrut, has_wild, saw_true, saw_false))
                ==> one_more(old(self).diags.spec_items(), final(self).diags.spec_items(), DiagCode::NonExhaustiveMatch),
            !((scrut is Int || scrut is Bool) && !match_exhaustive(scrut, has_wild, saw_true, saw_false))
                ==> final(self).diags == old(self).diags,
    {
        let scalar = scrut == Type::Int || scrut == Type::Bool;
        let exhaustive = has_wild || (scrut == Type::Bool && saw_true && saw_false);
        if scalar && !exhaustive {
            self.emit(
                Diagnostic::error(DiagCode::NonExhaustiveMatch, "`match` does not cover every possible value")
                    .with_primary(span, "add the missing patterns or a `_` arm"),
            );
        }
    }

    /// The rule for the end of a function body: unless every path returns,
    /// the body's value must match the return type.
    fn fn_end_rule(&mut self, name: &str, diverges: bool, body_ty: Type, body_span: Span, tail_span: Span)
        requires
            old(self).inv(),
        ensures
            final(self).kept(old(self)),
            final(self).tc == old(self).tc,
            (diverges || spec_compatible(body_ty, old(self).cur_ret)) ==> final(self).diags == old(self).diags,
            (!diverges && !spec_compatible(body_ty, old(self).cur_ret) && body_ty is Unit && !(old(self).cur_ret is Unit))
                ==> one_more(old(self).diags.spec_items(), final(self).diags.spec_items(), DiagCode::MissingReturn),
            (!diverges && !spec_compatible(body_ty, old(self).cur_ret) && !(body_ty is Unit && !(
            old(self).cur_ret is Unit))) ==> one_more(
                old(self).diags.spec_items(),
                final(self).diags.spec_items(),
                DiagCode::ReturnTypeMismatch,
            ),
    {
        // If every path through the body ends in an explicit `return`, those
        // returns were checked individually.
        if diverges {
            return ;
        }
        if body_ty.compatible(self.cur_ret) {
            return ;
        }
        let ret = self.cur_ret;
        if body_ty == Type::Unit && ret != Type::Unit {
            // Fell off the end of a value-returning function.
            let mut msg = "function `".to_owned();
            crate::text::push_str(&mut msg, name);
            crate::text::push_str(&mut msg, "` may reach its end without returning `");
            push_type(&mut msg, ret);
            crate::text::push_str(&mut msg, "`");
            let mut label = "expected `".to_owned();
            push_type(&mut label, ret);
            crate::text::push_str(&mut label, "` value");
            self.emit(
                Diagnostic::error(DiagCode::MissingReturn, msg.as_str())
                    .with_primary(body_span, label.as_str())
                    .with_help("add a trailing expression or a `return`"),
            );
        } else {
            let mut msg = "function `".to_owned();
            crate::text::push_str(&mut msg, name);
            crate::text::push_str(&mut msg, "` should return `");
            push_type(&mut msg, ret);
            crate::text::push_str(&mut msg, "` but its body has type `");
            push_type(&mut msg, body_ty);
            crate::text::push_str(&mut msg, "`");
            let mut label = "expected `".to_owned();
            push_type(&mut label, ret);
            crate::text::push_str(&mut label, "`, found `");
            push_type(&mut label, body_ty);
            crate::text::push_str(&mut label, "`");
            self.emit(Diagnostic::error(DiagCode::ReturnTypeMismatch, msg.as_str()).with_primary(tail_span, label.as_str()));
        }
    }
}

/// The type of field `name` of a value of type `base`: the type of the first
/// field so named when `base` is a known struct that has one.
pub open spec fn field_type(base: Type, structs: Seq<StructInfo>, name: Seq<char>) -> Type {
    match base {
        Type::Struct(sid) => if (sid as int) < structs.len() && exists|j: int|
            0 <= j < structs[sid as int].fields@.len() && structs[sid as int].fields@[j].0@ == name {
            let j = choose|j: int|
                0 <= j < structs[sid as int].fields@.len() && structs[sid as int].fields@[j].0@ == name && forall|
                    k: int,
                | 0 <= k < j ==> structs[sid as int].fields@[k].0@ != name;
            structs[sid as int].fields@[j].1
        } else {
            Type::Error
        },
        _ => Type::Error,
    }
}

/// Whether accessing field `name` of a value of type `base` is reported:
/// the base is neither a struct nor the error type, or the struct has no
/// such field.
pub open spec fn field_reported(base: Type, structs: Seq<StructInfo>, name: Seq<char>) -> bool {
    match base {
        Type::Struct(sid) => (sid as int) < structs.len() && !exists|j: int|
            0 <= j < structs[sid as int].fields@.len() && structs[sid as int].fields@[j].0@ == name,
        Type::Error => false,
        _ => true,
    }
}

/// The type of element `index` of a value of type `base`.
pub open spec fn tuple_elem_type(base: Type, tuples: Seq<Vec<Type>>, index: usize) -> Type {
    match base {
        Type::Tuple(id) => if (id as int) < tuples.len() && (index as int) < tuples[id as int]@.len() {
            tuples[id as int]@[index as int]
        } else {
            Type::Error
        },
        _ => Type::Error,
    }
}

/// Whether accessing element `index` of a value of type `base` is reported:
/// the base is neither a tuple nor the error type, or the index is out of range.
pub open spec fn tuple_elem_reported(base: Type, tuples: Seq<Vec<Type>>, index: usize) -> bool {
    match base {
        Type::Tuple(id) => (id as int) < tuples.len() && (index as int) >= tuples[id as int]@.len(),
        Type::Error => false,
        _ => true,
    }
}

/// The first field of `fs` with the same name as field `j` is not marked in
/// `provided`.
/// Whether some field initialiser names `name`.
pub open spec fn field_given(fields: Seq<FieldInit>, name: Seq<char>) -> bool {
    exists|j: int| 0 <= j < fields.len() && fields[j].name.name@ == name
}

/// Whether a struct's fields include one named `name`.
pub open spec fn field_declared(fs: Seq<(String, Type)>, name: Seq<char>) -> bool {
    exists|m: int| 0 <= m < fs.len() && fs[m].0@ == name
}

pub open spec fn name_missing(fs: Seq<(String, Type)>, provided: Seq<bool>, j: int) -> bool {
    forall|k: int|
        0 <= k < fs.len() && fs[k].0@ == fs[j].0@ && (forall|m: int| 0 <= m < k ==> fs[m].0@ != fs[j].0@)
            ==> !provided[k]
}

impl Checker {
    /// The field-access rule.
    fn field_rule(&mut self, base_ty: Type, field: &Ident, base_span: Span) -> (t: Type)
        requires
            old(self).inv(),
        ensures
            final(self).kept(old(self)),
            final(self).tc == old(self).tc,
            t == field_type(base_ty, old(self).tc.structs@, field.name@),
            field_reported(base_ty, old(self).tc.structs@, field.name@) ==> one_more(
                old(self).diags.spec_items(),
                final(self).diags.spec_items(),
                DiagCode::UnknownField,
            ),
            !field_reported(base_ty, old(self).tc.structs@, field.name@) ==> final(self).diags == old(self).diags,
    {
        match base_ty {
            Type::Struct(sid) => {
                if (sid as usize) < self.tc.structs.len() {
                    match self.tc.structs[sid as usize].field(field.name.as_str()) {
                        Some((k, ty)) => {
                            proof {
                                let fs = self.tc.structs@[sid as int].fields@;
                                let j = choose|j: int|
                                    0 <= j < fs.len() && fs[j].0@ == field.name@ && forall|k: int|
                                        0 <= k < j ==> fs[k].0@ != field.name@;
                                assert(j == k as int) by {
                                    if j < k {
                                        assert(fs[j].0@ != field.name@);
                                    } else if j > k {
                                        assert(fs[k as int].0@ != field.name@);
                                    }
                                }
                            }
                            ty
                        },
                        None => {
                            let sname = self.tc.structs[sid as usize].name.clone();
                            let mut msg = "struct `".to_owned();
                            crate::text::push_str(&mut msg, sname.as_str());
                            crate::text::push_str(&mut msg, "` has no field `");
                            crate::text::push_str(&mut msg, field.name.as_str());
                            crate::text::push_str(&mut msg, "`");
                            self.emit(Diagnostic::error(DiagCode::UnknownField, msg.as_str()).with_primary(field.span, "no such field"));
                            Type::Error
                        },
                    }
                } else {
                    Type::Error
                }
            },
            Type::Error => Type::Error,
            other => {
                let mut msg = "type `".to_owned();
                push_type(&mut msg, other);
                crate::text::push_str(&mut msg, "` has no fields");
                self.emit(Diagnostic::error(DiagCode::UnknownField, msg.as_str()).with_primary(base_span, "not a struct"));
                Type::Error
            },
        }
    }

    /// The tuple-element rule.
    fn tuple_index_rule(&mut self, base_ty: Type, index: usize, index_span: Span, base_span: Span) -> (t: Type)
        requires
            old(self).inv(),
        ensures
            final(self).kept(old(self)),
            final(self).tc == old(self).tc,
            t == tuple_elem_type(base_ty, old(self).tc.tuple_types@, index),
            tuple_elem_reported(base_ty, old(self).tc.tuple_types@, index) ==> one_more(
                old(self).diags.spec_items(),
                final(self).diags.spec_items(),
                DiagCode::UnknownField,
            ),
            !tuple_elem_reported(base_ty, old(self).tc.tuple_types@, index) ==> final(self).diags == old(self).diags,
    {
        match base_ty {
            Type::Tuple(id) => {
                if (id as usize) < self.tc.tuple_types.len() {
                    let arity = self.tc.tuple_types[id as usize].len();
                    if index < arity {
                        self.tc.tuple_types[id as usize][index]
                    } else {
                        let mut msg = "tuple has ".to_owned();
                        crate::text::push_decimal(&mut msg, arity as u64);
                        crate::text::push_str(&mut msg, " element(s); index ");
                        crate::text::push_decimal(&mut msg, index as u64);
                        crate::text::push_str(&mut msg, " is out of range");
                        self.emit(
                            Diagnostic::error(DiagCode::UnknownField, msg.as_str()).with_primary(
                                index_span,
                                "no such tuple element",
                            ),
                        );
                        Type::Error
                    }
                } else {
                    Type::Error
                }
            },
            Type::Error => Type::Error,
            other => {
                let mut msg = "type `".to_owned();
                push_type(&mut msg, other);
                crate::text::push_str(&mut msg, "` is not a tuple");
                self.emit(Diagnostic::error(DiagCode::UnknownField, msg.as_str()).with_primary(base_span, "not a tuple"));
                Type::Error
            },
        }
    }

    /// The rule for `name = value` on a local: the binding must be `mut`, and
    /// the value must have the binding's type.
    fn assign_rule(&mut self, name: &str, mutable: bool, target_ty: Type, value_ty: Type, target_span: Span, value_span: Span)
        requires
            old(self).inv(),
        ensures
            final(self).kept(old(self)),
            final(self).tc == old(self).tc,
            !mutable ==> one_more(old(self).diags.spec_items(), final(self).diags.spec_items(), DiagCode::AssignToImmutable),
            mutable && !spec_compatible(value_ty, target_ty) ==> one_more(
                old(self).diags.spec_items(),
                final(self).diags.spec_items(),
                DiagCode::TypeMismatch,
            ),
            mutable && spec_compatible(value_ty, target_ty) ==> final(self).diags == old(self).diags,
    {
        if !mutable {
            let msg = cat3("cannot assign to immutable binding `", name, "`");
            let help = cat3("declare it with `let mut ", name, "` to allow assignment");
            self.emit(
                Diagnostic::error(DiagCode::AssignToImmutable, msg.as_str())
                    .with_primary(target_span, "cannot assign twice to an immutable binding")
                    .with_help(help.as_str()),
            );
        } else if !value_ty.compatible(target_ty) {
            let msg = cat3("mismatched types assigning to `", name, "`");
            let mut label = "expected `".to_owned();
            push_type(&mut label, target_ty);
            crate::text::push_str(&mut label, "`, found `");
            push_type(&mut label, value_ty);
            crate::text::push_str(&mut label, "`");
            self.emit(Diagnostic::error(DiagCode::TypeMismatch, msg.as_str()).with_primary(value_span, label.as_str()));
        }
    }

    /// Reports a value whose type differs from the place it is stored in
    /// (an element, a field, or a tuple element), unless the place's type is
    /// the error type.
    fn store_rule(&mut self, place_ty: Type, value_ty: Type, what: &str, value_span: Span)
        requires
            old(self).inv(),
        ensures
            final(self).kept(old(self)),
            final(self).tc == old(self).tc,
            (!spec_compatible(value_ty, place_ty) && !(place_ty is Error)) ==> one_more(
                old(self).diags.spec_items(),
                final(self).diags.spec_items(),
                DiagCode::TypeMismatch,
            ),
            !(!spec_compatible(value_ty, place_ty) && !(place_ty is Error)) ==> final(self).diags == old(self).diags,
    {
        if !value_ty.compatible(place_ty) && !place_ty.is_error() {
            let msg = cat3("mismatched types in ", what, " assignment");
            let mut label = "expected `".to_owned();
            push_type(&mut label, place_ty);
            crate::text::push_str(&mut label, "`, found `");
            push_type(&mut label, value_ty);
            crate::text::push_str(&mut label, "`");
            self.emit(Diagnostic::error(DiagCode::TypeMismatch, msg.as_str()).with_primary(value_span, label.as_str()));
        }
    }

    /// Reports every declared field of struct `sid` whose name no field
    /// initialiser supplied.
    fn missing_fields_rule(&mut self, sid: usize, provided: &Vec<bool>, span: Span)
        requires
            old(self).inv(),
            sid < old(self).tc.structs@.len(),
            provided@.len() == old(self).tc.structs@[sid as int].fields@.len(),
        ensures
            final(self).kept(old(self)),
            final(self).tc == old(self).tc,
            (exists|j: int|
                0 <= j < provided@.len() && name_missing(old(self).tc.structs@[sid as int].fields@, provided@, j))
                ==> one_more(old(self).diags.spec_items(), final(self).diags.spec_items(), DiagCode::BadStructLiteral),
            !(exists|j: int|
                0 <= j < provided@.len() && name_missing(old(self).tc.structs@[sid as int].fields@, provided@, j))
                ==> final(self).diags == old(self).diags,
    {
        let ghost fs = self.tc.structs@[sid as int].fields@;
        let mut list = String::new();
        let mut any = false;
        let mut j: usize = 0;
        while j < self.tc.structs[sid].fields.len()
            invariant
                self.inv(),
                sid < self.tc.structs@.len(),
                fs == self.tc.structs@[sid as int].fields@,
                provided@.len() == fs.len(),
                0 <= j <= fs.len(),
                any <==> exists|q: int| 0 <= q < j && name_missing(fs, provided@, q),
            decreases fs.len() - j,
        {
            let info = &self.tc.structs[sid];
            match info.field(info.fields[j].0.as_str()) {
                Some((k, _)) => {
                    proof {
                        assert(fs[k as int].0@ == fs[j as int].0@);
                        if name_missing(fs, provided@, j as int) {
                            assert(!provided@[k as int]);
                        }
                        if !provided@[k as int] {
                            assert forall|k2: int|
                                0 <= k2 < fs.len() && fs[k2].0@ == fs[j as int].0@ && (forall|m: int|
                                    0 <= m < k2 ==> fs[m].0@ != fs[j as int].0@) implies !provided@[k2] by {
                                if k2 < k {
                                    assert(fs[k2].0@ != fs[j as int].0@);
                                } else if k2 > k {
                                    assert(fs[k as int].0@ != fs[j as int].0@);
                                }
                            }
                        }
                    }
                    if !provided[k] {
                        if any {
                            crate::text::push_str(&mut list, ", ");
                        }
                        crate::text::push_str(&mut list, info.fields[j].0.as_str());
                        any = true;
                    }
                },
                None => {
                    proof {
                        assert(fs[j as int].0@ != fs[j as int].0@);
                    }
                },
            }
            j = j + 1;
        }
        if any {
            let sname = self.tc.structs[sid].name.clone();
            let mut msg = "missing field(s) ".to_owned();
            crate::text::push_str(&mut msg, list.as_str());
            crate::text::push_str(&mut msg, " in `");
            crate::text::push_str(&mut msg, sname.as_str());
            crate::text::push_str(&mut msg, "` literal");
            self.emit(Diagnostic::error(DiagCode::BadStructLiteral, msg.as_str()).with_primary(span, "all fields must be provided"));
        }
    }
}

impl Checker {
    /// The checker's state agrees with the resolution it checks: one
    /// signature per function and one layout per struct.
    spec fn ready(&self, res: &Resolution) -> bool {
        &&& self.inv()
        &&& res.wf()
        &&& self.tc.signatures@.len() == res.functions.names().len()
        &&& self.tc.structs@.len() == res.structs.names().len()
    }

    /// Interns a tuple type, or yields the error type once the table holds
    /// as many tuple types as a `u32` can name.
    fn tuple_type(&mut self, elems: Vec<Type>) -> (t: Type)
        requires
            old(self).inv(),
        ensures
            final(self).kept(old(self)),
            final(self).diags == old(self).diags,
            final(self).tc.expr_types == old(self).tc.expr_types,
            final(self).tc.local_types == old(self).tc.local_types,
            t is Tuple || t is Error,
            t matches Type::Tuple(k) ==> (k as int) < final(self).tc.tuple_types@.len() && final(self).tc.tuple_types@[k as int]@ == elems@,
            old(self).tc.tuple_types@.len() < u32::MAX ==> t is Tuple,
    {
        if self.tc.tuple_types.len() < 4294967295usize {
            let k = self.tc.intern_tuple(elems);
            Type::Tuple(k)
        } else {
            Type::Error
        }
    }

    /// Translates a syntactic [`TypeExpr`] to a semantic [`Type`], reporting
    /// unknown type names.
    fn resolve_type(&mut self, res: &Resolution, ty: &TypeExpr) -> (t: Type)
        requires
            old(self).inv(),
            res.wf(),
        ensures
            final(self).kept(old(self)),
            final(self).tc.expr_types == old(self).tc.expr_types,
            final(self).tc.local_types == old(self).tc.local_types,
            ty.kind matches TypeExprKind::Named(n) ==> t == named_type(n@, res.structs.names()),
            ty.kind matches TypeExprKind::Named(n) ==> (named_type(n@, res.structs.names()) is Error <==> one_more(
                old(self).diags.spec_items(),
                final(self).diags.spec_items(),
                DiagCode::UnknownType,
            )),
            ty.kind matches TypeExprKind::Named(n) && !(named_type(n@, res.structs.names()) is Error) ==> final(self).diags
                == old(self).diags,
            ty.kind is Array ==> (t is Array || t is Error),
            ty.kind is Tuple ==> (t is Tuple || t is Error),
            ty.kind is Error ==> t is Error && final(self).diags == old(self).diags,
        decreases *ty,
    {
        match &ty.kind {
            TypeExprKind::Named(name) => {
                if let Some(t) = Type::from_name(name.as_str()) {
                    return t;
                }
                if let Some(id) = res.structs.lookup(name.as_str()) {
                    proof {
                        res.structs.lemma_wf();
                        let names = res.structs.names();
                        assert(names.contains(name@));
                        let i = choose|i: int| 0 <= i < names.len() && names[i] == name@;
                        assert(i == id.0 as int) by {
                            if i != id.0 as int {
                                if i < id.0 as int {
                                    assert(names[i] != names[id.0 as int]);
                                } else {
                                    assert(names[id.0 as int] != names[i]);
                                }
                            }
                        }
                    }
                    return Type::Struct(id.0);
                }
                let msg = cat3("unknown type `", name.as_str(), "`");
                let mut diag = Diagnostic::error(DiagCode::UnknownType, msg.as_str())
                    .with_primary(ty.span, "not a known type")
                    .with_help("the built-in types are i64, f64, bool, str, unit");
                let prims: Vec<&str> = vec!["i64", "f64", "bool", "str", "unit"];
                if let Some(hint) = crate::suggest::closest(name.as_str(), &prims) {
                    let help = cat3("did you mean `", hint, "`?");
                    diag = diag.with_help(help.as_str());
                }
                self.emit(diag);
                Type::Error
            },
            TypeExprKind::Array(inner) => {
                let elem_ty = self.resolve_type(res, inner);
                if elem_ty.is_error() {
                    return Type::Error;
                }
                match Elem::of(elem_ty) {
                    Some(elem) => Type::Array(elem),
                    None => {
                        let mut msg = "`".to_owned();
                        push_type(&mut msg, elem_ty);
                        crate::text::push_str(&mut msg, "` is not a valid array element type");
                        self.emit(
                            Diagnostic::error(DiagCode::BadArrayType, msg.as_str()).with_primary(
                                inner.span,
                                "array elements must be i64, f64, bool, or str",
                            ),
                        );
                        Type::Error
                    },
                }
            },
            TypeExprKind::Tuple(elem_exprs) => {
                let ghost start = *self;
                let mut elems: Vec<Type> = Vec::new();
                let mut any_error = false;
                let mut i: usize = 0;
                proof {
                    assert forall|i: int| 0 <= i < elem_exprs@.len() implies decreases_to!(*ty => #[trigger] elem_exprs@[i]) by {
                        assert(decreases_to!(*ty => elem_exprs@[i]));
                    }
                }
                while i < elem_exprs.len()
                    invariant
                        self.kept(&start),
                        start.inv(),
                        res.wf(),
                        self.tc.expr_types == start.tc.expr_types,
                        self.tc.local_types == start.tc.local_types,
                        0 <= i <= elem_exprs@.len(),
                        forall|i: int| 0 <= i < elem_exprs@.len() ==> decreases_to!(*ty => #[trigger] elem_exprs@[i]),
                    decreases elem_exprs@.len() - i,
                {
                    let ghost mid = *self;
                    let t = self.resolve_type(res, &elem_exprs[i]);
                    proof {
                        Checker::lemma_kept_trans(&start, &mid, self);
                    }
                    if t.is_error() {
                        any_error = true;
                    }
                    elems.push(t);
                    i = i + 1;
                }
                if any_error {
                    return Type::Error;
                }
                let ghost mid = *self;
                let t = self.tuple_type(elems);
                proof {
                    Checker::lemma_kept_trans(&start, &mid, self);
                }
                t
            },
            // Already reported by the parser; stay silent.
            TypeExprKind::Error => Type::Error,
        }
    }
}

/// The type a name denotes: a primitive type by its name, else a declared
/// struct, else the error type.
pub open spec fn named_type(name: Seq<char>, structs: Seq<Seq<char>>) -> Type {
    if let Some(t) = prim_named(name) {
        t
    } else if structs.contains(name) {
        Type::Struct((choose|i: int| 0 <= i < structs.len() && structs[i] == name) as u32)
    } else {
        Type::Error
    }
}

impl Checker {
    // ---- functions / blocks / statements ----

    /// Checks a block and returns its type: the tail expression's type, or
    /// `unit` if there is none.
    fn check_block(&mut self, res: &Resolution, block: &Block) -> (t: Type)
        requires
            old(self).ready(res),
        ensures
            final(self).kept(old(self)),
            block.tail is None ==> t == Type::Unit,
            block.tail matches Some(e) ==> final(self).tc.expr_types@.contains_key(e.id)
                && final(self).tc.expr_types@[e.id] == t,
        decreases *block, 3int,
    {
        let ghost start = *self;
        let mut i: usize = 0;
        while i < block.stmts.len()
            invariant
                self.kept(&start),
                start.ready(res),
                0 <= i <= block.stmts@.len(),
            decreases block.stmts@.len() - i,
        {
            let ghost mid = *self;
            proof {
                assert(decreases_to!(*block => block.stmts@[i as int]));
            }
            self.check_stmt(res, &block.stmts[i]);
            proof {
                Checker::lemma_kept_trans(&start, &mid, self);
            }
            i = i + 1;
        }
        match &block.tail {
            Some(tail) => {
                let ghost mid = *self;
                let t = self.check_expr(res, tail);
                proof {
                    Checker::lemma_kept_trans(&start, &mid, self);
                }
                t
            },
            None => Type::Unit,
        }
    }

    /// Checks a loop body one loop level deeper.
    fn check_loop_body(&mut self, res: &Resolution, body: &Block, Ghost(outer): Ghost<&Stmt>)
        requires
            old(self).ready(res),
            decreases_to!(*outer => *body),
        ensures
            final(self).kept(old(self)),
            (body.tail matches Some(e)) ==> final(self).tc.expr_types@.contains_key(body.tail->Some_0.id),
        decreases *outer, 2int,
    {
        let ghost start = *self;
        let saved = self.loop_depth;
        self.loop_depth = if saved < u32::MAX {
            saved + 1
        } else {
            saved
        };
        let ghost mid = *self;
        self.check_block(res, body);
        self.loop_depth = saved;
        proof {
            lemma_extends_trans(start.diags.spec_items(), mid.diags.spec_items(), self.diags.spec_items());
            lemma_extends_trans(start.tc.tuple_types@, mid.tc.tuple_types@, self.tc.tuple_types@);
        }
    }

    fn check_stmt(&mut self, res: &Resolution, stmt: &Stmt)
        requires
            old(self).ready(res),
        ensures
            final(self).kept(old(self)),
            stmt.kind matches StmtKind::Let(l) ==> final(self).tc.local_types@.contains_key(l.id),
        decreases *stmt, 3int,
    {
        let ghost start = *self;
        match &stmt.kind {
            StmtKind::Let(l) => {
                let init = self.check_expr(res, &l.init);
                let ghost m1 = *self;
                let ty = match &l.ty {
                    Some(annot) => {
                        let expected = self.resolve_type(res, annot);
                        if !init.compatible(expected) {
                            let msg = cat3("mismatched types in `let ", l.name.name.as_str(), "`");
                            let mut label = "expected `".to_owned();
                            push_type(&mut label, expected);
                            crate::text::push_str(&mut label, "`, found `");
                            push_type(&mut label, init);
                            crate::text::push_str(&mut label, "`");
                            self.emit(
                                Diagnostic::error(DiagCode::TypeMismatch, msg.as_str())
                                    .with_primary(l.init.span, label.as_str())
                                    .with_label(annot.span, "expected due to this annotation"),
                            );
                        }
                        expected
                    },
                    // No annotation: infer from the initialiser.
                    None => init,
                };
                proof {
                    Checker::lemma_kept_trans(&start, &m1, self);
                }
                self.tc.local_types.insert(l.id, ty);
            },
            StmtKind::Expr(e) => {
                self.check_expr(res, e);
            },
            StmtKind::Return(value) => {
                let actual = match value {
                    Some(e) => self.check_expr(res, e),
                    None => Type::Unit,
                };
                let span = match value {
                    Some(e) => e.span,
                    None => stmt.span,
                };
                let ghost m1 = *self;
                self.return_rule(actual, span);
                proof {
                    Checker::lemma_kept_trans(&start, &m1, self);
                }
            },
            StmtKind::While(w) => {
                let cond = self.check_expr(res, &w.cond);
                let ghost m1 = *self;
                self.expect(cond, Type::Bool, w.cond.span, DiagCode::NonBoolCondition, "`while` condition");
                let ghost m2 = *self;
                self.check_loop_body(res, &w.body, Ghost(stmt));
                proof {
                    Checker::lemma_kept_trans(&start, &m1, &m2);
                    Checker::lemma_kept_trans(&start, &m2, self);
                }
            },
            StmtKind::For(f) => {
                // Both bounds must be `i64`; the loop variable is then an `i64`.
                let start_ty = self.check_expr(res, &f.start);
                let ghost m1 = *self;
                self.expect(start_ty, Type::Int, f.start.span, DiagCode::TypeMismatch, "range start");
                let ghost m2 = *self;
                let end_ty = self.check_expr(res, &f.end);
                let ghost m3 = *self;
                self.expect(end_ty, Type::Int, f.end.span, DiagCode::TypeMismatch, "range end");
                self.tc.local_types.insert(f.id, Type::Int);
                let ghost m4 = *self;
                self.check_loop_body(res, &f.body, Ghost(stmt));
                proof {
                    Checker::lemma_kept_trans(&start, &m1, &m2);
                    Checker::lemma_kept_trans(&start, &m2, &m3);
                    Checker::lemma_kept_trans(&start, &m3, &m4);
                    Checker::lemma_kept_trans(&start, &m4, self);
                }
            },
            StmtKind::ForEach(f) => {
                // The iterable must be an array; the loop variable takes its
                // element type.
                let iter_ty = self.check_expr(res, &f.iterable);
                let ghost m1 = *self;
                let elem = match iter_ty {
                    Type::Array(elem) => elem.ty(),
                    Type::Error => Type::Error,
                    other => {
                        let mut msg = "`".to_owned();
                        push_type(&mut msg, other);
                        crate::text::push_str(&mut msg, "` is not iterable");
                        self.emit(
                            Diagnostic::error(DiagCode::NotIndexable, msg.as_str()).with_primary(
                                f.iterable.span,
                                "`for ... in` needs an array",
                            ),
                        );
                        Type::Error
                    },
                };
                self.tc.local_types.insert(f.id, elem);
                let ghost m2 = *self;
                self.check_loop_body(res, &f.body, Ghost(stmt));
                proof {
                    Checker::lemma_kept_trans(&start, &m1, &m2);
                    Checker::lemma_kept_trans(&start, &m2, self);
                }
            },
            StmtKind::Break => self.loop_jump_rule("break", stmt.span),
            StmtKind::Continue => self.loop_jump_rule("continue", stmt.span),
        }
    }

    // ---- expressions ----

    /// Synthesises and records the type of an expression.
    fn check_expr(&mut self, res: &Resolution, expr: &Expr) -> (t: Type)
        requires
            old(self).ready(res),
        ensures
            final(self).kept(old(self)),
            final(self).tc.expr_types@.contains_key(expr.id),
            final(self).tc.expr_types@[expr.id] == t,
            expr.kind is Int ==> t == Type::Int,
            expr.kind is Float ==> t == Type::Float,
            expr.kind is Bool ==> t == Type::Bool,
            expr.kind is Str ==> t == Type::Str,
            expr.kind is Name ==> t == name_type(use_at(res, expr.id), old(self).tc.local_types@, old(self).tc.const_types@),
        decreases *expr, 3int,
    {
        let ghost start = *self;
        let ty = match &expr.kind {
            ExprKind::Int(_) => Type::Int,
            ExprKind::Float(_) => Type::Float,
            ExprKind::Bool(_) => Type::Bool,
            ExprKind::Str(_) => Type::Str,
            ExprKind::Name(name) => self.check_name(res, expr.id, name.as_str(), expr.span),
            ExprKind::Unary { op, rhs } => {
                let t = self.check_expr(res, rhs);
                let ghost m1 = *self;
                let r = self.unary_rule(*op, t, rhs.span);
                proof {
                    Checker::lemma_kept_trans(&start, &m1, self);
                }
                r
            },
            ExprKind::Binary { op, lhs, rhs } => {
                let lt = self.check_expr(res, lhs);
                let ghost m1 = *self;
                let rt = self.check_expr(res, rhs);
                let ghost m2 = *self;
                let r = self.binary_rule(*op, lt, rt, lhs.span.to(rhs.span));
                proof {
                    Checker::lemma_kept_trans(&start, &m1, &m2);
                    Checker::lemma_kept_trans(&start, &m2, self);
                }
                r
            },
            ExprKind::Call { callee, args } => {
                proof {
                    assert forall|i: int| 0 <= i < args@.len() implies decreases_to!(*expr => #[trigger] args@[i]) by {
                        assert(decreases_to!(*expr => args@[i]));
                    }
                }
                self.check_call(res, expr, callee, args, expr.span)
            },
            ExprKind::Assign { target, value } => self.check_assign(res, expr, target, value),
            ExprKind::AssignOp { target, op, value } => self.check_assign_op(res, expr, *op, target, value),
            ExprKind::ArrayLit(elems) => {
                proof {
                    assert forall|i: int| 0 <= i < elems@.len() implies decreases_to!(*expr => #[trigger] elems@[i]) by {
                        assert(decreases_to!(*expr => elems@[i]));
                    }
                }
                self.check_array_lit(res, expr, elems, expr.span)
            },
            ExprKind::Index { base, index } => {
                let base_ty = self.check_expr(res, base);
                let ghost m1 = *self;
                let index_ty = self.check_expr(res, index);
                let ghost m2 = *self;
                self.expect(index_ty, Type::Int, index.span, DiagCode::TypeMismatch, "array index");
                let ghost m3 = *self;
                let r = self.index_rule(base_ty, base.span);
                proof {
                    Checker::lemma_kept_trans(&start, &m1, &m2);
                    Checker::lemma_kept_trans(&start, &m2, &m3);
                    Checker::lemma_kept_trans(&start, &m3, self);
                }
                r
            },
            ExprKind::StructLit { name, fields } => {
                proof {
                    assert forall|i: int| 0 <= i < fields@.len() implies decreases_to!(*expr => #[trigger] fields@[i].value) by {
                        assert(decreases_to!(*expr => fields@[i]));
                        assert(decreases_to!(fields@[i] => fields@[i].value));
                    }
                }
                self.check_struct_lit(res, expr, name, fields, expr.span)
            },
            ExprKind::Field { base, field } => {
                let base_ty = self.check_expr(res, base);
                let ghost m1 = *self;
                let r = self.field_rule(base_ty, field, base.span);
                proof {
                    Checker::lemma_kept_trans(&start, &m1, self);
                }
                r
            },
            ExprKind::TupleLit(elems) => {
                proof {
                    assert forall|i: int| 0 <= i < elems@.len() implies decreases_to!(*expr => #[trigger] elems@[i]) by {
                        assert(decreases_to!(*expr => elems@[i]));
                    }
                }
                self.check_tuple_lit(res, expr, elems)
            },
            ExprKind::TupleIndex { base, index, index_span } => {
                let base_ty = self.check_expr(res, base);
                let ghost m1 = *self;
                let r = self.tuple_index_rule(base_ty, *index, *index_span, base.span);
                proof {
                    Checker::lemma_kept_trans(&start, &m1, self);
                }
                r
            },
            ExprKind::If(if_expr) => {
                proof {
                    assert(decreases_to!(*expr => *if_expr.cond));
                    assert(decreases_to!(*expr => if_expr.then_branch));
                    if if_expr.else_branch is Some {
                        assert(decreases_to!(*expr => *if_expr.else_branch->Some_0));
                    }
                }
                self.check_if(res, expr, if_expr, expr.span)
            },
            ExprKind::Match(m) => {
                proof {
                    assert forall|i: int| 0 <= i < m.arms@.len() implies decreases_to!(*expr => #[trigger] m.arms@[i].body) by {
                        assert(decreases_to!(*expr => m.arms@[i]));
                        assert(decreases_to!(m.arms@[i] => m.arms@[i].body));
                    }
                }
                self.check_match(res, expr, m, expr.span)
            },
            ExprKind::Block(block) => self.check_block(res, block),
        };
        let ghost m = *self;
        self.tc.expr_types.insert(expr.id, ty);
        ty
    }
}

impl Checker {
    /// Types every expression of a list, for their own errors.
    fn check_each(&mut self, res: &Resolution, exprs: &Vec<Expr>, from: usize, Ghost(outer): Ghost<&Expr>)
        requires
            old(self).ready(res),
            forall|i: int| 0 <= i < exprs@.len() ==> decreases_to!(*outer => #[trigger] exprs@[i]),
        ensures
            final(self).kept(old(self)),
            from >= exprs@.len() ==> *final(self) == *old(self),
            from < exprs@.len() ==> final(self).tc.expr_types@.contains_key(exprs@.last().id),
        decreases *outer, 0int,
    {
        let ghost start = *self;
        let mut i: usize = from;
        while i < exprs.len()
            invariant
                self.kept(&start),
                from >= exprs@.len() ==> *self == start,
                from <= i,
                from < exprs@.len() ==> i <= exprs@.len(),
                from < i ==> self.tc.expr_types@.contains_key(exprs@[i - 1].id),
                start.ready(res),
                forall|i: int| 0 <= i < exprs@.len() ==> decreases_to!(*outer => #[trigger] exprs@[i]),
            decreases exprs@.len() - i,
        {
            let ghost mid = *self;
            self.check_expr(res, &exprs[i]);
            proof {
                Checker::lemma_kept_trans(&start, &mid, self);
            }
            i = i + 1;
        }
    }

    fn check_call(&mut self, res: &Resolution, outer: &Expr, callee: &Expr, args: &Vec<Expr>, span: Span) -> (t: Type)
        requires
            old(self).ready(res),
            decreases_to!(*outer => *callee),
            forall|i: int| 0 <= i < args@.len() ==> decreases_to!(*outer => #[trigger] args@[i]),
        ensures
            final(self).kept(old(self)),
            t == call_type(res, *callee, old(self).tc.signatures@),
        decreases *outer, 2int,
    {
        let ghost start = *self;
        // Calls are only valid on a function/builtin name (no function values).
        if let ExprKind::Name(name) = &callee.kind {
            match res.use_of(callee.id) {
                Some(Res::Fn(id)) => {
                    let sig_params = self.tc.signatures[id.0 as usize].params.clone();
                    let sig_name = self.tc.signatures[id.0 as usize].name.clone();
                    let ret = self.tc.signatures[id.0 as usize].ret;
                    self.check_args(res, outer, &sig_params, args, sig_name.as_str(), span);
                    return ret;
                },
                Some(Res::Builtin(b)) => {
                    if b.is_generic() {
                        return self.check_generic_builtin(res, outer, b, args, span);
                    }
                    let params = b.params();
                    self.check_args(res, outer, &params, args, b.name(), span);
                    return b.ret();
                },
                Some(Res::Local(_)) | Some(Res::Const(_)) => {
                    let msg = cat3("`", name.as_str(), "` is a value, not a function");
                    self.emit(Diagnostic::error(DiagCode::NotCallable, msg.as_str()).with_primary(callee.span, "cannot be called"));
                },
                None => {},  // unresolved; already reported
            }
        } else {
            let t = self.check_expr(res, callee);
            if !t.is_error() {
                let mut msg = "type `".to_owned();
                push_type(&mut msg, t);
                crate::text::push_str(&mut msg, "` is not callable");
                let ghost m = *self;
                self.emit(Diagnostic::error(DiagCode::NotCallable, msg.as_str()).with_primary(callee.span, "cannot be called"));
                proof {
                    Checker::lemma_kept_trans(&start, &m, self);
                }
            }
        }
        // Still type the arguments so their own errors surface.
        let ghost mid = *self;
        self.check_each(res, args, 0, Ghost(outer));
        proof {
            Checker::lemma_kept_trans(&start, &mid, self);
        }
        Type::Error
    }

    /// Checks call arity and per-argument types against a parameter list.
    fn check_args(&mut self, res: &Resolution, outer: &Expr, params: &Vec<Type>, args: &Vec<Expr>, callee: &str, span: Span)
        requires
            old(self).ready(res),
            forall|i: int| 0 <= i < args@.len() ==> decreases_to!(*outer => #[trigger] args@[i]),
        ensures
            final(self).kept(old(self)),
            params@.len() != args@.len() ==> final(self).diags.spec_items().len() > old(self).diags.spec_items().len()
                && final(self).diags.spec_items()[old(self).diags.spec_items().len() as int].code == DiagCode::ArityMismatch,
            args@.len() > 0 ==> final(self).tc.expr_types@.contains_key(args@.last().id),
        decreases *outer, 1int,
    {
        let ghost start = *self;
        if params.len() != args.len() {
            let mut msg = "`".to_owned();
            crate::text::push_str(&mut msg, callee);
            crate::text::push_str(&mut msg, "` expects ");
            crate::text::push_decimal(&mut msg, params.len() as u64);
            crate::text::push_str(&mut msg, " argument(s) but ");
            crate::text::push_decimal(&mut msg, args.len() as u64);
            crate::text::push_str(&mut msg, " were supplied");
            let mut label = "expected ".to_owned();
            crate::text::push_decimal(&mut label, params.len() as u64);
            crate::text::push_str(&mut label, " argument(s)");
            self.emit(Diagnostic::error(DiagCode::ArityMismatch, msg.as_str()).with_primary(span, label.as_str()));
        }
        let n = if params.len() < args.len() {
            params.len()
        } else {
            args.len()
        };
        let mut i: usize = 0;
        while i < n
            invariant
                self.kept(&start),
                start.ready(res),
                n <= params@.len(),
                n <= args@.len(),
                n == params@.len() || n == args@.len(),
                0 <= i <= n,
                0 < i ==> self.tc.expr_types@.contains_key(args@[i - 1].id),
                params@.len() != args@.len() ==> self.diags.spec_items().len() > start.diags.spec_items().len()
                    && self.diags.spec_items()[start.diags.spec_items().len() as int].code == DiagCode::ArityMismatch,
                forall|i: int| 0 <= i < args@.len() ==> decreases_to!(*outer => #[trigger] args@[i]),
            decreases n - i,
        {
            let ghost m1 = *self;
            let actual = self.check_expr(res, &args[i]);
            let expected = params[i];
            if !actual.compatible(expected) {
                let msg = cat3("argument to `", callee, "` has the wrong type");
                let mut label = "expected `".to_owned();
                push_type(&mut label, expected);
                crate::text::push_str(&mut label, "`, found `");
                push_type(&mut label, actual);
                crate::text::push_str(&mut label, "`");
                let ghost m2 = *self;
                self.emit(Diagnostic::error(DiagCode::TypeMismatch, msg.as_str()).with_primary(args[i].span, label.as_str()));
                proof {
                    Checker::lemma_kept_trans(&m1, &m2, self);
                }
            }
            proof {
                Checker::lemma_kept_trans(&start, &m1, self);
            }
            i = i + 1;
        }
        // Type any surplus arguments so their internal errors are still found.
        let ghost mid = *self;
        self.check_each(res, args, params.len(), Ghost(outer));
        proof {
            Checker::lemma_kept_trans(&start, &mid, self);
        }
    }

    /// Checks a call to a builtin whose signature is generic (`len`, which
    /// accepts any array).
    fn check_generic_builtin(&mut self, res: &Resolution, outer: &Expr, builtin: Builtin, args: &Vec<Expr>, span: Span) -> (t: Type)
        requires
            old(self).ready(res),
            forall|i: int| 0 <= i < args@.len() ==> decreases_to!(*outer => #[trigger] args@[i]),
        ensures
            final(self).kept(old(self)),
            t == builtin_ret(builtin),
        decreases *outer, 1int,
    {
        let ghost start = *self;
        if args.len() != 1 {
            let mut msg = "`".to_owned();
            crate::text::push_str(&mut msg, builtin.name());
            crate::text::push_str(&mut msg, "` expects 1 argument but ");
            crate::text::push_decimal(&mut msg, args.len() as u64);
            crate::text::push_str(&mut msg, " were supplied");
            self.emit(Diagnostic::error(DiagCode::ArityMismatch, msg.as_str()).with_primary(span, "expected 1 argument"));
            let ghost mid = *self;
            self.check_each(res, args, 0, Ghost(outer));
            proof {
                Checker::lemma_kept_trans(&start, &mid, self);
            }
            return builtin.ret();
        }
        let arg_ty = self.check_expr(res, &args[0]);
        if !arg_ty.is_array() && !arg_ty.is_error() {
            let mut msg = "`len` expects an array, found `".to_owned();
            push_type(&mut msg, arg_ty);
            crate::text::push_str(&mut msg, "`");
            let ghost mid = *self;
            self.emit(Diagnostic::error(DiagCode::TypeMismatch, msg.as_str()).with_primary(args[0].span, "not an array"));
            proof {
                Checker::lemma_kept_trans(&start, &mid, self);
            }
        }
        builtin.ret()
    }

    fn check_assign(&mut self, res: &Resolution, outer: &Expr, target: &Expr, value: &Expr) -> (t: Type)
        requires
            old(self).ready(res),
            decreases_to!(*outer => *target),
            decreases_to!(*outer => *value),
        ensures
            final(self).kept(old(self)),
            t == Type::Unit,
            (target.kind is Name && use_at(res, target.id) matches Some(Res::Local(def))) ==> ({
                let def = use_at(res, target.id)->Some_0->Local_0;
                let mutable = res.locals@.contains_key(def) && res.locals@[def].mutable;
                let target_ty = if final(self).tc.local_types@.contains_key(def) {
                    final(self).tc.local_types@[def]
                } else {
                    Type::Error
                };
                &&& !mutable ==> final(self).diags.spec_items().last().code == DiagCode::AssignToImmutable
                &&& mutable && value.id != target.id && !spec_compatible(final(self).tc.expr_types@[value.id], target_ty)
                    ==> final(self).diags.spec_items().last().code == DiagCode::TypeMismatch
                &&& final(self).tc.expr_types@[target.id] == target_ty
            }),
            !(target.kind is Index || target.kind is Field || target.kind is TupleIndex) && !(target.kind is Name
                && use_at(res, target.id) matches Some(Res::Local(_))) && !(final(self).tc.expr_types@[target.id] is Error)
                ==> final(self).diags.spec_items().last().code == DiagCode::InvalidAssignTarget,
        decreases *outer, 2int,
    {
        let ghost start = *self;
        match &target.kind {
            // Indexed assignment `a[i] = v`. Arrays have reference semantics,
            // so mutating an element is allowed whatever the binding's
            // `mut`-ness (only rebinding the variable requires `mut`).
            ExprKind::Index { base, index } => {
                proof {
                    assert(decreases_to!(*target => **base));
                    assert(decreases_to!(*target => **index));
                }
                let base_ty = self.check_expr(res, base);
                let ghost m1 = *self;
                let index_ty = self.check_expr(res, index);
                let ghost m2 = *self;
                let value_ty = self.check_expr(res, value);
                let ghost m3 = *self;
                self.expect(index_ty, Type::Int, index.span, DiagCode::TypeMismatch, "array index");
                let ghost m4 = *self;
                match base_ty {
                    Type::Array(elem) => self.store_rule(elem.ty(), value_ty, "element", value.span),
                    Type::Error => {},
                    other => {
                        let mut msg = "`".to_owned();
                        push_type(&mut msg, other);
                        crate::text::push_str(&mut msg, "` cannot be indexed");
                        self.emit(Diagnostic::error(DiagCode::NotIndexable, msg.as_str()).with_primary(base.span, "not an array"));
                    },
                }
                proof {
                    Checker::lemma_kept_trans(&start, &m1, &m2);
                    Checker::lemma_kept_trans(&start, &m2, &m3);
                    Checker::lemma_kept_trans(&start, &m3, &m4);
                    Checker::lemma_kept_trans(&start, &m4, self);
                }
                return Type::Unit;
            },
            // Field assignment `s.f = v`: struct fields have reference
            // semantics too, so the binding need not be `mut`.
            ExprKind::Field { base, field } => {
                proof {
                    assert(decreases_to!(*target => **base));
                }
                let base_ty = self.check_expr(res, base);
                let ghost m1 = *self;
                let field_ty = self.field_rule(base_ty, field, base.span);
                let ghost m2 = *self;
                let value_ty = self.check_expr(res, value);
                let ghost m3 = *self;
                self.store_rule(field_ty, value_ty, "field", value.span);
                proof {
                    Checker::lemma_kept_trans(&start, &m1, &m2);
                    Checker::lemma_kept_trans(&start, &m2, &m3);
                    Checker::lemma_kept_trans(&start, &m3, self);
                }
                return Type::Unit;
            },
            // Tuple element assignment `t.0 = v`.
            ExprKind::TupleIndex { base, index, index_span } => {
                proof {
                    assert(decreases_to!(*target => **base));
                }
                let base_ty = self.check_expr(res, base);
                let ghost m1 = *self;
                let elem_ty = self.tuple_index_rule(base_ty, *index, *index_span, base.span);
                let ghost m2 = *self;
                let value_ty = self.check_expr(res, value);
                let ghost m3 = *self;
                self.store_rule(elem_ty, value_ty, "tuple", value.span);
                proof {
                    Checker::lemma_kept_trans(&start, &m1, &m2);
                    Checker::lemma_kept_trans(&start, &m2, &m3);
                    Checker::lemma_kept_trans(&start, &m3, self);
                }
                return Type::Unit;
            },
            _ => {},
        }
        let value_ty = self.check_expr(res, value);
        let ghost m1 = *self;
        // The only other valid assignment target is a mutable local.
        if let ExprKind::Name(name) = &target.kind {
            if let Some(Res::Local(def)) = res.use_of(target.id) {
                let target_ty = self.tc.local_type(def);
                self.tc.expr_types.insert(target.id, target_ty);
                let mutable = match res.local(def) {
                    Some(l) => l.mutable,
                    None => false,
                };
                let ghost m2 = *self;
                self.assign_rule(name.as_str(), mutable, target_ty, value_ty, target.span, value.span);
                proof {
                    Checker::lemma_kept_trans(&start, &m1, &m2);
                    Checker::lemma_kept_trans(&start, &m2, self);
                }
                return Type::Unit;
            }
        }
        // Not a place expression.
        let t = self.check_expr(res, target);
        let ghost m2 = *self;
        if !t.is_error() {
            self.emit(
                Diagnostic::error(DiagCode::InvalidAssignTarget, "invalid assignment target").with_primary(
                    target.span,
                    "cannot assign to this expression",
                ),
            );
        }
        proof {
            Checker::lemma_kept_trans(&start, &m1, &m2);
            Checker::lemma_kept_trans(&start, &m2, self);
        }
        Type::Unit
    }

    /// Checks a compound assignment `target op= value`. The target must be a
    /// mutable local, and `target op value` must itself be well-typed and
    /// yield the target's type.
    fn check_assign_op(&mut self, res: &Resolution, outer: &Expr, op: BinOp, target: &Expr, value: &Expr) -> (t: Type)
        requires
            old(self).ready(res),
            decreases_to!(*outer => *target),
            decreases_to!(*outer => *value),
        ensures
            final(self).kept(old(self)),
            t == Type::Unit,
        decreases *outer, 2int,
    {
        let ghost start = *self;
        let target_ty = self.check_expr(res, target);
        let ghost m1 = *self;
        let value_ty = self.check_expr(res, value);
        let ghost m2 = *self;
        proof {
            Checker::lemma_kept_trans(&start, &m1, &m2);
        }
        let local = match (&target.kind, res.use_of(target.id)) {
            (ExprKind::Name(name), Some(Res::Local(def))) => Some((name, def)),
            _ => None,
        };
        match local {
            None => {
                if !target_ty.is_error() {
                    self.emit(
                        Diagnostic::error(DiagCode::InvalidAssignTarget, "invalid compound-assignment target")
                            .with_primary(target.span, "cannot assign to this expression"),
                    );
                }
                proof {
                    Checker::lemma_kept_trans(&start, &m2, self);
                }
                Type::Unit
            },
            Some((name, def)) => {
                let mutable = match res.local(def) {
                    Some(l) => l.mutable,
                    None => false,
                };
                if !mutable && !target_ty.is_error() {
                    let msg = cat3("cannot assign to immutable binding `", name.as_str(), "`");
                    let help = cat3("declare it with `let mut ", name.as_str(), "`");
                    self.emit(
                        Diagnostic::error(DiagCode::AssignToImmutable, msg.as_str())
                            .with_primary(target.span, "binding is not mutable")
                            .with_help(help.as_str()),
                    );
                }
                let ghost m3 = *self;
                // The operator must apply and keep the target's type.
                let operands_ok = target_ty.is_error() || value_ty.is_error() || (target_ty == value_ty
                    && target_ty.is_numeric());
                if !operands_ok {
                    self.operand_error(op, target_ty, value_ty, target.span.to(value.span));
                }
                proof {
                    Checker::lemma_kept_trans(&start, &m2, &m3);
                    Checker::lemma_kept_trans(&start, &m3, self);
                }
                Type::Unit
            },
        }
    }

    /// Checks an array literal. All elements must share one primitive type.
    fn check_array_lit(&mut self, res: &Resolution, outer: &Expr, elems: &Vec<Expr>, span: Span) -> (t: Type)
        requires
            old(self).ready(res),
            forall|i: int| 0 <= i < elems@.len() ==> decreases_to!(*outer => #[trigger] elems@[i]),
        ensures
            final(self).kept(old(self)),
            t is Array || t is Error,
            elems@.len() == 0 ==> t is Error && one_more(
                old(self).diags.spec_items(),
                final(self).diags.spec_items(),
                DiagCode::BadArrayType,
            ),
        decreases *outer, 2int,
    {
        let ghost start = *self;
        if elems.len() == 0 {
            self.emit(
                Diagnostic::error(DiagCode::BadArrayType, "cannot infer the type of an empty array literal")
                    .with_primary(span, "give it at least one element")
                    .with_help("empty arrays are not yet supported"),
            );
            return Type::Error;
        }
        let first = self.check_expr(res, &elems[0]);
        let mut i: usize = 1;
        while i < elems.len()
            invariant
                self.kept(&start),
                start.ready(res),
                1 <= i <= elems@.len(),
                forall|i: int| 0 <= i < elems@.len() ==> decreases_to!(*outer => #[trigger] elems@[i]),
            decreases elems@.len() - i,
        {
            let ghost m1 = *self;
            let t = self.check_expr(res, &elems[i]);
            if !t.compatible(first) {
                let mut label = "expected `".to_owned();
                push_type(&mut label, first);
                crate::text::push_str(&mut label, "`, found `");
                push_type(&mut label, t);
                crate::text::push_str(&mut label, "`");
                let ghost m2 = *self;
                self.emit(
                    Diagnostic::error(DiagCode::TypeMismatch, "array elements have differing types").with_primary(
                        elems[i].span,
                        label.as_str(),
                    ),
                );
                proof {
                    Checker::lemma_kept_trans(&m1, &m2, self);
                }
            }
            proof {
                Checker::lemma_kept_trans(&start, &m1, self);
            }
            i = i + 1;
        }
        if first.is_error() {
            return Type::Error;
        }
        match Elem::of(first) {
            Some(elem) => Type::Array(elem),
            None => {
                let mut msg = "`".to_owned();
                push_type(&mut msg, first);
                crate::text::push_str(&mut msg, "` is not a valid array element type");
                let ghost m = *self;
                self.emit(
                    Diagnostic::error(DiagCode::BadArrayType, msg.as_str()).with_primary(
                        elems[0].span,
                        "elements must be i64, f64, bool, or str",
                    ),
                );
                proof {
                    Checker::lemma_kept_trans(&start, &m, self);
                }
                Type::Error
            },
        }
    }

    /// Checks a tuple literal, interning its element types into a tuple type.
    fn check_tuple_lit(&mut self, res: &Resolution, outer: &Expr, elems: &Vec<Expr>) -> (t: Type)
        requires
            old(self).ready(res),
            forall|i: int| 0 <= i < elems@.len() ==> decreases_to!(*outer => #[trigger] elems@[i]),
        ensures
            final(self).kept(old(self)),
            t is Tuple || t is Error,
        decreases *outer, 2int,
    {
        let ghost start = *self;
        let mut tys: Vec<Type> = Vec::new();
        let mut any_error = false;
        let mut i: usize = 0;
        while i < elems.len()
            invariant
                self.kept(&start),
                start.ready(res),
                0 <= i <= elems@.len(),
                forall|i: int| 0 <= i < elems@.len() ==> decreases_to!(*outer => #[trigger] elems@[i]),
            decreases elems@.len() - i,
        {
            let ghost m1 = *self;
            let t = self.check_expr(res, &elems[i]);
            proof {
                Checker::lemma_kept_trans(&start, &m1, self);
            }
            if t.is_error() {
                any_error = true;
            }
            tys.push(t);
            i = i + 1;
        }
        if any_error {
            return Type::Error;
        }
        let ghost m = *self;
        let t = self.tuple_type(tys);
        proof {
            Checker::lemma_kept_trans(&start, &m, self);
        }
        t
    }
}

impl Checker {
    /// Checks a struct literal `Name { field: value, ... }`: every field must
    /// exist, be given once, have its declared type, and none may be left out.
    fn check_struct_lit(&mut self, res: &Resolution, outer: &Expr, name: &Ident, fields: &Vec<FieldInit>, span: Span) -> (t: Type)
        requires
            old(self).ready(res),
            forall|i: int| 0 <= i < fields@.len() ==> decreases_to!(*outer => #[trigger] fields@[i].value),
        ensures
            final(self).kept(old(self)),
            res.structs.names().contains(name.name@) ==> t is Struct,
            !res.structs.names().contains(name.name@) ==> t is Error,
            t matches Type::Struct(k) ==> k < res.structs.names().len() && res.structs.names()[k as int] == name.name@,
            t is Error ==> final(self).diags.spec_items().last().code == DiagCode::BadStructLiteral,
            t is Struct ==> forall|j: int|
                0 <= j < fields@.len() && !field_declared(
                    final(self).tc.structs@[t->Struct_0 as int].fields@,
                    #[trigger] fields@[j].name.name@,
                ) ==> exists|q: int|
                    old(self).diags.spec_items().len() <= q < final(self).diags.spec_items().len()
                        && (#[trigger] final(self).diags.spec_items()[q]).code == DiagCode::UnknownField,
            t is Struct && (exists|d: int|
                0 <= d < final(self).tc.structs@[t->Struct_0 as int].fields@.len() && !field_given(
                    fields@,
                    #[trigger] final(self).tc.structs@[t->Struct_0 as int].fields@[d].0@,
                )) ==> final(self).diags.spec_items().last().code == DiagCode::BadStructLiteral,
        decreases *outer, 2int,
    {
        let ghost start = *self;
        let id = match res.structs.lookup(name.name.as_str()) {
            Some(id) => id,
            None => {
                // Type the field values anyway so their own errors surface.
                let mut i: usize = 0;
                while i < fields.len()
                    invariant
                        self.kept(&start),
                        start.ready(res),
                        0 <= i <= fields@.len(),
                        forall|i: int| 0 <= i < fields@.len() ==> decreases_to!(*outer => #[trigger] fields@[i].value),
                    decreases fields@.len() - i,
                {
                    let ghost m1 = *self;
                    self.check_expr(res, &fields[i].value);
                    proof {
                        Checker::lemma_kept_trans(&start, &m1, self);
                    }
                    i = i + 1;
                }
                let msg = cat3("`", name.name.as_str(), "` is not a struct");
                let ghost m = *self;
                self.emit(Diagnostic::error(DiagCode::BadStructLiteral, msg.as_str()).with_primary(name.span, "unknown struct"));
                proof {
                    Checker::lemma_kept_trans(&start, &m, self);
                }
                return Type::Error;
            },
        };
        let sid = id.0 as usize;
        let nf = self.tc.structs[sid].fields.len();
        // Which declared fields (by the first index of their name) were given.
        let mut provided: Vec<bool> = Vec::new();
        let mut k: usize = 0;
        while k < nf
            invariant
                0 <= k <= nf,
                provided@.len() == k,
                forall|p: int| 0 <= p < k ==> !provided@[p],
            decreases nf - k,
        {
            provided.push(false);
            k = k + 1;
        }
        let mut i: usize = 0;
        while i < fields.len()
            invariant
                self.kept(&start),
                start.ready(res),
                sid < self.tc.structs@.len(),
                nf == self.tc.structs@[sid as int].fields@.len(),
                provided@.len() == nf,
                0 <= i <= fields@.len(),
                self.tc.structs == start.tc.structs,
                forall|k: int|
                    0 <= k < nf && #[trigger] provided@[k] ==> exists|j: int|
                        0 <= j < i && fields@[j].name.name@ == self.tc.structs@[sid as int].fields@[k].0@,
                forall|j: int|
                    0 <= j < i && !field_declared(self.tc.structs@[sid as int].fields@, #[trigger] fields@[j].name.name@)
                        ==> exists|q: int|
                        start.diags.spec_items().len() <= q < self.diags.spec_items().len()
                            && (#[trigger] self.diags.spec_items()[q]).code == DiagCode::UnknownField,
                forall|i: int| 0 <= i < fields@.len() ==> decreases_to!(*outer => #[trigger] fields@[i].value),
            decreases fields@.len() - i,
        {
            let f = &fields[i];
            let ghost m1 = *self;
            let ghost p1 = provided@;
            let ghost mut unknown = false;
            let actual = self.check_expr(res, &f.value);
            let ghost m2 = *self;
            match self.tc.structs[sid].field(f.name.name.as_str()) {
                Some((k, expected)) => {
                    if provided[k] {
                        let msg = cat3("field `", f.name.name.as_str(), "` specified more than once");
                        self.emit(Diagnostic::error(DiagCode::BadStructLiteral, msg.as_str()).with_primary(f.name.span, "duplicate field"));
                    } else {
                        provided.set(k, true);
                    }
                    let ghost m3 = *self;
                    if !actual.compatible(expected) {
                        let msg = cat3("field `", f.name.name.as_str(), "` has the wrong type");
                        let mut label = "expected `".to_owned();
                        push_type(&mut label, expected);
                        crate::text::push_str(&mut label, "`, found `");
                        push_type(&mut label, actual);
                        crate::text::push_str(&mut label, "`");
                        self.emit(Diagnostic::error(DiagCode::TypeMismatch, msg.as_str()).with_primary(f.value.span, label.as_str()));
                    }
                    proof {
                        Checker::lemma_kept_trans(&m2, &m3, self);
                    }
                },
                None => {
                    let sname = self.tc.structs[sid].name.clone();
                    let mut msg = "struct `".to_owned();
                    crate::text::push_str(&mut msg, sname.as_str());
                    crate::text::push_str(&mut msg, "` has no field `");
                    crate::text::push_str(&mut msg, f.name.name.as_str());
                    crate::text::push_str(&mut msg, "`");
                    self.emit(Diagnostic::error(DiagCode::UnknownField, msg.as_str()).with_primary(f.name.span, "no such field"));
                    proof {
                        unknown = true;
                        assert(self.diags.spec_items()[m2.diags.spec_items().len() as int].code == DiagCode::UnknownField);
                    }
                },
            }
            proof {
                Checker::lemma_kept_trans(&start, &m1, &m2);
                Checker::lemma_kept_trans(&start, &m2, self);
                Checker::lemma_kept_trans(&m1, &m2, self);
                let fs = self.tc.structs@[sid as int].fields@;
                assert forall|j: int|
                    0 <= j < i + 1 && !field_declared(fs, #[trigger] fields@[j].name.name@)
                    implies exists|q: int|
                    start.diags.spec_items().len() <= q < self.diags.spec_items().len()
                        && (#[trigger] self.diags.spec_items()[q]).code == DiagCode::UnknownField by {
                    if j < i {
                        assert(m1.tc.structs == self.tc.structs);
                        assert(exists|q: int|
                            start.diags.spec_items().len() <= q < m1.diags.spec_items().len()
                                && (#[trigger] m1.diags.spec_items()[q]).code == DiagCode::UnknownField);
                        let q = choose|q: int|
                            start.diags.spec_items().len() <= q < m1.diags.spec_items().len()
                                && (#[trigger] m1.diags.spec_items()[q]).code == DiagCode::UnknownField;
                        assert(extends(m1.diags.spec_items(), self.diags.spec_items()));
                        assert(self.diags.spec_items()[q] == m1.diags.spec_items()[q]);
                    } else {
                        assert(unknown);
                        let q = m2.diags.spec_items().len() as int;
                        assert(self.diags.spec_items()[q].code == DiagCode::UnknownField);
                    }
                }
                assert forall|k: int|
                    0 <= k < nf && #[trigger] provided@[k] implies exists|j: int|
                    0 <= j < i + 1 && fields@[j].name.name@ == fs[k].0@ by {
                    if p1[k] {
                        let j = choose|j: int| 0 <= j < i && fields@[j].name.name@ == fs[k].0@;
                        assert(0 <= j < i + 1);
                    }
                }
            }
            i = i + 1;
        }
        // Every declared field must be supplied.
        let ghost m = *self;
        self.missing_fields_rule(sid, &provided, span);
        proof {
            Checker::lemma_kept_trans(&start, &m, self);
            let fs = self.tc.structs@[sid as int].fields@;
            assert forall|j: int|
                0 <= j < fields@.len() && !field_declared(fs, #[trigger] fields@[j].name.name@)
                implies exists|q: int|
                start.diags.spec_items().len() <= q < self.diags.spec_items().len()
                    && (#[trigger] self.diags.spec_items()[q]).code == DiagCode::UnknownField by {
                assert(m.tc.structs == self.tc.structs);
                assert(exists|q: int|
                    start.diags.spec_items().len() <= q < m.diags.spec_items().len()
                        && (#[trigger] m.diags.spec_items()[q]).code == DiagCode::UnknownField);
                let q = choose|q: int|
                    start.diags.spec_items().len() <= q < m.diags.spec_items().len()
                        && (#[trigger] m.diags.spec_items()[q]).code == DiagCode::UnknownField;
                assert(extends(m.diags.spec_items(), self.diags.spec_items()));
                assert(self.diags.spec_items()[q] == m.diags.spec_items()[q]);
            }
            if exists|d: int| 0 <= d < fs.len() && !field_given(fields@, #[trigger] fs[d].0@) {
                let d = choose|d: int| 0 <= d < fs.len() && !field_given(fields@, #[trigger] fs[d].0@);
                assert(name_missing(fs, provided@, d)) by {
                    assert forall|k: int|
                        0 <= k < fs.len() && fs[k].0@ == fs[d].0@ && (forall|q: int| 0 <= q < k ==> fs[q].0@ != fs[d].0@)
                        implies !provided@[k] by {
                        if provided@[k] {
                            let j = choose|j: int| 0 <= j < i && fields@[j].name.name@ == fs[k].0@;
                            assert(fields@[j].name.name@ != fs[d].0@);
                        }
                    }
                }
                assert(self.diags.spec_items().last().code == DiagCode::BadStructLiteral);
            }
            assert(sid as int == id.0 as int);
        }
        Type::Struct(id.0)
    }

    fn check_if(&mut self, res: &Resolution, outer: &Expr, if_expr: &IfExpr, span: Span) -> (t: Type)
        requires
            old(self).ready(res),
            decreases_to!(*outer => *if_expr.cond),
            decreases_to!(*outer => if_expr.then_branch),
            if_expr.else_branch is Some ==> decreases_to!(*outer => *if_expr.else_branch->Some_0),
        ensures
            final(self).kept(old(self)),
            if_expr.else_branch is None ==> t == Type::Unit,
            (if_expr.else_branch matches Some(e)) && if_expr.then_branch.tail is None ==> t == join_type(
                Type::Unit,
                final(self).tc.expr_types@[if_expr.else_branch->Some_0.id],
            ),
        decreases *outer, 2int,
    {
        let ghost start = *self;
        let cond = self.check_expr(res, &if_expr.cond);
        let ghost m1 = *self;
        self.expect(cond, Type::Bool, if_expr.cond.span, DiagCode::NonBoolCondition, "`if` condition");
        let ghost m2 = *self;
        let then_ty = self.check_block(res, &if_expr.then_branch);
        let ghost m3 = *self;
        proof {
            Checker::lemma_kept_trans(&start, &m1, &m2);
            Checker::lemma_kept_trans(&start, &m2, &m3);
        }
        match &if_expr.else_branch {
            Some(else_branch) => {
                let else_ty = self.check_expr(res, else_branch);
                let ghost m4 = *self;
                let r = self.if_else_rule(then_ty, else_ty, span);
                proof {
                    Checker::lemma_kept_trans(&start, &m3, &m4);
                    Checker::lemma_kept_trans(&start, &m4, self);
                }
                r
            },
            // Without `else`, the `if` yields unit, so the then-branch must too.
            None => {
                let r = self.if_without_else_rule(then_ty, if_expr.then_branch.span);
                proof {
                    Checker::lemma_kept_trans(&start, &m3, self);
                }
                r
            },
        }
    }

    /// Checks a `match`: the scrutinee must be a scalar (`i64` or `bool`),
    /// every pattern must match its type, all arm bodies must share a type,
    /// and the arms together must be exhaustive.
    fn check_match(&mut self, res: &Resolution, outer: &Expr, m: &MatchExpr, span: Span) -> (t: Type)
        requires
            old(self).ready(res),
            decreases_to!(*outer => *m.scrutinee),
            forall|i: int| 0 <= i < m.arms@.len() ==> decreases_to!(*outer => #[trigger] m.arms@[i].body),
        ensures
            final(self).kept(old(self)),
            m.arms@.len() == 0 ==> t == Type::Unit,
        decreases *outer, 2int,
    {
        let ghost start = *self;
        let scrut = self.check_expr(res, &m.scrutinee);
        let scalar = scrut == Type::Int || scrut == Type::Bool;
        if !scrut.is_error() && !scalar {
            let mut msg = "cannot `match` on a value of type `".to_owned();
            push_type(&mut msg, scrut);
            crate::text::push_str(&mut msg, "`");
            let ghost m0 = *self;
            self.emit(
                Diagnostic::error(DiagCode::TypeMismatch, msg.as_str())
                    .with_primary(m.scrutinee.span, "only `i64` and `bool` can be matched")
                    .with_help("`match` compares the scrutinee against scalar literals"),
            );
            proof {
                Checker::lemma_kept_trans(&start, &m0, self);
            }
        }
        let mut result: Option<Type> = None;
        let mut has_wild = false;
        let mut saw_true = false;
        let mut saw_false = false;
        let mut i: usize = 0;
        while i < m.arms.len()
            invariant
                self.kept(&start),
                start.ready(res),
                0 <= i <= m.arms@.len(),
                i == 0 ==> result is None,
                forall|i: int| 0 <= i < m.arms@.len() ==> decreases_to!(*outer => #[trigger] m.arms@[i].body),
            decreases m.arms@.len() - i,
        {
            let arm = &m.arms[i];
            let ghost m1 = *self;
            self.arm_pattern_rule(arm.pattern, scrut, arm.span);
            match arm.pattern {
                Pattern::Wild => has_wild = true,
                Pattern::Bool(true) => saw_true = true,
                Pattern::Bool(false) => saw_false = true,
                Pattern::Int(_) => {},
            }
            let ghost m2 = *self;
            let body_ty = self.check_expr(res, &arm.body);
            let ghost m3 = *self;
            let joined = self.arm_join_rule(result, body_ty, arm.span);
            result = Some(joined);
            proof {
                Checker::lemma_kept_trans(&m1, &m2, &m3);
                Checker::lemma_kept_trans(&m1, &m3, self);
                Checker::lemma_kept_trans(&start, &m1, self);
            }
            i = i + 1;
        }
        // A `bool` match is exhaustive once both values appear; any match with
        // a wildcard is exhaustive. Otherwise (notably `i64`) it is not.
        if !scrut.is_error() {
            let ghost m4 = *self;
            self.exhaustive_rule(scrut, has_wild, saw_true, saw_false, span);
            proof {
                Checker::lemma_kept_trans(&start, &m4, self);
            }
        }
        match result {
            Some(t) => t,
            None => Type::Unit,
        }
    }
}

/// The valid entry point: the function named `main`, if it takes no
/// parameters and returns `unit`.
pub open spec fn valid_main(names: Seq<Seq<char>>, sigs: Seq<FnSig>) -> Option<FnId> {
    if exists|k: int| 0 <= k < names.len() && names[k] == "main"@ {
        let k = choose|k: int| 0 <= k < names.len() && names[k] == "main"@;
        if sigs[k].params@.len() == 0 && sigs[k].ret is Unit {
            Some(FnId(k as u32))
        } else {
            None
        }
    } else {
        None
    }
}

impl Checker {
    /// What the collection passes keep: like [`Checker::kept`], but the
    /// struct and signature tables may be filled in.
    spec fn grew(&self, before: &Checker) -> bool {
        &&& self.inv()
        &&& extends(before.diags.spec_items(), self.diags.spec_items())
        &&& extends(before.tc.tuple_types@, self.tc.tuple_types@)
        &&& self.tc.const_types == before.tc.const_types
        &&& self.tc.const_values == before.tc.const_values
        &&& self.tc.main == before.tc.main
        &&& self.cur_ret == before.cur_ret
        &&& self.loop_depth == before.loop_depth
    }

    proof fn lemma_grew_trans(a: &Checker, b: &Checker, c: &Checker)
        requires
            b.grew(a),
            c.grew(b),
        ensures
            c.grew(a),
    {
        lemma_extends_trans(a.diags.spec_items(), b.diags.spec_items(), c.diags.spec_items());
        lemma_extends_trans(a.tc.tuple_types@, b.tc.tuple_types@, c.tc.tuple_types@);
    }

    /// Resolves the field types of every struct up front, so struct types can
    /// be named anywhere (including before the struct's own declaration).
    fn collect_structs(&mut self, ast: &Ast, res: &Resolution)
        requires
            old(self).inv(),
            res.wf(),
            tables_match(res, ast.items@),
            old(self).tc.structs@.len() == 0,
        ensures
            final(self).grew(old(self)),
            final(self).tc.signatures == old(self).tc.signatures,
            final(self).tc.structs@.len() == res.structs.names().len(),
            forall|i: int| 0 <= i < res.structs.names().len() ==> (#[trigger] final(self).tc.structs@[i]).name@ == res.structs.names()[i],
    {
        let ghost start = *self;
        let ghost items = ast.items@;
        let n_items = ast.items.len();
        proof {
            lemma_declared_kind(items, items.len(), 2);
            res.structs.lemma_wf();
        }
        let pairs = res.structs.iter();
        let mut i: usize = 0;
        while i < pairs.len()
            invariant
                self.grew(&start),
                start.inv(),
                res.wf(),
                tables_match(res, items),
                items == ast.items@,
                self.tc.signatures == start.tc.signatures,
                pairs@.len() == res.structs.items().len(),
                res.structs.items().len() == res.structs.names().len(),
                forall|k: int| 0 <= k < pairs@.len() ==> #[trigger] pairs@[k] == (StructId(k as u32), res.structs.items()[k]),
                forall|k: int| 0 <= k < declared(items, items.len(), 2).len() ==> {
                    &&& (#[trigger] declared(items, items.len(), 2)[k]) < items.len()
                    &&& item_tag(items[declared(items, items.len(), 2)[k] as int]) == 2
                },
                0 <= i <= pairs@.len(),
                self.tc.structs@.len() == i,
                forall|k: int| 0 <= k < i ==> (#[trigger] self.tc.structs@[k]).name@ == res.structs.names()[k],
            decreases pairs@.len() - i,
        {
            let item_idx = pairs[i].1;
            proof {
                assert(item_idx == declared(items, items.len(), 2)[i as int]);
            }
            match &ast.items[item_idx].kind {
                ItemKind::Struct(decl) => {
                    let ghost iter_start = *self;
                    let mut fields: Vec<(String, Type)> = Vec::new();
                    let mut seen: Vec<&str> = Vec::new();
                    let mut j: usize = 0;
                    while j < decl.fields.len()
                        invariant
                            self.grew(&iter_start),
                            iter_start.inv(),
                            res.wf(),
                            self.tc.structs == iter_start.tc.structs,
                            self.tc.signatures == iter_start.tc.signatures,
                            0 <= j <= decl.fields@.len(),
                        decreases decl.fields@.len() - j,
                    {
                        let field = &decl.fields[j];
                        let mut dup = false;
                        let mut q: usize = 0;
                        while q < seen.len()
                            invariant
                                0 <= q <= seen@.len(),
                            decreases seen@.len() - q,
                        {
                            if str_eq(seen[q], field.name.name.as_str()) {
                                dup = true;
                            }
                            q = q + 1;
                        }
                        let ghost m1 = *self;
                        if dup {
                            let msg = cat3("field `", field.name.name.as_str(), "` is declared more than once");
                            self.emit(Diagnostic::error(DiagCode::BadStructLiteral, msg.as_str()).with_primary(field.name.span, "duplicate field"));
                        } else {
                            seen.push(field.name.name.as_str());
                        }
                        let ghost m2 = *self;
                        let ty = self.resolve_type(res, &field.ty);
                        proof {
                            Checker::lemma_grew_trans(&iter_start, &m1, &m2);
                            Checker::lemma_grew_trans(&iter_start, &m2, self);
                        }
                        fields.push((field.name.name.clone(), ty));
                        j = j + 1;
                    }
                    let ghost before = self.tc.structs@;
                    self.tc.structs.push(StructInfo { name: decl.name.name.clone(), fields });
                    proof {
                        assert(res.structs.names()[i as int] == item_name(items[item_idx as int]));
                        assert forall|k: int| 0 <= k < i + 1 implies (#[trigger] self.tc.structs@[k]).name@
                            == res.structs.names()[k] by {
                            if k < i {
                                assert(self.tc.structs@[k] == before[k]);
                            }
                        }
                        Checker::lemma_grew_trans(&start, &iter_start, self);
                    }
                },
                _ => {
                    proof {
                        assert(false);
                    }
                },
            }
            i = i + 1;
        }
    }

    /// Resolves every function's parameter and return types up front, so
    /// that calls can be checked regardless of declaration order.
    fn collect_signatures(&mut self, ast: &Ast, res: &Resolution)
        requires
            old(self).inv(),
            res.wf(),
            tables_match(res, ast.items@),
            old(self).tc.signatures@.len() == 0,
        ensures
            final(self).grew(old(self)),
            final(self).tc.structs == old(self).tc.structs,
            final(self).tc.signatures@.len() == res.functions.names().len(),
            forall|i: int| 0 <= i < res.functions.names().len() ==> (#[trigger] final(self).tc.signatures@[i]).name@
                == res.functions.names()[i],
    {
        let ghost start = *self;
        let ghost items = ast.items@;
        let n_items = ast.items.len();
        proof {
            lemma_declared_kind(items, items.len(), 0);
            res.functions.lemma_wf();
        }
        let pairs = res.functions.iter();
        let mut i: usize = 0;
        while i < pairs.len()
            invariant
                self.grew(&start),
                start.inv(),
                res.wf(),
                tables_match(res, items),
                items == ast.items@,
                self.tc.structs == start.tc.structs,
                pairs@.len() == res.functions.items().len(),
                res.functions.items().len() == res.functions.names().len(),
                forall|k: int| 0 <= k < pairs@.len() ==> #[trigger] pairs@[k] == (FnId(k as u32), res.functions.items()[k]),
                forall|k: int| 0 <= k < declared(items, items.len(), 0).len() ==> {
                    &&& (#[trigger] declared(items, items.len(), 0)[k]) < items.len()
                    &&& item_tag(items[declared(items, items.len(), 0)[k] as int]) == 0
                },
                0 <= i <= pairs@.len(),
                self.tc.signatures@.len() == i,
                forall|k: int| 0 <= k < i ==> (#[trigger] self.tc.signatures@[k]).name@ == res.functions.names()[k],
            decreases pairs@.len() - i,
        {
            let item_idx = pairs[i].1;
            proof {
                assert(item_idx == declared(items, items.len(), 0)[i as int]);
            }
            match &ast.items[item_idx].kind {
                ItemKind::Fn(decl) => {
                    let ghost iter_start = *self;
                    let mut params: Vec<Type> = Vec::new();
                    let mut j: usize = 0;
                    while j < decl.params.len()
                        invariant
                            self.grew(&iter_start),
                            iter_start.inv(),
                            res.wf(),
                            self.tc.structs == iter_start.tc.structs,
                            self.tc.signatures == iter_start.tc.signatures,
                            0 <= j <= decl.params@.len(),
                            params@.len() == j,
                        decreases decl.params@.len() - j,
                    {
                        let p = &decl.params[j];
                        let ghost m1 = *self;
                        let ty = self.resolve_type(res, &p.ty);
                        self.tc.local_types.insert(p.id, ty);
                        proof {
                            Checker::lemma_grew_trans(&iter_start, &m1, self);
                        }
                        params.push(ty);
                        j = j + 1;
                    }
                    let ghost m2 = *self;
                    let ret = match &decl.ret {
                        Some(t) => self.resolve_type(res, t),
                        None => Type::Unit,
                    };
                    let ghost before = self.tc.signatures@;
                    self.tc.signatures.push(FnSig { name: decl.name.name.clone(), params, ret });
                    proof {
                        assert(res.functions.names()[i as int] == item_name(items[item_idx as int]));
                        assert forall|k: int| 0 <= k < i + 1 implies (#[trigger] self.tc.signatures@[k]).name@
                            == res.functions.names()[k] by {
                            if k < i {
                                assert(self.tc.signatures@[k] == before[k]);
                            }
                        }
                        Checker::lemma_grew_trans(&iter_start, &m2, self);
                        Checker::lemma_grew_trans(&start, &iter_start, self);
                    }
                },
                _ => {
                    proof {
                        assert(false);
                    }
                },
            }
            i = i + 1;
        }
    }
}

impl Checker {
    /// Type-checks and evaluates every top-level constant, in declaration
    /// order. A constant may reference only constants declared before it.
    fn check_consts(&mut self, ast: &Ast, res: &Resolution)
        requires
            old(self).ready(res),
            tables_match(res, ast.items@),
            old(self).tc.const_types@.len() == 0,
            old(self).tc.const_values@.len() == 0,
        ensures
            final(self).ready(res),
            extends(old(self).diags.spec_items(), final(self).diags.spec_items()),
            final(self).tc.signatures == old(self).tc.signatures,
            final(self).tc.structs == old(self).tc.structs,
            final(self).tc.main == old(self).tc.main,
            final(self).cur_ret == old(self).cur_ret,
            final(self).loop_depth == old(self).loop_depth,
            final(self).tc.const_types@.len() == res.consts.names().len(),
            final(self).tc.const_values@.len() == res.consts.names().len(),
            forall|i: int| 0 <= i < res.consts.names().len() ==> {
                &&& ast.items@[res.consts.items()[i] as int].kind is Const
                &&& (const_eval(
                    ast.items@[res.consts.items()[i] as int].kind->Const_0.value,
                    res.uses@,
                    final(self).tc.const_values@.take(i),
                ) matches Some(v) ==> #[trigger] final(self).tc.const_values@[i] == v)
            },
    {
        let ghost start = *self;
        let ghost items = ast.items@;
        let n_items = ast.items.len();
        proof {
            lemma_declared_kind(items, items.len(), 1);
            res.consts.lemma_wf();
        }
        let pairs = res.consts.iter();
        let mut i: usize = 0;
        while i < pairs.len()
            invariant
                self.ready(res),
                start.ready(res),
                tables_match(res, items),
                items == ast.items@,
                extends(start.diags.spec_items(), self.diags.spec_items()),
                self.tc.signatures == start.tc.signatures,
                self.tc.structs == start.tc.structs,
                self.tc.main == start.tc.main,
                self.cur_ret == start.cur_ret,
                self.loop_depth == start.loop_depth,
                pairs@.len() == res.consts.items().len(),
                res.consts.items().len() == res.consts.names().len(),
                forall|k: int| 0 <= k < pairs@.len() ==> #[trigger] pairs@[k] == (ConstId(k as u32), res.consts.items()[k]),
                forall|k: int| 0 <= k < declared(items, items.len(), 1).len() ==> {
                    &&& (#[trigger] declared(items, items.len(), 1)[k]) < items.len()
                    &&& item_tag(items[declared(items, items.len(), 1)[k] as int]) == 1
                },
                0 <= i <= pairs@.len(),
                self.tc.const_types@.len() == i,
                self.tc.const_values@.len() == i,
                forall|k: int| 0 <= k < i ==> {
                    &&& items[res.consts.items()[k] as int].kind is Const
                    &&& (const_eval(
                        items[res.consts.items()[k] as int].kind->Const_0.value,
                        res.uses@,
                        self.tc.const_values@.take(k),
                    ) matches Some(v) ==> #[trigger] self.tc.const_values@[k] == v)
                },
            decreases pairs@.len() - i,
        {
            let item_idx = pairs[i].1;
            proof {
                assert(item_idx == declared(items, items.len(), 1)[i as int]);
            }
            match &ast.items[item_idx].kind {
                ItemKind::Const(decl) => {
                    let ghost m0 = *self;
                    let declared_ty = self.resolve_type(res, &decl.ty);
                    let ghost m1 = *self;
                    let value_ty = self.check_expr(res, &decl.value);
                    let ghost m2 = *self;
                    if !value_ty.compatible(declared_ty) {
                        let msg = cat3("mismatched types in `const ", decl.name.name.as_str(), "`");
                        let mut label = "expected `".to_owned();
                        push_type(&mut label, declared_ty);
                        crate::text::push_str(&mut label, "`, found `");
                        push_type(&mut label, value_ty);
                        crate::text::push_str(&mut label, "`");
                        self.emit(
                            Diagnostic::error(DiagCode::TypeMismatch, msg.as_str())
                                .with_primary(decl.value.span, label.as_str())
                                .with_label(decl.ty.span, "expected due to this annotation"),
                        );
                    }
                    let ghost m3 = *self;
                    let value = match self.eval_const(res, &decl.value) {
                        Some(v) => v,
                        None => {
                            // Only report a separate "not constant" error when
                            // the value was otherwise well-typed.
                            if !value_ty.is_error() {
                                let msg = cat3("`const ", decl.name.name.as_str(), "` is not a constant expression");
                                self.emit(
                                    Diagnostic::error(DiagCode::NotConstant, msg.as_str())
                                        .with_primary(decl.value.span, "must be evaluable at compile time")
                                        .with_note("constants may use literals, operators, and earlier constants"),
                                );
                            }
                            default_const_value(declared_ty)
                        },
                    };
                    proof {
                        Checker::lemma_kept_trans(&m0, &m1, &m2);
                        Checker::lemma_kept_trans(&m0, &m2, &m3);
                        Checker::lemma_kept_trans(&m0, &m3, self);
                        lemma_extends_trans(start.diags.spec_items(), m0.diags.spec_items(), self.diags.spec_items());
                        assert(self.tc.const_values@.take(i as int) =~= self.tc.const_values@);
                    }
                    let ghost before = self.tc.const_values@;
                    self.tc.const_types.push(declared_ty);
                    self.tc.const_values.push(value);
                    proof {
                        assert forall|k: int| 0 <= k < i + 1 implies {
                            &&& items[res.consts.items()[k] as int].kind is Const
                            &&& (const_eval(
                                items[res.consts.items()[k] as int].kind->Const_0.value,
                                res.uses@,
                                self.tc.const_values@.take(k),
                            ) matches Some(v) ==> #[trigger] self.tc.const_values@[k] == v)
                        } by {
                            assert(self.tc.const_values@.take(k) =~= before.take(k));
                            if k < i {
                                assert(self.tc.const_values@[k] == before[k]);
                            }
                        }
                    }
                },
                _ => {
                    proof {
                        assert(false);
                    }
                },
            }
            i = i + 1;
        }
    }

    /// Verifies the program has a `main` with signature `fn main()`.
    fn check_main(&mut self, ast: &Ast, res: &Resolution)
        requires
            old(self).ready(res),
            tables_match(res, ast.items@),
            old(self).tc.main is None,
        ensures
            final(self).inv(),
            final(self).tc.main == valid_main(res.functions.names(), old(self).tc.signatures@),
            final(self).tc.main is Some ==> final(self).diags == old(self).diags,
            final(self).tc.main is None ==> one_more(
                old(self).diags.spec_items(),
                final(self).diags.spec_items(),
                DiagCode::BadMain,
            ),
            final(self).tc.expr_types == old(self).tc.expr_types,
            final(self).tc.local_types == old(self).tc.local_types,
            final(self).tc.signatures == old(self).tc.signatures,
            final(self).tc.structs == old(self).tc.structs,
            final(self).tc.const_types == old(self).tc.const_types,
            final(self).tc.const_values == old(self).tc.const_values,
            final(self).tc.tuple_types == old(self).tc.tuple_types,
    {
        let ghost items = ast.items@;
        let n_items = ast.items.len();
        proof {
            reveal_strlit("main");
            lemma_declared_kind(items, items.len(), 0);
            res.functions.lemma_wf();
        }
        match res.functions.lookup("main") {
            Some(id) => {
                let ghost names = res.functions.names();
                proof {
                    let k = choose|k: int| 0 <= k < names.len() && names[k] == "main"@;
                    assert(k == id.0 as int) by {
                        if k < id.0 as int {
                            assert(names[k] != names[id.0 as int]);
                        } else if k > id.0 as int {
                            assert(names[id.0 as int] != names[k]);
                        }
                    }
                }
                let ok = self.tc.signatures[id.0 as usize].params.len() == 0 && self.tc.signatures[id.0 as usize].ret
                    == Type::Unit;
                if ok {
                    self.tc.main = Some(id);
                } else {
                    let item_idx = res.functions.item_index(id);
                    proof {
                        assert(item_idx == declared(items, items.len(), 0)[id.0 as int]);
                    }
                    let item_span = ast.items[item_idx].span;
                    self.emit(
                        Diagnostic::error(DiagCode::BadMain, "`main` has an invalid signature").with_primary(
                            item_span,
                            "must be `fn main()` taking no arguments and returning unit",
                        ),
                    );
                }
            },
            None => {
                self.emit(
                    Diagnostic::error(DiagCode::BadMain, "program has no `main` function").with_help(
                        "add an entry point: `fn main() { ... }`",
                    ),
                );
            },
        }
    }

    fn check_fn(&mut self, res: &Resolution, fn_id: FnId, decl: &FnDecl)
        requires
            old(self).ready(res),
            fn_id.0 < old(self).tc.signatures@.len(),
        ensures
            final(self).ready(res),
            extends(old(self).diags.spec_items(), final(self).diags.spec_items()),
            extends(old(self).tc.tuple_types@, final(self).tc.tuple_types@),
            final(self).tc.signatures == old(self).tc.signatures,
            final(self).tc.structs == old(self).tc.structs,
            final(self).tc.const_types == old(self).tc.const_types,
            final(self).tc.const_values == old(self).tc.const_values,
            final(self).tc.main == old(self).tc.main,
            final(self).loop_depth == old(self).loop_depth,
            final(self).cur_ret == old(self).tc.signatures@[fn_id.0 as int].ret,
            decl.body.tail is None && !block_diverges_spec(decl.body) && !spec_compatible(
                Type::Unit,
                old(self).tc.signatures@[fn_id.0 as int].ret,
            ) ==> final(self).diags.spec_items().last().code == DiagCode::MissingReturn,
            (decl.body.tail matches Some(e)) && !block_diverges_spec(decl.body) && !spec_compatible(
                final(self).tc.expr_types@[decl.body.tail->Some_0.id],
                old(self).tc.signatures@[fn_id.0 as int].ret,
            ) ==> (final(self).diags.spec_items().last().code == DiagCode::MissingReturn
                || final(self).diags.spec_items().last().code == DiagCode::ReturnTypeMismatch),
    {
        self.cur_ret = self.tc.signatures[fn_id.0 as usize].ret;
        let ghost start = *self;
        let body_ty = self.check_block(res, &decl.body);
        let diverges = block_diverges(&decl.body);
        let tail_span = match &decl.body.tail {
            Some(t) => t.span,
            None => decl.body.span,
        };
        let ghost mid = *self;
        self.fn_end_rule(decl.name.name.as_str(), diverges, body_ty, decl.body.span, tail_span);
        proof {
            Checker::lemma_kept_trans(&start, &mid, self);
        }
    }
}

/// Type-checks `ast` using the [`Resolution`], reporting type errors to
/// `diags`. The result has one signature per function, one layout per
/// struct, one type and one value per constant (the value of a constant
/// expression when it has one), and records the valid entry point.
pub fn check(ast: &Ast, res: &Resolution, diags: &mut Diagnostics) -> (tc: Typeck)
    requires
        old(diags).wf(),
        res.wf(),
        tables_match(res, ast.items@),
    ensures
        final(diags).wf(),
        extends(old(diags).spec_items(), final(diags).spec_items()),
        tc.wf(),
        tc.signatures@.len() == res.functions.names().len(),
        forall|i: int| 0 <= i < res.functions.names().len() ==> (#[trigger] tc.signatures@[i]).name@
            == res.functions.names()[i],
        tc.structs@.len() == res.structs.names().len(),
        forall|i: int| 0 <= i < res.structs.names().len() ==> (#[trigger] tc.structs@[i]).name@ == res.structs.names()[i],
        tc.const_types@.len() == res.consts.names().len(),
        tc.const_values@.len() == res.consts.names().len(),
        forall|i: int| 0 <= i < res.consts.names().len() ==> {
            &&& ast.items@[res.consts.items()[i] as int].kind is Const
            &&& (const_eval(
                ast.items@[res.consts.items()[i] as int].kind->Const_0.value,
                res.uses@,
                tc.const_values@.take(i),
            ) matches Some(v) ==> #[trigger] tc.const_values@[i] == v)
        },
        tc.main == valid_main(res.functions.names(), tc.signatures@),
{
    let mut checker = Checker { tc: Typeck::new(), diags: Diagnostics::new(), cur_ret: Type::Unit, loop_depth: 0 };
    std::mem::swap(&mut checker.diags, diags);
    let ghost start = checker;
    checker.collect_structs(ast, res);
    let ghost m1 = checker;
    checker.collect_signatures(ast, res);
    proof {
        Checker::lemma_grew_trans(&start, &m1, &checker);
    }
    let ghost m2 = checker;
    checker.check_consts(ast, res);
    let ghost m3 = checker;
    checker.check_main(ast, res);
    let ghost m4 = checker;
    proof {
        lemma_extends_trans(start.diags.spec_items(), m2.diags.spec_items(), m3.diags.spec_items());
        lemma_extends_trans(start.diags.spec_items(), m3.diags.spec_items(), m4.diags.spec_items());
        res.functions.lemma_wf();
    }
    let pairs = res.functions.iter();
    let ghost items = ast.items@;
    let n_items = ast.items.len();
    proof {
        lemma_declared_kind(items, items.len(), 0);
    }
    let mut i: usize = 0;
    while i < pairs.len()
        invariant
            checker.ready(res),
            tables_match(res, items),
            items == ast.items@,
            extends(start.diags.spec_items(), checker.diags.spec_items()),
            checker.tc.signatures == m4.tc.signatures,
            checker.tc.structs == m4.tc.structs,
            checker.tc.const_types == m4.tc.const_types,
            checker.tc.const_values == m4.tc.const_values,
            checker.tc.main == m4.tc.main,
            pairs@.len() == res.functions.items().len(),
            res.functions.items().len() == res.functions.names().len(),
            forall|k: int| 0 <= k < pairs@.len() ==> #[trigger] pairs@[k] == (FnId(k as u32), res.functions.items()[k]),
            forall|k: int| 0 <= k < declared(items, items.len(), 0).len() ==> {
                &&& (#[trigger] declared(items, items.len(), 0)[k]) < items.len()
                &&& item_tag(items[declared(items, items.len(), 0)[k] as int]) == 0
            },
            0 <= i <= pairs@.len(),
        decreases pairs@.len() - i,
    {
        let (fn_id, item_idx) = pairs[i];
        proof {
            assert(item_idx == declared(items, items.len(), 0)[i as int]);
        }
        if let ItemKind::Fn(decl) = &ast.items[item_idx].kind {
            let ghost before = checker;
            checker.check_fn(res, fn_id, decl);
            proof {
                lemma_extends_trans(start.diags.spec_items(), before.diags.spec_items(), checker.diags.spec_items());
            }
        }
        i = i + 1;
    }
    std::mem::swap(&mut checker.diags, diags);
    checker.tc
}

} // verus!
