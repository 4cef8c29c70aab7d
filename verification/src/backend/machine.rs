//! The decisions of the stack virtual machine: one instruction at a time,
//! over an operand stack, call frames and a heap of arrays.
//!
//! Floating-point work is left to the host: an instruction that needs it
//! pops and checks its operands here and hands them back as a
//! [`StepAction::Host`], and the host pushes the result. So does `==` on two
//! floats or two arrays (array equality compares elements, which may be
//! floats). Everything else is decided here, and every impossible state
//! (an empty stack, an operand of the wrong kind, an index past a table)
//! becomes [`VmError::Internal`] rather than a panic.

use vstd::prelude::*;

use crate::arith::{div_faults, lemma_i64_ops, trunc_div_rem, wraps_to};
use crate::backend::builtins::{eval, is_float_builtin, uses_float, Scalar, ScalarView};
use crate::backend::bytecode::{Op, Program};
use crate::backend::vm::{checked_div, checked_rem, index_in_bounds, VmError};
use crate::sema::types::Builtin;
use crate::text::{push_str, str_eq};

verus! {

/// A runtime value. A float is held by its IEEE bits; an array is a handle
/// into the heap.
#[derive(Debug)]
pub enum VmValue {
    Int(i64),
    Float(u64),
    Bool(bool),
    Str(String),
    Unit,
    Array(usize),
}

/// A runtime value with a string taken by its characters.
pub enum Val {
    Int(i64),
    Float(u64),
    Bool(bool),
    Str(Seq<char>),
    Unit,
    Array(usize),
}

impl View for VmValue {
    type V = Val;

    open spec fn view(&self) -> Val {
        match self {
            VmValue::Int(v) => Val::Int(*v),
            VmValue::Float(b) => Val::Float(*b),
            VmValue::Bool(b) => Val::Bool(*b),
            VmValue::Str(s) => Val::Str(s@),
            VmValue::Unit => Val::Unit,
            VmValue::Array(h) => Val::Array(*h),
        }
    }
}

/// A call frame: the function, the next instruction, and where its locals
/// start on the stack.
#[derive(Clone, Copy, Debug, PartialEq, Eq, Structural)]
pub struct Frame {
    pub func: usize,
    pub ip: usize,
    pub base: usize,
}

/// The machine: operand stack, call frames, array heap and printed output.
#[derive(Debug)]
pub struct VmState {
    pub stack: Vec<VmValue>,
    pub frames: Vec<Frame>,
    pub heap: Vec<Vec<VmValue>>,
    pub stdout: String,
}

/// The machine as a value.
pub struct StateV {
    pub stack: Seq<Val>,
    pub frames: Seq<Frame>,
    pub heap: Seq<Seq<Val>>,
    pub out: Seq<char>,
}

pub open spec fn vals(v: Seq<VmValue>) -> Seq<Val> {
    v.map_values(|x: VmValue| x@)
}

impl View for VmState {
    type V = StateV;

    open spec fn view(&self) -> StateV {
        StateV {
            stack: vals(self.stack@),
            frames: self.frames@,
            heap: self.heap@.map_values(|a: Vec<VmValue>| vals(a@)),
            out: self.stdout@,
        }
    }
}

/// Floating-point work handed to the host.
#[derive(Debug)]
pub enum HostOp {
    /// Push the float a literal spells.
    Const(String),
    Add,
    Sub,
    Mul,
    Div,
    Rem,
    Neg,
    Lt,
    Le,
    Gt,
    Ge,
    /// `==` (`true`) or `!=` (`false`) on two floats or two arrays.
    Compare(bool),
    /// A builtin over floats.
    Builtin(Builtin),
}

/// A host operation as a value.
pub enum HostOpV {
    Const(Seq<char>),
    Add,
    Sub,
    Mul,
    Div,
    Rem,
    Neg,
    Lt,
    Le,
    Gt,
    Ge,
    Compare(bool),
    Builtin(Builtin),
}

impl View for HostOp {
    type V = HostOpV;

    open spec fn view(&self) -> HostOpV {
        match self {
            HostOp::Const(t) => HostOpV::Const(t@),
            HostOp::Add => HostOpV::Add,
            HostOp::Sub => HostOpV::Sub,
            HostOp::Mul => HostOpV::Mul,
            HostOp::Div => HostOpV::Div,
            HostOp::Rem => HostOpV::Rem,
            HostOp::Neg => HostOpV::Neg,
            HostOp::Lt => HostOpV::Lt,
            HostOp::Le => HostOpV::Le,
            HostOp::Gt => HostOpV::Gt,
            HostOp::Ge => HostOpV::Ge,
            HostOp::Compare(b) => HostOpV::Compare(*b),
            HostOp::Builtin(b) => HostOpV::Builtin(*b),
        }
    }
}

/// What a step asks of its caller.
#[derive(Debug)]
pub enum StepAction {
    /// Go on with the next instruction.
    Continue,
    /// `main` returned this value.
    Done(VmValue),
    /// Do this work and push its result, then go on.
    Host { op: HostOp, args: Vec<VmValue> },
}

/// A step's request as a value.
pub enum ActionV {
    Continue,
    Done(Val),
    Host { op: HostOpV, args: Seq<Val> },
}

impl View for StepAction {
    type V = ActionV;

    open spec fn view(&self) -> ActionV {
        match self {
            StepAction::Continue => ActionV::Continue,
            StepAction::Done(v) => ActionV::Done(v@),
            StepAction::Host { op, args } => ActionV::Host { op: op@, args: vals(args@) },
        }
    }
}

// ---- the errors of impossible states ----

pub open spec fn underflow() -> VmError {
    VmError::Internal("stack underflow")
}

pub open spec fn expected(what: int) -> VmError {
    if what == 0 {
        VmError::Internal("expected int")
    } else if what == 1 {
        VmError::Internal("expected float")
    } else if what == 2 {
        VmError::Internal("expected bool")
    } else if what == 3 {
        VmError::Internal("expected str")
    } else {
        VmError::Internal("expected array")
    }
}

pub open spec fn no_frame() -> VmError {
    VmError::Internal("no active frame")
}

pub open spec fn bad_local() -> VmError {
    VmError::Internal("bad local")
}

pub open spec fn bad_constant() -> VmError {
    VmError::Internal("bad constant")
}

pub open spec fn bad_function() -> VmError {
    VmError::Internal("bad function")
}

pub open spec fn few_arguments() -> VmError {
    VmError::Internal("not enough arguments on stack")
}

pub open spec fn ip_out_of_bounds() -> VmError {
    VmError::Internal("ip out of bounds")
}

pub open spec fn wrong_argument_kind() -> VmError {
    VmError::Internal("builtin called with wrong argument")
}

// ---- the machine's primitive moves, as values ----

/// The state with `v` pushed.
pub open spec fn s_push(s: StateV, v: Val) -> StateV {
    StateV { stack: s.stack.push(v), ..s }
}

/// Pops the top value.
pub open spec fn s_pop(s: StateV) -> (StateV, Result<Val, VmError>) {
    if s.stack.len() == 0 {
        (s, Err(underflow()))
    } else {
        (StateV { stack: s.stack.drop_last(), ..s }, Ok(s.stack.last()))
    }
}

/// Pops an integer.
pub open spec fn s_pop_int(s: StateV) -> (StateV, Result<i64, VmError>) {
    let (t, r) = s_pop(s);
    match r {
        Ok(Val::Int(v)) => (t, Ok(v)),
        Ok(_) => (t, Err(expected(0))),
        Err(e) => (t, Err(e)),
    }
}

/// Pops a float's bits.
pub open spec fn s_pop_float(s: StateV) -> (StateV, Result<u64, VmError>) {
    let (t, r) = s_pop(s);
    match r {
        Ok(Val::Float(v)) => (t, Ok(v)),
        Ok(_) => (t, Err(expected(1))),
        Err(e) => (t, Err(e)),
    }
}

/// Pops a boolean.
pub open spec fn s_pop_bool(s: StateV) -> (StateV, Result<bool, VmError>) {
    let (t, r) = s_pop(s);
    match r {
        Ok(Val::Bool(v)) => (t, Ok(v)),
        Ok(_) => (t, Err(expected(2))),
        Err(e) => (t, Err(e)),
    }
}

/// Pops a string.
pub open spec fn s_pop_str(s: StateV) -> (StateV, Result<Seq<char>, VmError>) {
    let (t, r) = s_pop(s);
    match r {
        Ok(Val::Str(v)) => (t, Ok(v)),
        Ok(_) => (t, Err(expected(3))),
        Err(e) => (t, Err(e)),
    }
}

/// Pops an array handle that names an array of the heap.
pub open spec fn s_pop_array(s: StateV) -> (StateV, Result<usize, VmError>) {
    let (t, r) = s_pop(s);
    match r {
        Ok(Val::Array(h)) => if h < t.heap.len() {
            (t, Ok(h))
        } else {
            (t, Err(expected(4)))
        },
        Ok(_) => (t, Err(expected(4))),
        Err(e) => (t, Err(e)),
    }
}

impl VmState {
    fn push(&mut self, v: VmValue)
        ensures
            final(self)@ == s_push(old(self)@, v@),
    {
        let ghost before = self@;
        self.stack.push(v);
        proof {
            assert(vals(self.stack@) =~= before.stack.push(v@));
        }
    }

    fn pop(&mut self) -> (r: Result<VmValue, VmError>)
        ensures
            (final(self)@, match r {
                Ok(v) => Ok::<Val, VmError>(v@),
                Err(e) => Err(e),
            }) == s_pop(old(self)@),
    {
        let ghost before = self@;
        match self.stack.pop() {
            Some(v) => {
                proof {
                    assert(vals(self.stack@) =~= before.stack.drop_last());
                }
                Ok(v)
            },
            None => Err(VmError::Internal("stack underflow")),
        }
    }

    fn pop_int(&mut self) -> (r: Result<i64, VmError>)
        ensures
            (final(self)@, r) == s_pop_int(old(self)@),
    {
        match self.pop()? {
            VmValue::Int(v) => Ok(v),
            _ => Err(VmError::Internal("expected int")),
        }
    }

    fn pop_float(&mut self) -> (r: Result<u64, VmError>)
        ensures
            (final(self)@, r) == s_pop_float(old(self)@),
    {
        match self.pop()? {
            VmValue::Float(v) => Ok(v),
            _ => Err(VmError::Internal("expected float")),
        }
    }

    fn pop_bool(&mut self) -> (r: Result<bool, VmError>)
        ensures
            (final(self)@, r) == s_pop_bool(old(self)@),
    {
        match self.pop()? {
            VmValue::Bool(v) => Ok(v),
            _ => Err(VmError::Internal("expected bool")),
        }
    }

    fn pop_str(&mut self) -> (r: Result<String, VmError>)
        ensures
            (final(self)@, match r {
                Ok(v) => Ok::<Seq<char>, VmError>(v@),
                Err(e) => Err(e),
            }) == s_pop_str(old(self)@),
    {
        match self.pop()? {
            VmValue::Str(v) => Ok(v),
            _ => Err(VmError::Internal("expected str")),
        }
    }

    fn pop_array(&mut self) -> (r: Result<usize, VmError>)
        ensures
            (final(self)@, r) == s_pop_array(old(self)@),
    {
        match self.pop()? {
            VmValue::Array(h) => if h < self.heap.len() {
                Ok(h)
            } else {
                Err(VmError::Internal("expected array"))
            },
            _ => Err(VmError::Internal("expected array")),
        }
    }
}


// ---- one step, as values ----

pub open spec fn return_no_frame() -> VmError {
    VmError::Internal("return with no frame")
}

/// The state with the innermost frame's next instruction set to `ip`.
pub open spec fn s_set_ip(s: StateV, ip: usize) -> StateV {
    StateV { frames: s.frames.update(s.frames.len() - 1, Frame { ip, ..s.frames.last() }), ..s }
}

/// Enters function `func` with the top `argc` values as its first locals;
/// the other locals start as unit.
pub open spec fn s_enter(s: StateV, p: &Program, func: usize, argc: usize) -> (StateV, Result<(), VmError>) {
    if func >= p.functions@.len() {
        (s, Err(bad_function()))
    } else if s.stack.len() < argc {
        (s, Err(few_arguments()))
    } else {
        let n = p.functions@[func as int].n_locals;
        let k = if n > argc { n - argc } else { 0 };
        (
            StateV {
                stack: s.stack + Seq::new(k as nat, |i: int| Val::Unit),
                frames: s.frames.push(Frame { func, ip: 0, base: (s.stack.len() - argc) as usize }),
                ..s
            },
            Ok(()),
        )
    }
}

/// Pops `n` values, handing them back in stack order (deepest first).
pub open spec fn s_pop_n(s: StateV, n: nat) -> (StateV, Result<Seq<Val>, VmError>)
    decreases n,
{
    if n == 0 {
        (s, Ok(Seq::empty()))
    } else {
        let (t, r) = s_pop(s);
        match r {
            Err(e) => (t, Err(e)),
            Ok(v) => {
                let (u, rr) = s_pop_n(t, (n - 1) as nat);
                match rr {
                    Err(e) => (u, Err(e)),
                    Ok(vs) => (u, Ok(vs.push(v))),
                }
            },
        }
    }
}

/// The result of an integer instruction on `a` and `b`.
pub open spec fn int_result(op: Op, a: i64, b: i64) -> Result<Val, VmError> {
    match op {
        Op::AddInt => Ok(Val::Int(a.wrapping_add(b))),
        Op::SubInt => Ok(Val::Int(a.wrapping_sub(b))),
        Op::MulInt => Ok(Val::Int(a.wrapping_mul(b))),
        Op::DivInt => if b == 0 {
            Err(VmError::DivisionByZero)
        } else {
            match a.checked_div(b) {
                Some(q) => Ok(Val::Int(q)),
                None => Err(VmError::IntegerOverflow),
            }
        },
        Op::RemInt => if b == 0 {
            Err(VmError::DivisionByZero)
        } else {
            match a.checked_rem(b) {
                Some(q) => Ok(Val::Int(q)),
                None => Err(VmError::IntegerOverflow),
            }
        },
        Op::LtInt => Ok(Val::Bool(a < b)),
        Op::LeInt => Ok(Val::Bool(a <= b)),
        Op::GtInt => Ok(Val::Bool(a > b)),
        _ => Ok(Val::Bool(a >= b)),
    }
}

/// Whether an instruction takes two integers.
pub open spec fn is_int_op(op: Op) -> bool {
    op is AddInt || op is SubInt || op is MulInt || op is DivInt || op is RemInt || op is LtInt || op is LeInt
        || op is GtInt || op is GeInt
}

/// The host operation of an instruction on two floats.
pub open spec fn float_op(op: Op) -> Option<HostOpV> {
    match op {
        Op::AddFloat => Some(HostOpV::Add),
        Op::SubFloat => Some(HostOpV::Sub),
        Op::MulFloat => Some(HostOpV::Mul),
        Op::DivFloat => Some(HostOpV::Div),
        Op::RemFloat => Some(HostOpV::Rem),
        Op::LtFloat => Some(HostOpV::Lt),
        Op::LeFloat => Some(HostOpV::Le),
        Op::GtFloat => Some(HostOpV::Gt),
        Op::GeFloat => Some(HostOpV::Ge),
        _ => None,
    }
}

/// Equality of two values that are not both floats or both arrays: equal
/// kinds with equal contents.
pub open spec fn scalar_eq(a: Val, b: Val) -> bool {
    match (a, b) {
        (Val::Int(x), Val::Int(y)) => x == y,
        (Val::Bool(x), Val::Bool(y)) => x == y,
        (Val::Str(x), Val::Str(y)) => x == y,
        (Val::Unit, Val::Unit) => true,
        _ => false,
    }
}

/// Whether a comparison is left to the host: two floats or two arrays.
pub open spec fn host_compares(a: Val, b: Val) -> bool {
    (a is Float && b is Float) || (a is Array && b is Array)
}

/// A value as a builtin's argument, if it can be one.
pub open spec fn to_scalar(v: Val) -> Option<ScalarView> {
    match v {
        Val::Int(x) => Some(ScalarView::Int(x)),
        Val::Bool(x) => Some(ScalarView::Bool(x)),
        Val::Str(x) => Some(ScalarView::Str(x)),
        Val::Unit => Some(ScalarView::Unit),
        _ => None,
    }
}

/// A builtin's result as a value.
pub open spec fn from_scalar(v: ScalarView) -> Val {
    match v {
        ScalarView::Int(x) => Val::Int(x),
        ScalarView::Bool(x) => Val::Bool(x),
        ScalarView::Str(x) => Val::Str(x),
        ScalarView::Unit => Val::Unit,
    }
}

/// Whether every value can be a builtin's argument.
pub open spec fn all_scalar(vs: Seq<Val>) -> bool {
    forall|i: int| 0 <= i < vs.len() ==> #[trigger] to_scalar(vs[i]) is Some
}

/// The arguments as a builtin takes them.
pub open spec fn scalars(vs: Seq<Val>) -> Seq<ScalarView> {
    vs.map_values(|v: Val| to_scalar(v)->Some_0)
}

/// A builtin that does not use floats, on its popped arguments.
pub open spec fn s_builtin(s: StateV, b: Builtin, args: Seq<Val>) -> (StateV, Result<ActionV, VmError>) {
    if !all_scalar(args) {
        (s, Err(wrong_argument_kind()))
    } else {
        match crate::backend::builtins::builtin_effect(b, scalars(args)) {
            None => (s, Err(wrong_argument_kind())),
            Some((printed, res)) => {
                let t = StateV { out: s.out + printed, ..s };
                match res {
                    Ok(w) => (s_push(t, from_scalar(w)), Ok(ActionV::Continue)),
                    Err(e) => (t, Err(e)),
                }
            },
        }
    }
}

/// An instruction run in state `s`, whose innermost frame `fr` already
/// points past it.
pub open spec fn s_exec(s: StateV, p: &Program, fr: Frame, op: Op) -> (StateV, Result<ActionV, VmError>) {
    let cont = Ok(ActionV::Continue);
    match op {
        Op::PushInt(v) => (s_push(s, Val::Int(v)), cont),
        Op::PushFloat(t) => (s, Ok(ActionV::Host { op: HostOpV::Const(t@), args: Seq::empty() })),
        Op::PushBool(b) => (s_push(s, Val::Bool(b)), cont),
        Op::PushUnit => (s_push(s, Val::Unit), cont),
        Op::PushStr(k) => {
            let cs = p.functions@[fr.func as int].consts@;
            if (k as int) < cs.len() {
                (s_push(s, Val::Str(cs[k as int]@)), cont)
            } else {
                (s, Err(bad_constant()))
            }
        },
        Op::LoadLocal(n) => if fr.base + n < s.stack.len() {
            (s_push(s, s.stack[fr.base + n]), cont)
        } else {
            (s, Err(bad_local()))
        },
        Op::StoreLocal(n) => {
            let (t, r) = s_pop(s);
            match r {
                Err(e) => (t, Err(e)),
                Ok(v) => if fr.base + n < t.stack.len() {
                    (StateV { stack: t.stack.update(fr.base + n, v), ..t }, cont)
                } else {
                    (t, Err(bad_local()))
                },
            }
        },
        Op::Pop => {
            let (t, r) = s_pop(s);
            match r {
                Err(e) => (t, Err(e)),
                Ok(_) => (t, cont),
            }
        },
        Op::NegInt => {
            let (t, r) = s_pop_int(s);
            match r {
                Err(e) => (t, Err(e)),
                Ok(a) => (s_push(t, Val::Int(0i64.wrapping_sub(a))), cont),
            }
        },
        Op::NegFloat => {
            let (t, r) = s_pop_float(s);
            match r {
                Err(e) => (t, Err(e)),
                Ok(a) => (t, Ok(ActionV::Host { op: HostOpV::Neg, args: seq![Val::Float(a)] })),
            }
        },
        Op::Eq | Op::Ne => {
            let is_eq = op is Eq;
            let (t, rb) = s_pop(s);
            match rb {
                Err(e) => (t, Err(e)),
                Ok(b) => {
                    let (u, ra) = s_pop(t);
                    match ra {
                        Err(e) => (u, Err(e)),
                        Ok(a) => if host_compares(a, b) {
                            (u, Ok(ActionV::Host { op: HostOpV::Compare(is_eq), args: seq![a, b] }))
                        } else {
                            (s_push(u, Val::Bool(scalar_eq(a, b) == is_eq)), cont)
                        },
                    }
                },
            }
        },
        Op::NotBool => {
            let (t, r) = s_pop_bool(s);
            match r {
                Err(e) => (t, Err(e)),
                Ok(a) => (s_push(t, Val::Bool(!a)), cont),
            }
        },
        Op::ConcatStr => {
            let (t, rb) = s_pop_str(s);
            match rb {
                Err(e) => (t, Err(e)),
                Ok(b) => {
                    let (u, ra) = s_pop_str(t);
                    match ra {
                        Err(e) => (u, Err(e)),
                        Ok(a) => (s_push(u, Val::Str(a + b)), cont),
                    }
                },
            }
        },
        Op::MakeArray(n) => if (n as int) > s.stack.len() {
            (s, Err(underflow()))
        } else {
            let at = s.stack.len() - n;
            let t = StateV { stack: s.stack.subrange(0, at), heap: s.heap.push(s.stack.subrange(at, s.stack.len() as int)), ..s };
            (s_push(t, Val::Array(s.heap.len() as usize)), cont)
        },
        Op::Index => {
            let (t, ri) = s_pop_int(s);
            match ri {
                Err(e) => (t, Err(e)),
                Ok(i) => {
                    let (u, rh) = s_pop_array(t);
                    match rh {
                        Err(e) => (u, Err(e)),
                        Ok(h) => {
                            let arr = u.heap[h as int];
                            if 0 <= i < arr.len() {
                                (s_push(u, arr[i as int]), cont)
                            } else {
                                (u, Err(VmError::IndexOutOfBounds { index: i, len: arr.len() as usize }))
                            }
                        },
                    }
                },
            }
        },
        Op::SetIndex => {
            let (t, rv) = s_pop(s);
            match rv {
                Err(e) => (t, Err(e)),
                Ok(v) => {
                    let (u, ri) = s_pop_int(t);
                    match ri {
                        Err(e) => (u, Err(e)),
                        Ok(i) => {
                            let (w, rh) = s_pop_array(u);
                            match rh {
                                Err(e) => (w, Err(e)),
                                Ok(h) => {
                                    let arr = w.heap[h as int];
                                    if 0 <= i < arr.len() {
                                        (
                                            s_push(StateV { heap: w.heap.update(h as int, arr.update(i as int, v)), ..w }, Val::Unit),
                                            cont,
                                        )
                                    } else {
                                        (w, Err(VmError::IndexOutOfBounds { index: i, len: arr.len() as usize }))
                                    }
                                },
                            }
                        },
                    }
                },
            }
        },
        Op::ArrayLen => {
            let (t, rh) = s_pop_array(s);
            match rh {
                Err(e) => (t, Err(e)),
                Ok(h) => (s_push(t, Val::Int(t.heap[h as int].len() as i64)), cont),
            }
        },
        Op::Jump(target) => (s_set_ip(s, target), cont),
        Op::JumpIfFalse(target) => {
            let (t, r) = s_pop_bool(s);
            match r {
                Err(e) => (t, Err(e)),
                Ok(c) => if c {
                    (t, cont)
                } else {
                    (s_set_ip(t, target), cont)
                },
            }
        },
        Op::Call { func, argc } => {
            let (t, r) = s_enter(s, p, func, argc as usize);
            match r {
                Err(e) => (t, Err(e)),
                Ok(_) => (t, cont),
            }
        },
        Op::CallBuiltin { builtin, argc } => {
            let (t, r) = s_pop_n(s, argc as nat);
            match r {
                Err(e) => (t, Err(e)),
                Ok(args) => if uses_float(builtin) {
                    (t, Ok(ActionV::Host { op: HostOpV::Builtin(builtin), args }))
                } else {
                    s_builtin(t, builtin, args)
                },
            }
        },
        Op::Return => {
            let (t, r) = s_pop(s);
            match r {
                Err(e) => (t, Err(e)),
                Ok(v) => if t.frames.len() == 0 {
                    (t, Err(return_no_frame()))
                } else {
                    let base = t.frames.last().base;
                    let u = StateV {
                        frames: t.frames.drop_last(),
                        stack: if base <= t.stack.len() {
                            t.stack.subrange(0, base as int)
                        } else {
                            t.stack
                        },
                        ..t
                    };
                    if u.frames.len() == 0 {
                        (u, Ok(ActionV::Done(v)))
                    } else {
                        (s_push(u, v), cont)
                    }
                },
            }
        },
        _ => if is_int_op(op) {
            let (t, rb) = s_pop_int(s);
            match rb {
                Err(e) => (t, Err(e)),
                Ok(b) => {
                    let (u, ra) = s_pop_int(t);
                    match ra {
                        Err(e) => (u, Err(e)),
                        Ok(a) => match int_result(op, a, b) {
                            Ok(v) => (s_push(u, v), cont),
                            Err(e) => (u, Err(e)),
                        },
                    }
                },
            }
        } else {
            let (t, rb) = s_pop_float(s);
            match rb {
                Err(e) => (t, Err(e)),
                Ok(b) => {
                    let (u, ra) = s_pop_float(t);
                    match ra {
                        Err(e) => (u, Err(e)),
                        Ok(a) => (u, Ok(ActionV::Host { op: float_op(op)->Some_0, args: seq![Val::Float(a), Val::Float(b)] })),
                    }
                },
            }
        },
    }
}

/// One step: fetch the innermost frame's next instruction, move past it,
/// and run it.
pub open spec fn spec_step(s: StateV, p: &Program) -> (StateV, Result<ActionV, VmError>) {
    if s.frames.len() == 0 {
        (s, Err(no_frame()))
    } else {
        let fr = s.frames.last();
        if fr.func >= p.functions@.len() {
            (s, Err(bad_function()))
        } else if fr.ip >= p.functions@[fr.func as int].code@.len() {
            (s, Err(ip_out_of_bounds()))
        } else {
            let s1 = s_set_ip(s, (fr.ip + 1) as usize);
            s_exec(s1, p, s1.frames.last(), p.functions@[fr.func as int].code@[fr.ip as int])
        }
    }
}


/// Whether `s` is about to run an instruction of `p` with the integers `a`
/// and `b` on top of its stack (`b` topmost).
pub open spec fn at_int_pair(s: StateV, p: &Program, a: i64, b: i64) -> bool {
    &&& s.frames.len() > 0
    &&& s.frames.last().func < p.functions@.len()
    &&& s.frames.last().ip < p.functions@[s.frames.last().func as int].code@.len()
    &&& s.stack.len() >= 2
    &&& s.stack[s.stack.len() - 2] == Val::Int(a)
    &&& s.stack.last() == Val::Int(b)
}

/// The instruction `s` is about to run.
pub open spec fn next_op(s: StateV, p: &Program) -> Op {
    p.functions@[s.frames.last().func as int].code@[s.frames.last().ip as int]
}

/// A step that replaces the two operands on top of the stack by `v` and
/// goes on with the next instruction.
pub open spec fn pushes(s: StateV, p: &Program, v: Val) -> bool {
    let t = spec_step(s, p);
    &&& t.1 == Ok::<ActionV, VmError>(ActionV::Continue)
    &&& t.0.stack == s.stack.drop_last().drop_last().push(v)
    &&& t.0.frames.len() == s.frames.len()
    &&& t.0.frames.last() == (Frame { ip: (s.frames.last().ip + 1) as usize, ..s.frames.last() })
    &&& t.0.frames.drop_last() == s.frames.drop_last()
    &&& t.0.heap == s.heap
    &&& t.0.out == s.out
}

/// The integer instructions compute the language's integer operators on the
/// two numbers on top of the stack: each comparison is the comparison of the
/// numbers, `+`, `-` and `*` wrap modulo 2^64, and `/` and `%` give the
/// truncated quotient and remainder, stopping with `DivisionByZero` on a zero
/// divisor and `IntegerOverflow` on `i64::MIN / -1`.
pub proof fn lemma_int_instructions(s: StateV, p: &Program, a: i64, b: i64)
    requires
        at_int_pair(s, p, a, b),
    ensures
        next_op(s, p) is LtInt ==> pushes(s, p, Val::Bool((a as int) < (b as int))),
        next_op(s, p) is LeInt ==> pushes(s, p, Val::Bool((a as int) <= (b as int))),
        next_op(s, p) is GtInt ==> pushes(s, p, Val::Bool((a as int) > (b as int))),
        next_op(s, p) is GeInt ==> pushes(s, p, Val::Bool((a as int) >= (b as int))),
        next_op(s, p) is Eq ==> pushes(s, p, Val::Bool(a as int == b as int)),
        next_op(s, p) is Ne ==> pushes(s, p, Val::Bool(a as int != b as int)),
        next_op(s, p) is AddInt ==> exists|r: i64| wraps_to(r, a + b) && #[trigger] pushes(s, p, Val::Int(r)),
        next_op(s, p) is SubInt ==> exists|r: i64| wraps_to(r, a - b) && #[trigger] pushes(s, p, Val::Int(r)),
        next_op(s, p) is MulInt ==> exists|r: i64| wraps_to(r, a * b) && #[trigger] pushes(s, p, Val::Int(r)),
        (next_op(s, p) is DivInt || next_op(s, p) is RemInt) && b == 0 ==> spec_step(s, p).1 == Err::<ActionV, VmError>(
            VmError::DivisionByZero,
        ),
        (next_op(s, p) is DivInt || next_op(s, p) is RemInt) && a == i64::MIN && b == -1 ==> spec_step(s, p).1 == Err::<
            ActionV,
            VmError,
        >(VmError::IntegerOverflow),
        next_op(s, p) is DivInt && !div_faults(a, b) ==> exists|q: i64, r: i64|
            #[trigger] trunc_div_rem(a as int, b as int, q as int, r as int) && pushes(s, p, Val::Int(q)),
        next_op(s, p) is RemInt && !div_faults(a, b) ==> exists|q: i64, r: i64|
            #[trigger] trunc_div_rem(a as int, b as int, q as int, r as int) && pushes(s, p, Val::Int(r)),
{
    lemma_i64_ops(a, b);
    let s1 = s_set_ip(s, (s.frames.last().ip + 1) as usize);
    assert(s1.stack == s.stack);
    assert(s1.frames.drop_last() =~= s.frames.drop_last());
    assert(s.stack.drop_last().drop_last().push(Val::Int(0)).drop_last() == s.stack.drop_last().drop_last());
    let op = next_op(s, p);
    if !div_faults(a, b) {
        let q = a.checked_div(b)->0;
        let r = a.checked_rem(b)->0;
        assert(trunc_div_rem(a as int, b as int, q as int, r as int));
        if op is DivInt {
            assert(pushes(s, p, Val::Int(q)));
        }
        if op is RemInt {
            assert(pushes(s, p, Val::Int(r)));
        }
    }
    if op is LtInt {
        assert(pushes(s, p, Val::Bool(a < b)));
    }
    if op is LeInt {
        assert(pushes(s, p, Val::Bool(a <= b)));
    }
    if op is GtInt {
        assert(pushes(s, p, Val::Bool(a > b)));
    }
    if op is GeInt {
        assert(pushes(s, p, Val::Bool(a >= b)));
    }
    if op is Eq {
        assert(pushes(s, p, Val::Bool(a == b)));
    }
    if op is Ne {
        assert(pushes(s, p, Val::Bool(a != b)));
    }
    if op is AddInt {
        assert(pushes(s, p, Val::Int(a.wrapping_add(b))));
    }
    if op is SubInt {
        assert(pushes(s, p, Val::Int(a.wrapping_sub(b))));
    }
    if op is MulInt {
        assert(pushes(s, p, Val::Int(a.wrapping_mul(b))));
    }
}

/// Equality on two values that are not both floats or both arrays is
/// equality of the values: `==` pushes whether they are the same value and
/// `!=` whether they differ.
pub proof fn lemma_equality_instructions(s: StateV, p: &Program, a: Val, b: Val)
    requires
        s.frames.len() > 0,
        s.frames.last().func < p.functions@.len(),
        s.frames.last().ip < p.functions@[s.frames.last().func as int].code@.len(),
        s.stack.len() >= 2,
        s.stack[s.stack.len() - 2] == a,
        s.stack.last() == b,
        !(a is Float && b is Float),
        !(a is Array && b is Array),
    ensures
        next_op(s, p) is Eq ==> pushes(s, p, Val::Bool(a == b)),
        next_op(s, p) is Ne ==> pushes(s, p, Val::Bool(a != b)),
{
    let s1 = s_set_ip(s, (s.frames.last().ip + 1) as usize);
    assert(s1.stack == s.stack);
    assert(s1.frames.drop_last() =~= s.frames.drop_last());
    assert(scalar_eq(a, b) == (a == b));
    if next_op(s, p) is Eq {
        assert(pushes(s, p, Val::Bool(a == b)));
    }
    if next_op(s, p) is Ne {
        assert(pushes(s, p, Val::Bool(a != b)));
    }
}

/// A step's outcome as a value.
pub open spec fn result_v(r: Result<StepAction, VmError>) -> Result<ActionV, VmError> {
    match r {
        Ok(a) => Ok(a@),
        Err(e) => Err(e),
    }
}

/// A copy of a value.
fn copy_value(v: &VmValue) -> (c: VmValue)
    ensures
        c@ == v@,
{
    match v {
        VmValue::Int(x) => VmValue::Int(*x),
        VmValue::Float(x) => VmValue::Float(*x),
        VmValue::Bool(x) => VmValue::Bool(*x),
        VmValue::Str(x) => VmValue::Str(x.clone()),
        VmValue::Unit => VmValue::Unit,
        VmValue::Array(h) => VmValue::Array(*h),
    }
}

/// An integer instruction on `a` and `b`: [`int_result`].
fn int_op(op: &Op, a: i64, b: i64) -> (r: Result<VmValue, VmError>)
    requires
        is_int_op(*op),
    ensures
        match r {
            Ok(v) => int_result(*op, a, b) == Ok::<Val, VmError>(v@),
            Err(e) => int_result(*op, a, b) == Err::<Val, VmError>(e),
        },
{
    match op {
        Op::AddInt => Ok(VmValue::Int(a.wrapping_add(b))),
        Op::SubInt => Ok(VmValue::Int(a.wrapping_sub(b))),
        Op::MulInt => Ok(VmValue::Int(a.wrapping_mul(b))),
        Op::DivInt => match checked_div(a, b) {
            Ok(q) => Ok(VmValue::Int(q)),
            Err(e) => Err(e),
        },
        Op::RemInt => match checked_rem(a, b) {
            Ok(q) => Ok(VmValue::Int(q)),
            Err(e) => Err(e),
        },
        Op::LtInt => Ok(VmValue::Bool(a < b)),
        Op::LeInt => Ok(VmValue::Bool(a <= b)),
        Op::GtInt => Ok(VmValue::Bool(a > b)),
        _ => Ok(VmValue::Bool(a >= b)),
    }
}

/// The host operation of a float instruction: [`float_op`].
fn float_host_op(op: &Op) -> (h: HostOp)
    requires
        float_op(*op) is Some,
    ensures
        h@ == float_op(*op)->Some_0,
{
    match op {
        Op::AddFloat => HostOp::Add,
        Op::SubFloat => HostOp::Sub,
        Op::MulFloat => HostOp::Mul,
        Op::DivFloat => HostOp::Div,
        Op::RemFloat => HostOp::Rem,
        Op::LtFloat => HostOp::Lt,
        Op::LeFloat => HostOp::Le,
        Op::GtFloat => HostOp::Gt,
        _ => HostOp::Ge,
    }
}

/// Equality of values that are not both floats or both arrays:
/// [`scalar_eq`].
fn values_equal(a: &VmValue, b: &VmValue) -> (r: bool)
    ensures
        r == scalar_eq(a@, b@),
{
    match (a, b) {
        (VmValue::Int(x), VmValue::Int(y)) => *x == *y,
        (VmValue::Bool(x), VmValue::Bool(y)) => *x == *y,
        (VmValue::Str(x), VmValue::Str(y)) => str_eq(x.as_str(), y.as_str()),
        (VmValue::Unit, VmValue::Unit) => true,
        _ => false,
    }
}

impl VmState {
    /// An empty machine.
    pub fn new() -> (s: VmState)
        ensures
            s@ == VmState::new_spec(),
    {
        let s = VmState { stack: Vec::new(), frames: Vec::new(), heap: Vec::new(), stdout: String::new() };
        proof {
            assert(s@.stack =~= Seq::<Val>::empty());
            assert(s@.heap =~= Seq::<Seq<Val>>::empty());
            assert(s@.out =~= Seq::<char>::empty());
            assert(s@.frames =~= Seq::<Frame>::empty());
        }
        s
    }

    /// Pushes a value the host computed.
    pub fn push_value(&mut self, v: VmValue)
        ensures
            final(self)@ == s_push(old(self)@, v@),
    {
        self.push(v);
    }

    fn set_ip(&mut self, ip: usize)
        requires
            old(self).frames@.len() > 0,
        ensures
            final(self)@ == s_set_ip(old(self)@, ip),
    {
        let last = self.frames.len() - 1;
        let fr = self.frames[last];
        self.frames.set(last, Frame { ip, ..fr });
        proof {
            assert(self@.frames =~= s_set_ip(old(self)@, ip).frames);
            assert(self@.heap =~= old(self)@.heap);
            assert(self@.stack =~= old(self)@.stack);
        }
    }

    /// Enters function `func` with the top `argc` values as its first
    /// locals: [`s_enter`].
    pub fn enter(&mut self, program: &Program, func: usize, argc: usize) -> (r: Result<(), VmError>)
        ensures
            (final(self)@, r) == s_enter(old(self)@, program, func, argc),
    {
        if func >= program.functions.len() {
            return Err(VmError::Internal("bad function"));
        }
        if self.stack.len() < argc {
            return Err(VmError::Internal("not enough arguments on stack"));
        }
        let base = self.stack.len() - argc;
        let n = program.functions[func].n_locals;
        let k = if n > argc {
            n - argc
        } else {
            0
        };
        let ghost s0 = self@;
        let mut i: usize = 0;
        while i < k
            invariant
                i <= k,
                self@.frames == s0.frames,
                self@.heap == s0.heap,
                self@.out == s0.out,
                self@.stack == s0.stack + Seq::new(i as nat, |j: int| Val::Unit),
            decreases k - i,
        {
            self.push(VmValue::Unit);
            proof {
                assert(self@.stack =~= s0.stack + Seq::new((i + 1) as nat, |j: int| Val::Unit));
            }
            i = i + 1;
        }
        self.frames.push(Frame { func, ip: 0, base });
        Ok(())
    }

    /// Pops `n` values in stack order: [`s_pop_n`].
    fn pop_n(&mut self, n: usize) -> (r: Result<Vec<VmValue>, VmError>)
        ensures
            (final(self)@, match r {
                Ok(v) => Ok::<Seq<Val>, VmError>(vals(v@)),
                Err(e) => Err(e),
            }) == s_pop_n(old(self)@, n as nat),
        decreases n,
    {
        if n == 0 {
            let e: Vec<VmValue> = Vec::new();
            proof {
                assert(vals(e@) =~= Seq::<Val>::empty());
            }
            return Ok(e);
        }
        let v = self.pop()?;
        let mut vs = self.pop_n(n - 1)?;
        let ghost before = vs@;
        vs.push(v);
        proof {
            assert(vals(vs@) =~= vals(before).push(v@));
        }
        Ok(vs)
    }

    /// A builtin that uses no floats, on its arguments: [`s_builtin`].
    fn call_builtin(&mut self, builtin: Builtin, args: Vec<VmValue>) -> (r: Result<StepAction, VmError>)
        requires
            !uses_float(builtin),
        ensures
            (final(self)@, result_v(r)) == s_builtin(old(self)@, builtin, vals(args@)),
    {
        let ghost vs = vals(args@);
        let mut sc: Vec<Scalar> = Vec::new();
        let mut i: usize = 0;
        while i < args.len()
            invariant
                i <= args@.len(),
                vs == vals(args@),
                sc@.len() == i,
                forall|j: int| 0 <= j < i ==> #[trigger] to_scalar(vs[j]) is Some,
                forall|j: int| 0 <= j < i ==> Some(#[trigger] sc@[j]@) == to_scalar(vs[j]),
            decreases args@.len() - i,
        {
            let c = match &args[i] {
                VmValue::Int(x) => Scalar::Int(*x),
                VmValue::Bool(x) => Scalar::Bool(*x),
                VmValue::Str(x) => Scalar::Str(x.clone()),
                VmValue::Unit => Scalar::Unit,
                _ => {
                    return Err(VmError::Internal("builtin called with wrong argument"));
                },
            };
            sc.push(c);
            i = i + 1;
        }
        proof {
            assert(sc@.map_values(|a: Scalar| a@) =~= scalars(vs));
        }
        let ghost s0 = self@;
        match eval(builtin, &sc, &mut self.stdout) {
            Ok(w) => {
                let v = match w {
                    Scalar::Int(x) => VmValue::Int(x),
                    Scalar::Bool(x) => VmValue::Bool(x),
                    Scalar::Str(x) => VmValue::Str(x),
                    Scalar::Unit => VmValue::Unit,
                };
                self.push(v);
                Ok(StepAction::Continue)
            },
            Err(e) => Err(e),
        }
    }
}


impl VmState {
    /// Runs one instruction: [`spec_step`]. An impossible state is an
    /// `Internal` error, never a panic.
    pub fn step(&mut self, program: &Program) -> (r: Result<StepAction, VmError>)
        ensures
            (final(self)@, result_v(r)) == spec_step(old(self)@, program),
    {
        if self.frames.len() == 0 {
            return Err(VmError::Internal("no active frame"));
        }
        let fr = self.frames[self.frames.len() - 1];
        if fr.func >= program.functions.len() {
            return Err(VmError::Internal("bad function"));
        }
        let chunk = &program.functions[fr.func];
        if fr.ip >= chunk.code.len() {
            return Err(VmError::Internal("ip out of bounds"));
        }
        self.set_ip(fr.ip + 1);
        let fr = self.frames[self.frames.len() - 1];
        let op = &chunk.code[fr.ip - 1];
        self.exec(program, fr, op)
    }

    fn exec(&mut self, program: &Program, fr: Frame, op: &Op) -> (r: Result<StepAction, VmError>)
        requires
            old(self).frames@.len() > 0,
            fr == old(self).frames@.last(),
            fr.func < program.functions@.len(),
        ensures
            (final(self)@, result_v(r)) == s_exec(old(self)@, program, fr, *op),
    {
        match op {
            Op::PushInt(v) => {
                self.push(VmValue::Int(*v));
                Ok(StepAction::Continue)
            },
            Op::PushFloat(t) => {
                let args: Vec<VmValue> = Vec::new();
                proof {
                    assert(vals(args@) =~= Seq::<Val>::empty());
                }
                Ok(StepAction::Host { op: HostOp::Const(t.clone()), args })
            },
            Op::PushBool(b) => {
                self.push(VmValue::Bool(*b));
                Ok(StepAction::Continue)
            },
            Op::PushUnit => {
                self.push(VmValue::Unit);
                Ok(StepAction::Continue)
            },
            Op::PushStr(k) => {
                let consts = &program.functions[fr.func].consts;
                if (*k as usize) < consts.len() {
                    let t = consts[*k as usize].clone();
                    self.push(VmValue::Str(t));
                    Ok(StepAction::Continue)
                } else {
                    Err(VmError::Internal("bad constant"))
                }
            },
            Op::LoadLocal(n) => {
                if fr.base < self.stack.len() && (*n as usize) < self.stack.len() - fr.base {
                    let v = copy_value(&self.stack[fr.base + *n as usize]);
                    self.push(v);
                    Ok(StepAction::Continue)
                } else {
                    Err(VmError::Internal("bad local"))
                }
            },
            Op::StoreLocal(n) => {
                let v = self.pop()?;
                if fr.base < self.stack.len() && (*n as usize) < self.stack.len() - fr.base {
                    let i = fr.base + *n as usize;
                    let ghost before = self@;
                    let ghost vv = v@;
                    let mut slot = v;
                    self.stack.set_and_swap(i, &mut slot);
                    proof {
                        assert(self@.stack =~= before.stack.update(i as int, vv));
                    }
                    Ok(StepAction::Continue)
                } else {
                    Err(VmError::Internal("bad local"))
                }
            },
            Op::Pop => {
                self.pop()?;
                Ok(StepAction::Continue)
            },
            Op::NegInt => {
                let a = self.pop_int()?;
                self.push(VmValue::Int(0i64.wrapping_sub(a)));
                Ok(StepAction::Continue)
            },
            Op::NegFloat => {
                let a = self.pop_float()?;
                let args = vec![VmValue::Float(a)];
                proof {
                    assert(vals(args@) =~= seq![Val::Float(a)]);
                }
                Ok(StepAction::Host { op: HostOp::Neg, args })
            },
            Op::NotBool => {
                let a = self.pop_bool()?;
                self.push(VmValue::Bool(!a));
                Ok(StepAction::Continue)
            },
            Op::ConcatStr => {
                let b = self.pop_str()?;
                let a = self.pop_str()?;
                let mut joined = a;
                push_str(&mut joined, b.as_str());
                self.push(VmValue::Str(joined));
                Ok(StepAction::Continue)
            },
            Op::Jump(target) => {
                self.set_ip(*target);
                Ok(StepAction::Continue)
            },
            Op::JumpIfFalse(target) => {
                let c = self.pop_bool()?;
                if !c {
                    self.set_ip(*target);
                }
                Ok(StepAction::Continue)
            },
            Op::Call { func, argc } => {
                self.enter(program, *func, *argc as usize)?;
                Ok(StepAction::Continue)
            },
            Op::CallBuiltin { builtin, argc } => {
                let args = self.pop_n(*argc as usize)?;
                if is_float_builtin(*builtin) {
                    Ok(StepAction::Host { op: HostOp::Builtin(*builtin), args })
                } else {
                    self.call_builtin(*builtin, args)
                }
            },
            Op::Eq | Op::Ne => self.exec_eq(program, fr, op),
            Op::MakeArray(_) | Op::Index | Op::SetIndex | Op::ArrayLen => self.exec_array(program, fr, op),
            Op::Return => self.exec_return(program, fr, op),
            _ => {
                if is_int(op) {
                    let b = self.pop_int()?;
                    let a = self.pop_int()?;
                    let v = int_op(op, a, b)?;
                    self.push(v);
                    Ok(StepAction::Continue)
                } else {
                    let b = self.pop_float()?;
                    let a = self.pop_float()?;
                    let args = vec![VmValue::Float(a), VmValue::Float(b)];
                    proof {
                        assert(vals(args@) =~= seq![Val::Float(a), Val::Float(b)]);
                    }
                    Ok(StepAction::Host { op: float_host_op(op), args })
                }
            },
        }
    }
}

impl VmState {
    fn exec_eq(&mut self, program: &Program, fr: Frame, op: &Op) -> (r: Result<StepAction, VmError>)
        requires
            old(self).frames@.len() > 0,
            fr == old(self).frames@.last(),
            fr.func < program.functions@.len(),
            op is Eq || op is Ne,
        ensures
            (final(self)@, result_v(r)) == s_exec(old(self)@, program, fr, *op),
    {
        match op {
            Op::Eq | Op::Ne => {
                let is_eq = match op {
                    Op::Eq => true,
                    _ => false,
                };
                let b = self.pop()?;
                let a = self.pop()?;
                let host = match (&a, &b) {
                    (VmValue::Float(_), VmValue::Float(_)) | (VmValue::Array(_), VmValue::Array(_)) => true,
                    _ => false,
                };
                if host {
                    let ghost av = a@;
                    let ghost bv = b@;
                    let args = vec![a, b];
                    proof {
                        assert(vals(args@) =~= seq![av, bv]);
                    }
                    Ok(StepAction::Host { op: HostOp::Compare(is_eq), args })
                } else {
                    let eq = values_equal(&a, &b);
                    self.push(VmValue::Bool(eq == is_eq));
                    Ok(StepAction::Continue)
                }
            },
            _ => Err(VmError::Internal("stack underflow")),
        }
    }

    fn exec_array(&mut self, program: &Program, fr: Frame, op: &Op) -> (r: Result<StepAction, VmError>)
        requires
            old(self).frames@.len() > 0,
            fr == old(self).frames@.last(),
            fr.func < program.functions@.len(),
            op is MakeArray || op is Index || op is SetIndex || op is ArrayLen,
        ensures
            (final(self)@, result_v(r)) == s_exec(old(self)@, program, fr, *op),
    {
        match op {
            Op::MakeArray(n) => {
                if (*n as usize) > self.stack.len() {
                    return Err(VmError::Internal("stack underflow"));
                }
                let at = self.stack.len() - *n as usize;
                let ghost before = self@;
                let items = self.stack.split_off(at);
                proof {
                    assert(vals(items@) =~= before.stack.subrange(at as int, before.stack.len() as int));
                }
                let h = self.heap.len();
                let ghost raw = self.heap@;
                self.heap.push(items);
                proof {
                    assert(self@.stack =~= before.stack.subrange(0, at as int));
                    assert(self.heap@ == raw.push(items));
                    assert(self@.heap =~= before.heap.push(before.stack.subrange(at as int, before.stack.len() as int)));
                }
                self.push(VmValue::Array(h));
                Ok(StepAction::Continue)
            },
            Op::Index => {
                let i = self.pop_int()?;
                let h = self.pop_array()?;
                let len = self.heap[h].len();
                match index_in_bounds(i, len) {
                    Some(k) => {
                        let v = copy_value(&self.heap[h][k]);
                        self.push(v);
                        Ok(StepAction::Continue)
                    },
                    None => Err(VmError::IndexOutOfBounds { index: i, len }),
                }
            },
            Op::SetIndex => {
                let v = self.pop()?;
                let i = self.pop_int()?;
                let h = self.pop_array()?;
                let len = self.heap[h].len();
                match index_in_bounds(i, len) {
                    Some(k) => {
                        let ghost before = self@;
                        let ghost vv = v@;
                        let mut arr: Vec<VmValue> = Vec::new();
                        self.heap.set_and_swap(h, &mut arr);
                        proof {
                            assert(vals(arr@) == before.heap[h as int]);
                        }
                        let ghost a0 = arr@;
                        let mut slot = v;
                        arr.set_and_swap(k, &mut slot);
                        proof {
                            assert(vals(arr@) =~= vals(a0).update(k as int, vv));
                        }
                        let ghost raw = self.heap@;
                        self.heap.set_and_swap(h, &mut arr);
                        proof {
                            assert(self.heap@ == raw.update(h as int, self.heap@[h as int]));
                            assert(vals(self.heap@[h as int]@) == vals(a0).update(k as int, vv));
                            assert(self@.heap =~= before.heap.update(h as int, before.heap[h as int].update(k as int, vv)));
                            assert(self@.stack =~= before.stack);
                        }
                        self.push(VmValue::Unit);
                        Ok(StepAction::Continue)
                    },
                    None => Err(VmError::IndexOutOfBounds { index: i, len }),
                }
            },
            Op::ArrayLen => {
                let h = self.pop_array()?;
                let len = self.heap[h].len();
                self.push(VmValue::Int(#[verifier::truncate] (len as i64)));
                Ok(StepAction::Continue)
            },
            _ => Err(VmError::Internal("stack underflow")),
        }
    }

    fn exec_return(&mut self, program: &Program, fr: Frame, op: &Op) -> (r: Result<StepAction, VmError>)
        requires
            old(self).frames@.len() > 0,
            fr == old(self).frames@.last(),
            fr.func < program.functions@.len(),
            op is Return,
        ensures
            (final(self)@, result_v(r)) == s_exec(old(self)@, program, fr, *op),
    {
        match op {
            Op::Return => {
                let v = self.pop()?;
                if self.frames.len() == 0 {
                    return Err(VmError::Internal("return with no frame"));
                }
                let ghost t = self@;
                let top = self.frames.pop().unwrap();
                self.stack.truncate(top.base);
                proof {
                    assert(self@.frames =~= t.frames.drop_last());
                    if top.base <= t.stack.len() {
                        assert(self@.stack =~= t.stack.subrange(0, top.base as int));
                    } else {
                        assert(self@.stack =~= t.stack);
                    }
                }
                if self.frames.len() == 0 {
                    Ok(StepAction::Done(v))
                } else {
                    self.push(v);
                    Ok(StepAction::Continue)
                }
            },
            _ => Err(VmError::Internal("stack underflow")),
        }
    }
}

/// Whether an instruction takes two integers: [`is_int_op`].
fn is_int(op: &Op) -> (b: bool)
    ensures
        b == is_int_op(*op),
{
    match op {
        Op::AddInt | Op::SubInt | Op::MulInt | Op::DivInt | Op::RemInt | Op::LtInt | Op::LeInt | Op::GtInt
        | Op::GeInt => true,
        _ => false,
    }
}


// ---- running ----

/// Steps from `s` until `main` returns, an error, or work for the host,
/// having taken `steps` of at most `max_steps`: the state, the steps taken,
/// and the outcome. A step that would exceed the limit is not taken.
pub open spec fn spec_run(s: StateV, p: &Program, steps: u64, max_steps: u64) -> (StateV, u64, Result<ActionV, VmError>)
    decreases max_steps - steps,
{
    if s.frames.len() == 0 {
        (s, steps, Ok(ActionV::Done(Val::Unit)))
    } else if steps >= max_steps {
        (s, steps, Err(VmError::StepLimitExceeded(max_steps)))
    } else {
        let (t, r) = spec_step(s, p);
        match r {
            Err(e) => (t, (steps + 1) as u64, Err(e)),
            Ok(ActionV::Continue) => spec_run(t, p, (steps + 1) as u64, max_steps),
            Ok(a) => (t, (steps + 1) as u64, Ok(a)),
        }
    }
}

/// The step limit bounds execution: no more than `max_steps` steps are
/// ever taken.
pub proof fn lemma_run_bounded(s: StateV, p: &Program, steps: u64, max_steps: u64)
    requires
        steps <= max_steps,
    ensures
        spec_run(s, p, steps, max_steps).1 <= max_steps,
    decreases max_steps - steps,
{
    if s.frames.len() > 0 && steps < max_steps {
        let (t, r) = spec_step(s, p);
        if r == Ok::<ActionV, VmError>(ActionV::Continue) {
            lemma_run_bounded(t, p, (steps + 1) as u64, max_steps);
        }
    }
}

impl VmState {
    /// A machine about to run `main` with no arguments.
    pub fn start(program: &Program) -> (r: Result<VmState, VmError>)
        ensures
            match r {
                Ok(s) => (s@, Ok::<(), VmError>(())) == s_enter(VmState::new_spec(), program, program.main, 0),
                Err(e) => s_enter(VmState::new_spec(), program, program.main, 0).1 == Err::<(), VmError>(e),
            },
    {
        let mut s = VmState::new();
        match s.enter(program, program.main, 0) {
            Ok(()) => Ok(s),
            Err(e) => Err(e),
        }
    }

    /// The empty machine, as a value.
    pub open spec fn new_spec() -> StateV {
        StateV { stack: Seq::empty(), frames: Seq::empty(), heap: Seq::empty(), out: Seq::empty() }
    }

    /// Runs until `main` returns, an error, or work for the host, counting
    /// steps in `steps` against `max_steps`: [`spec_run`].
    pub fn run(&mut self, program: &Program, steps: &mut u64, max_steps: u64) -> (r: Result<StepAction, VmError>)
        ensures
            (final(self)@, *final(steps), result_v(r)) == spec_run(old(self)@, program, *old(steps), max_steps),
            *old(steps) <= max_steps ==> *final(steps) <= max_steps,
    {
        proof {
            if *steps <= max_steps {
                lemma_run_bounded(self@, program, *steps, max_steps);
            }
        }
        let ghost goal = spec_run(self@, program, *steps, max_steps);
        loop
            invariant
                spec_run(self@, program, *steps, max_steps) == goal,
                goal == spec_run(old(self)@, program, *old(steps), max_steps),
                *old(steps) <= max_steps ==> *steps <= max_steps,
            decreases max_steps - *steps,
        {
            if self.frames.len() == 0 {
                return Ok(StepAction::Done(VmValue::Unit));
            }
            if *steps >= max_steps {
                return Err(VmError::StepLimitExceeded(max_steps));
            }
            *steps = *steps + 1;
            match self.step(program)? {
                StepAction::Continue => {},
                other => {
                    return Ok(other);
                },
            }
        }
    }
}

} // verus!
