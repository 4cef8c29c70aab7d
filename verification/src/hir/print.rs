//! A deterministic pretty-printer for the HIR.
//!
//! Like the AST printer, this renders an indented tree for snapshot tests
//! and `lumenc dump hir`. Because HIR is fully typed, each expression line
//! ends with its type in `: ty` form, and variables appear as their slot,
//! making lowering decisions (slot allocation, call targets) visible. The
//! output is specified by [`hir_text`].

use vstd::prelude::*;
use vstd::string::*;

use crate::hir::{Block, Callee, Expr, ExprKind, FnId, Function, Hir, LocalDecl, Stmt};
use crate::parser::ast::binop_text;
use crate::parser::print::{
    bool_text, debug_quoted, debug_str, deeper, float_display, ln, push_float, signed_text, unop_text,
};
use crate::sema::types::{builtin_name, type_text, Type};
use crate::text::{decimal, push_decimal, push_signed, push_str};

verus! {

/// ` : ty` as printed after an expression.
pub open spec fn typed(t: Type) -> Seq<char> {
    ": "@ + type_text(t)
}

/// How a call target is shown.
pub open spec fn callee_text(c: Callee) -> Seq<char> {
    match c {
        Callee::Fn(id) => "fn#"@ + decimal(id.0 as nat),
        Callee::Builtin(b) => "builtin "@ + builtin_name(b),
    }
}

/// The layout of an expression at indentation `pre`.
pub open spec fn hexpr_text(e: Expr, pre: Seq<char>) -> Seq<char>
    decreases e, 1int,
{
    hkind_text(e.kind, e.ty, pre)
}

/// The layout of an expression of kind `k` and type `ty` at indentation `pre`.
pub open spec fn hkind_text(k: ExprKind, ty: Type, pre: Seq<char>) -> Seq<char>
    decreases k, 0int,
{
    let d1 = deeper(pre);
    let d2 = deeper(d1);
    match k {
        ExprKind::Int(v) => ln(pre, "int "@ + signed_text(v) + typed(ty)),
        ExprKind::Float(t) => ln(pre, "float "@ + float_display(t@) + typed(ty)),
        ExprKind::Bool(b) => ln(pre, "bool "@ + bool_text(b) + typed(ty)),
        ExprKind::Str(t) => ln(pre, "str "@ + debug_quoted(t@) + typed(ty)),
        ExprKind::Local(id) => ln(pre, "local _"@ + decimal(id.0 as nat) + typed(ty)),
        ExprKind::Unary { op, rhs } => ln(pre, "unary "@ + unop_text(op) + typed(ty)) + hexpr_text(*rhs, d1),
        ExprKind::Binary { op, lhs, rhs } => ln(pre, "binary "@ + binop_text(op) + typed(ty)) + hexpr_text(*lhs, d1)
            + hexpr_text(*rhs, d1),
        ExprKind::Call { callee, args } => ln(pre, "call "@ + callee_text(callee) + typed(ty)) + hexprs_text(
            args@,
            args@.len(),
            d1,
        ),
        ExprKind::Assign { local, value } => ln(pre, "assign _"@ + decimal(local.0 as nat) + typed(ty)) + hexpr_text(
            *value,
            d1,
        ),
        ExprKind::If { cond, then_branch, else_branch } => ln(pre, "if"@ + typed(ty)) + ln(d1, "cond"@) + hexpr_text(
            *cond,
            d2,
        ) + hblock_text(then_branch, d1) + match else_branch {
            Some(e) => ln(d1, "else"@) + hexpr_text(*e, d2),
            None => Seq::empty(),
        },
        ExprKind::ArrayLit(es) => ln(pre, "array"@ + typed(ty)) + hexprs_text(es@, es@.len(), d1),
        ExprKind::Index { base, index } => ln(pre, "index"@ + typed(ty)) + hexpr_text(*base, d1) + hexpr_text(
            *index,
            d1,
        ),
        ExprKind::SetIndex { base, index, value } => ln(pre, "set-index"@ + typed(ty)) + hexpr_text(*base, d1)
            + hexpr_text(*index, d1) + hexpr_text(*value, d1),
        ExprKind::StructLit(fs) => ln(pre, "struct"@ + typed(ty)) + hfields_text(fs@, fs@.len(), d1),
        ExprKind::GetField { base, idx } => ln(pre, "get-field "@ + decimal(idx as nat) + typed(ty)) + hexpr_text(
            *base,
            d1,
        ),
        ExprKind::SetField { base, idx, value } => ln(pre, "set-field "@ + decimal(idx as nat) + typed(ty))
            + hexpr_text(*base, d1) + hexpr_text(*value, d1),
        ExprKind::Block(b) => hblock_text(b, pre),
    }
}

/// The first `n` expressions, one after the other.
pub open spec fn hexprs_text(es: Seq<Expr>, n: nat, pre: Seq<char>) -> Seq<char>
    decreases es, n,
{
    if n == 0 || n > es.len() {
        Seq::empty()
    } else {
        hexprs_text(es, (n - 1) as nat, pre) + hexpr_text(es[n - 1], pre)
    }
}

/// The first `n` field values of a struct value, each under its index.
pub open spec fn hfields_text(es: Seq<Expr>, n: nat, pre: Seq<char>) -> Seq<char>
    decreases es, n,
{
    if n == 0 || n > es.len() {
        Seq::empty()
    } else {
        hfields_text(es, (n - 1) as nat, pre) + ln(pre, "field "@ + decimal((n - 1) as nat)) + hexpr_text(
            es[n - 1],
            deeper(pre),
        )
    }
}

/// The layout of a block at indentation `pre`.
pub open spec fn hblock_text(b: Block, pre: Seq<char>) -> Seq<char>
    decreases b, 1int,
{
    let d1 = deeper(pre);
    ln(pre, "block"@ + typed(b.ty)) + hstmts_text(b.stmts@, b.stmts@.len(), d1) + match b.tail {
        Some(t) => ln(d1, "tail"@) + hexpr_text(*t, deeper(d1)),
        None => Seq::empty(),
    }
}

/// The first `n` statements.
pub open spec fn hstmts_text(ss: Seq<Stmt>, n: nat, pre: Seq<char>) -> Seq<char>
    decreases ss, n,
{
    if n == 0 || n > ss.len() {
        Seq::empty()
    } else {
        hstmts_text(ss, (n - 1) as nat, pre) + hstmt_text(ss[n - 1], pre)
    }
}

/// The layout of a statement at indentation `pre`.
pub open spec fn hstmt_text(s: Stmt, pre: Seq<char>) -> Seq<char>
    decreases s, 0int,
{
    let d1 = deeper(pre);
    let d2 = deeper(d1);
    match s {
        Stmt::Let { local, value } => ln(pre, "let _"@ + decimal(local.0 as nat)) + hexpr_text(value, d1),
        Stmt::Expr(e) => ln(pre, "expr-stmt"@) + hexpr_text(e, d1),
        Stmt::Return(v) => ln(pre, "return"@) + match v {
            Some(e) => hexpr_text(e, d1),
            None => Seq::empty(),
        },
        Stmt::While { cond, body } => ln(pre, "while"@) + ln(d1, "cond"@) + hexpr_text(cond, d2) + hblock_text(
            body,
            d1,
        ),
        Stmt::For { var, end_var, start, end, body } => ln(
            pre,
            "for _"@ + decimal(var.0 as nat) + " end=_"@ + decimal(end_var.0 as nat),
        ) + ln(d1, "start"@) + hexpr_text(start, d2) + ln(d1, "end"@) + hexpr_text(end, d2) + hblock_text(body, d1),
        Stmt::Break => ln(pre, "break"@),
        Stmt::Continue => ln(pre, "continue"@),
    }
}

/// `i:name ty` for a parameter.
pub open spec fn param_text(i: nat, l: LocalDecl) -> Seq<char> {
    decimal(i) + ":"@ + l.name@ + " "@ + type_text(l.ty)
}

/// The first `n` parameters, separated by `, `.
pub open spec fn params_list(ls: Seq<LocalDecl>, n: nat) -> Seq<char>
    decreases n,
{
    if n == 0 {
        Seq::empty()
    } else if n == 1 {
        param_text(0, ls[0])
    } else {
        params_list(ls, (n - 1) as nat) + ", "@ + param_text((n - 1) as nat, ls[n - 1])
    }
}

/// The lines of locals `from..to`.
pub open spec fn locals_text(ls: Seq<LocalDecl>, from: nat, to: nat) -> Seq<char>
    decreases to,
{
    if to <= from {
        Seq::empty()
    } else {
        locals_text(ls, from, (to - 1) as nat) + ln(
            "  "@,
            "local "@ + decimal((to - 1) as nat) + ": "@ + ls[to - 1].name@ + " "@ + type_text(ls[to - 1].ty),
        )
    }
}

/// The layout of function `id`.
pub open spec fn function_text(id: nat, f: Function, main: FnId) -> Seq<char> {
    ln(
        ""@,
        "fn "@ + f.name@ + "("@ + params_list(f.locals@, f.param_count as nat) + ") -> "@ + type_text(f.ret) + (if id
            == main.0 {
            " [entry]"@
        } else {
            ""@
        }),
    ) + locals_text(f.locals@, f.param_count as nat, f.locals@.len()) + hblock_text(f.body, "  "@)
}

/// The layout of the first `n` functions of a program.
pub open spec fn functions_text(h: &Hir, n: nat) -> Seq<char>
    decreases n,
{
    if n == 0 || n > h.functions@.len() {
        Seq::empty()
    } else {
        functions_text(h, (n - 1) as nat) + function_text((n - 1) as nat, h.functions@[n - 1], h.main)
    }
}

/// The whole program's layout.
pub open spec fn hir_text(h: &Hir) -> Seq<char> {
    functions_text(h, h.functions@.len())
}


/// `pre` one level deeper.
fn deeper_str(pre: &str) -> (r: String)
    ensures
        r@ == deeper(pre@),
{
    let mut r = pre.to_owned();
    push_str(&mut r, "  ");
    proof {
        reveal_strlit("  ");
    }
    r
}

/// Appends `: ty`.
fn push_typed(out: &mut String, t: Type)
    ensures
        final(out)@ == old(out)@ + typed(t),
{
    proof {
        reveal_strlit(": ");
    }
    push_str(out, ": ");
    let ts = t.to_string();
    push_str(out, ts.as_str());
}

struct Printer {
    out: String,
}

impl Printer {
    /// Writes one indented line.
    fn line(&mut self, pre: &str, text: &str)
        ensures
            final(self).out@ == old(self).out@ + ln(pre@, text@),
    {
        push_str(&mut self.out, pre);
        push_str(&mut self.out, text);
        push_str(&mut self.out, "\n");
        proof {
            reveal_strlit("\n");
        }
    }

    fn exprs(&mut self, es: &Vec<Expr>, pre: &str, Ghost(outer): Ghost<&Expr>)
        requires
            forall|k: int| 0 <= k < es@.len() ==> decreases_to!(*outer => #[trigger] es@[k]),
        ensures
            final(self).out@ == old(self).out@ + hexprs_text(es@, es@.len(), pre@),
        decreases *outer, 0int,
    {
        let ghost start = self.out@;
        let mut i: usize = 0;
        while i < es.len()
            invariant
                0 <= i <= es@.len(),
                self.out@ == start + hexprs_text(es@, i as nat, pre@),
                forall|k: int| 0 <= k < es@.len() ==> decreases_to!(*outer => #[trigger] es@[k]),
            decreases es@.len() - i,
        {
            self.expr(&es[i], pre);
            i = i + 1;
        }
    }

    fn fields(&mut self, es: &Vec<Expr>, pre: &str, Ghost(outer): Ghost<&Expr>)
        requires
            forall|k: int| 0 <= k < es@.len() ==> decreases_to!(*outer => #[trigger] es@[k]),
        ensures
            final(self).out@ == old(self).out@ + hfields_text(es@, es@.len(), pre@),
        decreases *outer, 0int,
    {
        proof {
            reveal_strlit("field ");
        }
        let ghost start = self.out@;
        let d1 = deeper_str(pre);
        let mut i: usize = 0;
        while i < es.len()
            invariant
                0 <= i <= es@.len(),
                self.out@ == start + hfields_text(es@, i as nat, pre@),
                d1@ == deeper(pre@),
                forall|k: int| 0 <= k < es@.len() ==> decreases_to!(*outer => #[trigger] es@[k]),
            decreases es@.len() - i,
        {
            let mut t = "field ".to_owned();
            push_decimal(&mut t, i as u64);
            self.line(pre, t.as_str());
            self.expr(&es[i], d1.as_str());
            i = i + 1;
        }
    }

    fn expr(&mut self, expr: &Expr, pre: &str)
        ensures
            final(self).out@ == old(self).out@ + hexpr_text(*expr, pre@),
        decreases *expr, 2int,
    {
        proof {
            reveal_strlit("int ");
            reveal_strlit("float ");
            reveal_strlit("bool ");
            reveal_strlit("true");
            reveal_strlit("false");
            reveal_strlit("str ");
            reveal_strlit("local _");
            reveal_strlit("unary ");
            reveal_strlit("binary ");
            reveal_strlit("call ");
            reveal_strlit("fn#");
            reveal_strlit("builtin ");
            reveal_strlit("assign _");
            reveal_strlit("if");
            reveal_strlit("cond");
            reveal_strlit("else");
            reveal_strlit("array");
            reveal_strlit("index");
            reveal_strlit("set-index");
            reveal_strlit("struct");
            reveal_strlit("get-field ");
            reveal_strlit("set-field ");
            reveal_strlit("-");
            reveal_strlit("!");
        }
        let ghost start = self.out@;
        let ty = expr.ty;
        let d1 = deeper_str(pre);
        let d2 = deeper_str(d1.as_str());
        match &expr.kind {
            ExprKind::Int(v) => {
                let mut t = "int ".to_owned();
                push_signed(&mut t, *v);
                push_typed(&mut t, ty);
                self.line(pre, t.as_str());
            },
            ExprKind::Float(lit) => {
                let mut t = "float ".to_owned();
                push_float(&mut t, lit.as_str());
                push_typed(&mut t, ty);
                self.line(pre, t.as_str());
            },
            ExprKind::Bool(b) => {
                let mut t = "bool ".to_owned();
                if *b {
                    push_str(&mut t, "true");
                } else {
                    push_str(&mut t, "false");
                }
                push_typed(&mut t, ty);
                self.line(pre, t.as_str());
            },
            ExprKind::Str(text) => {
                let mut t = "str ".to_owned();
                let q = debug_str(text.as_str());
                push_str(&mut t, q.as_str());
                push_typed(&mut t, ty);
                self.line(pre, t.as_str());
            },
            ExprKind::Local(id) => {
                let mut t = "local _".to_owned();
                push_decimal(&mut t, id.0 as u64);
                push_typed(&mut t, ty);
                self.line(pre, t.as_str());
            },
            ExprKind::Unary { op, rhs } => {
                let mut t = "unary ".to_owned();
                push_str(&mut t, op.symbol());
                push_typed(&mut t, ty);
                self.line(pre, t.as_str());
                self.expr(rhs, d1.as_str());
            },
            ExprKind::Binary { op, lhs, rhs } => {
                let mut t = "binary ".to_owned();
                push_str(&mut t, op.symbol());
                push_typed(&mut t, ty);
                self.line(pre, t.as_str());
                self.expr(lhs, d1.as_str());
                self.expr(rhs, d1.as_str());
            },
            ExprKind::Call { callee, args } => {
                let mut t = "call ".to_owned();
                match callee {
                    Callee::Fn(id) => {
                        push_str(&mut t, "fn#");
                        push_decimal(&mut t, id.0 as u64);
                    },
                    Callee::Builtin(b) => {
                        push_str(&mut t, "builtin ");
                        push_str(&mut t, b.name());
                    },
                }
                push_typed(&mut t, ty);
                self.line(pre, t.as_str());
                proof {
                    assert forall|k: int| 0 <= k < args@.len() implies decreases_to!(*expr => #[trigger] args@[k]) by {
                        assert(decreases_to!(*expr => args@[k]));
                    }
                }
                self.exprs(args, d1.as_str(), Ghost(expr));
            },
            ExprKind::Assign { local, value } => {
                let mut t = "assign _".to_owned();
                push_decimal(&mut t, local.0 as u64);
                push_typed(&mut t, ty);
                self.line(pre, t.as_str());
                self.expr(value, d1.as_str());
            },
            ExprKind::If { cond, then_branch, else_branch } => {
                let mut t = "if".to_owned();
                push_typed(&mut t, ty);
                self.line(pre, t.as_str());
                self.line(d1.as_str(), "cond");
                self.expr(cond, d2.as_str());
                self.block(then_branch, d1.as_str());
                match else_branch {
                    Some(e) => {
                        self.line(d1.as_str(), "else");
                        self.expr(e, d2.as_str());
                    },
                    None => {},
                }
            },
            ExprKind::ArrayLit(es) => {
                let mut t = "array".to_owned();
                push_typed(&mut t, ty);
                self.line(pre, t.as_str());
                proof {
                    assert forall|k: int| 0 <= k < es@.len() implies decreases_to!(*expr => #[trigger] es@[k]) by {
                        assert(decreases_to!(*expr => es@[k]));
                    }
                }
                self.exprs(es, d1.as_str(), Ghost(expr));
            },
            ExprKind::Index { base, index } => {
                let mut t = "index".to_owned();
                push_typed(&mut t, ty);
                self.line(pre, t.as_str());
                self.expr(base, d1.as_str());
                self.expr(index, d1.as_str());
            },
            ExprKind::SetIndex { base, index, value } => {
                let mut t = "set-index".to_owned();
                push_typed(&mut t, ty);
                self.line(pre, t.as_str());
                self.expr(base, d1.as_str());
                self.expr(index, d1.as_str());
                self.expr(value, d1.as_str());
            },
            ExprKind::StructLit(fs) => {
                let mut t = "struct".to_owned();
                push_typed(&mut t, ty);
                self.line(pre, t.as_str());
                proof {
                    assert forall|k: int| 0 <= k < fs@.len() implies decreases_to!(*expr => #[trigger] fs@[k]) by {
                        assert(decreases_to!(*expr => fs@[k]));
                    }
                }
                self.fields(fs, d1.as_str(), Ghost(expr));
            },
            ExprKind::GetField { base, idx } => {
                let mut t = "get-field ".to_owned();
                push_decimal(&mut t, *idx as u64);
                push_typed(&mut t, ty);
                self.line(pre, t.as_str());
                self.expr(base, d1.as_str());
            },
            ExprKind::SetField { base, idx, value } => {
                let mut t = "set-field ".to_owned();
                push_decimal(&mut t, *idx as u64);
                push_typed(&mut t, ty);
                self.line(pre, t.as_str());
                self.expr(base, d1.as_str());
                self.expr(value, d1.as_str());
            },
            ExprKind::Block(b) => self.block(b, pre),
        }
    }

    fn block(&mut self, block: &Block, pre: &str)
        ensures
            final(self).out@ == old(self).out@ + hblock_text(*block, pre@),
        decreases *block, 2int,
    {
        proof {
            reveal_strlit("block");
            reveal_strlit("tail");
        }
        let mut t = "block".to_owned();
        push_typed(&mut t, block.ty);
        self.line(pre, t.as_str());
        let d1 = deeper_str(pre);
        let ghost mid = self.out@;
        let mut i: usize = 0;
        while i < block.stmts.len()
            invariant
                0 <= i <= block.stmts@.len(),
                self.out@ == mid + hstmts_text(block.stmts@, i as nat, d1@),
            decreases block.stmts@.len() - i,
        {
            proof {
                assert(decreases_to!(*block => block.stmts@[i as int]));
            }
            self.stmt(&block.stmts[i], d1.as_str());
            i = i + 1;
        }
        match &block.tail {
            Some(tail) => {
                self.line(d1.as_str(), "tail");
                let d2 = deeper_str(d1.as_str());
                self.expr(tail, d2.as_str());
            },
            None => {},
        }
    }

    fn stmt(&mut self, stmt: &Stmt, pre: &str)
        ensures
            final(self).out@ == old(self).out@ + hstmt_text(*stmt, pre@),
        decreases *stmt, 2int,
    {
        proof {
            reveal_strlit("let _");
            reveal_strlit("expr-stmt");
            reveal_strlit("return");
            reveal_strlit("while");
            reveal_strlit("cond");
            reveal_strlit("for _");
            reveal_strlit(" end=_");
            reveal_strlit("start");
            reveal_strlit("end");
            reveal_strlit("break");
            reveal_strlit("continue");
        }
        let d1 = deeper_str(pre);
        let d2 = deeper_str(d1.as_str());
        match stmt {
            Stmt::Let { local, value } => {
                let mut t = "let _".to_owned();
                push_decimal(&mut t, local.0 as u64);
                self.line(pre, t.as_str());
                self.expr(value, d1.as_str());
            },
            Stmt::Expr(e) => {
                self.line(pre, "expr-stmt");
                self.expr(e, d1.as_str());
            },
            Stmt::Return(v) => {
                self.line(pre, "return");
                match v {
                    Some(e) => self.expr(e, d1.as_str()),
                    None => {},
                }
            },
            Stmt::While { cond, body } => {
                self.line(pre, "while");
                self.line(d1.as_str(), "cond");
                self.expr(cond, d2.as_str());
                self.block(body, d1.as_str());
            },
            Stmt::For { var, end_var, start, end, body } => {
                let mut t = "for _".to_owned();
                push_decimal(&mut t, var.0 as u64);
                push_str(&mut t, " end=_");
                push_decimal(&mut t, end_var.0 as u64);
                self.line(pre, t.as_str());
                self.line(d1.as_str(), "start");
                self.expr(start, d2.as_str());
                self.line(d1.as_str(), "end");
                self.expr(end, d2.as_str());
                self.block(body, d1.as_str());
            },
            Stmt::Break => self.line(pre, "break"),
            Stmt::Continue => self.line(pre, "continue"),
        }
    }

    fn function(&mut self, id: usize, func: &Function, main: FnId)
        requires
            func.param_count <= func.locals@.len(),
        ensures
            final(self).out@ == old(self).out@ + function_text(id as nat, *func, main),
    {
        proof {
            reveal_strlit("fn ");
            reveal_strlit("(");
            reveal_strlit(") -> ");
            reveal_strlit(" [entry]");
            reveal_strlit("");
            reveal_strlit(", ");
            reveal_strlit(":");
            reveal_strlit(" ");
            reveal_strlit("local ");
            reveal_strlit(": ");
            reveal_strlit("  ");
        }
        let mut t = "fn ".to_owned();
        push_str(&mut t, func.name.as_str());
        push_str(&mut t, "(");
        let mut i: usize = 0;
        let ghost h0 = t@;
        while i < func.param_count
            invariant
                i <= func.param_count <= func.locals@.len(),
                t@ == h0 + params_list(func.locals@, i as nat),
            decreases func.param_count - i,
        {
            if i > 0 {
                push_str(&mut t, ", ");
            }
            let l = &func.locals[i];
            push_decimal(&mut t, i as u64);
            push_str(&mut t, ":");
            push_str(&mut t, l.name.as_str());
            push_str(&mut t, " ");
            let ts = l.ty.to_string();
            push_str(&mut t, ts.as_str());
            proof {
                if i == 0 {
                    assert(params_list(func.locals@, 1) == param_text(0, func.locals@[0]));
                }
            }
            i = i + 1;
        }
        push_str(&mut t, ") -> ");
        let rs = func.ret.to_string();
        push_str(&mut t, rs.as_str());
        if id as u64 == main.0 as u64 {
            push_str(&mut t, " [entry]");
        } else {
            push_str(&mut t, "");
        }
        self.line("", t.as_str());
        let ghost mid = self.out@;
        let mut k: usize = func.param_count;
        while k < func.locals.len()
            invariant
                func.param_count <= k <= func.locals@.len(),
                self.out@ == mid + locals_text(func.locals@, func.param_count as nat, k as nat),
            decreases func.locals@.len() - k,
        {
            let l = &func.locals[k];
            let mut t = "local ".to_owned();
            push_decimal(&mut t, k as u64);
            push_str(&mut t, ": ");
            push_str(&mut t, l.name.as_str());
            push_str(&mut t, " ");
            let ts = l.ty.to_string();
            push_str(&mut t, ts.as_str());
            self.line("  ", t.as_str());
            k = k + 1;
        }
        self.block(&func.body, "  ");
    }
}

/// Renders a whole program: [`hir_text`]. Every function's parameters must
/// lead its locals.
pub fn print_hir(hir: &Hir) -> (s: String)
    requires
        forall|i: int| 0 <= i < hir.functions@.len() ==> (#[trigger] hir.functions@[i]).param_count
            <= hir.functions@[i].locals@.len(),
    ensures
        s@ == hir_text(hir),
{
    let mut p = Printer { out: String::new() };
    let mut i: usize = 0;
    while i < hir.functions.len()
        invariant
            i <= hir.functions@.len(),
            p.out@ == functions_text(hir, i as nat),
            forall|j: int| 0 <= j < hir.functions@.len() ==> (#[trigger] hir.functions@[j]).param_count
                <= hir.functions@[j].locals@.len(),
        decreases hir.functions@.len() - i,
    {
        p.function(i, &hir.functions[i], hir.main);
        i = i + 1;
    }
    p.out
}

} // verus!
