//! The source formatter: turns an [`Ast`] back into canonical Lumen source.
//!
//! This powers `lumenc fmt`. Unlike the AST debug printer
//! ([`parser::print`](crate::parser::print)), which emits a tree for
//! inspection, the formatter emits valid Lumen code in a single canonical
//! style: four-space indentation, one statement per line, spaces around
//! binary operators, and minimal parentheses driven by operator precedence.
//!
//! The output is specified by [`source_text`] and the functions it calls.

use vstd::prelude::*;
use vstd::string::*;

use crate::parser::ast::{
    Ast, BinOp, Block, Expr, ExprKind, FieldInit, Item, ItemKind, MatchArm, Param, Pattern, Stmt, StmtKind,
    binop_text,
};
use crate::parser::print::{
    bool_text, debug_quoted, debug_str, float_display, pattern_text, push_float, push_pattern, push_type_expr,
    signed_text, type_text, unop_text,
};
use crate::text::{decimal, push_char, push_decimal, push_signed, push_str};

verus! {

/// The precedence level of a binary operator, used to parenthesise
/// minimally. Higher binds tighter; it mirrors the parser's binding powers.
pub open spec fn precedence(op: BinOp) -> u8 {
    match op {
        BinOp::Or => 1,
        BinOp::And => 2,
        BinOp::Eq | BinOp::Ne => 3,
        BinOp::Lt | BinOp::Le | BinOp::Gt | BinOp::Ge => 4,
        BinOp::Add | BinOp::Sub => 5,
        BinOp::Mul | BinOp::Div | BinOp::Rem => 6,
    }
}

fn prec(op: BinOp) -> (p: u8)
    ensures
        p == precedence(op),
{
    match op {
        BinOp::Or => 1,
        BinOp::And => 2,
        BinOp::Eq | BinOp::Ne => 3,
        BinOp::Lt | BinOp::Le | BinOp::Gt | BinOp::Ge => 4,
        BinOp::Add | BinOp::Sub => 5,
        BinOp::Mul | BinOp::Div | BinOp::Rem => 6,
    }
}

/// A float literal in source form: as it displays, with `.0` added to a
/// whole number (which would otherwise lex as an integer).
pub open spec fn float_source(lit: Seq<char>) -> Seq<char> {
    if float_display(lit).contains('.') {
        float_display(lit)
    } else {
        float_display(lit) + ".0"@
    }
}

/// One indentation level.
pub open spec fn tab(ind: Seq<char>) -> Seq<char> {
    ind + "    "@
}

/// An expression in source form, at indentation `ind`, under an operator of
/// precedence `parent` (0 at the top): a binary operation binding looser than
/// its context is parenthesised.
pub open spec fn expr_src(e: Expr, parent: u8, ind: Seq<char>) -> Seq<char>
    decreases e, 0int,
{
    match e.kind {
        ExprKind::Int(v) => signed_text(v),
        ExprKind::Float(t) => float_source(t@),
        ExprKind::Bool(b) => bool_text(b),
        ExprKind::Str(t) => debug_quoted(t@),
        ExprKind::Name(n) => n@,
        ExprKind::Unary { op, rhs } => unop_text(op) + expr_src(*rhs, 7, ind),
        ExprKind::Binary { op, lhs, rhs } => {
            let p = precedence(op);
            let text = expr_src(*lhs, p, ind) + " "@ + binop_text(op) + " "@ + expr_src(*rhs, (p + 1) as u8, ind);
            if p < parent {
                "("@ + text + ")"@
            } else {
                text
            }
        },
        ExprKind::Call { callee, args } => expr_src(*callee, 8, ind) + "("@ + list_src(args@, args@.len(), ind)
            + ")"@,
        ExprKind::Index { base, index } => expr_src(*base, 8, ind) + "["@ + expr_src(*index, 0, ind) + "]"@,
        ExprKind::ArrayLit(elems) => "["@ + list_src(elems@, elems@.len(), ind) + "]"@,
        ExprKind::Assign { target, value } => expr_src(*target, 0, ind) + " = "@ + expr_src(*value, 0, ind),
        ExprKind::AssignOp { target, op, value } => expr_src(*target, 0, ind) + " "@ + binop_text(op) + "= "@
            + expr_src(*value, 0, ind),
        ExprKind::StructLit { name, fields } => name.name@ + " { "@ + inits_src(fields@, fields@.len(), ind)
            + " }"@,
        ExprKind::Field { base, field } => expr_src(*base, 8, ind) + "."@ + field.name@,
        ExprKind::TupleLit(elems) => "("@ + list_src(elems@, elems@.len(), ind) + ")"@,
        ExprKind::TupleIndex { base, index, .. } => expr_src(*base, 8, ind) + "."@ + decimal(index as nat),
        ExprKind::If(i) => "if "@ + expr_src(*i.cond, 0, ind) + " "@ + block_src(i.then_branch, ind) + match i.else_branch {
            Some(eb) => " else "@ + expr_src(*eb, 0, ind),
            None => Seq::empty(),
        },
        ExprKind::Match(m) => "match "@ + expr_src(*m.scrutinee, 0, ind) + " {\n"@ + arms_src(
            m.arms@,
            m.arms@.len(),
            tab(ind),
        ) + ind + "}"@,
        ExprKind::Block(b) => block_src(b, ind),
    }
}

/// The first `n` expressions, separated by `, `.
pub open spec fn list_src(es: Seq<Expr>, n: nat, ind: Seq<char>) -> Seq<char>
    decreases es, n,
{
    if n == 0 || n > es.len() {
        Seq::empty()
    } else if n == 1 {
        expr_src(es[0], 0, ind)
    } else {
        list_src(es, (n - 1) as nat, ind) + ", "@ + expr_src(es[n - 1], 0, ind)
    }
}

/// The first `n` field initialisers, as `name: value` separated by `, `.
pub open spec fn inits_src(fs: Seq<FieldInit>, n: nat, ind: Seq<char>) -> Seq<char>
    decreases fs, n,
{
    if n == 0 || n > fs.len() {
        Seq::empty()
    } else {
        proof {
            assert(decreases_to!(fs => fs[n - 1]));
            assert(decreases_to!(fs[n - 1] => fs[n - 1].value));
        }
        let item = fs[n - 1].name.name@ + ": "@ + expr_src(fs[n - 1].value, 0, ind);
        if n == 1 {
            item
        } else {
            inits_src(fs, (n - 1) as nat, ind) + ", "@ + item
        }
    }
}

/// The first `n` arms of a `match`, one per line at indentation `ind`.
pub open spec fn arms_src(arms: Seq<MatchArm>, n: nat, ind: Seq<char>) -> Seq<char>
    decreases arms, n,
{
    if n == 0 || n > arms.len() {
        Seq::empty()
    } else {
        proof {
            assert(decreases_to!(arms => arms[n - 1]));
            assert(decreases_to!(arms[n - 1] => arms[n - 1].body));
        }
        arms_src(arms, (n - 1) as nat, ind) + ind + pattern_text(arms[n - 1].pattern) + " => "@ + expr_src(
            arms[n - 1].body,
            0,
            ind,
        ) + ",\n"@
    }
}

/// A block in source form, opened at the cursor and closed on its own line
/// at indentation `ind`; `{}` when empty.
pub open spec fn block_src(b: Block, ind: Seq<char>) -> Seq<char>
    decreases b, 0int,
{
    if b.stmts@.len() == 0 && b.tail is None {
        "{}"@
    } else {
        "{\n"@ + stmts_src(b.stmts@, b.stmts@.len(), tab(ind)) + match b.tail {
            Some(t) => tab(ind) + expr_src(*t, 0, tab(ind)) + "\n"@,
            None => Seq::empty(),
        } + ind + "}"@
    }
}

/// The first `n` statements, one per line at indentation `ind`.
pub open spec fn stmts_src(ss: Seq<Stmt>, n: nat, ind: Seq<char>) -> Seq<char>
    decreases ss, n,
{
    if n == 0 || n > ss.len() {
        Seq::empty()
    } else {
        stmts_src(ss, (n - 1) as nat, ind) + stmt_src(ss[n - 1], ind)
    }
}

/// A statement in source form at indentation `ind`.
pub open spec fn stmt_src(st: Stmt, ind: Seq<char>) -> Seq<char>
    decreases st, 0int,
{
    match st.kind {
        StmtKind::Let(l) => ind + (if l.mutable {
            "let mut "@
        } else {
            "let "@
        }) + l.name.name@ + match l.ty {
            Some(t) => ": "@ + type_text(t, "?"@),
            None => Seq::empty(),
        } + " = "@ + expr_src(l.init, 0, ind) + ";\n"@,
        StmtKind::Expr(e) => ind + expr_src(e, 0, ind) + ";\n"@,
        StmtKind::Return(v) => match v {
            Some(e) => ind + "return "@ + expr_src(e, 0, ind) + ";\n"@,
            None => ind + "return;\n"@,
        },
        StmtKind::While(w) => ind + "while "@ + expr_src(w.cond, 0, ind) + " "@ + block_src(w.body, ind) + "\n"@,
        StmtKind::For(f) => ind + "for "@ + f.var.name@ + " in "@ + expr_src(f.start, 0, ind) + ".."@ + expr_src(
            f.end,
            0,
            ind,
        ) + " "@ + block_src(f.body, ind) + "\n"@,
        StmtKind::ForEach(f) => ind + "for "@ + f.var.name@ + " in "@ + expr_src(f.iterable, 0, ind) + " "@
            + block_src(f.body, ind) + "\n"@,
        StmtKind::Break => ind + "break;\n"@,
        StmtKind::Continue => ind + "continue;\n"@,
    }
}

/// The first `n` parameters as `name: type`, separated by `, `.
pub open spec fn params_src(ps: Seq<Param>, n: nat) -> Seq<char>
    decreases n,
{
    if n == 0 || n > ps.len() {
        Seq::empty()
    } else if n == 1 {
        ps[0].name.name@ + ": "@ + type_text(ps[0].ty, "?"@)
    } else {
        params_src(ps, (n - 1) as nat) + ", "@ + ps[n - 1].name.name@ + ": "@ + type_text(ps[n - 1].ty, "?"@)
    }
}

/// The first `n` declared fields of a struct, one per line.
pub open spec fn fields_src(fs: Seq<crate::parser::ast::FieldDef>, n: nat) -> Seq<char>
    decreases n,
{
    if n == 0 || n > fs.len() {
        Seq::empty()
    } else {
        fields_src(fs, (n - 1) as nat) + "    "@ + fs[n - 1].name.name@ + ": "@ + type_text(fs[n - 1].ty, "?"@)
            + ",\n"@
    }
}

/// A top-level item in source form.
pub open spec fn item_src(item: Item) -> Seq<char> {
    match item.kind {
        ItemKind::Fn(d) => "fn "@ + d.name.name@ + "("@ + params_src(d.params@, d.params@.len()) + ")"@ + match d.ret {
            Some(t) => " -> "@ + type_text(t, "?"@),
            None => Seq::empty(),
        } + " "@ + block_src(d.body, Seq::empty()) + "\n"@,
        ItemKind::Const(d) => "const "@ + d.name.name@ + ": "@ + type_text(d.ty, "?"@) + " = "@ + expr_src(
            d.value,
            0,
            Seq::empty(),
        ) + ";\n"@,
        ItemKind::Struct(d) => "struct "@ + d.name.name@ + " {\n"@ + fields_src(d.fields@, d.fields@.len()) + "}\n"@,
    }
}

/// The first `n` items, separated by blank lines.
pub open spec fn items_src(items: Seq<Item>, n: nat) -> Seq<char>
    decreases n,
{
    if n == 0 || n > items.len() {
        Seq::empty()
    } else if n == 1 {
        item_src(items[0])
    } else {
        items_src(items, (n - 1) as nat) + "\n"@ + item_src(items[n - 1])
    }
}

/// A whole program in canonical source form.
pub open spec fn source_text(ast: &Ast) -> Seq<char> {
    items_src(ast.items@, ast.items@.len())
}

/// Whether `s` contains a `.`.
fn has_dot(s: &str) -> (b: bool)
    ensures
        b == s@.contains('.'),
{
    let c = crate::text::chars_of(s);
    let mut i: usize = 0;
    while i < c.len()
        invariant
            c@ == s@,
            0 <= i <= c@.len(),
            forall|k: int| 0 <= k < i ==> c@[k] != '.',
        decreases c@.len() - i,
    {
        if c[i] == '.' {
            return true;
        }
        i = i + 1;
    }
    false
}

/// `ind` one level deeper.
fn tab_str(ind: &str) -> (r: String)
    ensures
        r@ == tab(ind@),
{
    let mut r = ind.to_owned();
    push_str(&mut r, "    ");
    proof {
        reveal_strlit("    ");
    }
    r
}

/// Formats a whole program to canonical source text: [`source_text`].
pub fn format_source(ast: &Ast) -> (s: String)
    ensures
        s@ == source_text(ast),
{
    let mut out = String::new();
    let mut i: usize = 0;
    while i < ast.items.len()
        invariant
            0 <= i <= ast.items@.len(),
            out@ == items_src(ast.items@, i as nat),
        decreases ast.items@.len() - i,
    {
        if i > 0 {
            push_str(&mut out, "\n");
        }
        push_item(&mut out, &ast.items[i]);
        proof {
            reveal_strlit("\n");
            if i == 0 {
                assert(items_src(ast.items@, 0) =~= Seq::<char>::empty());
            }
        }
        i = i + 1;
    }
    out
}

fn push_item(out: &mut String, item: &Item)
    ensures
        final(out)@ == old(out)@ + item_src(*item),
{
    proof {
        reveal_strlit("fn ");
        reveal_strlit("(");
        reveal_strlit(")");
        reveal_strlit(" -> ");
        reveal_strlit(" ");
        reveal_strlit("\n");
        reveal_strlit("const ");
        reveal_strlit(": ");
        reveal_strlit(" = ");
        reveal_strlit(";\n");
        reveal_strlit("struct ");
        reveal_strlit(" {\n");
        reveal_strlit("    ");
        reveal_strlit(",\n");
        reveal_strlit("}\n");
        reveal_strlit(", ");
        reveal_strlit("?");
        reveal_strlit("");
    }
    let ghost start = out@;
    assert(""@ =~= Seq::<char>::empty());
    match &item.kind {
        ItemKind::Fn(decl) => {
            push_str(out, "fn ");
            push_str(out, decl.name.name.as_str());
            push_str(out, "(");
            let ghost h0 = out@;
            let mut i: usize = 0;
            while i < decl.params.len()
                invariant
                    0 <= i <= decl.params@.len(),
                    out@ == h0 + params_src(decl.params@, i as nat),
                decreases decl.params@.len() - i,
            {
                if i > 0 {
                    push_str(out, ", ");
                }
                let p = &decl.params[i];
                push_str(out, p.name.name.as_str());
                push_str(out, ": ");
                push_type_expr(out, &p.ty, "?");
                proof {
                    if i == 0 {
                        assert(params_src(decl.params@, 0) =~= Seq::<char>::empty());
                    }
                }
                i = i + 1;
            }
            push_str(out, ")");
            match &decl.ret {
                Some(t) => {
                    push_str(out, " -> ");
                    push_type_expr(out, t, "?");
                },
                None => {},
            }
            push_str(out, " ");
            let body = block_str(&decl.body, "");
            push_str(out, body.as_str());
            push_str(out, "\n");
            assert(out@ =~= start + item_src(*item));
        },
        ItemKind::Const(decl) => {
            push_str(out, "const ");
            push_str(out, decl.name.name.as_str());
            push_str(out, ": ");
            push_type_expr(out, &decl.ty, "?");
            push_str(out, " = ");
            let value = expr_str(&decl.value, 0, "");
            push_str(out, value.as_str());
            push_str(out, ";\n");
            assert(out@ =~= start + item_src(*item));
        },
        ItemKind::Struct(decl) => {
            push_str(out, "struct ");
            push_str(out, decl.name.name.as_str());
            push_str(out, " {\n");
            let ghost h0 = out@;
            let mut i: usize = 0;
            while i < decl.fields.len()
                invariant
                    0 <= i <= decl.fields@.len(),
                    out@ == h0 + fields_src(decl.fields@, i as nat),
                decreases decl.fields@.len() - i,
            {
                let f = &decl.fields[i];
                push_str(out, "    ");
                push_str(out, f.name.name.as_str());
                push_str(out, ": ");
                push_type_expr(out, &f.ty, "?");
                push_str(out, ",\n");
                i = i + 1;
            }
            push_str(out, "}\n");
            assert(out@ =~= start + item_src(*item));
        },
    }
}

/// A block in source form: [`block_src`].
fn block_str(block: &Block, ind: &str) -> (r: String)
    ensures
        r@ == block_src(*block, ind@),
    decreases *block, 2int,
{
    proof {
        reveal_strlit("{}");
        reveal_strlit("{\n");
        reveal_strlit("\n");
        reveal_strlit("}");
    }
    if block.stmts.len() == 0 && block.tail.is_none() {
        return "{}".to_owned();
    }
    let mut out = "{\n".to_owned();
    let inner = tab_str(ind);
    let ghost h0 = out@;
    let mut i: usize = 0;
    while i < block.stmts.len()
        invariant
            0 <= i <= block.stmts@.len(),
            out@ == h0 + stmts_src(block.stmts@, i as nat, inner@),
        decreases block.stmts@.len() - i,
    {
        proof {
            assert(decreases_to!(*block => block.stmts@[i as int]));
        }
        push_stmt(&mut out, &block.stmts[i], inner.as_str());
        i = i + 1;
    }
    match &block.tail {
        Some(tail) => {
            let text = expr_str(tail, 0, inner.as_str());
            push_str(&mut out, inner.as_str());
            push_str(&mut out, text.as_str());
            push_str(&mut out, "\n");
        },
        None => {},
    }
    push_str(&mut out, ind);
    push_str(&mut out, "}");
    out
}

fn push_stmt(out: &mut String, stmt: &Stmt, ind: &str)
    ensures
        final(out)@ == old(out)@ + stmt_src(*stmt, ind@),
    decreases *stmt, 2int,
{
    proof {
        reveal_strlit("let mut ");
        reveal_strlit("let ");
        reveal_strlit(": ");
        reveal_strlit("?");
        reveal_strlit(" = ");
        reveal_strlit(";\n");
        reveal_strlit("return ");
        reveal_strlit("return;\n");
        reveal_strlit("while ");
        reveal_strlit(" ");
        reveal_strlit("\n");
        reveal_strlit("for ");
        reveal_strlit(" in ");
        reveal_strlit("..");
        reveal_strlit("break;\n");
        reveal_strlit("continue;\n");
    }
    match &stmt.kind {
        StmtKind::Let(l) => {
            let value = expr_str(&l.init, 0, ind);
            push_str(out, ind);
            push_str(out, if l.mutable {
                "let mut "
            } else {
                "let "
            });
            push_str(out, l.name.name.as_str());
            match &l.ty {
                Some(t) => {
                    push_str(out, ": ");
                    push_type_expr(out, t, "?");
                },
                None => {},
            }
            push_str(out, " = ");
            push_str(out, value.as_str());
            push_str(out, ";\n");
        },
        StmtKind::Expr(e) => {
            let text = expr_str(e, 0, ind);
            push_str(out, ind);
            push_str(out, text.as_str());
            push_str(out, ";\n");
        },
        StmtKind::Return(v) => match v {
            Some(e) => {
                let text = expr_str(e, 0, ind);
                push_str(out, ind);
                push_str(out, "return ");
                push_str(out, text.as_str());
                push_str(out, ";\n");
            },
            None => {
                push_str(out, ind);
                push_str(out, "return;\n");
            },
        },
        StmtKind::While(w) => {
            let cond = expr_str(&w.cond, 0, ind);
            push_str(out, ind);
            push_str(out, "while ");
            push_str(out, cond.as_str());
            push_str(out, " ");
            let body = block_str(&w.body, ind);
            push_str(out, body.as_str());
            push_str(out, "\n");
        },
        StmtKind::For(f) => {
            let start = expr_str(&f.start, 0, ind);
            let end = expr_str(&f.end, 0, ind);
            push_str(out, ind);
            push_str(out, "for ");
            push_str(out, f.var.name.as_str());
            push_str(out, " in ");
            push_str(out, start.as_str());
            push_str(out, "..");
            push_str(out, end.as_str());
            push_str(out, " ");
            let body = block_str(&f.body, ind);
            push_str(out, body.as_str());
            push_str(out, "\n");
        },
        StmtKind::ForEach(f) => {
            let iter = expr_str(&f.iterable, 0, ind);
            push_str(out, ind);
            push_str(out, "for ");
            push_str(out, f.var.name.as_str());
            push_str(out, " in ");
            push_str(out, iter.as_str());
            push_str(out, " ");
            let body = block_str(&f.body, ind);
            push_str(out, body.as_str());
            push_str(out, "\n");
        },
        StmtKind::Break => {
            push_str(out, ind);
            push_str(out, "break;\n");
        },
        StmtKind::Continue => {
            push_str(out, ind);
            push_str(out, "continue;\n");
        },
    }
}

/// The expressions of a list in source form, separated by `, `.
fn list_str(es: &Vec<Expr>, ind: &str, Ghost(outer): Ghost<&Expr>) -> (r: String)
    requires
        forall|k: int| 0 <= k < es@.len() ==> decreases_to!(*outer => #[trigger] es@[k]),
    ensures
        r@ == list_src(es@, es@.len(), ind@),
    decreases *outer, 1int,
{
    proof {
        reveal_strlit(", ");
    }
    let mut out = String::new();
    let mut i: usize = 0;
    while i < es.len()
        invariant
            0 <= i <= es@.len(),
            out@ == list_src(es@, i as nat, ind@),
            forall|k: int| 0 <= k < es@.len() ==> decreases_to!(*outer => #[trigger] es@[k]),
        decreases es@.len() - i,
    {
        if i > 0 {
            push_str(&mut out, ", ");
        }
        let text = expr_str(&es[i], 0, ind);
        push_str(&mut out, text.as_str());
        proof {
            if i == 0 {
                assert(list_src(es@, 0, ind@) =~= Seq::<char>::empty());
            }
        }
        i = i + 1;
    }
    out
}

/// An expression in source form: [`expr_src`].
fn expr_str(expr: &Expr, parent: u8, ind: &str) -> (r: String)
    ensures
        r@ == expr_src(*expr, parent, ind@),
    decreases *expr, 2int,
{
    proof {
        reveal_strlit("true");
        reveal_strlit("false");
        reveal_strlit(".0");
        reveal_strlit(" ");
        reveal_strlit("(");
        reveal_strlit(")");
        reveal_strlit("[");
        reveal_strlit("]");
        reveal_strlit(" = ");
        reveal_strlit("= ");
        reveal_strlit(" { ");
        reveal_strlit(" }");
        reveal_strlit(": ");
        reveal_strlit(", ");
        reveal_strlit(".");
        reveal_strlit("if ");
        reveal_strlit(" else ");
        reveal_strlit("match ");
        reveal_strlit(" {\n");
        reveal_strlit(" => ");
        reveal_strlit(",\n");
        reveal_strlit("}");
        reveal_strlit("-");
        reveal_strlit("!");
        reveal_strlit("    ");
    }
    match &expr.kind {
        ExprKind::Int(v) => {
            let mut out = String::new();
            push_signed(&mut out, *v);
            out
        },
        ExprKind::Float(lit) => {
            let mut out = String::new();
            push_float(&mut out, lit.as_str());
            if !has_dot(out.as_str()) {
                push_str(&mut out, ".0");
            }
            out
        },
        ExprKind::Bool(b) => if *b {
            "true".to_owned()
        } else {
            "false".to_owned()
        },
        ExprKind::Str(t) => debug_str(t.as_str()),
        ExprKind::Name(n) => n.clone(),
        ExprKind::Unary { op, rhs } => {
            let mut out = op.symbol().to_owned();
            let r = expr_str(rhs, 7, ind);
            push_str(&mut out, r.as_str());
            out
        },
        ExprKind::Binary { op, lhs, rhs } => {
            let p = prec(*op);
            let l = expr_str(lhs, p, ind);
            let r = expr_str(rhs, p + 1, ind);
            let mut text = l;
            push_str(&mut text, " ");
            push_str(&mut text, op.symbol());
            push_str(&mut text, " ");
            push_str(&mut text, r.as_str());
            if p < parent {
                let mut out = "(".to_owned();
                push_str(&mut out, text.as_str());
                push_str(&mut out, ")");
                out
            } else {
                text
            }
        },
        ExprKind::Call { callee, args } => {
            let mut out = expr_str(callee, 8, ind);
            proof {
                assert forall|k: int| 0 <= k < args@.len() implies decreases_to!(*expr => #[trigger] args@[k]) by {
                    assert(decreases_to!(*expr => args@[k]));
                }
            }
            let list = list_str(args, ind, Ghost(expr));
            push_str(&mut out, "(");
            push_str(&mut out, list.as_str());
            push_str(&mut out, ")");
            out
        },
        ExprKind::Index { base, index } => {
            let mut out = expr_str(base, 8, ind);
            let i = expr_str(index, 0, ind);
            push_str(&mut out, "[");
            push_str(&mut out, i.as_str());
            push_str(&mut out, "]");
            out
        },
        ExprKind::ArrayLit(elems) => {
            proof {
                assert forall|k: int| 0 <= k < elems@.len() implies decreases_to!(*expr => #[trigger] elems@[k]) by {
                    assert(decreases_to!(*expr => elems@[k]));
                }
            }
            let list = list_str(elems, ind, Ghost(expr));
            let mut out = "[".to_owned();
            push_str(&mut out, list.as_str());
            push_str(&mut out, "]");
            out
        },
        ExprKind::Assign { target, value } => {
            let mut out = expr_str(target, 0, ind);
            let v = expr_str(value, 0, ind);
            push_str(&mut out, " = ");
            push_str(&mut out, v.as_str());
            out
        },
        ExprKind::AssignOp { target, op, value } => {
            let mut out = expr_str(target, 0, ind);
            let v = expr_str(value, 0, ind);
            push_str(&mut out, " ");
            push_str(&mut out, op.symbol());
            push_str(&mut out, "= ");
            push_str(&mut out, v.as_str());
            out
        },
        ExprKind::StructLit { name, fields } => {
            let mut out = name.name.clone();
            push_str(&mut out, " { ");
            let ghost h0 = out@;
            proof {
                assert forall|k: int| 0 <= k < fields@.len() implies decreases_to!(*expr => #[trigger] fields@[k].value) by {
                    assert(decreases_to!(*expr => fields@[k]));
                    assert(decreases_to!(fields@[k] => fields@[k].value));
                }
            }
            let mut i: usize = 0;
            while i < fields.len()
                invariant
                    0 <= i <= fields@.len(),
                    out@ == h0 + inits_src(fields@, i as nat, ind@),
                    forall|k: int| 0 <= k < fields@.len() ==> decreases_to!(*expr => #[trigger] fields@[k].value),
                decreases fields@.len() - i,
            {
                if i > 0 {
                    push_str(&mut out, ", ");
                }
                let f = &fields[i];
                let v = expr_str(&f.value, 0, ind);
                push_str(&mut out, f.name.name.as_str());
                push_str(&mut out, ": ");
                push_str(&mut out, v.as_str());
                proof {
                    if i == 0 {
                        assert(inits_src(fields@, 0, ind@) =~= Seq::<char>::empty());
                    }
                }
                i = i + 1;
            }
            push_str(&mut out, " }");
            out
        },
        ExprKind::Field { base, field } => {
            let mut out = expr_str(base, 8, ind);
            push_str(&mut out, ".");
            push_str(&mut out, field.name.as_str());
            out
        },
        ExprKind::TupleLit(elems) => {
            proof {
                assert forall|k: int| 0 <= k < elems@.len() implies decreases_to!(*expr => #[trigger] elems@[k]) by {
                    assert(decreases_to!(*expr => elems@[k]));
                }
            }
            let list = list_str(elems, ind, Ghost(expr));
            let mut out = "(".to_owned();
            push_str(&mut out, list.as_str());
            push_str(&mut out, ")");
            out
        },
        ExprKind::TupleIndex { base, index, .. } => {
            let mut out = expr_str(base, 8, ind);
            push_str(&mut out, ".");
            push_decimal(&mut out, *index as u64);
            out
        },
        ExprKind::If(if_expr) => {
            let cond = expr_str(&if_expr.cond, 0, ind);
            let then = block_str(&if_expr.then_branch, ind);
            let mut out = "if ".to_owned();
            push_str(&mut out, cond.as_str());
            push_str(&mut out, " ");
            push_str(&mut out, then.as_str());
            match &if_expr.else_branch {
                Some(else_branch) => {
                    let e = expr_str(else_branch, 0, ind);
                    push_str(&mut out, " else ");
                    push_str(&mut out, e.as_str());
                },
                None => {},
            }
            out
        },
        ExprKind::Match(m) => {
            let scrut = expr_str(&m.scrutinee, 0, ind);
            let mut out = "match ".to_owned();
            push_str(&mut out, scrut.as_str());
            push_str(&mut out, " {\n");
            let inner = tab_str(ind);
            let ghost h0 = out@;
            proof {
                assert forall|k: int| 0 <= k < m.arms@.len() implies decreases_to!(*expr => #[trigger] m.arms@[k].body) by {
                    assert(decreases_to!(*expr => m.arms@[k]));
                    assert(decreases_to!(m.arms@[k] => m.arms@[k].body));
                }
            }
            let mut i: usize = 0;
            while i < m.arms.len()
                invariant
                    0 <= i <= m.arms@.len(),
                    out@ == h0 + arms_src(m.arms@, i as nat, inner@),
                    forall|k: int| 0 <= k < m.arms@.len() ==> decreases_to!(*expr => #[trigger] m.arms@[k].body),
                decreases m.arms@.len() - i,
            {
                let arm = &m.arms[i];
                let body = expr_str(&arm.body, 0, inner.as_str());
                push_str(&mut out, inner.as_str());
                push_pattern(&mut out, arm.pattern);
                push_str(&mut out, " => ");
                push_str(&mut out, body.as_str());
                push_str(&mut out, ",\n");
                i = i + 1;
            }
            push_str(&mut out, ind);
            push_str(&mut out, "}");
            out
        },
        ExprKind::Block(block) => block_str(block, ind),
    }
}

} // verus!
