//! A deterministic pretty-printer for the [`Ast`].
//!
//! Renders the tree as indented lines, two spaces per level. It exists so the
//! parse result can be snapshot-tested and inspected via `lumenc dump ast`
//! without relying on `derive(Debug)` (which is noisy and embeds spans).
//! Output is stable across runs: no hashing, no addresses, no spans.
//!
//! The output is specified line by line by [`ast_text`] and the functions it
//! calls; the printer produces exactly that text.

use vstd::prelude::*;
use vstd::string::*;

use super::ast::{
    Ast, BinOp, Block, Expr, ExprKind, FieldInit, Item, ItemKind, MatchArm, Param, Pattern, Stmt, StmtKind,
    TypeExpr, TypeExprKind, UnOp, binop_text,
};
use crate::text::{chars_of, decimal, push_char, push_decimal, push_signed, push_str};

verus! {

// ---- shared renderings of leaves ----

/// The decimal spelling of a signed integer.
pub open spec fn signed_text(n: i64) -> Seq<char> {
    if n < 0 {
        seq!['-'] + decimal((-n) as nat)
    } else {
        decimal(n as nat)
    }
}

/// `true` or `false`.
pub open spec fn bool_text(b: bool) -> Seq<char> {
    if b {
        "true"@
    } else {
        "false"@
    }
}

/// The spelling of a unary operator.
pub open spec fn unop_text(op: UnOp) -> Seq<char> {
    match op {
        UnOp::Neg => "-"@,
        UnOp::Not => "!"@,
    }
}

/// A `match` arm pattern in source form.
pub open spec fn pattern_text(p: Pattern) -> Seq<char> {
    match p {
        Pattern::Int(v) => signed_text(v),
        Pattern::Bool(b) => bool_text(b),
        Pattern::Wild => "_"@,
    }
}

/// The Rust debug form of a string: double-quoted, with quotes, backslashes
/// and non-printable characters escaped.
pub uninterp spec fn debug_quoted(s: Seq<char>) -> Seq<char>;

/// The debug form of a string (`format!("{s:?}")`), named by
/// [`debug_quoted`]: it depends on the string alone.
#[verifier::external_body]
pub(crate) fn debug_str(s: &str) -> (r: String)
    ensures
        r@ == debug_quoted(s@),
{
    format!("{s:?}")
}

/// `s` without its leading zeros, keeping at least one character.
pub open spec fn strip_leading_zeros(s: Seq<char>) -> Seq<char>
    decreases s.len(),
{
    if s.len() > 1 && s[0] == '0' {
        strip_leading_zeros(s.drop_first())
    } else {
        s
    }
}

/// `s` without its trailing zeros.
pub open spec fn strip_trailing_zeros(s: Seq<char>) -> Seq<char>
    decreases s.len(),
{
    if s.len() > 0 && s.last() == '0' {
        strip_trailing_zeros(s.drop_last())
    } else {
        s
    }
}

/// The position of the first `.` in `s`, or its length if there is none.
pub open spec fn dot_pos(s: Seq<char>) -> int
    decreases s.len(),
{
    if s.len() == 0 {
        0
    } else if s[0] == '.' {
        0
    } else {
        1 + dot_pos(s.drop_first())
    }
}

/// How a float literal `int.frac` reads once converted to `f64` and
/// displayed: the integer digits without leading zeros, then `.` and the
/// fraction digits without trailing zeros, or the integer digits alone when
/// the fraction is zero. (This is the `f64` display of literals of up to 15
/// significant digits, which an `f64` holds exactly enough to print back.)
pub open spec fn float_display(lit: Seq<char>) -> Seq<char> {
    let d = dot_pos(lit);
    let ip = strip_leading_zeros(lit.take(d));
    let fp = if d < lit.len() {
        strip_trailing_zeros(lit.skip(d + 1))
    } else {
        Seq::empty()
    };
    if fp.len() == 0 {
        ip
    } else {
        ip + seq!['.'] + fp
    }
}

proof fn lemma_dot_pos(s: Seq<char>)
    ensures
        0 <= dot_pos(s) <= s.len(),
        dot_pos(s) < s.len() ==> s[dot_pos(s)] == '.',
        forall|i: int| 0 <= i < dot_pos(s) ==> s[i] != '.',
    decreases s.len(),
{
    if s.len() > 0 && s[0] != '.' {
        lemma_dot_pos(s.drop_first());
        assert forall|i: int| 0 <= i < dot_pos(s) implies s[i] != '.' by {
            if i > 0 {
                assert(s[i] == s.drop_first()[i - 1]);
            }
        }
    }
}

proof fn lemma_strip_leading(s: Seq<char>, k: int)
    requires
        0 <= k < s.len(),
        forall|i: int| 0 <= i < k ==> s[i] == '0',
    ensures
        strip_leading_zeros(s) == strip_leading_zeros(s.skip(k)),
    decreases k,
{
    if k > 0 {
        assert(s.drop_first() =~= s.skip(1));
        lemma_strip_leading(s.skip(1), k - 1);
        assert(s.skip(1).skip(k - 1) =~= s.skip(k));
    } else {
        assert(s.skip(0) =~= s);
    }
}

proof fn lemma_strip_trailing(s: Seq<char>, k: int)
    requires
        0 <= k <= s.len(),
        forall|i: int| k <= i < s.len() ==> s[i] == '0',
    ensures
        strip_trailing_zeros(s) == strip_trailing_zeros(s.take(k)),
    decreases s.len() - k,
{
    if k < s.len() {
        assert(s.drop_last() =~= s.take(s.len() - 1));
        lemma_strip_trailing(s.take(s.len() - 1), k);
        assert(s.take(s.len() - 1).take(k) =~= s.take(k));
    } else {
        assert(s.take(k) =~= s);
    }
}

/// Appends how a float literal displays ([`float_display`]).
pub(crate) fn push_float(out: &mut String, lit: &str)
    ensures
        final(out)@ == old(out)@ + float_display(lit@),
{
    let c = chars_of(lit);
    let n = c.len();
    let ghost s = lit@;
    // Find the dot.
    let mut d: usize = 0;
    while d < n && c[d] != '.'
        invariant
            c@ == s,
            n == s.len(),
            0 <= d <= n,
            forall|i: int| 0 <= i < d ==> s[i] != '.',
        decreases n - d,
    {
        d = d + 1;
    }
    proof {
        lemma_dot_pos(s);
        if dot_pos(s) < d {
            assert(s[dot_pos(s)] == '.');
        }
        if d < dot_pos(s) {
            assert(s[d as int] == '.');
        }
    }
    // Integer digits without leading zeros (keeping one).
    let mut a: usize = 0;
    while a + 1 < d && c[a] == '0'
        invariant
            c@ == s,
            0 <= a,
            a < d || (a == 0 && d == 0),
            d <= n,
            n == s.len(),
            forall|i: int| 0 <= i < a ==> s.take(d as int)[i] == '0',
        decreases d - a,
    {
        a = a + 1;
    }
    proof {
        if d > 0 {
            lemma_strip_leading(s.take(d as int), a as int);
            let t = s.take(d as int).skip(a as int);
            assert(!(t.len() > 1 && t[0] == '0'));
            assert(strip_leading_zeros(t) == t);
        } else {
            assert(s.take(0).len() == 0);
        }
    }
    // Fraction digits without trailing zeros.
    let start = if d < n {
        d + 1
    } else {
        n
    };
    let mut b: usize = n;
    while b > start && c[b - 1] == '0'
        invariant
            c@ == s,
            start <= b <= n,
            n == s.len(),
            forall|i: int| b <= i < n ==> s[i] == '0',
        decreases b - start,
    {
        b = b - 1;
    }
    let ghost fr = s.skip(d + 1);
    proof {
        if d < n {
            lemma_strip_trailing(fr, b - (d + 1));
            assert(fr.take(b - (d + 1)) =~= s.subrange(d + 1, b as int));
            let t = s.subrange(d + 1, b as int);
            assert(!(t.len() > 0 && t.last() == '0'));
        }
    }
    let ghost before = out@;
    let mut i: usize = a;
    while i < d
        invariant
            c@ == s,
            a <= i <= d,
            d <= n,
            n == s.len(),
            out@ == before + s.subrange(a as int, i as int),
        decreases d - i,
    {
        push_char(out, c[i]);
        assert(s.subrange(a as int, i + 1) =~= s.subrange(a as int, i as int).push(s[i as int]));
        i = i + 1;
    }
    assert(s.subrange(a as int, d as int) =~= s.take(d as int).skip(a as int));
    if b > start {
        push_char(out, '.');
        let ghost mid = out@;
        let mut j: usize = start;
        while j < b
            invariant
                c@ == s,
                start <= j <= b,
                b <= n,
                n == s.len(),
                out@ == mid + s.subrange(start as int, j as int),
            decreases b - j,
        {
            push_char(out, c[j]);
            assert(s.subrange(start as int, j + 1) =~= s.subrange(start as int, j as int).push(s[j as int]));
            j = j + 1;
        }
        assert(out@ =~= before + float_display(s));
    } else {
        assert(out@ =~= before + float_display(s));
    }
}

/// A syntactic type in source form, with `err` standing for a malformed
/// annotation.
pub open spec fn type_text(ty: TypeExpr, err: Seq<char>) -> Seq<char>
    decreases ty, 0int,
{
    match ty.kind {
        TypeExprKind::Named(n) => n@,
        TypeExprKind::Array(inner) => "["@ + type_text(*inner, err) + "]"@,
        TypeExprKind::Tuple(elems) => "("@ + types_text(elems@, elems@.len(), err) + ")"@,
        TypeExprKind::Error => err,
    }
}

/// The first `n` types of `tys`, separated by `, `.
pub open spec fn types_text(tys: Seq<TypeExpr>, n: nat, err: Seq<char>) -> Seq<char>
    decreases tys, n,
{
    if n == 0 || n > tys.len() {
        Seq::empty()
    } else if n == 1 {
        type_text(tys[0], err)
    } else {
        types_text(tys, (n - 1) as nat, err) + ", "@ + type_text(tys[n - 1], err)
    }
}

/// Appends a syntactic type in source form.
pub(crate) fn push_type_expr(out: &mut String, ty: &TypeExpr, err: &str)
    ensures
        final(out)@ == old(out)@ + type_text(*ty, err@),
    decreases *ty,
{
    match &ty.kind {
        TypeExprKind::Named(name) => push_str(out, name.as_str()),
        TypeExprKind::Array(inner) => {
            push_str(out, "[");
            push_type_expr(out, inner, err);
            push_str(out, "]");
            proof {
                reveal_strlit("[");
                reveal_strlit("]");
            }
        },
        TypeExprKind::Tuple(elems) => {
            push_str(out, "(");
            let ghost before = out@;
            let mut i: usize = 0;
            proof {
                assert forall|k: int| 0 <= k < elems@.len() implies decreases_to!(*ty => #[trigger] elems@[k]) by {
                    assert(decreases_to!(*ty => elems@[k]));
                }
            }
            while i < elems.len()
                invariant
                    0 <= i <= elems@.len(),
                    out@ == before + types_text(elems@, i as nat, err@),
                    forall|k: int| 0 <= k < elems@.len() ==> decreases_to!(*ty => #[trigger] elems@[k]),
                decreases elems@.len() - i,
            {
                if i > 0 {
                    push_str(out, ", ");
                }
                push_type_expr(out, &elems[i], err);
                proof {
                    reveal_strlit(", ");
                    if i == 0 {
                        assert(types_text(elems@, 0, err@) =~= Seq::<char>::empty());
                    }
                }
                i = i + 1;
            }
            push_str(out, ")");
            proof {
                reveal_strlit("(");
                reveal_strlit(")");
            }
        },
        TypeExprKind::Error => {
            push_str(out, err);
        },
    }
}

// ---- the tree layout ----

/// One line: the indentation, the text, a newline.
pub open spec fn ln(pre: Seq<char>, text: Seq<char>) -> Seq<char> {
    pre + text + "\n"@
}

/// One level deeper.
pub open spec fn deeper(pre: Seq<char>) -> Seq<char> {
    pre + "  "@
}

/// The layout of an expression at indentation `pre`.
pub open spec fn expr_text(e: Expr, pre: Seq<char>) -> Seq<char>
    decreases e, 0int,
{
    let d1 = deeper(pre);
    let d2 = deeper(d1);
    match e.kind {
        ExprKind::Int(v) => ln(pre, "int "@ + signed_text(v)),
        ExprKind::Float(t) => ln(pre, "float "@ + float_display(t@)),
        ExprKind::Bool(b) => ln(pre, "bool "@ + bool_text(b)),
        ExprKind::Str(t) => ln(pre, "str "@ + debug_quoted(t@)),
        ExprKind::Name(n) => ln(pre, "name "@ + n@),
        ExprKind::Unary { op, rhs } => ln(pre, "unary "@ + unop_text(op)) + expr_text(*rhs, d1),
        ExprKind::Binary { op, lhs, rhs } => ln(pre, "binary "@ + binop_text(op)) + expr_text(*lhs, d1)
            + expr_text(*rhs, d1),
        ExprKind::Call { callee, args } => ln(pre, "call"@) + ln(d1, "callee"@) + expr_text(*callee, d2)
            + args_text(args@, args@.len(), d1),
        ExprKind::Assign { target, value } => ln(pre, "assign"@) + expr_text(*target, d1) + expr_text(*value, d1),
        ExprKind::AssignOp { target, op, value } => ln(pre, "assign-op "@ + binop_text(op)) + expr_text(
            *target,
            d1,
        ) + expr_text(*value, d1),
        ExprKind::ArrayLit(elems) => ln(pre, "array"@) + exprs_text(elems@, elems@.len(), d1),
        ExprKind::Index { base, index } => ln(pre, "index"@) + expr_text(*base, d1) + expr_text(*index, d1),
        ExprKind::StructLit { name, fields } => ln(pre, "struct-lit "@ + name.name@) + fields_text(
            fields@,
            fields@.len(),
            d1,
        ),
        ExprKind::Field { base, field } => ln(pre, "field-access ."@ + field.name@) + expr_text(*base, d1),
        ExprKind::TupleLit(elems) => ln(pre, "tuple"@) + exprs_text(elems@, elems@.len(), d1),
        ExprKind::TupleIndex { base, index, .. } => ln(pre, "tuple-index ."@ + decimal(index as nat)) + expr_text(
            *base,
            d1,
        ),
        ExprKind::If(i) => ln(pre, "if"@) + ln(d1, "cond"@) + expr_text(*i.cond, d2) + block_text(
            i.then_branch,
            d1,
        ) + match i.else_branch {
            Some(eb) => ln(d1, "else"@) + expr_text(*eb, d2),
            None => Seq::empty(),
        },
        ExprKind::Match(m) => ln(pre, "match"@) + ln(d1, "scrutinee"@) + expr_text(*m.scrutinee, d2) + arms_text(
            m.arms@,
            m.arms@.len(),
            d1,
        ),
        ExprKind::Block(b) => block_text(b, pre),
    }
}

/// The first `n` expressions, one after the other.
pub open spec fn exprs_text(es: Seq<Expr>, n: nat, pre: Seq<char>) -> Seq<char>
    decreases es, n,
{
    if n == 0 || n > es.len() {
        Seq::empty()
    } else {
        exprs_text(es, (n - 1) as nat, pre) + expr_text(es[n - 1], pre)
    }
}

/// The first `n` call arguments, each under an `arg` line.
pub open spec fn args_text(es: Seq<Expr>, n: nat, pre: Seq<char>) -> Seq<char>
    decreases es, n,
{
    if n == 0 || n > es.len() {
        Seq::empty()
    } else {
        args_text(es, (n - 1) as nat, pre) + ln(pre, "arg"@) + expr_text(es[n - 1], deeper(pre))
    }
}

/// The first `n` field initialisers of a struct literal.
pub open spec fn fields_text(fs: Seq<FieldInit>, n: nat, pre: Seq<char>) -> Seq<char>
    decreases fs, n,
{
    if n == 0 || n > fs.len() {
        Seq::empty()
    } else {
        proof {
            assert(decreases_to!(fs => fs[n - 1]));
            assert(decreases_to!(fs[n - 1] => fs[n - 1].value));
        }
        fields_text(fs, (n - 1) as nat, pre) + ln(pre, "field "@ + fs[n - 1].name.name@) + expr_text(
            fs[n - 1].value,
            deeper(pre),
        )
    }
}

/// The first `n` arms of a `match`.
pub open spec fn arms_text(arms: Seq<MatchArm>, n: nat, pre: Seq<char>) -> Seq<char>
    decreases arms, n,
{
    if n == 0 || n > arms.len() {
        Seq::empty()
    } else {
        proof {
            assert(decreases_to!(arms => arms[n - 1]));
            assert(decreases_to!(arms[n - 1] => arms[n - 1].body));
        }
        arms_text(arms, (n - 1) as nat, pre) + ln(pre, "arm "@ + pattern_text(arms[n - 1].pattern)) + expr_text(
            arms[n - 1].body,
            deeper(pre),
        )
    }
}

/// The layout of a block: a `block` line, its statements, and its tail
/// under a `tail` line.
pub open spec fn block_text(b: Block, pre: Seq<char>) -> Seq<char>
    decreases b, 0int,
{
    ln(pre, "block"@) + stmts_text(b.stmts@, b.stmts@.len(), deeper(pre)) + match b.tail {
        Some(t) => ln(deeper(pre), "tail"@) + expr_text(*t, deeper(deeper(pre))),
        None => Seq::empty(),
    }
}

/// The first `n` statements.
pub open spec fn stmts_text(ss: Seq<Stmt>, n: nat, pre: Seq<char>) -> Seq<char>
    decreases ss, n,
{
    if n == 0 || n > ss.len() {
        Seq::empty()
    } else {
        stmts_text(ss, (n - 1) as nat, pre) + stmt_text(ss[n - 1], pre)
    }
}

/// The layout of a statement.
pub open spec fn stmt_text(st: Stmt, pre: Seq<char>) -> Seq<char>
    decreases st, 0int,
{
    let d1 = deeper(pre);
    let d2 = deeper(d1);
    match st.kind {
        StmtKind::Let(l) => ln(
            pre,
            (if l.mutable {
                "let mut "@
            } else {
                "let "@
            }) + l.name.name@ + match l.ty {
                Some(t) => ": "@ + type_text(t, "<error>"@),
                None => Seq::empty(),
            },
        ) + expr_text(l.init, d1),
        StmtKind::Expr(e) => ln(pre, "expr-stmt"@) + expr_text(e, d1),
        StmtKind::Return(v) => ln(pre, "return"@) + match v {
            Some(e) => expr_text(e, d1),
            None => Seq::empty(),
        },
        StmtKind::While(w) => ln(pre, "while"@) + ln(d1, "cond"@) + expr_text(w.cond, d2) + block_text(w.body, d1),
        StmtKind::For(f) => ln(pre, "for "@ + f.var.name@) + ln(d1, "start"@) + expr_text(f.start, d2) + ln(
            d1,
            "end"@,
        ) + expr_text(f.end, d2) + block_text(f.body, d1),
        StmtKind::ForEach(f) => ln(pre, "foreach "@ + f.var.name@) + ln(d1, "in"@) + expr_text(f.iterable, d2)
            + block_text(f.body, d1),
        StmtKind::Break => ln(pre, "break"@),
        StmtKind::Continue => ln(pre, "continue"@),
    }
}

/// The first `n` parameters as `name: type`, separated by `, `.
pub open spec fn params_text(ps: Seq<Param>, n: nat, err: Seq<char>) -> Seq<char>
    decreases n,
{
    if n == 0 || n > ps.len() {
        Seq::empty()
    } else if n == 1 {
        ps[0].name.name@ + ": "@ + type_text(ps[0].ty, err)
    } else {
        params_text(ps, (n - 1) as nat, err) + ", "@ + ps[n - 1].name.name@ + ": "@ + type_text(ps[n - 1].ty, err)
    }
}

/// The layout of a top-level item.
pub open spec fn item_text(item: Item) -> Seq<char> {
    match item.kind {
        ItemKind::Fn(d) => ln(
            Seq::empty(),
            "fn "@ + d.name.name@ + "("@ + params_text(d.params@, d.params@.len(), "<error>"@) + ") -> "@ + match d.ret {
                Some(t) => type_text(t, "<error>"@),
                None => "unit"@,
            },
        ) + block_text(d.body, "  "@),
        ItemKind::Const(d) => ln(Seq::empty(), "const "@ + d.name.name@ + ": "@ + type_text(d.ty, "<error>"@))
            + expr_text(d.value, "  "@),
        ItemKind::Struct(d) => ln(Seq::empty(), "struct "@ + d.name.name@) + struct_fields_text(
            d.fields@,
            d.fields@.len(),
        ),
    }
}

/// The first `n` declared fields of a struct, one line each.
pub open spec fn struct_fields_text(fs: Seq<crate::parser::ast::FieldDef>, n: nat) -> Seq<char>
    decreases n,
{
    if n == 0 || n > fs.len() {
        Seq::empty()
    } else {
        struct_fields_text(fs, (n - 1) as nat) + ln(
            "  "@,
            "field "@ + fs[n - 1].name.name@ + ": "@ + type_text(fs[n - 1].ty, "<error>"@),
        )
    }
}

/// The layout of the first `n` items.
pub open spec fn items_text(items: Seq<Item>, n: nat) -> Seq<char>
    decreases n,
{
    if n == 0 || n > items.len() {
        Seq::empty()
    } else {
        items_text(items, (n - 1) as nat) + item_text(items[n - 1])
    }
}

/// The layout of a whole program.
pub open spec fn ast_text(ast: &Ast) -> Seq<char> {
    items_text(ast.items@, ast.items@.len())
}

/// Renders a whole program to a string: [`ast_text`].
pub fn print_ast(ast: &Ast) -> (s: String)
    ensures
        s@ == ast_text(ast),
{
    let mut p = Printer { out: String::new() };
    let mut i: usize = 0;
    while i < ast.items.len()
        invariant
            0 <= i <= ast.items@.len(),
            p.out@ == items_text(ast.items@, i as nat),
        decreases ast.items@.len() - i,
    {
        p.item(&ast.items[i]);
        i = i + 1;
    }
    p.out
}

/// `pre` one level deeper.
fn deeper_str(pre: &str) -> (r: String)
    ensures
        r@ == deeper(pre@),
{
    let mut r = pre.to_owned();
    push_str(&mut r, "  ");
    proof {
        reveal_strlit("  ");
    }
    r
}

/// `a` followed by `b`.
fn join(a: &str, b: &str) -> (r: String)
    ensures
        r@ == a@ + b@,
{
    let mut r = a.to_owned();
    push_str(&mut r, b);
    r
}

struct Printer {
    out: String,
}

impl Printer {
    /// Writes one indented line.
    fn line(&mut self, pre: &str, text: &str)
        ensures
            final(self).out@ == old(self).out@ + ln(pre@, text@),
    {
        push_str(&mut self.out, pre);
        push_str(&mut self.out, text);
        push_str(&mut self.out, "\n");
        proof {
            reveal_strlit("\n");
        }
    }

    fn item(&mut self, item: &Item)
        ensures
            final(self).out@ == old(self).out@ + item_text(*item),
    {
        proof {
            reveal_strlit("fn ");
            reveal_strlit("(");
            reveal_strlit(") -> ");
            reveal_strlit("unit");
            reveal_strlit("  ");
            reveal_strlit("const ");
            reveal_strlit(": ");
            reveal_strlit("struct ");
            reveal_strlit("field ");
            reveal_strlit(", ");
            reveal_strlit("<error>");
            reveal_strlit("");
        }
        let ghost start = self.out@;
        match &item.kind {
            ItemKind::Fn(decl) => {
                let mut head = "fn ".to_owned();
                push_str(&mut head, decl.name.name.as_str());
                push_str(&mut head, "(");
                let ghost h0 = head@;
                let mut i: usize = 0;
                while i < decl.params.len()
                    invariant
                        0 <= i <= decl.params@.len(),
                        head@ == h0 + params_text(decl.params@, i as nat, "<error>"@),
                    decreases decl.params@.len() - i,
                {
                    if i > 0 {
                        push_str(&mut head, ", ");
                    }
                    let p = &decl.params[i];
                    push_str(&mut head, p.name.name.as_str());
                    push_str(&mut head, ": ");
                    push_type_expr(&mut head, &p.ty, "<error>");
                    proof {
                        if i == 0 {
                            assert(params_text(decl.params@, 0, "<error>"@) =~= Seq::<char>::empty());
                        }
                    }
                    i = i + 1;
                }
                push_str(&mut head, ") -> ");
                match &decl.ret {
                    Some(t) => push_type_expr(&mut head, t, "<error>"),
                    None => push_str(&mut head, "unit"),
                }
                self.line("", head.as_str());
                self.block(&decl.body, "  ");
            },
            ItemKind::Const(decl) => {
                let mut head = "const ".to_owned();
                push_str(&mut head, decl.name.name.as_str());
                push_str(&mut head, ": ");
                push_type_expr(&mut head, &decl.ty, "<error>");
                self.line("", head.as_str());
                self.expr(&decl.value, "  ");
            },
            ItemKind::Struct(decl) => {
                let head = join("struct ", decl.name.name.as_str());
                self.line("", head.as_str());
                let ghost mid = self.out@;
                let mut i: usize = 0;
                while i < decl.fields.len()
                    invariant
                        0 <= i <= decl.fields@.len(),
                        self.out@ == mid + struct_fields_text(decl.fields@, i as nat),
                    decreases decl.fields@.len() - i,
                {
                    let f = &decl.fields[i];
                    let mut t = "field ".to_owned();
                    push_str(&mut t, f.name.name.as_str());
                    push_str(&mut t, ": ");
                    push_type_expr(&mut t, &f.ty, "<error>");
                    self.line("  ", t.as_str());
                    i = i + 1;
                }
            },
        }
    }

    fn block(&mut self, block: &Block, pre: &str)
        ensures
            final(self).out@ == old(self).out@ + block_text(*block, pre@),
        decreases *block, 0int,
    {
        proof {
            reveal_strlit("block");
            reveal_strlit("tail");
        }
        let ghost start = self.out@;
        self.line(pre, "block");
        let d1 = deeper_str(pre);
        let ghost mid = self.out@;
        let mut i: usize = 0;
        while i < block.stmts.len()
            invariant
                0 <= i <= block.stmts@.len(),
                self.out@ == mid + stmts_text(block.stmts@, i as nat, d1@),
            decreases block.stmts@.len() - i,
        {
            proof {
                assert(decreases_to!(*block => block.stmts@[i as int]));
            }
            self.stmt(&block.stmts[i], d1.as_str());
            i = i + 1;
        }
        match &block.tail {
            Some(tail) => {
                self.line(d1.as_str(), "tail");
                let d2 = deeper_str(d1.as_str());
                self.expr(tail, d2.as_str());
            },
            None => {},
        }
    }

    fn stmt(&mut self, stmt: &Stmt, pre: &str)
        ensures
            final(self).out@ == old(self).out@ + stmt_text(*stmt, pre@),
        decreases *stmt, 0int,
    {
        proof {
            reveal_strlit("let mut ");
            reveal_strlit("let ");
            reveal_strlit(": ");
            reveal_strlit("<error>");
            reveal_strlit("expr-stmt");
            reveal_strlit("return");
            reveal_strlit("while");
            reveal_strlit("cond");
            reveal_strlit("for ");
            reveal_strlit("start");
            reveal_strlit("end");
            reveal_strlit("foreach ");
            reveal_strlit("in");
            reveal_strlit("break");
            reveal_strlit("continue");
        }
        let d1 = deeper_str(pre);
        let d2 = deeper_str(d1.as_str());
        match &stmt.kind {
            StmtKind::Let(l) => {
                let mut t = if l.mutable {
                    "let mut ".to_owned()
                } else {
                    "let ".to_owned()
                };
                push_str(&mut t, l.name.name.as_str());
                match &l.ty {
                    Some(ty) => {
                        push_str(&mut t, ": ");
                        push_type_expr(&mut t, ty, "<error>");
                    },
                    None => {},
                }
                self.line(pre, t.as_str());
                self.expr(&l.init, d1.as_str());
            },
            StmtKind::Expr(e) => {
                self.line(pre, "expr-stmt");
                self.expr(e, d1.as_str());
            },
            StmtKind::Return(e) => {
                self.line(pre, "return");
                match e {
                    Some(e) => self.expr(e, d1.as_str()),
                    None => {},
                }
            },
            StmtKind::While(w) => {
                self.line(pre, "while");
                self.line(d1.as_str(), "cond");
                self.expr(&w.cond, d2.as_str());
                self.block(&w.body, d1.as_str());
            },
            StmtKind::For(f) => {
                let t = join("for ", f.var.name.as_str());
                self.line(pre, t.as_str());
                self.line(d1.as_str(), "start");
                self.expr(&f.start, d2.as_str());
                self.line(d1.as_str(), "end");
                self.expr(&f.end, d2.as_str());
                self.block(&f.body, d1.as_str());
            },
            StmtKind::ForEach(f) => {
                let t = join("foreach ", f.var.name.as_str());
                self.line(pre, t.as_str());
                self.line(d1.as_str(), "in");
                self.expr(&f.iterable, d2.as_str());
                self.block(&f.body, d1.as_str());
            },
            StmtKind::Break => self.line(pre, "break"),
            StmtKind::Continue => self.line(pre, "continue"),
        }
    }

    /// Writes each expression of a list at indentation `pre`.
    fn exprs(&mut self, es: &Vec<Expr>, pre: &str, Ghost(outer): Ghost<&Expr>)
        requires
            forall|k: int| 0 <= k < es@.len() ==> decreases_to!(*outer => #[trigger] es@[k]),
        ensures
            final(self).out@ == old(self).out@ + exprs_text(es@, es@.len(), pre@),
        decreases *outer, 1int,
    {
        let ghost start = self.out@;
        let mut i: usize = 0;
        while i < es.len()
            invariant
                0 <= i <= es@.len(),
                self.out@ == start + exprs_text(es@, i as nat, pre@),
                forall|k: int| 0 <= k < es@.len() ==> decreases_to!(*outer => #[trigger] es@[k]),
            decreases es@.len() - i,
        {
            self.expr(&es[i], pre);
            i = i + 1;
        }
    }

    fn expr(&mut self, expr: &Expr, pre: &str)
        ensures
            final(self).out@ == old(self).out@ + expr_text(*expr, pre@),
        decreases *expr, 2int,
    {
        proof {
            reveal_strlit("int ");
            reveal_strlit("float ");
            reveal_strlit("bool ");
            reveal_strlit("true");
            reveal_strlit("false");
            reveal_strlit("str ");
            reveal_strlit("name ");
            reveal_strlit("unary ");
            reveal_strlit("binary ");
            reveal_strlit("call");
            reveal_strlit("callee");
            reveal_strlit("arg");
            reveal_strlit("assign");
            reveal_strlit("assign-op ");
            reveal_strlit("if");
            reveal_strlit("cond");
            reveal_strlit("else");
            reveal_strlit("array");
            reveal_strlit("index");
            reveal_strlit("struct-lit ");
            reveal_strlit("field ");
            reveal_strlit("field-access .");
            reveal_strlit("tuple");
            reveal_strlit("tuple-index .");
            reveal_strlit("match");
            reveal_strlit("scrutinee");
            reveal_strlit("arm ");
            reveal_strlit("_");
            reveal_strlit("-");
            reveal_strlit("!");
        }
        let ghost start = self.out@;
        let d1 = deeper_str(pre);
        let d2 = deeper_str(d1.as_str());
        match &expr.kind {
            ExprKind::Int(v) => {
                let mut t = "int ".to_owned();
                push_signed(&mut t, *v);
                self.line(pre, t.as_str());
            },
            ExprKind::Float(lit) => {
                let mut t = "float ".to_owned();
                push_float(&mut t, lit.as_str());
                self.line(pre, t.as_str());
            },
            ExprKind::Bool(b) => {
                let t = if *b {
                    "bool true"
                } else {
                    "bool false"
                };
                proof {
                    reveal_strlit("bool true");
                    reveal_strlit("bool false");
                }
                self.line(pre, t);
            },
            ExprKind::Str(lit) => {
                let q = debug_str(lit.as_str());
                let t = join("str ", q.as_str());
                self.line(pre, t.as_str());
            },
            ExprKind::Name(n) => {
                let t = join("name ", n.as_str());
                self.line(pre, t.as_str());
            },
            ExprKind::Unary { op, rhs } => {
                let t = join("unary ", op.symbol());
                self.line(pre, t.as_str());
                self.expr(rhs, d1.as_str());
            },
            ExprKind::Binary { op, lhs, rhs } => {
                let t = join("binary ", op.symbol());
                self.line(pre, t.as_str());
                self.expr(lhs, d1.as_str());
                self.expr(rhs, d1.as_str());
            },
            ExprKind::Call { callee, args } => {
                self.line(pre, "call");
                self.line(d1.as_str(), "callee");
                self.expr(callee, d2.as_str());
                let ghost mid = self.out@;
                proof {
                    assert forall|k: int| 0 <= k < args@.len() implies decreases_to!(*expr => #[trigger] args@[k]) by {
                        assert(decreases_to!(*expr => args@[k]));
                    }
                }
                let mut i: usize = 0;
                while i < args.len()
                    invariant
                        0 <= i <= args@.len(),
                        self.out@ == mid + args_text(args@, i as nat, d1@),
                        d2@ == deeper(d1@),
                        forall|k: int| 0 <= k < args@.len() ==> decreases_to!(*expr => #[trigger] args@[k]),
                    decreases args@.len() - i,
                {
                    self.line(d1.as_str(), "arg");
                    self.expr(&args[i], d2.as_str());
                    i = i + 1;
                }
            },
            ExprKind::Assign { target, value } => {
                self.line(pre, "assign");
                self.expr(target, d1.as_str());
                self.expr(value, d1.as_str());
            },
            ExprKind::AssignOp { target, op, value } => {
                let t = join("assign-op ", op.symbol());
                self.line(pre, t.as_str());
                self.expr(target, d1.as_str());
                self.expr(value, d1.as_str());
            },
            ExprKind::If(if_expr) => {
                self.line(pre, "if");
                self.line(d1.as_str(), "cond");
                self.expr(&if_expr.cond, d2.as_str());
                self.block(&if_expr.then_branch, d1.as_str());
                match &if_expr.else_branch {
                    Some(else_branch) => {
                        self.line(d1.as_str(), "else");
                        self.expr(else_branch, d2.as_str());
                    },
                    None => {},
                }
            },
            ExprKind::ArrayLit(elems) => {
                self.line(pre, "array");
                proof {
                    assert forall|k: int| 0 <= k < elems@.len() implies decreases_to!(*expr => #[trigger] elems@[k]) by {
                        assert(decreases_to!(*expr => elems@[k]));
                    }
                }
                self.exprs(elems, d1.as_str(), Ghost(expr));
            },
            ExprKind::Index { base, index } => {
                self.line(pre, "index");
                self.expr(base, d1.as_str());
                self.expr(index, d1.as_str());
            },
            ExprKind::StructLit { name, fields } => {
                let t = join("struct-lit ", name.name.as_str());
                self.line(pre, t.as_str());
                let ghost mid = self.out@;
                proof {
                    assert forall|k: int| 0 <= k < fields@.len() implies decreases_to!(*expr => #[trigger] fields@[k].value) by {
                        assert(decreases_to!(*expr => fields@[k]));
                        assert(decreases_to!(fields@[k] => fields@[k].value));
                    }
                }
                let mut i: usize = 0;
                while i < fields.len()
                    invariant
                        0 <= i <= fields@.len(),
                        self.out@ == mid + fields_text(fields@, i as nat, d1@),
                        d2@ == deeper(d1@),
                        forall|k: int| 0 <= k < fields@.len() ==> decreases_to!(*expr => #[trigger] fields@[k].value),
                    decreases fields@.len() - i,
                {
                    let f = &fields[i];
                    let t = join("field ", f.name.name.as_str());
                    self.line(d1.as_str(), t.as_str());
                    self.expr(&f.value, d2.as_str());
                    i = i + 1;
                }
            },
            ExprKind::Field { base, field } => {
                let t = join("field-access .", field.name.as_str());
                self.line(pre, t.as_str());
                self.expr(base, d1.as_str());
            },
            ExprKind::TupleLit(elems) => {
                self.line(pre, "tuple");
                proof {
                    assert forall|k: int| 0 <= k < elems@.len() implies decreases_to!(*expr => #[trigger] elems@[k]) by {
                        assert(decreases_to!(*expr => elems@[k]));
                    }
                }
                self.exprs(elems, d1.as_str(), Ghost(expr));
            },
            ExprKind::TupleIndex { base, index, .. } => {
                let mut t = "tuple-index .".to_owned();
                push_decimal(&mut t, *index as u64);
                self.line(pre, t.as_str());
                self.expr(base, d1.as_str());
            },
            ExprKind::Match(m) => {
                self.line(pre, "match");
                self.line(d1.as_str(), "scrutinee");
                self.expr(&m.scrutinee, d2.as_str());
                let ghost mid = self.out@;
                proof {
                    assert forall|k: int| 0 <= k < m.arms@.len() implies decreases_to!(*expr => #[trigger] m.arms@[k].body) by {
                        assert(decreases_to!(*expr => m.arms@[k]));
                        assert(decreases_to!(m.arms@[k] => m.arms@[k].body));
                    }
                }
                let mut i: usize = 0;
                while i < m.arms.len()
                    invariant
                        0 <= i <= m.arms@.len(),
                        self.out@ == mid + arms_text(m.arms@, i as nat, d1@),
                        d2@ == deeper(d1@),
                        forall|k: int| 0 <= k < m.arms@.len() ==> decreases_to!(*expr => #[trigger] m.arms@[k].body),
                    decreases m.arms@.len() - i,
                {
                    let arm = &m.arms[i];
                    let mut t = "arm ".to_owned();
                    push_pattern(&mut t, arm.pattern);
                    self.line(d1.as_str(), t.as_str());
                    self.expr(&arm.body, d2.as_str());
                    i = i + 1;
                }
            },
            ExprKind::Block(block) => self.block(block, pre),
        }
    }
}

/// Appends a `match` arm pattern in source form.
pub(crate) fn push_pattern(out: &mut String, p: Pattern)
    ensures
        final(out)@ == old(out)@ + pattern_text(p),
{
    proof {
        reveal_strlit("true");
        reveal_strlit("false");
        reveal_strlit("_");
    }
    match p {
        Pattern::Int(v) => push_signed(out, v),
        Pattern::Bool(b) => push_str(out, if b {
            "true"
        } else {
            "false"
        }),
        Pattern::Wild => push_str(out, "_"),
    }
}

} // verus!
