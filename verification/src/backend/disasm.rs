//! A deterministic disassembler for [`Program`] bytecode.
//!
//! Renders each chunk as a header plus a numbered instruction listing, for
//! snapshot tests and `lumenc dump bytecode`. Instruction indices are shown
//! so jump targets are easy to follow. The output is specified by
//! [`program_listing`].

use vstd::prelude::*;
use vstd::string::*;

use crate::backend::bytecode::{Chunk, Op, Program};
use crate::parser::print::{bool_text, debug_quoted, debug_str, float_display, push_float, signed_text};
use crate::sema::types::builtin_name;
use crate::text::{decimal, push_decimal, push_signed, push_str};

verus! {

/// The text of one instruction; a string constant is shown quoted, or as
/// `"?"` when its index is outside the pool.
pub open spec fn op_text(op: Op, consts: Seq<String>) -> Seq<char> {
    match op {
        Op::PushInt(v) => "push_int "@ + signed_text(v),
        Op::PushFloat(t) => "push_float "@ + float_display(t@),
        Op::PushBool(b) => "push_bool "@ + bool_text(b),
        Op::PushUnit => "push_unit"@,
        Op::PushStr(k) => "push_str "@ + debug_quoted(
            if k < consts.len() {
                consts[k as int]@
            } else {
                "?"@
            },
        ),
        Op::LoadLocal(n) => "load_local "@ + decimal(n as nat),
        Op::StoreLocal(n) => "store_local "@ + decimal(n as nat),
        Op::Pop => "pop"@,
        Op::AddInt => "add.i"@,
        Op::SubInt => "sub.i"@,
        Op::MulInt => "mul.i"@,
        Op::DivInt => "div.i"@,
        Op::RemInt => "rem.i"@,
        Op::NegInt => "neg.i"@,
        Op::AddFloat => "add.f"@,
        Op::SubFloat => "sub.f"@,
        Op::MulFloat => "mul.f"@,
        Op::DivFloat => "div.f"@,
        Op::RemFloat => "rem.f"@,
        Op::NegFloat => "neg.f"@,
        Op::LtInt => "lt.i"@,
        Op::LeInt => "le.i"@,
        Op::GtInt => "gt.i"@,
        Op::GeInt => "ge.i"@,
        Op::LtFloat => "lt.f"@,
        Op::LeFloat => "le.f"@,
        Op::GtFloat => "gt.f"@,
        Op::GeFloat => "ge.f"@,
        Op::ConcatStr => "concat"@,
        Op::MakeArray(n) => "make_array "@ + decimal(n as nat),
        Op::Index => "index"@,
        Op::SetIndex => "set_index"@,
        Op::ArrayLen => "array_len"@,
        Op::Eq => "eq"@,
        Op::Ne => "ne"@,
        Op::NotBool => "not"@,
        Op::Jump(t) => "jump "@ + decimal(t as nat),
        Op::JumpIfFalse(t) => "jump_if_false "@ + decimal(t as nat),
        Op::Call { func, argc } => "call fn#"@ + decimal(func as nat) + " argc="@ + decimal(argc as nat),
        Op::CallBuiltin { builtin, argc } => "call_builtin "@ + builtin_name(builtin) + " argc="@ + decimal(
            argc as nat,
        ),
        Op::Return => "return"@,
    }
}

/// `s` right-aligned in a field of `width` characters.
pub open spec fn pad_left(s: Seq<char>, width: nat) -> Seq<char> {
    if s.len() >= width {
        s
    } else {
        Seq::new((width - s.len()) as nat, |_i: int| ' ') + s
    }
}

/// The listing line of instruction `i`.
pub open spec fn op_line(i: nat, op: Op, consts: Seq<String>) -> Seq<char> {
    "  "@ + pad_left(decimal(i), 4) + "  "@ + op_text(op, consts) + "\n"@
}

/// The listing of the first `n` instructions of a chunk.
pub open spec fn code_listing(c: Chunk, n: nat) -> Seq<char>
    decreases n,
{
    if n == 0 || n > c.code@.len() {
        Seq::empty()
    } else {
        code_listing(c, (n - 1) as nat) + op_line((n - 1) as nat, c.code@[n - 1], c.consts@)
    }
}

/// The header line of chunk `idx`.
pub open spec fn chunk_header(idx: nat, c: Chunk, main: usize) -> Seq<char> {
    "fn#"@ + decimal(idx) + " "@ + c.name@ + " (params="@ + decimal(c.n_params as nat) + ", locals="@ + decimal(
        c.n_locals as nat,
    ) + ")"@ + (if idx == main {
        " [entry]"@
    } else {
        ""@
    }) + "\n"@
}

/// The listing of the first `n` chunks of a program.
pub open spec fn program_listing(p: &Program, n: nat) -> Seq<char>
    decreases n,
{
    if n == 0 || n > p.functions@.len() {
        Seq::empty()
    } else {
        program_listing(p, (n - 1) as nat) + chunk_header((n - 1) as nat, p.functions@[n - 1], p.main)
            + code_listing(p.functions@[n - 1], p.functions@[n - 1].code@.len())
    }
}

/// Appends the text of one instruction.
fn push_op(out: &mut String, op: &Op, chunk: &Chunk)
    ensures
        final(out)@ == old(out)@ + op_text(*op, chunk.consts@),
{
    proof {
        reveal_strlit("push_int ");
        reveal_strlit("push_float ");
        reveal_strlit("push_bool ");
        reveal_strlit("true");
        reveal_strlit("false");
        reveal_strlit("push_str ");
        reveal_strlit("load_local ");
        reveal_strlit("store_local ");
        reveal_strlit("make_array ");
        reveal_strlit("jump ");
        reveal_strlit("jump_if_false ");
        reveal_strlit("call fn#");
        reveal_strlit(" argc=");
        reveal_strlit("call_builtin ");
    }
    match op {
        Op::PushInt(v) => {
            push_str(out, "push_int ");
            push_signed(out, *v);
        },
        Op::PushFloat(t) => {
            push_str(out, "push_float ");
            push_float(out, t.as_str());
        },
        Op::PushBool(b) => {
            push_str(out, "push_bool ");
            if *b {
                push_str(out, "true");
            } else {
                push_str(out, "false");
            }
        },
        Op::PushUnit => push_str(out, "push_unit"),
        Op::PushStr(k) => {
            push_str(out, "push_str ");
            let q = if (*k as usize) < chunk.consts.len() {
                debug_str(chunk.consts[*k as usize].as_str())
            } else {
                debug_str("?")
            };
            push_str(out, q.as_str());
        },
        Op::LoadLocal(n) => {
            push_str(out, "load_local ");
            push_decimal(out, *n as u64);
        },
        Op::StoreLocal(n) => {
            push_str(out, "store_local ");
            push_decimal(out, *n as u64);
        },
        Op::Pop => push_str(out, "pop"),
        Op::AddInt => push_str(out, "add.i"),
        Op::SubInt => push_str(out, "sub.i"),
        Op::MulInt => push_str(out, "mul.i"),
        Op::DivInt => push_str(out, "div.i"),
        Op::RemInt => push_str(out, "rem.i"),
        Op::NegInt => push_str(out, "neg.i"),
        Op::AddFloat => push_str(out, "add.f"),
        Op::SubFloat => push_str(out, "sub.f"),
        Op::MulFloat => push_str(out, "mul.f"),
        Op::DivFloat => push_str(out, "div.f"),
        Op::RemFloat => push_str(out, "rem.f"),
        Op::NegFloat => push_str(out, "neg.f"),
        Op::LtInt => push_str(out, "lt.i"),
        Op::LeInt => push_str(out, "le.i"),
        Op::GtInt => push_str(out, "gt.i"),
        Op::GeInt => push_str(out, "ge.i"),
        Op::LtFloat => push_str(out, "lt.f"),
        Op::LeFloat => push_str(out, "le.f"),
        Op::GtFloat => push_str(out, "gt.f"),
        Op::GeFloat => push_str(out, "ge.f"),
        Op::ConcatStr => push_str(out, "concat"),
        Op::MakeArray(n) => {
            push_str(out, "make_array ");
            push_decimal(out, *n as u64);
        },
        Op::Index => push_str(out, "index"),
        Op::SetIndex => push_str(out, "set_index"),
        Op::ArrayLen => push_str(out, "array_len"),
        Op::Eq => push_str(out, "eq"),
        Op::Ne => push_str(out, "ne"),
        Op::NotBool => push_str(out, "not"),
        Op::Jump(t) => {
            push_str(out, "jump ");
            push_decimal(out, *t as u64);
        },
        Op::JumpIfFalse(t) => {
            push_str(out, "jump_if_false ");
            push_decimal(out, *t as u64);
        },
        Op::Call { func, argc } => {
            push_str(out, "call fn#");
            push_decimal(out, *func as u64);
            push_str(out, " argc=");
            push_decimal(out, *argc as u64);
        },
        Op::CallBuiltin { builtin, argc } => {
            push_str(out, "call_builtin ");
            push_str(out, builtin.name());
            push_str(out, " argc=");
            push_decimal(out, *argc as u64);
        },
        Op::Return => push_str(out, "return"),
    }
}

/// Appends `n`'s decimal spelling right-aligned in four columns.
fn push_index(out: &mut String, n: usize)
    ensures
        final(out)@ == old(out)@ + pad_left(decimal(n as nat), 4),
{
    let mut digits = String::new();
    push_decimal(&mut digits, n as u64);
    let len = digits.as_str().unicode_len();
    let ghost d = digits@;
    assert(d == decimal(n as nat));
    if len < 4 {
        let mut k: usize = len;
        let ghost start = out@;
        while k < 4
            invariant
                len <= k <= 4,
                len == d.len(),
                out@ == start + Seq::new((k - len) as nat, |_i: int| ' '),
            decreases 4 - k,
        {
            let ghost before = out@;
            push_str(out, " ");
            proof {
                reveal_strlit(" ");
                assert(out@ =~= start + Seq::new((k + 1 - len) as nat, |_i: int| ' '));
            }
            k = k + 1;
        }
    }
    push_str(out, digits.as_str());
}

/// Renders a whole program's bytecode: [`program_listing`].
pub fn disassemble(program: &Program) -> (s: String)
    ensures
        s@ == program_listing(program, program.functions@.len()),
{
    proof {
        reveal_strlit("fn#");
        reveal_strlit(" ");
        reveal_strlit(" (params=");
        reveal_strlit(", locals=");
        reveal_strlit(")");
        reveal_strlit(" [entry]");
        reveal_strlit("");
        reveal_strlit("\n");
        reveal_strlit("  ");
    }
    let mut out = String::new();
    let mut idx: usize = 0;
    while idx < program.functions.len()
        invariant
            idx <= program.functions@.len(),
            out@ == program_listing(program, idx as nat),
        decreases program.functions@.len() - idx,
    {
        let chunk = &program.functions[idx];
        let ghost prev = out@;
        push_str(&mut out, "fn#");
        push_decimal(&mut out, idx as u64);
        push_str(&mut out, " ");
        push_str(&mut out, chunk.name.as_str());
        push_str(&mut out, " (params=");
        push_decimal(&mut out, chunk.n_params as u64);
        push_str(&mut out, ", locals=");
        push_decimal(&mut out, chunk.n_locals as u64);
        push_str(&mut out, ")");
        if idx == program.main {
            push_str(&mut out, " [entry]");
        } else {
            push_str(&mut out, "");
        }
        push_str(&mut out, "\n");
        let ghost head = out@;
        assert(head =~= prev + chunk_header(idx as nat, *chunk, program.main));
        assert(head =~= program_listing(program, idx as nat) + chunk_header(idx as nat, *chunk, program.main));
        let mut i: usize = 0;
        while i < chunk.code.len()
            invariant
                i <= chunk.code@.len(),
                out@ == head + code_listing(*chunk, i as nat),
            decreases chunk.code@.len() - i,
        {
            push_str(&mut out, "  ");
            push_index(&mut out, i);
            push_str(&mut out, "  ");
            push_op(&mut out, &chunk.code[i], chunk);
            push_str(&mut out, "\n");
            i = i + 1;
        }
        idx = idx + 1;
    }
    out
}

} // verus!
