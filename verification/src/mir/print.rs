//! A deterministic textual dump of MIR.
//!
//! The format is one basic block per labelled section, each instruction on
//! its own line in `dst = rvalue` form, ending with the block's terminator.

use vstd::prelude::*;

use crate::hir::Callee;
use crate::mir::{Block, BlockId, Const, Function, Inst, Operand, Program, Rvalue, Terminator};
use crate::parser::ast::binop_text;
use crate::parser::print::{bool_text, debug_quoted, debug_str, float_display, push_float, signed_text, unop_text};
use crate::sema::types::builtin_name;
use crate::text::{decimal, push_decimal, push_signed, push_str};

verus! {

/// Pieces joined by `", "`.
pub open spec fn comma_list(ws: Seq<Seq<char>>) -> Seq<char>
    decreases ws.len(),
{
    if ws.len() == 0 {
        Seq::empty()
    } else if ws.len() == 1 {
        ws[0]
    } else {
        comma_list(ws.drop_last()) + ", "@ + ws.last()
    }
}

/// How a constant is shown: its literal (a string in quoted debug form).
pub open spec fn const_text(c: Const) -> Seq<char> {
    match c {
        Const::Int(v) => signed_text(v),
        Const::Float(v) => float_display(v@),
        Const::Bool(v) => bool_text(v),
        Const::Str(v) => debug_quoted(v@),
        Const::Unit => "unit"@,
    }
}

/// How an operand is shown: a constant, or `%N` for a register.
pub open spec fn operand_text(o: Operand) -> Seq<char> {
    match o {
        Operand::Const(c) => const_text(c),
        Operand::Reg(r) => "%"@ + decimal(r.0 as nat),
    }
}

/// A list of operands, comma-separated.
pub open spec fn operands_text(os: Seq<Operand>) -> Seq<char> {
    comma_list(os.map_values(|o: Operand| operand_text(o)))
}

/// How a call target is shown: `fn#N` or `@name`.
pub open spec fn callee_text(c: Callee) -> Seq<char> {
    match c {
        Callee::Fn(id) => "fn#"@ + decimal(id.0 as nat),
        Callee::Builtin(b) => "@"@ + builtin_name(b),
    }
}

/// How an rvalue is shown.
pub open spec fn rvalue_text(r: Rvalue) -> Seq<char> {
    match r {
        Rvalue::Use(o) => operand_text(o),
        Rvalue::Load(l) => "load _"@ + decimal(l.0 as nat),
        Rvalue::Unary(op, o) => unop_text(op) + operand_text(o),
        Rvalue::Binary(op, a, b) => operand_text(a) + " "@ + binop_text(op) + " "@ + operand_text(b),
        Rvalue::Concat(a, b) => operand_text(a) + " ++ "@ + operand_text(b),
        Rvalue::MakeArray(es) => "["@ + operands_text(es@) + "]"@,
        Rvalue::Index(b, i) => operand_text(b) + "["@ + operand_text(i) + "]"@,
    }
}

/// How an instruction is shown.
pub open spec fn inst_text(i: Inst) -> Seq<char> {
    match i {
        Inst::Assign { dst, rvalue } => "%"@ + decimal(dst.0 as nat) + " = "@ + rvalue_text(rvalue),
        Inst::Store { local, src } => "_"@ + decimal(local.0 as nat) + " <- "@ + operand_text(src),
        Inst::SetIndex { base, index, value } => operand_text(base) + "["@ + operand_text(index) + "] <- "@
            + operand_text(value),
        Inst::Call { dst, callee, args, .. } => "%"@ + decimal(dst.0 as nat) + " = call "@ + callee_text(callee)
            + "("@ + operands_text(args@) + ")"@,
    }
}

/// How a terminator is shown in a dump.
pub open spec fn term_text(t: Terminator) -> Seq<char> {
    match t {
        Terminator::Goto(b) => "goto bb"@ + decimal(b.0 as nat),
        Terminator::Branch { cond, then_bb, else_bb } => "branch "@ + operand_text(cond) + " -> bb"@ + decimal(
            then_bb.0 as nat,
        ) + ", bb"@ + decimal(else_bb.0 as nat),
        Terminator::Return(o) => "return "@ + operand_text(o),
        Terminator::Unreachable => "unreachable"@,
    }
}

/// The parameter names of a function with `n` parameters: `_0, _1, ...`.
pub open spec fn params_text(n: nat) -> Seq<char> {
    comma_list(Seq::new(n, |i: int| "_"@ + decimal(i as nat)))
}

/// Whether block `i` is the entry (block numbers are 32-bit).
pub open spec fn is_entry(i: usize, entry: BlockId) -> bool {
    (i as u32) == entry.0
}

/// The first `n` instructions, one indented line each.
pub open spec fn insts_text(is: Seq<Inst>, n: nat) -> Seq<char>
    decreases n,
{
    if n == 0 || n > is.len() {
        Seq::empty()
    } else {
        insts_text(is, (n - 1) as nat) + "    "@ + inst_text(is[n - 1]) + "\n"@
    }
}

/// Block `i`: its label (marked where it is the entry), its instructions and
/// its terminator.
pub open spec fn block_text(b: Block, i: usize, entry: BlockId) -> Seq<char> {
    "  bb"@ + decimal(i as nat) + ":"@ + (if is_entry(i, entry) {
        " (entry)"@
    } else {
        Seq::empty()
    }) + "\n"@ + insts_text(b.insts@, b.insts@.len()) + "    "@ + term_text(b.term) + "\n"@
}

/// The first `n` blocks of a function.
pub open spec fn blocks_text(bs: Seq<Block>, entry: BlockId, n: nat) -> Seq<char>
    decreases n,
{
    if n == 0 || n > bs.len() || n > usize::MAX + 1 {
        Seq::empty()
    } else {
        blocks_text(bs, entry, (n - 1) as nat) + block_text(bs[n - 1], (n - 1) as usize, entry)
    }
}

/// A whole function: its header, its blocks, and a closing brace.
pub open spec fn function_text(f: Function) -> Seq<char> {
    "fn "@ + f.name@ + "("@ + params_text(f.param_count as nat) + ") ["@ + decimal(f.reg_count as nat)
        + " regs] {\n"@ + blocks_text(f.blocks@, f.entry, f.blocks@.len()) + "}\n"@
}

/// The first `n` functions, separated by blank lines.
pub open spec fn functions_text(fs: Seq<Function>, n: nat) -> Seq<char>
    decreases n,
{
    if n == 0 || n > fs.len() {
        Seq::empty()
    } else {
        functions_text(fs, (n - 1) as nat) + (if n > 1 {
            "\n"@
        } else {
            Seq::empty()
        }) + function_text(fs[n - 1])
    }
}

/// The dump of a whole program.
pub open spec fn mir_text(p: Program) -> Seq<char> {
    functions_text(p.functions@, p.functions@.len())
}

/// Renders a whole MIR program: [`mir_text`].
pub fn print_mir(program: &Program) -> (s: String)
    ensures
        s@ == mir_text(*program),
{
    let mut out = String::new();
    let mut i: usize = 0;
    while i < program.functions.len()
        invariant
            i <= program.functions@.len(),
            out@ == functions_text(program.functions@, i as nat),
        decreases program.functions@.len() - i,
    {
        if i > 0 {
            push_str(&mut out, "\n");
        }
        push_function(&mut out, &program.functions[i]);
        i = i + 1;
    }
    out
}

proof fn lemma_comma_push(ws: Seq<Seq<char>>, w: Seq<char>)
    ensures
        comma_list(ws.push(w)) == if ws.len() == 0 {
            w
        } else {
            comma_list(ws) + ", "@ + w
        },
{
    assert(ws.push(w).drop_last() =~= ws);
}

fn push_function(out: &mut String, f: &Function)
    ensures
        final(out)@ == old(out)@ + function_text(*f),
{
    let ghost before = out@;
    push_str(out, "fn ");
    push_str(out, f.name.as_str());
    push_str(out, "(");
    let ghost mid = out@;
    let ghost names = Seq::new(f.param_count as nat, |i: int| "_"@ + decimal(i as nat));
    let mut k: usize = 0;
    while k < f.param_count
        invariant
            k <= f.param_count,
            names == Seq::new(f.param_count as nat, |i: int| "_"@ + decimal(i as nat)),
            out@ == mid + comma_list(names.take(k as int)),
        decreases f.param_count - k,
    {
        let ghost prev = out@;
        if k > 0 {
            push_str(out, ", ");
        }
        push_str(out, "_");
        push_decimal(out, k as u64);
        proof {
            assert(names.take(k + 1) =~= names.take(k as int).push(names[k as int]));
            lemma_comma_push(names.take(k as int), names[k as int]);
            assert(out@ =~= mid + comma_list(names.take(k + 1)));
        }
        k = k + 1;
    }
    proof {
        assert(names.take(k as int) =~= names);
    }
    push_str(out, ") [");
    push_decimal(out, f.reg_count as u64);
    push_str(out, " regs] {\n");
    let ghost head = out@;
    let mut i: usize = 0;
    while i < f.blocks.len()
        invariant
            i <= f.blocks@.len(),
            out@ == head + blocks_text(f.blocks@, f.entry, i as nat),
        decreases f.blocks@.len() - i,
    {
        push_block(out, &f.blocks[i], i, f.entry);
        proof {
            assert(out@ =~= head + blocks_text(f.blocks@, f.entry, (i + 1) as nat));
        }
        i = i + 1;
    }
    push_str(out, "}\n");
    proof {
        assert(out@ =~= before + function_text(*f));
    }
}

fn push_block(out: &mut String, b: &Block, i: usize, entry: BlockId)
    ensures
        final(out)@ == old(out)@ + block_text(*b, i, entry),
{
    let ghost before = out@;
    push_str(out, "  bb");
    push_decimal(out, i as u64);
    push_str(out, ":");
    if #[verifier::truncate] (i as u32) == entry.0 {
        push_str(out, " (entry)");
    }
    push_str(out, "\n");
    let ghost head = out@;
    let mut k: usize = 0;
    while k < b.insts.len()
        invariant
            k <= b.insts@.len(),
            out@ == head + insts_text(b.insts@, k as nat),
        decreases b.insts@.len() - k,
    {
        push_str(out, "    ");
        push_inst(out, &b.insts[k]);
        push_str(out, "\n");
        proof {
            assert(out@ =~= head + insts_text(b.insts@, (k + 1) as nat));
        }
        k = k + 1;
    }
    push_str(out, "    ");
    push_term(out, &b.term);
    push_str(out, "\n");
    proof {
        assert(out@ =~= before + block_text(*b, i, entry));
    }
}

pub(crate) fn push_const(out: &mut String, c: &Const)
    ensures
        final(out)@ == old(out)@ + const_text(*c),
{
    match c {
        Const::Int(v) => push_signed(out, *v),
        Const::Float(v) => push_float(out, v.as_str()),
        Const::Bool(v) => {
            if *v {
                push_str(out, "true");
            } else {
                push_str(out, "false");
            }
        },
        Const::Str(v) => {
            let q = debug_str(v.as_str());
            push_str(out, q.as_str());
        },
        Const::Unit => push_str(out, "unit"),
    }
}

pub(crate) fn push_operand(out: &mut String, o: &Operand)
    ensures
        final(out)@ == old(out)@ + operand_text(*o),
{
    match o {
        Operand::Const(c) => push_const(out, c),
        Operand::Reg(r) => {
            let ghost before = out@;
            push_str(out, "%");
            push_decimal(out, r.0 as u64);
            proof {
                assert(out@ =~= before + operand_text(*o));
            }
        },
    }
}

pub(crate) fn push_operands(out: &mut String, os: &Vec<Operand>)
    ensures
        final(out)@ == old(out)@ + operands_text(os@),
{
    let ghost before = out@;
    let ghost ws = os@.map_values(|o: Operand| operand_text(o));
    let mut k: usize = 0;
    while k < os.len()
        invariant
            k <= os@.len(),
            ws == os@.map_values(|o: Operand| operand_text(o)),
            out@ == before + comma_list(ws.take(k as int)),
        decreases os@.len() - k,
    {
        if k > 0 {
            push_str(out, ", ");
        }
        push_operand(out, &os[k]);
        proof {
            assert(ws.take(k + 1) =~= ws.take(k as int).push(ws[k as int]));
            lemma_comma_push(ws.take(k as int), ws[k as int]);
            assert(out@ =~= before + comma_list(ws.take(k + 1)));
        }
        k = k + 1;
    }
    proof {
        assert(ws.take(k as int) =~= ws);
    }
}

pub(crate) fn push_callee(out: &mut String, c: Callee)
    ensures
        final(out)@ == old(out)@ + callee_text(c),
{
    let ghost before = out@;
    match c {
        Callee::Fn(id) => {
            push_str(out, "fn#");
            push_decimal(out, id.0 as u64);
        },
        Callee::Builtin(b) => {
            push_str(out, "@");
            push_str(out, b.name());
        },
    }
    proof {
        assert(out@ =~= before + callee_text(c));
    }
}

pub(crate) fn push_rvalue(out: &mut String, r: &Rvalue)
    ensures
        final(out)@ == old(out)@ + rvalue_text(*r),
{
    let ghost before = out@;
    match r {
        Rvalue::Use(o) => push_operand(out, o),
        Rvalue::Load(l) => {
            push_str(out, "load _");
            push_decimal(out, l.0 as u64);
        },
        Rvalue::Unary(op, o) => {
            push_str(out, op.symbol());
            push_operand(out, o);
        },
        Rvalue::Binary(op, a, b) => {
            push_operand(out, a);
            push_str(out, " ");
            push_str(out, op.symbol());
            push_str(out, " ");
            push_operand(out, b);
        },
        Rvalue::Concat(a, b) => {
            push_operand(out, a);
            push_str(out, " ++ ");
            push_operand(out, b);
        },
        Rvalue::MakeArray(es) => {
            push_str(out, "[");
            push_operands(out, es);
            push_str(out, "]");
        },
        Rvalue::Index(b, i) => {
            push_operand(out, b);
            push_str(out, "[");
            push_operand(out, i);
            push_str(out, "]");
        },
    }
    proof {
        assert(out@ =~= before + rvalue_text(*r));
    }
}

pub(crate) fn push_inst(out: &mut String, inst: &Inst)
    ensures
        final(out)@ == old(out)@ + inst_text(*inst),
{
    let ghost before = out@;
    match inst {
        Inst::Assign { dst, rvalue } => {
            push_str(out, "%");
            push_decimal(out, dst.0 as u64);
            push_str(out, " = ");
            push_rvalue(out, rvalue);
        },
        Inst::Store { local, src } => {
            push_str(out, "_");
            push_decimal(out, local.0 as u64);
            push_str(out, " <- ");
            push_operand(out, src);
        },
        Inst::SetIndex { base, index, value } => {
            push_operand(out, base);
            push_str(out, "[");
            push_operand(out, index);
            push_str(out, "] <- ");
            push_operand(out, value);
        },
        Inst::Call { dst, callee, args, .. } => {
            push_str(out, "%");
            push_decimal(out, dst.0 as u64);
            push_str(out, " = call ");
            push_callee(out, *callee);
            push_str(out, "(");
            push_operands(out, args);
            push_str(out, ")");
        },
    }
    proof {
        assert(out@ =~= before + inst_text(*inst));
    }
}

fn push_term(out: &mut String, t: &Terminator)
    ensures
        final(out)@ == old(out)@ + term_text(*t),
{
    let ghost before = out@;
    match t {
        Terminator::Goto(b) => {
            push_str(out, "goto bb");
            push_decimal(out, b.0 as u64);
        },
        Terminator::Branch { cond, then_bb, else_bb } => {
            push_str(out, "branch ");
            push_operand(out, cond);
            push_str(out, " -> bb");
            push_decimal(out, then_bb.0 as u64);
            push_str(out, ", bb");
            push_decimal(out, else_bb.0 as u64);
        },
        Terminator::Return(o) => {
            push_str(out, "return ");
            push_operand(out, o);
        },
        Terminator::Unreachable => push_str(out, "unreachable"),
    }
    proof {
        assert(out@ =~= before + term_text(*t));
    }
}

} // verus!
