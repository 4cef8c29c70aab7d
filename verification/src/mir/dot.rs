//! Graphviz DOT export of the MIR control-flow graph.
//!
//! Each function becomes a `digraph`. Each basic block is a node listing its
//! instructions and terminator; edges follow the terminator's successors,
//! with the two arms of a conditional branch labelled `T` (true) and `F`
//! (false). The rendering is deterministic.

use vstd::prelude::*;

use crate::mir::print::{inst_text, is_entry, operand_text, push_inst, push_operand};
use crate::mir::{Block, BlockId, Function, Program, Terminator};
use crate::text::{chars_of, decimal, push_char, push_decimal, push_str};

verus! {

/// A string with `\` and `"` escaped for a DOT label.
pub open spec fn escape_text(s: Seq<char>) -> Seq<char>
    decreases s.len(),
{
    if s.len() == 0 {
        Seq::empty()
    } else {
        escape_text(s.drop_last()) + (if s.last() == '\\' {
            seq!['\\', '\\']
        } else if s.last() == '"' {
            seq!['\\', '"']
        } else {
            seq![s.last()]
        })
    }
}

/// How a terminator reads inside a node: a branch shows only its condition
/// (its targets are the edges).
pub open spec fn node_term_text(t: Terminator) -> Seq<char> {
    match t {
        Terminator::Goto(b) => "goto bb"@ + decimal(b.0 as nat),
        Terminator::Branch { cond, .. } => "branch "@ + operand_text(cond),
        Terminator::Return(o) => "return "@ + operand_text(o),
        Terminator::Unreachable => "unreachable"@,
    }
}

/// The label lines of the first `n` instructions of a block.
pub open spec fn label_insts(b: Block, n: nat) -> Seq<char>
    decreases n,
{
    if n == 0 || n > b.insts@.len() {
        Seq::empty()
    } else {
        label_insts(b, (n - 1) as nat) + "\\l"@ + escape_text(inst_text(b.insts@[n - 1]))
    }
}

/// The node of block `i`.
pub open spec fn node_text(b: Block, i: usize, entry: BlockId) -> Seq<char> {
    "  bb"@ + decimal(i as nat) + " [label=\"bb"@ + decimal(i as nat) + (if is_entry(i, entry) {
        " (entry)"@
    } else {
        Seq::empty()
    }) + label_insts(b, b.insts@.len()) + "\\l"@ + escape_text(node_term_text(b.term)) + "\\l\"];\n"@
}

/// The edges out of block `i`.
pub open spec fn edges_text(b: Block, i: usize) -> Seq<char> {
    match b.term {
        Terminator::Goto(t) => "  bb"@ + decimal(i as nat) + " -> bb"@ + decimal(t.0 as nat) + ";\n"@,
        Terminator::Branch { then_bb, else_bb, .. } => "  bb"@ + decimal(i as nat) + " -> bb"@ + decimal(
            then_bb.0 as nat,
        ) + " [label=\"T\"];\n"@ + "  bb"@ + decimal(i as nat) + " -> bb"@ + decimal(else_bb.0 as nat)
            + " [label=\"F\"];\n"@,
        _ => Seq::empty(),
    }
}

/// The nodes of the first `n` blocks.
pub open spec fn nodes_text(bs: Seq<Block>, entry: BlockId, n: nat) -> Seq<char>
    decreases n,
{
    if n == 0 || n > bs.len() || n > usize::MAX + 1 {
        Seq::empty()
    } else {
        nodes_text(bs, entry, (n - 1) as nat) + node_text(bs[n - 1], (n - 1) as usize, entry)
    }
}

/// The edges of the first `n` blocks.
pub open spec fn all_edges_text(bs: Seq<Block>, n: nat) -> Seq<char>
    decreases n,
{
    if n == 0 || n > bs.len() || n > usize::MAX + 1 {
        Seq::empty()
    } else {
        all_edges_text(bs, (n - 1) as nat) + edges_text(bs[n - 1], (n - 1) as usize)
    }
}

/// One function's digraph: a header, every node, then every edge.
pub open spec fn function_dot_text(f: Function) -> Seq<char> {
    "digraph \""@ + f.name@ + "\" {\n"@ + "  node [shape=box, fontname=\"monospace\"];\n"@ + nodes_text(
        f.blocks@,
        f.entry,
        f.blocks@.len(),
    ) + all_edges_text(f.blocks@, f.blocks@.len()) + "}\n"@
}

/// The digraphs of the first `n` functions.
pub open spec fn dot_functions_text(fs: Seq<Function>, n: nat) -> Seq<char>
    decreases n,
{
    if n == 0 || n > fs.len() {
        Seq::empty()
    } else {
        dot_functions_text(fs, (n - 1) as nat) + function_dot_text(fs[n - 1])
    }
}

/// Renders the whole program's control-flow graph, one digraph per
/// function: [`dot_functions_text`].
pub fn to_dot(program: &Program) -> (s: String)
    ensures
        s@ == dot_functions_text(program.functions@, program.functions@.len()),
{
    let mut out = String::new();
    let mut i: usize = 0;
    while i < program.functions.len()
        invariant
            i <= program.functions@.len(),
            out@ == dot_functions_text(program.functions@, i as nat),
        decreases program.functions@.len() - i,
    {
        push_function_dot(&mut out, &program.functions[i]);
        i = i + 1;
    }
    out
}

fn push_escaped(out: &mut String, s: &str)
    ensures
        final(out)@ == old(out)@ + escape_text(s@),
{
    let ghost before = out@;
    let cs = chars_of(s);
    let mut k: usize = 0;
    while k < cs.len()
        invariant
            k <= cs@.len(),
            cs@ == s@,
            out@ == before + escape_text(s@.take(k as int)),
        decreases cs@.len() - k,
    {
        let c = cs[k];
        if c == '\\' {
            push_char(out, '\\');
            push_char(out, '\\');
        } else if c == '"' {
            push_char(out, '\\');
            push_char(out, '"');
        } else {
            push_char(out, c);
        }
        proof {
            assert(s@.take(k + 1).drop_last() =~= s@.take(k as int));
            assert(out@ =~= before + escape_text(s@.take(k + 1)));
        }
        k = k + 1;
    }
    proof {
        assert(s@.take(k as int) =~= s@);
    }
}

fn push_node_term(out: &mut String, t: &Terminator)
    ensures
        final(out)@ == old(out)@ + node_term_text(*t),
{
    let ghost before = out@;
    match t {
        Terminator::Goto(b) => {
            push_str(out, "goto bb");
            push_decimal(out, b.0 as u64);
        },
        Terminator::Branch { cond, .. } => {
            push_str(out, "branch ");
            push_operand(out, cond);
        },
        Terminator::Return(o) => {
            push_str(out, "return ");
            push_operand(out, o);
        },
        Terminator::Unreachable => push_str(out, "unreachable"),
    }
    proof {
        assert(out@ =~= before + node_term_text(*t));
    }
}

fn push_node(out: &mut String, b: &Block, i: usize, entry: BlockId)
    ensures
        final(out)@ == old(out)@ + node_text(*b, i, entry),
{
    let ghost before = out@;
    push_str(out, "  bb");
    push_decimal(out, i as u64);
    push_str(out, " [label=\"bb");
    push_decimal(out, i as u64);
    if #[verifier::truncate] (i as u32) == entry.0 {
        push_str(out, " (entry)");
    }
    let ghost head = out@;
    let mut k: usize = 0;
    while k < b.insts.len()
        invariant
            k <= b.insts@.len(),
            out@ == head + label_insts(*b, k as nat),
        decreases b.insts@.len() - k,
    {
        let mut t = String::new();
        push_inst(&mut t, &b.insts[k]);
        push_str(out, "\\l");
        push_escaped(out, t.as_str());
        proof {
            assert(t@ =~= inst_text(b.insts@[k as int]));
            assert(out@ =~= head + label_insts(*b, (k + 1) as nat));
        }
        k = k + 1;
    }
    let mut t = String::new();
    push_node_term(&mut t, &b.term);
    push_str(out, "\\l");
    push_escaped(out, t.as_str());
    push_str(out, "\\l\"];\n");
    proof {
        assert(t@ =~= node_term_text(b.term));
        assert(out@ =~= before + node_text(*b, i, entry));
    }
}

fn push_edges(out: &mut String, b: &Block, i: usize)
    ensures
        final(out)@ == old(out)@ + edges_text(*b, i),
{
    let ghost before = out@;
    match &b.term {
        Terminator::Goto(t) => {
            push_str(out, "  bb");
            push_decimal(out, i as u64);
            push_str(out, " -> bb");
            push_decimal(out, t.0 as u64);
            push_str(out, ";\n");
        },
        Terminator::Branch { then_bb, else_bb, .. } => {
            push_str(out, "  bb");
            push_decimal(out, i as u64);
            push_str(out, " -> bb");
            push_decimal(out, then_bb.0 as u64);
            push_str(out, " [label=\"T\"];\n");
            push_str(out, "  bb");
            push_decimal(out, i as u64);
            push_str(out, " -> bb");
            push_decimal(out, else_bb.0 as u64);
            push_str(out, " [label=\"F\"];\n");
        },
        Terminator::Return(_) | Terminator::Unreachable => {},
    }
    proof {
        assert(out@ =~= before + edges_text(*b, i));
    }
}

fn push_function_dot(out: &mut String, f: &Function)
    ensures
        final(out)@ == old(out)@ + function_dot_text(*f),
{
    let ghost before = out@;
    push_str(out, "digraph \"");
    push_str(out, f.name.as_str());
    push_str(out, "\" {\n");
    push_str(out, "  node [shape=box, fontname=\"monospace\"];\n");
    let ghost head = out@;
    let mut i: usize = 0;
    while i < f.blocks.len()
        invariant
            i <= f.blocks@.len(),
            out@ == head + nodes_text(f.blocks@, f.entry, i as nat),
        decreases f.blocks@.len() - i,
    {
        push_node(out, &f.blocks[i], i, f.entry);
        proof {
            assert(out@ =~= head + nodes_text(f.blocks@, f.entry, (i + 1) as nat));
        }
        i = i + 1;
    }
    let ghost mid = out@;
    let mut i: usize = 0;
    while i < f.blocks.len()
        invariant
            i <= f.blocks@.len(),
            out@ == mid + all_edges_text(f.blocks@, i as nat),
        decreases f.blocks@.len() - i,
    {
        push_edges(out, &f.blocks[i], i);
        proof {
            assert(out@ =~= mid + all_edges_text(f.blocks@, (i + 1) as nat));
        }
        i = i + 1;
    }
    push_str(out, "}\n");
    proof {
        assert(out@ =~= before + function_dot_text(*f));
    }
}

} // verus!
