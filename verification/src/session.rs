//! The compilation session: the state of one compilation and the schedule of
//! its phases.
//!
//! A [`Session`] owns the [`SourceFile`] and the [`Diagnostics`] sink and runs
//! the front-end phases against them. Which phase runs next is decided by
//! [`next_phase`], from the options and whether errors were reported: the
//! error-tolerant front-end (lex, parse, resolve, typeck) always runs in full
//! so every diagnosable problem is reported at once, and the pipeline stops
//! before lowering if the front-end reported an error. The driver runs the
//! phases in that order and records how long each took.
//!
//! ```text
//! tokens → ast → resolution → typeck → hir → optimized hir → bytecode
//! ```

use vstd::prelude::*;
use vstd::string::*;

use crate::diagnostics::Diagnostics;
use crate::lexer::{Token, tokenize, well_formed_tokens};
use crate::parser::{parse, parser_input_ok, lemma_lexer_output_parses};
use crate::parser::ast::Ast;
use crate::sema::resolve::{Resolution, resolve, tables_match};
use crate::sema::typeck::{Typeck, check};
use crate::source::SourceFile;
use crate::opt::OptOptions;

verus! {

/// How far to run the pipeline. Earlier stages are useful for `dump`.
#[derive(Debug, Clone, Copy, PartialEq, Eq, PartialOrd, Ord, Structural)]
pub enum Stage {
    Tokens,
    Ast,
    Hir,
    /// HIR after optimization.
    OptimizedHir,
    /// Optimized MIR (built from optimized HIR).
    Mir,
    /// Graphviz DOT of the MIR control-flow graph.
    Cfg,
    /// Transpiled C source (built from optimized HIR).
    C,
    /// Bytecode (the full pipeline).
    Bytecode,
    /// The bytecode verifier's report on the final program.
    Verify,
}

/// Options controlling a compilation.
#[derive(Debug, Clone, Copy)]
pub struct PipelineOptions {
    pub stop_after: Stage,
    pub optimize: OptOptions,
}

impl Default for PipelineOptions {
    /// The full pipeline, optimizing.
    fn default() -> (o: PipelineOptions)
        ensures
            o.stop_after == Stage::Bytecode,
            o.optimize.enabled,
            o.optimize.max_iterations == 8,
    {
        PipelineOptions { stop_after: Stage::Bytecode, optimize: OptOptions::default() }
    }
}

/// A phase of the pipeline, in execution order.
#[derive(Debug, Clone, Copy, PartialEq, Eq, Structural)]
pub enum Phase {
    Lex,
    Parse,
    Resolve,
    Typeck,
    Lower,
    Optimize,
    Codegen,
    /// The final bytecode-level cleanup, run only when optimizing.
    Peephole,
}

impl Phase {
    /// The name timings record the phase under.
    pub fn name(self) -> (s: &'static str)
        ensures
            s@ == phase_name(self),
    {
        proof {
            reveal_strlit("lex");
            reveal_strlit("parse");
            reveal_strlit("resolve");
            reveal_strlit("typeck");
            reveal_strlit("lower");
            reveal_strlit("optimize");
            reveal_strlit("codegen");
            reveal_strlit("peephole");
        }
        match self {
            Phase::Lex => "lex",
            Phase::Parse => "parse",
            Phase::Resolve => "resolve",
            Phase::Typeck => "typeck",
            Phase::Lower => "lower",
            Phase::Optimize => "optimize",
            Phase::Codegen => "codegen",
            Phase::Peephole => "peephole",
        }
    }
}

/// The timing label of a phase.
pub open spec fn phase_name(p: Phase) -> Seq<char> {
    match p {
        Phase::Lex => "lex"@,
        Phase::Parse => "parse"@,
        Phase::Resolve => "resolve"@,
        Phase::Typeck => "typeck"@,
        Phase::Lower => "lower"@,
        Phase::Optimize => "optimize"@,
        Phase::Codegen => "codegen"@,
        Phase::Peephole => "peephole"@,
    }
}

/// The phase that follows `done` (the first phase when `done` is `None`), or
/// `None` when the pipeline stops: after lexing or parsing when that stage is
/// the requested one, after type checking when errors were reported, after
/// lowering for `Hir`, after optimizing for the HIR, MIR, CFG and C stages,
/// and after code generation unless optimizing (then after the peephole pass).
pub open spec fn spec_next_phase(done: Option<Phase>, stop_after: Stage, optimize: bool, has_errors: bool) -> Option<Phase> {
    match done {
        None => Some(Phase::Lex),
        Some(Phase::Lex) => if stop_after is Tokens {
            None
        } else {
            Some(Phase::Parse)
        },
        Some(Phase::Parse) => if stop_after is Ast {
            None
        } else {
            Some(Phase::Resolve)
        },
        Some(Phase::Resolve) => Some(Phase::Typeck),
        Some(Phase::Typeck) => if has_errors {
            None
        } else {
            Some(Phase::Lower)
        },
        Some(Phase::Lower) => if stop_after is Hir {
            None
        } else {
            Some(Phase::Optimize)
        },
        Some(Phase::Optimize) => if stop_after is OptimizedHir || stop_after is Mir || stop_after is Cfg
            || stop_after is C {
            None
        } else {
            Some(Phase::Codegen)
        },
        Some(Phase::Codegen) => if optimize {
            Some(Phase::Peephole)
        } else {
            None
        },
        Some(Phase::Peephole) => None,
    }
}

/// The position of a phase in execution order.
pub open spec fn phase_rank(p: Phase) -> nat {
    match p {
        Phase::Lex => 0,
        Phase::Parse => 1,
        Phase::Resolve => 2,
        Phase::Typeck => 3,
        Phase::Lower => 4,
        Phase::Optimize => 5,
        Phase::Codegen => 6,
        Phase::Peephole => 7,
    }
}

/// The pipeline only moves forward: whatever the options and whether or not
/// errors were reported, the phase that follows another is the next one in
/// execution order, so no phase runs twice and the pipeline always stops.
pub proof fn lemma_phases_run_in_order(p: Phase, stop_after: Stage, optimize: bool, has_errors: bool)
    ensures
        spec_next_phase(None, stop_after, optimize, has_errors) == Some(Phase::Lex),
        spec_next_phase(Some(p), stop_after, optimize, has_errors) matches Some(q) ==> phase_rank(q) == phase_rank(p)
            + 1,
{
}

/// The error-tolerant front-end runs in full: unless only tokens or the AST
/// were asked for, lexing, parsing, name resolution and type checking all
/// run, one after the other, whether or not errors have been reported.
pub proof fn lemma_front_end_runs_fully(stop_after: Stage, optimize: bool, has_errors: bool)
    requires
        !(stop_after is Tokens),
        !(stop_after is Ast),
    ensures
        spec_next_phase(None, stop_after, optimize, has_errors) == Some(Phase::Lex),
        spec_next_phase(Some(Phase::Lex), stop_after, optimize, has_errors) == Some(Phase::Parse),
        spec_next_phase(Some(Phase::Parse), stop_after, optimize, has_errors) == Some(Phase::Resolve),
        spec_next_phase(Some(Phase::Resolve), stop_after, optimize, has_errors) == Some(Phase::Typeck),
{
}

/// A program with errors never reaches lowering or code generation: after
/// type checking, the pipeline stops.
pub proof fn lemma_errors_stop_before_lowering(stop_after: Stage, optimize: bool)
    ensures
        spec_next_phase(Some(Phase::Typeck), stop_after, optimize, true) is None,
{
}

/// Decides the phase to run after `done`; see [`spec_next_phase`].
pub fn next_phase(done: Option<Phase>, options: &PipelineOptions, has_errors: bool) -> (r: Option<Phase>)
    ensures
        r == spec_next_phase(done, options.stop_after, options.optimize.enabled, has_errors),
{
    match done {
        None => Some(Phase::Lex),
        Some(Phase::Lex) => if options.stop_after == Stage::Tokens {
            None
        } else {
            Some(Phase::Parse)
        },
        Some(Phase::Parse) => if options.stop_after == Stage::Ast {
            None
        } else {
            Some(Phase::Resolve)
        },
        Some(Phase::Resolve) => Some(Phase::Typeck),
        Some(Phase::Typeck) => if has_errors {
            None
        } else {
            Some(Phase::Lower)
        },
        Some(Phase::Lower) => if options.stop_after == Stage::Hir {
            None
        } else {
            Some(Phase::Optimize)
        },
        Some(Phase::Optimize) => match options.stop_after {
            Stage::OptimizedHir | Stage::Mir | Stage::Cfg | Stage::C => None,
            _ => Some(Phase::Codegen),
        },
        Some(Phase::Codegen) => if options.optimize.enabled {
            Some(Phase::Peephole)
        } else {
            None
        },
        Some(Phase::Peephole) => None,
    }
}

/// The total of a list of durations, in nanoseconds.
pub open spec fn total_nanos(entries: Seq<(&'static str, u128)>) -> int
    decreases entries.len(),
{
    if entries.len() == 0 {
        0
    } else {
        total_nanos(entries.drop_last()) + entries.last().1
    }
}

/// Wall-clock duration of each phase that ran, in execution order, in
/// nanoseconds.
#[derive(Debug, Clone)]
pub struct Timings {
    entries: Vec<(&'static str, u128)>,
}

impl Default for Timings {
    /// No timings.
    fn default() -> (t: Timings)
        ensures
            t.spec_entries().len() == 0,
    {
        Timings { entries: Vec::new() }
    }
}

impl Timings {
    pub closed spec fn spec_entries(&self) -> Seq<(&'static str, u128)> {
        self.entries@
    }

    /// The recorded `(phase, nanoseconds)` pairs in order.
    pub fn entries(&self) -> (e: &[(&'static str, u128)])
        ensures
            e@ == self.spec_entries(),
    {
        self.entries.as_slice()
    }

    /// Total time across all recorded phases.
    pub fn total(&self) -> (t: u128)
        requires
            total_nanos(self.spec_entries()) <= u128::MAX,
        ensures
            t == total_nanos(self.spec_entries()),
    {
        let mut t: u128 = 0;
        let mut i: usize = 0;
        while i < self.entries.len()
            invariant
                0 <= i <= self.entries@.len(),
                total_nanos(self.entries@) <= u128::MAX,
                t == total_nanos(self.entries@.take(i as int)),
            decreases self.entries@.len() - i,
        {
            proof {
                assert(self.entries@.take(i + 1).drop_last() =~= self.entries@.take(i as int));
                lemma_total_prefix(self.entries@, i + 1);
            }
            t = t + self.entries[i].1;
            i = i + 1;
        }
        assert(self.entries@.take(i as int) =~= self.entries@);
        t
    }
}

/// Every entry counts toward the total, so a prefix totals no more.
proof fn lemma_total_prefix(e: Seq<(&'static str, u128)>, n: int)
    requires
        0 <= n <= e.len(),
    ensures
        total_nanos(e.take(n)) <= total_nanos(e),
    decreases e.len() - n,
{
    if n < e.len() {
        lemma_total_prefix(e, n + 1);
        assert(e.take(n + 1).drop_last() =~= e.take(n));
    } else {
        assert(e.take(n) =~= e);
    }
}

/// A single compilation, owning the source and accumulated diagnostics.
#[derive(Debug)]
pub struct Session {
    file: SourceFile,
    diagnostics: Diagnostics,
    timings: Timings,
}

impl Session {
    /// The session is consistent: its source file and sink are well formed.
    pub closed spec fn wf(&self) -> bool {
        &&& self.file.wf()
        &&& self.diagnostics.wf()
    }

    pub closed spec fn spec_file(&self) -> SourceFile {
        self.file
    }

    pub closed spec fn spec_diagnostics(&self) -> Diagnostics {
        self.diagnostics
    }

    pub closed spec fn spec_timings(&self) -> Timings {
        self.timings
    }

    /// Creates a session for a source file with display `name` and `src`
    /// text (of fewer than `u32::MAX` bytes, as spans are 32-bit).
    pub fn new(name: &str, src: &str) -> (s: Session)
        requires
            src.spec_bytes().len() < u32::MAX,
        ensures
            s.wf(),
            s.spec_file().spec_name() == name@,
            s.spec_file().spec_text() == src@,
            s.spec_diagnostics().spec_items().len() == 0,
            s.spec_timings().spec_entries().len() == 0,
    {
        Session { file: SourceFile::new(name, src), diagnostics: Diagnostics::new(), timings: Timings::default() }
    }

    /// The source file being compiled.
    pub fn file(&self) -> (f: &SourceFile)
        ensures
            *f == self.spec_file(),
    {
        &self.file
    }

    /// The diagnostics accumulated so far.
    pub fn diagnostics(&self) -> (d: &Diagnostics)
        ensures
            *d == self.spec_diagnostics(),
    {
        &self.diagnostics
    }

    /// Per-phase timings recorded so far.
    pub fn timings(&self) -> (t: &Timings)
        ensures
            *t == self.spec_timings(),
    {
        &self.timings
    }

    /// Joins the diagnostics, each rendered against the source (`rendered`,
    /// one per diagnostic), in reading order.
    pub fn render_diagnostics(&self, rendered: &Vec<String>) -> (out: String)
        requires
            self.wf(),
            rendered@.len() == self.spec_diagnostics().spec_items().len(),
        ensures
            exists|order: Seq<usize>|
                #![trigger order.len()]
                order.len() == self.spec_diagnostics().spec_items().len() && (forall|k: int|
                    0 <= k < order.len() ==> #[trigger] order[k] < self.spec_diagnostics().spec_items().len())
                    && crate::diagnostics::sorted_by_key_then_index(
                    order,
                    Seq::new(
                        self.spec_diagnostics().spec_items().len(),
                        |i: int| crate::diagnostics::primary_span_of(self.spec_diagnostics().spec_items()[i].labels@).lo,
                    ),
                ) && out@ == crate::diagnostics::joined_lines(order.map_values(|i: usize| rendered@[i as int]@)),
    {
        self.diagnostics.render_all(rendered)
    }

    /// Records that phase `name` took `nanos` nanoseconds.
    pub fn record_timing(&mut self, name: &'static str, nanos: u128)
        ensures
            final(self).spec_timings().spec_entries() == old(self).spec_timings().spec_entries().push((name, nanos)),
            final(self).spec_file() == old(self).spec_file(),
            final(self).spec_diagnostics() == old(self).spec_diagnostics(),
    {
        self.timings.entries.push((name, nanos));
    }

    /// Lexing: the source's tokens, reporting lexical errors.
    pub fn lex(&mut self) -> (toks: Vec<Token>)
        requires
            old(self).wf(),
        ensures
            final(self).wf(),
            final(self).spec_file() == old(self).spec_file(),
            final(self).spec_timings() == old(self).spec_timings(),
            crate::lexer::extends(
                old(self).spec_diagnostics().spec_items(),
                final(self).spec_diagnostics().spec_items(),
            ),
            well_formed_tokens(toks@, old(self).spec_file().spec_bytes().len()),
    {
        tokenize(&self.file, &mut self.diagnostics)
    }

    /// Parsing: the program the tokens of this session's file spell,
    /// reporting syntax errors.
    pub fn parse_tokens(&mut self, tokens: Vec<Token>) -> (ast: Ast)
        requires
            old(self).wf(),
            well_formed_tokens(tokens@, old(self).spec_file().spec_bytes().len()),
        ensures
            final(self).wf(),
            final(self).spec_file() == old(self).spec_file(),
            final(self).spec_timings() == old(self).spec_timings(),
            crate::lexer::extends(
                old(self).spec_diagnostics().spec_items(),
                final(self).spec_diagnostics().spec_items(),
            ),
    {
        proof {
            self.file.lemma_wf_len();
            lemma_lexer_output_parses(tokens@, self.file.spec_bytes().len());
        }
        parse(tokens, &mut self.diagnostics)
    }

    /// Name resolution, reporting unresolved and duplicate names.
    pub fn resolve_names(&mut self, ast: &Ast) -> (res: Resolution)
        requires
            old(self).wf(),
            ast.items@.len() <= u32::MAX,
        ensures
            final(self).wf(),
            final(self).spec_file() == old(self).spec_file(),
            final(self).spec_timings() == old(self).spec_timings(),
            crate::lexer::extends(
                old(self).spec_diagnostics().spec_items(),
                final(self).spec_diagnostics().spec_items(),
            ),
            res.wf(),
            tables_match(&res, ast.items@),
    {
        resolve(ast, &mut self.diagnostics)
    }

    /// Type checking, reporting type errors.
    pub fn type_check(&mut self, ast: &Ast, res: &Resolution) -> (tc: Typeck)
        requires
            old(self).wf(),
            res.wf(),
            tables_match(res, ast.items@),
        ensures
            final(self).wf(),
            final(self).spec_file() == old(self).spec_file(),
            final(self).spec_timings() == old(self).spec_timings(),
            crate::lexer::extends(
                old(self).spec_diagnostics().spec_items(),
                final(self).spec_diagnostics().spec_items(),
            ),
            tc.wf(),
    {
        check(ast, res, &mut self.diagnostics)
    }

    /// Whether any error was reported so far.
    pub fn has_errors(&self) -> (b: bool)
        requires
            self.wf(),
        ensures
            b == (crate::diagnostics::count_severity(
                self.spec_diagnostics().spec_items(),
                crate::diagnostics::Severity::Error,
            ) > 0),
    {
        self.diagnostics.has_errors()
    }
}

} // verus!
