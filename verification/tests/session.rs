use lumen::opt::{OptOptions, OptStats};
use lumen::session::{next_phase, Phase, PipelineOptions, Session, Stage};

fn phases(options: PipelineOptions, has_errors: bool) -> Vec<&'static str> {
    let mut out = Vec::new();
    let mut done = None;
    while let Some(p) = next_phase(done, &options, has_errors) {
        out.push(p.name());
        done = Some(p);
    }
    out
}

#[test]
fn full_pipeline_runs_every_phase() {
    assert_eq!(
        phases(PipelineOptions::default(), false),
        vec!["lex", "parse", "resolve", "typeck", "lower", "optimize", "codegen", "peephole"]
    );
    let o0 = PipelineOptions { stop_after: Stage::Bytecode, optimize: OptOptions { enabled: false, max_iterations: 8 } };
    assert_eq!(phases(o0, false).last(), Some(&"codegen"));
}

#[test]
fn errors_stop_after_type_checking() {
    assert_eq!(phases(PipelineOptions::default(), true), vec!["lex", "parse", "resolve", "typeck"]);
}

#[test]
fn dump_stages_stop_early_in_the_schedule() {
    let opts = PipelineOptions { stop_after: Stage::Tokens, ..Default::default() };
    assert_eq!(phases(opts, false), vec!["lex"]);
    let opts = PipelineOptions { stop_after: Stage::Ast, ..Default::default() };
    assert_eq!(phases(opts, false), vec!["lex", "parse"]);
    let opts = PipelineOptions { stop_after: Stage::Mir, ..Default::default() };
    assert_eq!(phases(opts, false).last(), Some(&"optimize"));
    let opts = PipelineOptions { stop_after: Stage::Hir, ..Default::default() };
    assert_eq!(phases(opts, false).last(), Some(&"lower"));
    assert_eq!(next_phase(Some(Phase::Peephole), &PipelineOptions::default(), false), None);
}

#[test]
fn session_runs_the_front_end() {
    let mut s = Session::new("bad.lm", "fn main() { let x: i64 = true; }");
    let toks = s.lex();
    s.record_timing("lex", 10);
    let ast = s.parse_tokens(toks);
    s.record_timing("parse", 20);
    let res = s.resolve_names(&ast);
    let tc = s.type_check(&ast, &res);
    assert!(s.has_errors());
    assert_eq!(s.diagnostics().error_count(), 1);
    assert_eq!(tc.main.map(|f| f.0), Some(0));
    assert_eq!(s.timings().entries(), &[("lex", 10u128), ("parse", 20u128)]);
    assert_eq!(s.timings().total(), 30);
    assert_eq!(s.file().name(), "bad.lm");
    let rendered: Vec<String> = s.diagnostics().items().iter().map(|d| d.message.clone()).collect();
    assert_eq!(s.render_diagnostics(&rendered), "mismatched types in `let x`\n");
}

#[test]
fn optimizer_stats_total() {
    let st = OptStats { folded: 2, eliminated: 3, inlined: 4, iterations: 9 };
    assert_eq!(st.total(), 9);
    assert_eq!(OptStats::default().total(), 0);
    let o = OptOptions::default();
    assert!(o.enabled);
    assert_eq!(o.max_iterations, 8);
}
