use lumen::cli::{parse_stage, Cli, Command};
use lumen::session::Stage;

fn args(list: &[&str]) -> Vec<String> {
    list.iter().map(|s| s.to_string()).collect()
}

#[test]
fn parses_run_with_defaults() {
    let cli = Cli::parse(args(&["run", "prog.lm"])).unwrap();
    assert_eq!(cli.command, Command::Run);
    assert_eq!(cli.path, "prog.lm");
    assert_eq!(cli.output, None);
    assert!(cli.optimize);
    assert!(!cli.show_timings);
}

#[test]
fn options_anywhere_on_the_line() {
    let cli = Cli::parse(args(&["-O0", "build", "--time", "a.lm", "-o", "out.lbc"])).unwrap();
    assert_eq!(cli.command, Command::Build);
    assert_eq!(cli.path, "a.lm");
    assert_eq!(cli.output, Some("out.lbc".to_string()));
    assert!(!cli.optimize);
    assert!(cli.show_timings);
}

#[test]
fn dump_reads_form_then_file() {
    let cli = Cli::parse(args(&["dump", "bytecode", "x.lm"])).unwrap();
    assert_eq!(cli.command, Command::Dump(Stage::Bytecode));
    assert_eq!(cli.path, "x.lm");
    assert_eq!(Cli::parse(args(&["dump", "ast"])), Err("missing source file".to_string()));
    assert_eq!(Cli::parse(args(&["dump"])), Err("`dump` needs a form to print".to_string()));
    assert_eq!(
        Cli::parse(args(&["dump", "pie", "x.lm"])),
        Err("unknown dump form `pie` (expected tokens|ast|hir|hir-opt|mir|cfg|c|bytecode|verify)".to_string())
    );
}

#[test]
fn explain_takes_a_code() {
    let cli = Cli::parse(args(&["explain", "E0300"])).unwrap();
    assert_eq!(cli.command, Command::Explain("E0300".to_string()));
    assert_eq!(cli.path, "");
    assert_eq!(Cli::parse(args(&["explain"])), Err("`explain` needs a code, e.g. E0300".to_string()));
}

#[test]
fn errors_for_bad_lines() {
    assert_eq!(Cli::parse(args(&[])), Err("missing command".to_string()));
    assert_eq!(Cli::parse(args(&["run"])), Err("missing source file".to_string()));
    assert_eq!(Cli::parse(args(&["fly", "x.lm"])), Err("unknown command `fly`".to_string()));
    assert_eq!(Cli::parse(args(&["run", "-x", "x.lm"])), Err("unknown option `-x`".to_string()));
    assert_eq!(Cli::parse(args(&["run", "x.lm", "--help"])), Err("help requested".to_string()));
}

#[test]
fn dump_forms_by_name() {
    assert_eq!(parse_stage("tokens"), Ok(Stage::Tokens));
    assert_eq!(parse_stage("hir-opt"), Ok(Stage::OptimizedHir));
    assert_eq!(parse_stage("verify"), Ok(Stage::Verify));
    assert!(parse_stage("nope").unwrap_err().starts_with("unknown dump form `nope`"));
}
