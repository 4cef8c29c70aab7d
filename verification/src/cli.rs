//! The command line of `lumenc`: what the user asked for, decoded from the
//! arguments (already stripped of the program name).
//!
//! ```text
//! lumenc run   <file.lm>           compile and execute
//! lumenc check <file.lm>           type-check only, report diagnostics
//! lumenc fmt   <file.lm>           print canonically-formatted source
//! lumenc build <file.lm> -o <out>  compile to a bytecode object file
//! lumenc exec  <object>            run a built bytecode object file
//! lumenc dump  <form> <file.lm>    print an intermediate form
//! lumenc explain <CODE>            explain a diagnostic code
//!
//! options: -O0 | -O1 (default) | --time | -o <path> | -h
//! ```

use vstd::prelude::*;
use vstd::string::*;

use crate::session::Stage;
use crate::text::{cat3, str_eq};

verus! {

/// What the user asked the compiler to do.
#[derive(Debug, Clone, PartialEq, Eq)]
pub enum Command {
    Run,
    Check,
    Fmt,
    Dump(Stage),
    /// Compile to a bytecode object file (written to `--output` or stdout).
    Build,
    /// Run a previously built bytecode object file.
    Exec,
    /// Explain a diagnostic code; carries no source file.
    Explain(String),
}

/// Parsed command-line arguments.
#[derive(Debug, Clone, PartialEq, Eq)]
pub struct Cli {
    pub command: Command,
    pub path: String,
    pub output: Option<String>,
    pub optimize: bool,
    pub show_timings: bool,
}

/// The stage a `dump` form names.
pub open spec fn stage_named(what: Seq<char>) -> Option<Stage> {
    if what == "tokens"@ {
        Some(Stage::Tokens)
    } else if what == "ast"@ {
        Some(Stage::Ast)
    } else if what == "hir"@ {
        Some(Stage::Hir)
    } else if what == "hir-opt"@ {
        Some(Stage::OptimizedHir)
    } else if what == "mir"@ {
        Some(Stage::Mir)
    } else if what == "cfg"@ {
        Some(Stage::Cfg)
    } else if what == "c"@ {
        Some(Stage::C)
    } else if what == "bytecode"@ {
        Some(Stage::Bytecode)
    } else if what == "verify"@ {
        Some(Stage::Verify)
    } else {
        None
    }
}

/// The stage named by a `dump` form, or an error naming the accepted forms.
pub fn parse_stage(what: &str) -> (r: Result<Stage, String>)
    ensures
        r matches Ok(s) ==> stage_named(what@) == Some(s),
        r is Err <==> stage_named(what@) is None,
        r matches Err(m) ==> m@ == "unknown dump form `"@ + what@
            + "` (expected tokens|ast|hir|hir-opt|mir|cfg|c|bytecode|verify)"@,
{
    proof {
        reveal_strlit("tokens");
        reveal_strlit("ast");
        reveal_strlit("hir");
        reveal_strlit("hir-opt");
        reveal_strlit("mir");
        reveal_strlit("cfg");
        reveal_strlit("c");
        reveal_strlit("bytecode");
        reveal_strlit("verify");
    }
    if str_eq(what, "tokens") {
        Ok(Stage::Tokens)
    } else if str_eq(what, "ast") {
        Ok(Stage::Ast)
    } else if str_eq(what, "hir") {
        Ok(Stage::Hir)
    } else if str_eq(what, "hir-opt") {
        Ok(Stage::OptimizedHir)
    } else if str_eq(what, "mir") {
        Ok(Stage::Mir)
    } else if str_eq(what, "cfg") {
        Ok(Stage::Cfg)
    } else if str_eq(what, "c") {
        Ok(Stage::C)
    } else if str_eq(what, "bytecode") {
        Ok(Stage::Bytecode)
    } else if str_eq(what, "verify") {
        Ok(Stage::Verify)
    } else {
        Err(
            cat3(
                "unknown dump form `",
                what,
                "` (expected tokens|ast|hir|hir-opt|mir|cfg|c|bytecode|verify)",
            ),
        )
    }
}

/// The state of the option scan after some arguments.
pub struct Scan {
    pub positional: Seq<Seq<char>>,
    pub optimize: bool,
    pub show_timings: bool,
    pub output: Option<Seq<char>>,
    pub expect_output: bool,
    /// Set when an argument ends the parse with an error.
    pub error: Option<Seq<char>>,
}

/// The options scan over the first `n` arguments: `-h`/`--help` stops with
/// "help requested", `-O0`/`-O1` set optimization, `--time` asks for
/// timings, `-o`/`--output` takes the next argument as the output path, any
/// other argument starting with `-` is an unknown option, and the rest are
/// positional.
pub open spec fn scan(args: Seq<Seq<char>>, n: nat) -> Scan
    decreases n,
{
    if n == 0 || n > args.len() {
        Scan {
            positional: Seq::empty(),
            optimize: true,
            show_timings: false,
            output: None,
            expect_output: false,
            error: None,
        }
    } else {
        let s = scan(args, (n - 1) as nat);
        let a = args[n - 1];
        if s.error is Some {
            s
        } else if s.expect_output {
            Scan { output: Some(a), expect_output: false, ..s }
        } else if a == "-h"@ || a == "--help"@ {
            Scan { error: Some("help requested"@), ..s }
        } else if a == "-O0"@ {
            Scan { optimize: false, ..s }
        } else if a == "-O1"@ {
            Scan { optimize: true, ..s }
        } else if a == "--time"@ {
            Scan { show_timings: true, ..s }
        } else if a == "-o"@ || a == "--output"@ {
            Scan { expect_output: true, ..s }
        } else if a.len() > 0 && a[0] == '-' {
            Scan { error: Some("unknown option `"@ + a + "`"@), ..s }
        } else {
            Scan { positional: s.positional.push(a), ..s }
        }
    }
}

/// The command a command word names, when it is one that takes a source file.
pub open spec fn file_command(word: Seq<char>) -> bool {
    word == "run"@ || word == "check"@ || word == "fmt"@ || word == "build"@ || word == "exec"@ || word
        == "dump"@
}

/// The error `Cli::parse` gives for a complete scan, if any.
pub open spec fn parse_error(s: Scan) -> Option<Seq<char>> {
    let p = s.positional;
    if s.error is Some {
        s.error
    } else if p.len() == 0 {
        Some("missing command"@)
    } else if p[0] == "explain"@ {
        if p.len() < 2 {
            Some("`explain` needs a code, e.g. E0300"@)
        } else {
            None
        }
    } else if !file_command(p[0]) {
        Some("unknown command `"@ + p[0] + "`"@)
    } else if p[0] == "dump"@ {
        if p.len() < 2 {
            Some("`dump` needs a form to print"@)
        } else if stage_named(p[1]) is None {
            Some(
                "unknown dump form `"@ + p[1] + "` (expected tokens|ast|hir|hir-opt|mir|cfg|c|bytecode|verify)"@,
            )
        } else if p.len() < 3 {
            Some("missing source file"@)
        } else {
            None
        }
    } else if p.len() < 2 {
        Some("missing source file"@)
    } else {
        None
    }
}

/// Whether `c` is the command a successful parse of scan `s` yields.
pub open spec fn command_of(s: Scan, c: Command) -> bool {
    let p = s.positional;
    let w = p[0];
    match c {
        Command::Run => w == "run"@,
        Command::Check => w == "check"@,
        Command::Fmt => w == "fmt"@,
        Command::Build => w == "build"@,
        Command::Exec => w == "exec"@,
        Command::Dump(st) => w == "dump"@ && stage_named(p[1]) == Some(st),
        Command::Explain(code) => w == "explain"@ && code@ == p[1],
    }
}

impl Cli {
    /// Parses arguments (already stripped of the program name): the options
    /// anywhere, then the command word, then (for `dump`) the form, then the
    /// source file, the last positional argument the command reads.
    pub fn parse(args: Vec<String>) -> (r: Result<Cli, String>)
        ensures
            ({
                let s = scan(args@.map_values(|a: String| a@), args@.len());
                &&& r is Err <==> parse_error(s) is Some
                &&& r matches Err(m) ==> Some(m@) == parse_error(s)
                &&& r matches Ok(cli) ==> {
                    &&& command_of(s, cli.command)
                    &&& cli.optimize == s.optimize
                    &&& cli.show_timings == s.show_timings
                    &&& (cli.output matches Some(o) ==> s.output == Some(o@))
                    &&& (cli.output is None <==> s.output is None)
                    &&& (cli.command is Explain ==> cli.path@ == Seq::<char>::empty())
                    &&& (cli.command is Dump ==> cli.path@ == s.positional[2])
                    &&& (!(cli.command is Explain) && !(cli.command is Dump) ==> cli.path@ == s.positional[1])
                }
            }),
    {
        proof {
            reveal_strlit("-h");
            reveal_strlit("--help");
            reveal_strlit("-O0");
            reveal_strlit("-O1");
            reveal_strlit("--time");
            reveal_strlit("-o");
            reveal_strlit("--output");
            reveal_strlit("help requested");
            reveal_strlit("unknown option `");
            reveal_strlit("`");
            reveal_strlit("missing command");
            reveal_strlit("explain");
            reveal_strlit("`explain` needs a code, e.g. E0300");
            reveal_strlit("run");
            reveal_strlit("check");
            reveal_strlit("fmt");
            reveal_strlit("build");
            reveal_strlit("exec");
            reveal_strlit("dump");
            reveal_strlit("unknown command `");
            reveal_strlit("`dump` needs a form to print");
            reveal_strlit("missing source file");
            reveal_strlit("");
        }
        let ghost sargs = args@.map_values(|a: String| a@);
        let mut positional: Vec<String> = Vec::new();
        let mut optimize = true;
        let mut show_timings = false;
        let mut output: Option<String> = None;
        let mut expect_output = false;
        let mut i: usize = 0;
        while i < args.len()
            invariant
                0 <= i <= args@.len(),
                sargs == args@.map_values(|a: String| a@),
                ({
                    let s = scan(sargs, i as nat);
                    &&& s.error is None
                    &&& s.positional == positional@.map_values(|a: String| a@)
                    &&& s.optimize == optimize
                    &&& s.show_timings == show_timings
                    &&& s.expect_output == expect_output
                    &&& (output matches Some(o) ==> s.output == Some(o@))
                    &&& (output is None <==> s.output is None)
                }),
            decreases args@.len() - i,
        {
            let arg = &args[i];
            let a = arg.as_str();
            let ghost before = positional@;
            assert(sargs[i as int] == a@);
            if expect_output {
                output = Some(arg.clone());
                expect_output = false;
            } else if str_eq(a, "-h") || str_eq(a, "--help") {
                proof {
                    let s = scan(sargs, (i + 1) as nat);
                    assert(s.error == Some("help requested"@));
                    lemma_scan_error_sticks(sargs, (i + 1) as nat, sargs.len());
                    assert(sargs.len() == args@.len());
                }
                return Err("help requested".to_owned());
            } else if str_eq(a, "-O0") {
                optimize = false;
            } else if str_eq(a, "-O1") {
                optimize = true;
            } else if str_eq(a, "--time") {
                show_timings = true;
            } else if str_eq(a, "-o") || str_eq(a, "--output") {
                expect_output = true;
            } else if starts_with_dash(a) {
                proof {
                    lemma_scan_error_sticks(sargs, (i + 1) as nat, sargs.len());
                }
                return Err(cat3("unknown option `", a, "`"));
            } else {
                positional.push(arg.clone());
                proof {
                    assert(positional@.map_values(|x: String| x@) =~= before.map_values(|x: String| x@).push(a@));
                }
            }
            i = i + 1;
        }
        assert(sargs.len() == args@.len());
        let ghost s = scan(sargs, sargs.len());
        let ghost p = positional@.map_values(|x: String| x@);
        if positional.len() == 0 {
            return Err("missing command".to_owned());
        }
        assert(p[0] == positional@[0]@);
        let command_name = positional[0].as_str();
        // `explain` takes a code, not a source file, so handle it up front.
        if str_eq(command_name, "explain") {
            if positional.len() < 2 {
                return Err("`explain` needs a code, e.g. E0300".to_owned());
            }
            assert(p[1] == positional@[1]@);
            return Ok(
                Cli {
                    command: Command::Explain(positional[1].clone()),
                    path: String::new(),
                    output,
                    optimize,
                    show_timings,
                },
            );
        }
        let command = if str_eq(command_name, "run") {
            Command::Run
        } else if str_eq(command_name, "check") {
            Command::Check
        } else if str_eq(command_name, "fmt") {
            Command::Fmt
        } else if str_eq(command_name, "build") {
            Command::Build
        } else if str_eq(command_name, "exec") {
            Command::Exec
        } else if str_eq(command_name, "dump") {
            if positional.len() < 2 {
                return Err("`dump` needs a form to print".to_owned());
            }
            assert(p[1] == positional@[1]@);
            match parse_stage(positional[1].as_str()) {
                Ok(stage) => Command::Dump(stage),
                Err(m) => return Err(m),
            }
        } else {
            return Err(cat3("unknown command `", command_name, "`"));
        };
        assert(s.positional == p);
        assert(s.error is None);
        assert("exec"@[0] != "dump"@[0]);
        assert("exec"@ != "dump"@);
        // The file is the last positional argument.
        let path_index: usize = match command {
            Command::Dump(_) => 2,
            _ => 1,
        };
        if path_index >= positional.len() {
            return Err("missing source file".to_owned());
        }
        assert(p[path_index as int] == positional@[path_index as int]@);
        let path = positional[path_index].clone();
        Ok(Cli { command, path, output, optimize, show_timings })
    }
}

/// Whether `s` starts with `-`.
fn starts_with_dash(s: &str) -> (b: bool)
    ensures
        b == (s@.len() > 0 && s@[0] == '-'),
{
    let c = crate::text::chars_of(s);
    c.len() > 0 && c[0] == '-'
}

/// Once the scan has failed, later arguments do not change it.
proof fn lemma_scan_error_sticks(args: Seq<Seq<char>>, i: nat, n: nat)
    requires
        i <= n <= args.len(),
        scan(args, i).error is Some,
    ensures
        scan(args, n) == scan(args, i),
    decreases n - i,
{
    if n > i {
        lemma_scan_error_sticks(args, i, (n - 1) as nat);
    }
}

} // verus!
