use lumen::backend::bytecode::{Chunk, Op, Program};
use lumen::backend::codegen::generate;
use lumen::backend::machine::{HostOp, StepAction, VmState, VmValue};
use lumen::backend::object::{from_text, to_text};
use lumen::backend::vm::VmError;
use lumen::diagnostics::Diagnostics;
use lumen::hir::lower;
use lumen::lexer::tokenize;
use lumen::opt::{optimize, OptOptions, OptStats};
use lumen::parser::parse;
use lumen::sema::resolve::resolve;
use lumen::sema::typeck::check;
use lumen::sema::types::Builtin;
use lumen::source::SourceFile;

/// Compiles `src` to bytecode with the given optimizer options, returning
/// what the optimizer did too.
fn compile_with(src: &str, options: OptOptions) -> (Program, OptStats) {
    let file = SourceFile::new("test.lm", src);
    let mut diags = Diagnostics::new();
    let tokens = tokenize(&file, &mut diags);
    let ast = parse(tokens, &mut diags);
    let res = resolve(&ast, &mut diags);
    let tc = check(&ast, &res, &mut diags);
    assert!(!diags.has_errors(), "unexpected compile errors: {:?}", diags.items());
    let mut hir = lower(&ast, &res, &tc);
    let stats = optimize(&mut hir, options);
    (generate(&hir), stats)
}

/// Compiles `src` to bytecode; `opt` selects whether the optimizer runs.
fn compile(src: &str, opt: bool) -> Program {
    compile_with(src, OptOptions { enabled: opt, max_iterations: 8 }).0
}

/// What `src` prints, with the optimizer on or off.
fn run_output(src: &str, optimize_on: bool) -> String {
    let (program, _) = compile_with(src, OptOptions { enabled: optimize_on, ..OptOptions::default() });
    execute(&program).unwrap()
}

fn float(v: &VmValue) -> f64 {
    match v {
        VmValue::Float(bits) => f64::from_bits(*bits),
        other => panic!("expected a float, got {:?}", other),
    }
}

/// The floating-point side of the machine, as small as these programs need.
fn host(state: &mut VmState, op: HostOp, args: &[VmValue]) {
    let f = |x: f64| VmValue::Float(x.to_bits());
    let v = match op {
        HostOp::Const(text) => f(text.parse::<f64>().unwrap()),
        HostOp::Add => f(float(&args[0]) + float(&args[1])),
        HostOp::Sub => f(float(&args[0]) - float(&args[1])),
        HostOp::Mul => f(float(&args[0]) * float(&args[1])),
        HostOp::Div => f(float(&args[0]) / float(&args[1])),
        HostOp::Rem => f(float(&args[0]) % float(&args[1])),
        HostOp::Neg => f(-float(&args[0])),
        HostOp::Lt => VmValue::Bool(float(&args[0]) < float(&args[1])),
        HostOp::Le => VmValue::Bool(float(&args[0]) <= float(&args[1])),
        HostOp::Gt => VmValue::Bool(float(&args[0]) > float(&args[1])),
        HostOp::Ge => VmValue::Bool(float(&args[0]) >= float(&args[1])),
        HostOp::Compare(is_eq) => VmValue::Bool((float(&args[0]) == float(&args[1])) == is_eq),
        HostOp::Builtin(Builtin::PrintFloat) => {
            state.stdout.push_str(&format!("{}\n", float(&args[0])));
            VmValue::Unit
        }
        HostOp::Builtin(Builtin::IntToFloat) => match args[0] {
            VmValue::Int(x) => f(x as f64),
            _ => panic!("expected an integer"),
        },
        HostOp::Builtin(b) => panic!("builtin {:?} not needed here", b),
    };
    state.push_value(v);
}

/// Runs `program` for at most `max_steps` instructions, returning what it printed.
fn execute_with_limit(program: &Program, max_steps: u64) -> Result<String, VmError> {
    let mut state = VmState::start(program)?;
    let mut steps = 0u64;
    loop {
        match state.run(program, &mut steps, max_steps)? {
            StepAction::Done(_) => return Ok(state.stdout),
            StepAction::Continue => {}
            StepAction::Host { op, args } => host(&mut state, op, &args),
        }
        assert!(steps <= max_steps);
    }
}

fn execute(program: &Program) -> Result<String, VmError> {
    execute_with_limit(program, 50_000_000)
}

fn run(src: &str) -> String {
    execute(&compile(src, true)).expect("program should run without error")
}

fn run_err(src: &str) -> VmError {
    execute(&compile(src, true)).expect_err("program should fail")
}

#[test]
fn prints_integer_arithmetic() {
    assert_eq!(run("fn main() { print_int(1 + 2 * 3); }"), "7\n");
}

#[test]
fn variables_and_mutation() {
    let out = run("fn main() { let mut x = 10; x = x + 5; print_int(x); }");
    assert_eq!(out, "15\n");
}

#[test]
fn while_loop_sums() {
    let out = run("fn main() {\n\
        \x20   let mut i = 1;\n\
        \x20   let mut sum = 0;\n\
        \x20   while i <= 5 { sum = sum + i; i = i + 1; }\n\
        \x20   print_int(sum);\n\
         }");
    assert_eq!(out, "15\n");
}

#[test]
fn recursion_fibonacci() {
    let out = run(
        "fn fib(n: i64) -> i64 { if n < 2 { n } else { fib(n - 1) + fib(n - 2) } }\n\
         fn main() { print_int(fib(10)); }",
    );
    assert_eq!(out, "55\n");
}

#[test]
fn functions_with_several_arguments() {
    let out = run("fn add3(a: i64, b: i64, c: i64) -> i64 { a + b + c }\n\
         fn main() { print_int(add3(1, 20, 300)); }");
    assert_eq!(out, "321\n");
}

#[test]
fn if_expression_value() {
    let out = run(
        "fn classify(n: i64) -> i64 { if n < 0 { 0 - 1 } else if n == 0 { 0 } else { 1 } }\n\
         fn main() { print_int(classify(0 - 5)); print_int(classify(0)); print_int(classify(9)); }",
    );
    assert_eq!(out, "-1\n0\n1\n");
}

#[test]
fn strings_and_equality() {
    let out =
        run(r#"fn main() { print_str("hello"); print_bool("a" == "a"); print_bool("a" == "b"); }"#);
    assert_eq!(out, "hello\ntrue\nfalse\n");
}

#[test]
fn float_arithmetic() {
    let out = run("fn main() { print_float(1.5 + 2.25); }");
    assert_eq!(out, "3.75\n");
}

#[test]
fn boolean_logic_short_circuits() {
    let src = "fn side() -> bool { print_int(999); true }\n\
               fn main() {\n\
               \x20   print_bool(false && side());\n\
               \x20   print_bool(true || side());\n\
               }";
    assert_eq!(run(src), "false\ntrue\n");
}

#[test]
fn boolean_logic_evaluates_when_needed() {
    let src = "fn side() -> bool { print_int(999); true }\n\
               fn main() { print_bool(true && side()); }";
    assert_eq!(run(src), "999\ntrue\n");
}

#[test]
fn tests_division_by_zero_is_a_runtime_error() {
    assert_eq!(
        run_err("fn main() { let z = 0; print_int(1 / z); }"),
        VmError::DivisionByZero
    );
}

#[test]
fn remainder_by_zero_is_a_runtime_error() {
    assert_eq!(
        run_err("fn main() { let z = 0; print_int(1 % z); }"),
        VmError::DivisionByZero
    );
}

#[test]
fn integer_min_div_negative_one_overflows() {
    let src = "fn main() { let a = 0 - 9223372036854775807 - 1; let b = 0 - 1; print_int(a / b); }";
    assert_eq!(run_err(src), VmError::IntegerOverflow);
}

#[test]
fn step_limit_stops_infinite_loops() {
    let program = compile("fn main() { while true { } }", true);
    let err = execute_with_limit(&program, 10_000).unwrap_err();
    assert!(matches!(err, VmError::StepLimitExceeded(_)));
}

#[test]
fn optimized_and_unoptimized_agree() {
    let src = "fn main() { let x = (1 + 2) * 3 + 0; print_int(x); }";
    let unopt = execute(&compile(src, false)).unwrap();
    let opt = execute(&compile(src, true)).unwrap();
    assert_eq!(unopt, "9\n");
    assert_eq!(opt, unopt);
}

#[test]
fn step_limit_error_names_the_limit() {
    let program = compile("fn main() { while true { } }", false);
    assert_eq!(execute_with_limit(&program, 7), Err(VmError::StepLimitExceeded(7)));
}

#[test]
fn arrays_index_and_report_out_of_bounds() {
    assert_eq!(run("fn main() { let a = [4, 5, 6]; a[1] = 9; print_int(a[1] + len(a)); }"), "12\n");
    assert_eq!(
        run_err("fn main() { let a = [1, 2]; let i = 0 - 3; print_int(a[i]); }"),
        VmError::IndexOutOfBounds { index: -3, len: 2 }
    );
}

#[test]
fn integer_addition_wraps() {
    let src = "fn main() { let a = 9223372036854775807; let b = 1; print_int(a + b); }";
    assert_eq!(run(src), "-9223372036854775808\n");
}

#[test]
fn hand_written_code_with_a_bad_local_is_an_internal_error() {
    let chunk = Chunk {
        name: "main".to_string(),
        n_locals: 0,
        n_params: 0,
        code: vec![Op::LoadLocal(3), Op::Return],
        consts: vec![],
    };
    let program = Program { functions: vec![chunk], main: 0 };
    assert!(matches!(execute(&program), Err(VmError::Internal(_))));
}

#[test]
fn a_bad_entry_point_is_an_internal_error() {
    let program = Program { functions: vec![], main: 0 };
    assert!(matches!(VmState::start(&program), Err(VmError::Internal(_))));
}

#[test]
fn main_returns_its_value() {
    let chunk = Chunk {
        name: "main".to_string(),
        n_locals: 0,
        n_params: 0,
        code: vec![Op::PushInt(41), Op::PushInt(1), Op::AddInt, Op::Return],
        consts: vec![],
    };
    let program = Program { functions: vec![chunk], main: 0 };
    let mut state = VmState::start(&program).unwrap();
    let mut steps = 0u64;
    let mut last = None;
    for _ in 0..10 {
        match state.run(&program, &mut steps, 100).unwrap() {
            StepAction::Done(v) => {
                last = Some(v);
                break;
            }
            _ => {}
        }
    }
    assert!(matches!(last, Some(VmValue::Int(42))));
    assert_eq!(steps, 4);
}

#[test]
fn inlined_program_behaves_identically() {
    let src = "fn add(a: i64, b: i64) -> i64 { a + b }\n\
               fn max(a: i64, b: i64) -> i64 { if a > b { a } else { b } }\n\
               fn main() { print_int(add(max(3, 9), 100)); }";
    assert_eq!(run_output(src, false), run_output(src, true));
    assert_eq!(run_output(src, true).trim(), "109");
}

#[test]
fn does_not_inline_recursive_functions() {
    let src = "fn fib(n: i64) -> i64 { if n < 2 { n } else { fib(n - 1) + fib(n - 2) } }\n\
               fn main() { print_int(fib(8)); }";
    let (_program, stats) = compile_with(src, OptOptions::default());
    assert_eq!(stats.inlined, 0, "recursive function must not be inlined");
    assert_eq!(run_output(src, false), run_output(src, true));
}

#[test]
fn arguments_with_effects_run_once_after_inlining() {
    let src = "fn twice(x: i64) -> i64 { x + x }\n\
               fn main() {\n\
                 let mut a = [0];\n\
                 a[0] = a[0] + 1;\n\
                 print_int(twice(a[0]));\n\
               }";
    assert_eq!(run_output(src, false), run_output(src, true));
}

const PROGRAMS: &[&str] = &[
    "fn main() { print_int(1 + 2 * 3); }",
    "fn fib(n: i64) -> i64 { if n < 2 { n } else { fib(n-1) + fib(n-2) } }\n\
     fn main() { print_int(fib(10)); }",
    "fn main() { let mut s = 0; for i in 0..10 { s += i; } print_int(s); }",
    r#"fn main() { print_str("hello, " + "world"); print_float(1.5); }"#,
    "fn main() { let a = [1, 2, 3]; print_int(a[0] + len(a)); }",
];

#[test]
fn deserialized_program_runs_identically() {
    for src in PROGRAMS {
        let (program, _) = compile_with(src, OptOptions::default());
        let original = execute(&program).unwrap();
        let parsed = from_text(&to_text(&program)).unwrap();
        let reloaded = execute(&parsed).unwrap();
        assert_eq!(original, reloaded, "reloaded program differs for:\n{src}");
    }
}

#[test]
fn strings_with_escapes_round_trip() {
    let (program, _) = compile_with(r#"fn main() { print_str("tab\there\nnewline"); }"#, OptOptions::default());
    let parsed = from_text(&to_text(&program)).unwrap();
    assert_eq!(execute(&program).unwrap(), execute(&parsed).unwrap());
}
