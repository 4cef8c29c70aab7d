use lumen::backend::codegen::generate;
use lumen::backend::object::{from_text, to_text};
use lumen::backend::{Chunk, Op, Program};
use lumen::diagnostics::Diagnostics;
use lumen::hir::lower;
use lumen::lexer::tokenize;
use lumen::parser::parse;
use lumen::sema::resolve::resolve;
use lumen::sema::typeck::check;
use lumen::sema::types::Builtin;
use lumen::source::SourceFile;

/// Compiles `src` to a bytecode program.
fn compile(src: &str) -> Program {
    let file = SourceFile::new("t.lm", src);
    let mut diags = Diagnostics::new();
    let tokens = tokenize(&file, &mut diags);
    let ast = parse(tokens, &mut diags);
    let res = resolve(&ast, &mut diags);
    let tc = check(&ast, &res, &mut diags);
    assert!(!diags.has_errors(), "errors: {:?}", diags.items());
    let hir = lower(&ast, &res, &tc);
    generate(&hir)
}

const PROGRAMS: &[&str] = &[
    "fn main() { print_int(1 + 2 * 3); }",
    "fn fib(n: i64) -> i64 { if n < 2 { n } else { fib(n-1) + fib(n-2) } }\n\
     fn main() { print_int(fib(10)); }",
    "fn main() { let mut s = 0; for i in 0..10 { s += i; } print_int(s); }",
    r#"fn main() { print_str("hello, " + "world"); print_float(1.5); }"#,
    "fn main() { let a = [1, 2, 3]; print_int(a[0] + len(a)); }",
];

fn chunk(name: &str, n_params: usize, n_locals: usize, consts: &[&str], code: Vec<Op>) -> Chunk {
    Chunk {
        name: name.to_string(),
        n_locals,
        n_params,
        code,
        consts: consts.iter().map(|s| s.to_string()).collect(),
    }
}

fn same_program(a: &Program, b: &Program) -> bool {
    a.main == b.main
        && a.functions.len() == b.functions.len()
        && a.functions.iter().zip(b.functions.iter()).all(|(x, y)| {
            x.name == y.name
                && x.n_params == y.n_params
                && x.n_locals == y.n_locals
                && x.consts == y.consts
                && x.code == y.code
        })
}

fn err_of(text: &str) -> String {
    match from_text(text) {
        Ok(_) => panic!("expected an error for {text:?}"),
        Err(e) => e,
    }
}

#[test]
fn round_trips_to_text_and_back() {
    for src in PROGRAMS {
        let program = compile(src);
        let text = to_text(&program);
        let parsed = from_text(&text).expect("parse object");
        // Re-serializing the parsed program must match the original text.
        assert_eq!(to_text(&parsed), text, "round-trip differs for:\n{src}");
    }
}

#[test]
fn header_records_the_entry_point() {
    let text = to_text(&compile("fn helper() {} fn main() { helper(); }"));
    assert!(
        text.starts_with("lumen-obj 1 main=1"),
        "header: {}",
        text.lines().next().unwrap()
    );
}

#[test]
fn rejects_garbage() {
    assert!(from_text("not an object file").is_err());
    assert!(
        from_text("lumen-obj 1 main=0\nfn x params=0 locals=0 consts=0 code=1\n  bogus").is_err()
    );
}

#[test]
fn escaped_strings_read_back() {
    let program = compile(r#"fn main() { print_str("tab\there\nnewline"); }"#);
    let parsed = from_text(&to_text(&program)).unwrap();
    assert!(same_program(&program, &parsed));
    assert_eq!(parsed.functions[0].consts, vec!["tab\there\nnewline".to_string()]);
}

#[test]
fn text_layout_of_a_small_program() {
    let program = Program {
        functions: vec![
            chunk(
                "helper",
                1,
                2,
                &["a \"q\" \\ b"],
                vec![
                    Op::LoadLocal(0),
                    Op::PushInt(-7),
                    Op::AddInt,
                    Op::PushStr(0),
                    Op::CallBuiltin { builtin: Builtin::PrintStr, argc: 1 },
                    Op::Return,
                ],
            ),
            chunk(
                "main",
                0,
                0,
                &[],
                vec![
                    Op::PushFloat("2.5e3".to_string()),
                    Op::Pop,
                    Op::PushBool(true),
                    Op::JumpIfFalse(6),
                    Op::Call { func: 0, argc: 1 },
                    Op::Jump(7),
                    Op::PushUnit,
                    Op::Return,
                ],
            ),
        ],
        main: 1,
    };
    let expected = "lumen-obj 1 main=1\n\
                    fn helper params=1 locals=2 consts=1 code=6\n\
                    \x20 const \"a \\\"q\\\" \\\\ b\"\n\
                    \x20 load_local 0\n\
                    \x20 push_int -7\n\
                    \x20 add_int\n\
                    \x20 push_str 0\n\
                    \x20 call_builtin print_str 1\n\
                    \x20 return\n\
                    fn main params=0 locals=0 consts=0 code=8\n\
                    \x20 push_float 2.5e3\n\
                    \x20 pop\n\
                    \x20 push_bool true\n\
                    \x20 jump_if_false 6\n\
                    \x20 call 0 1\n\
                    \x20 jump 7\n\
                    \x20 push_unit\n\
                    \x20 return\n";
    let text = to_text(&program);
    assert_eq!(text, expected);
    let parsed = from_text(&text).unwrap();
    assert!(same_program(&program, &parsed));
}

#[test]
fn every_instruction_round_trips() {
    let code = vec![
        Op::PushInt(i64::MIN),
        Op::PushInt(i64::MAX),
        Op::PushFloat("-inf".to_string()),
        Op::PushFloat("NaN".to_string()),
        Op::PushFloat(".5".to_string()),
        Op::PushBool(false),
        Op::PushUnit,
        Op::PushStr(u32::MAX),
        Op::LoadLocal(3),
        Op::StoreLocal(4),
        Op::Pop,
        Op::AddInt,
        Op::SubInt,
        Op::MulInt,
        Op::DivInt,
        Op::RemInt,
        Op::NegInt,
        Op::AddFloat,
        Op::SubFloat,
        Op::MulFloat,
        Op::DivFloat,
        Op::RemFloat,
        Op::NegFloat,
        Op::LtInt,
        Op::LeInt,
        Op::GtInt,
        Op::GeInt,
        Op::LtFloat,
        Op::LeFloat,
        Op::GtFloat,
        Op::GeFloat,
        Op::ConcatStr,
        Op::MakeArray(9),
        Op::Index,
        Op::SetIndex,
        Op::ArrayLen,
        Op::Eq,
        Op::Ne,
        Op::NotBool,
        Op::Jump(12),
        Op::JumpIfFalse(0),
        Op::Call { func: 2, argc: 255 },
        Op::CallBuiltin { builtin: Builtin::Lcm, argc: 2 },
        Op::Return,
    ];
    let program = Program {
        functions: vec![chunk("all_ops", 0, 5, &["", "\r\t"], code)],
        main: 0,
    };
    let parsed = from_text(&to_text(&program)).unwrap();
    assert!(same_program(&program, &parsed));
}

#[test]
fn header_errors() {
    assert_eq!(err_of(""), "empty object");
    assert_eq!(err_of("lumen-obj 1\n"), "missing main= in header");
    assert_eq!(err_of("lumen-obj 1 main=x\n"), "invalid main index");
    assert_eq!(err_of("lumen-obj 1 main=-1\n"), "invalid main index");
}

#[test]
fn function_header_errors() {
    assert_eq!(err_of("main=0\nfun f\n"), "expected `fn`, got: fun f");
    assert_eq!(err_of("main=0\nfn\n"), "missing function name");
    assert_eq!(err_of("main=0\nfn f params\n"), "malformed key=value");
    assert_eq!(err_of("main=0\nfn f params=x\n"), "invalid count");
    assert_eq!(err_of("main=0\nfn f size=1\n"), "unknown header field `size`");
}

#[test]
fn body_errors() {
    assert_eq!(err_of("main=0\nfn f consts=1\n"), "unexpected end in consts");
    assert_eq!(err_of("main=0\nfn f consts=1\n  \"x\"\n"), "expected const line");
    assert_eq!(err_of("main=0\nfn f consts=1\n  const x\n"), "unquoted string");
    assert_eq!(err_of("main=0\nfn f consts=1\n  const \"x\\\"\n"), "dangling escape");
    assert_eq!(err_of("main=0\nfn f code=1\n"), "unexpected end in code");
}

#[test]
fn instruction_errors() {
    let one = |line: &str| err_of(&format!("main=0\nfn f code=1\n{line}\n"));
    assert_eq!(one("   "), "empty instruction");
    assert_eq!(one("push_int"), "missing int");
    assert_eq!(one("push_int 9223372036854775808"), "bad int");
    assert_eq!(one("push_float"), "missing float");
    assert_eq!(one("push_float 1.2.3"), "bad float");
    assert_eq!(one("push_str"), "missing idx");
    assert_eq!(one("push_str 4294967296"), "bad u32");
    assert_eq!(one("load_local"), "missing n");
    assert_eq!(one("jump"), "missing target");
    assert_eq!(one("jump x"), "bad usize");
    assert_eq!(one("call"), "missing func");
    assert_eq!(one("call 1"), "missing argc");
    assert_eq!(one("call_builtin"), "missing builtin");
    assert_eq!(one("call_builtin frobnicate 1"), "unknown builtin `frobnicate`");
    assert_eq!(one("call_builtin len"), "missing argc");
    assert_eq!(one("halt"), "unknown instruction `halt`");
}

#[test]
fn lenient_readings() {
    let text = "junk main=0 more\n\
                \n\
                fn f code=4 params=2 code=5\n\
                push_bool yes\n\
                push_int +12\n\
                call 3 257\n\
                call_builtin abs 258\n\
                return\n";
    let p = from_text(text).unwrap();
    assert_eq!(p.main, 0);
    let f = &p.functions[0];
    assert_eq!(f.n_params, 2);
    assert_eq!(f.n_locals, 0);
    assert_eq!(
        f.code,
        vec![
            Op::PushBool(false),
            Op::PushInt(12),
            Op::Call { func: 3, argc: 1 },
            Op::CallBuiltin { builtin: Builtin::AbsInt, argc: 2 },
            Op::Return,
        ]
    );
}
