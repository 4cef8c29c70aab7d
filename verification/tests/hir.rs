use lumen::backend::codegen::generate;
use lumen::backend::verify::verify;
use lumen::diagnostics::Diagnostics;
use lumen::hir::{lower, Callee, ExprKind, Hir, Stmt};
use lumen::lexer::tokenize;
use lumen::parser::parse;
use lumen::sema::resolve::resolve;
use lumen::sema::typeck::check;
use lumen::sema::types::Type;
use lumen::source::SourceFile;

/// Runs the full front-end and lowers `src`, asserting it is error-free.
fn lower_src(src: &str) -> Hir {
    let file = SourceFile::new("test.lm", src);
    let mut diags = Diagnostics::new();
    let tokens = tokenize(&file, &mut diags);
    let ast = parse(tokens, &mut diags);
    let res = resolve(&ast, &mut diags);
    let tc = check(&ast, &res, &mut diags);
    assert!(!diags.has_errors(), "unexpected errors: {:?}", diags.items());
    lower(&ast, &res, &tc)
}

#[test]
fn parameters_become_leading_locals() {
    let hir = lower_src("fn f(a: i64, b: i64) -> i64 { a + b } fn main() {}");
    let f = &hir.functions[0];
    assert_eq!(f.param_count, 2);
    assert_eq!(f.locals[0].name, "a");
    assert_eq!(f.locals[1].name, "b");
    assert_eq!(f.locals.len(), 2);
}

#[test]
fn let_allocates_a_local_after_params() {
    let hir = lower_src("fn f(a: i64) -> i64 { let b = a; b } fn main() {}");
    let f = &hir.functions[0];
    assert_eq!(f.param_count, 1);
    assert_eq!(f.locals.len(), 2);
    assert_eq!(f.locals[1].name, "b");
}

#[test]
fn names_lower_to_local_reads() {
    let hir = lower_src("fn f(a: i64) -> i64 { a } fn main() {}");
    let f = &hir.functions[0];
    let tail = f.body.tail.as_ref().unwrap();
    assert!(matches!(tail.kind, ExprKind::Local(id) if id.0 == 0));
}

#[test]
fn calls_resolve_to_callees() {
    let hir = lower_src("fn g(x: i64) -> i64 { x } fn main() { let y = g(1); print_int(y); }");
    let main = hir.functions.iter().find(|f| f.name == "main").unwrap();
    let Stmt::Let { value, .. } = &main.body.stmts[0] else { panic!("expected let") };
    assert!(matches!(&value.kind, ExprKind::Call { callee: Callee::Fn(_), .. }));
    let Stmt::Expr(call) = &main.body.stmts[1] else { panic!("expected expr-stmt") };
    assert!(matches!(&call.kind, ExprKind::Call { callee: Callee::Builtin(_), .. }));
}

#[test]
fn assignment_targets_a_slot() {
    let hir = lower_src("fn main() { let mut x = 0; x = 5; }");
    let main = &hir.functions[0];
    let Stmt::Expr(assign) = &main.body.stmts[1] else { panic!("expected expr-stmt") };
    assert!(matches!(&assign.kind, ExprKind::Assign { local, .. } if local.0 == 0));
}

#[test]
fn main_is_marked_as_entry() {
    let hir = lower_src("fn helper() {} fn main() { helper(); }");
    assert_eq!(hir.main.0, 1);
}

#[test]
fn every_expression_is_typed() {
    let hir = lower_src("fn main() { let x = 1 + 2 < 4; }");
    let Stmt::Let { value, .. } = &hir.functions[0].body.stmts[0] else { panic!() };
    assert_eq!(value.ty, Type::Bool);
    let ExprKind::Binary { lhs, .. } = &value.kind else { panic!("expected comparison") };
    assert_eq!(lhs.ty, Type::Int);
}

#[test]
fn foreach_desugars_to_a_counted_loop() {
    let hir = lower_src("fn main() { for x in [1, 2, 3] { print_int(x); } }");
    let main = &hir.functions[0];
    // Hidden slots for the array, the index and the bound, then `x`.
    assert_eq!(main.locals.len(), 4);
    assert_eq!(main.locals[0].name, "<foreach-arr>");
    assert_eq!(main.locals[3].name, "x");
    let Stmt::Expr(wrapper) = &main.body.stmts[0] else { panic!("expected expr-stmt") };
    let ExprKind::Block(b) = &wrapper.kind else { panic!("expected block") };
    assert_eq!(b.stmts.len(), 2);
    let Stmt::For { body, .. } = &b.stmts[1] else { panic!("expected for") };
    assert_eq!(body.stmts.len(), 2);
}

#[test]
fn match_desugars_to_an_if_chain() {
    let hir = lower_src("fn main() { let n = 2; let s = match n { 1 => 10, 2 => 20, _ => 0 }; print_int(s); }");
    let main = &hir.functions[0];
    let Stmt::Let { value, .. } = &main.body.stmts[1] else { panic!() };
    let ExprKind::Block(b) = &value.kind else { panic!("expected block") };
    assert_eq!(b.stmts.len(), 1);
    assert!(matches!(b.tail.as_ref().unwrap().kind, ExprKind::If { .. }));
}

#[test]
fn constants_are_inlined() {
    let hir = lower_src("const K: i64 = 2 * 21; fn main() { print_int(K); }");
    let Stmt::Expr(call) = &hir.functions[0].body.stmts[0] else { panic!() };
    let ExprKind::Call { args, .. } = &call.kind else { panic!() };
    assert!(matches!(args[0].kind, ExprKind::Int(42)));
}

const REAL_PROGRAMS: &[&str] = &[
    "fn main() { print_int(1 + 2 * 3); }",
    "fn fib(n: i64) -> i64 { if n < 2 { n } else { fib(n-1) + fib(n-2) } }\n\
     fn main() { print_int(fib(10)); }",
    "fn main() { let mut s = 0; for i in 0..10 { s += i; } print_int(s); }",
    "fn main() { for x in [1, 2, 3] { print_int(x); } }",
    r#"fn main() { print_str("hi" + "!"); }"#,
    "fn main() { let a = [1, 2, 3]; a[1] = 9; print_int(a[1] + len(a)); }",
];

#[test]
fn compiler_output_always_verifies() {
    for src in REAL_PROGRAMS {
        let program = generate(&lower_src(src));
        assert_eq!(verify(&program), Ok(()), "rejected valid program:\n{src}");
    }
}

#[test]
fn generated_chunks_mirror_functions() {
    let hir = lower_src("fn f(a: i64) -> i64 { let b = a; b } fn main() { print_str(\"x\"); print_str(\"x\"); }");
    let program = generate(&hir);
    assert_eq!(program.functions.len(), 2);
    assert_eq!(program.main, 1);
    let f = &program.functions[0];
    assert_eq!(f.name, "f");
    assert_eq!(f.n_params, 1);
    assert_eq!(f.n_locals, 2);
    // The same string is interned once.
    assert_eq!(program.functions[1].consts.len(), 1);
    assert!(matches!(f.code.last(), Some(lumen::backend::bytecode::Op::Return)));
}

#[test]
fn disassembly_snapshot() {
    let program = generate(&lower_src("fn main() { print_int(1 + 2); }"));
    let listing = lumen::backend::disasm::disassemble(&program);
    let expected = "\
fn#0 main (params=0, locals=0) [entry]
     0  push_int 1
     1  push_int 2
     2  add.i
     3  call_builtin print_int argc=1
     4  pop
     5  push_unit
     6  return
";
    assert_eq!(listing, expected);
}

#[test]
fn disassembly_shows_jumps_floats_and_strings() {
    let program = generate(&lower_src(
        "fn main() { let x = 1.50; if true { print_str(\"a\\n\"); } print_float(x); }",
    ));
    let listing = lumen::backend::disasm::disassemble(&program);
    assert!(listing.contains("push_float 1.5\n"), "{listing}");
    assert!(listing.contains("push_str \"a\\n\"\n"), "{listing}");
    assert!(listing.contains("jump_if_false "), "{listing}");
}

#[test]
fn snapshot_of_lowered_fib() {
    let out = lumen::hir::print::print_hir(&lower_src(
        "fn fib(n: i64) -> i64 {\n\
        \x20   if n < 2 { n } else { fib(n - 1) + fib(n - 2) }\n\
         }\n\
         fn main() { print_int(fib(10)); }",
    ));
    let expected = "\
fn fib(0:n i64) -> i64
  block: i64
    tail
      if: i64
        cond
          binary <: bool
            local _0: i64
            int 2: i64
        block: i64
          tail
            local _0: i64
        else
          block: i64
            tail
              binary +: i64
                call fn#0: i64
                  binary -: i64
                    local _0: i64
                    int 1: i64
                call fn#0: i64
                  binary -: i64
                    local _0: i64
                    int 2: i64
fn main() -> unit [entry]
  block: unit
    expr-stmt
      call builtin print_int: unit
        call fn#0: i64
          int 10: i64
";
    assert_eq!(out, expected);
}

#[test]
fn printed_hir_shows_hidden_slots_and_fields() {
    let out = lumen::hir::print::print_hir(&lower_src(
        "struct P { x: i64, y: i64 } fn main() { let p = P { y: 2, x: 1 }; print_int(p.y); }",
    ));
    assert!(out.contains("  local 0: p struct#0\n"), "{out}");
    assert!(out.contains("struct: struct#0\n"), "{out}");
    assert!(out.contains("field 1\n"), "{out}");
    assert!(out.contains("get-field 1: i64\n"), "{out}");
}
