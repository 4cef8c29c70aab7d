use lumen::diagnostics::Diagnostics;
use lumen::errors::DiagCode;
use lumen::lexer::tokenize;
use lumen::parser::ast::{Ast, ItemKind, StmtKind};
use lumen::parser::parse;
use lumen::sema::resolve::{resolve, Res, Resolution};
use lumen::source::SourceFile;

/// Runs lex → parse → resolve over `src`, returning the artifacts for inspection.
fn run(src: &str) -> (Ast, Resolution, Diagnostics) {
    let file = SourceFile::new("test.lm", src);
    let mut diags = Diagnostics::new();
    let tokens = tokenize(&file, &mut diags);
    let ast = parse(tokens, &mut diags);
    assert!(!diags.has_errors(), "unexpected lex/parse errors: {:?}", diags.items());
    let res = resolve(&ast, &mut diags);
    (ast, res, diags)
}

/// Collects the codes of all emitted diagnostics.
fn codes(diags: &Diagnostics) -> Vec<DiagCode> {
    diags.items().iter().map(|d| d.code).collect()
}

#[test]
fn resolves_parameters_and_locals() {
    let (_ast, res, diags) = run("fn f(a: i64) -> i64 { let b = a; b }");
    assert!(!diags.has_errors());
    // Every `Name` use resolved to a local.
    assert!(res.uses.values().iter().all(|r| matches!(r, Res::Local(_))));
    assert_eq!(res.uses.len(), 2); // `a` in init, `b` in tail
}

#[test]
fn resolves_function_calls_including_forward_and_recursive() {
    let (_ast, res, diags) = run("fn main() { helper(); }\n\
         fn helper() { main(); helper(); }");
    assert!(!diags.has_errors());
    let fn_uses = res.uses.values().iter().filter(|r| matches!(r, Res::Fn(_))).count();
    assert_eq!(fn_uses, 3, "expected 3 function-name uses");
}

#[test]
fn resolves_builtins() {
    let (_ast, res, diags) = run(r#"fn main() { print_int(1); print_str("hi"); }"#);
    assert!(!diags.has_errors());
    let builtins = res.uses.values().iter().filter(|r| matches!(r, Res::Builtin(_))).count();
    assert_eq!(builtins, 2);
}

#[test]
fn unresolved_name_is_reported() {
    let (_ast, _res, diags) = run("fn f() { nonexistent }");
    assert_eq!(codes(&diags), vec![DiagCode::UnresolvedName]);
}

#[test]
fn duplicate_function_is_reported() {
    let (_ast, _res, diags) = run("fn dup() {} fn dup() {}");
    assert_eq!(codes(&diags), vec![DiagCode::DuplicateDefinition]);
}

#[test]
fn duplicate_parameter_is_reported() {
    let (_ast, _res, diags) = run("fn f(x: i64, x: i64) {}");
    assert_eq!(codes(&diags), vec![DiagCode::DuplicateParameter]);
}

#[test]
fn shadowing_in_same_scope_is_allowed() {
    let (_ast, _res, diags) = run("fn f() { let x = 1; let x = 2; let y = x; }");
    assert!(!diags.has_errors(), "shadowing should be permitted");
}

#[test]
fn inner_scope_does_not_leak_outward() {
    // `inner` is declared in the block; using it after the block must fail.
    let (_ast, _res, diags) = run("fn f() { { let inner = 1; } inner }");
    assert_eq!(codes(&diags), vec![DiagCode::UnresolvedName]);
}

#[test]
fn let_initialiser_cannot_see_its_own_binding() {
    // The `n` in the initialiser must be unresolved (no outer `n`).
    let (_ast, _res, diags) = run("fn f() { let n = n; }");
    assert_eq!(codes(&diags), vec![DiagCode::UnresolvedName]);
}

#[test]
fn let_initialiser_sees_outer_binding_of_same_name() {
    // Here the initialiser's `n` resolves to the parameter, and the new `n`
    // shadows it afterwards - no errors.
    let (_ast, res, diags) = run("fn f(n: i64) -> i64 { let n = n; n }");
    assert!(!diags.has_errors());
    assert!(res.uses.values().iter().all(|r| matches!(r, Res::Local(_))));
}

#[test]
fn while_condition_and_body_are_resolved() {
    let (_ast, _res, diags) = run("fn f() { let mut i = 0; while i < 3 { i = i + 1; } }");
    assert!(!diags.has_errors());
}

#[test]
fn local_info_records_mutability() {
    let (ast, res, _diags) = run("fn f() { let mut m = 1; let c = 2; }");
    let ItemKind::Fn(decl) = &ast.items[0].kind else { panic!("expected a function") };
    // Walk the let statements to find their node ids.
    let mut mutables = Vec::new();
    for stmt in &decl.body.stmts {
        if let StmtKind::Let(l) = &stmt.kind {
            mutables.push((l.name.name.clone(), res.local(l.id).unwrap().mutable));
        }
    }
    assert_eq!(mutables, vec![("m".to_string(), true), ("c".to_string(), false)]);
}

#[test]
fn globals_keep_their_first_declaration() {
    let (_ast, res, diags) = run("const A: i64 = 1; fn f() {} struct S { x: i64 } fn A() {} fn g() {}");
    assert_eq!(codes(&diags), vec![DiagCode::DuplicateDefinition]);
    assert_eq!(res.functions.len(), 2);
    assert_eq!(res.consts.len(), 1);
    assert_eq!(res.structs.len(), 1);
    let f = res.functions.lookup("f").unwrap();
    let g = res.functions.lookup("g").unwrap();
    assert_eq!(res.functions.item_index(f), 1);
    assert_eq!(res.functions.item_index(g), 4);
    assert_eq!(res.functions.lookup("A"), None);
    assert_eq!(res.consts.item_index(res.consts.lookup("A").unwrap()), 0);
    assert_eq!(res.structs.item_index(res.structs.lookup("S").unwrap()), 2);
    let pairs = res.functions.iter();
    assert_eq!(pairs.len(), 2);
    assert_eq!(pairs[1].1, 4);
    assert!(!res.functions.is_empty());
}

#[test]
fn unresolved_name_gets_a_suggestion() {
    let (_ast, _res, diags) = run("fn main() { let counter = 1; print_int(countr); }");
    assert_eq!(codes(&diags), vec![DiagCode::UnresolvedName]);
    let d = &diags.items()[0];
    assert_eq!(d.message, "cannot find `countr` in this scope");
    assert_eq!(d.helps, vec!["did you mean `counter`?".to_string()]);
}

#[test]
fn constants_resolve_in_expressions() {
    let (_ast, res, diags) = run("const N: i64 = 3; fn main() { print_int(N); }");
    assert!(!diags.has_errors());
    assert_eq!(res.uses.values().iter().filter(|r| matches!(r, Res::Const(_))).count(), 1);
}

#[test]
fn redeclarations_then_each_function_s_repeated_parameters_then_its_unknown_names() {
    let (_ast, _res, diags) =
        run("fn g() {} fn f(x: i64, x: i64) { y; x; z } fn g() {} const C: i64 = w;");
    assert_eq!(
        codes(&diags),
        vec![
            DiagCode::DuplicateDefinition,
            DiagCode::DuplicateParameter,
            DiagCode::UnresolvedName,
            DiagCode::UnresolvedName,
            DiagCode::UnresolvedName,
        ]
    );
}

#[test]
fn loop_variables_and_parameters_are_recorded_immutable() {
    let (ast, res, _diags) = run("fn f(p: i64) { for i in 0..p { let mut t = i; } }");
    let ItemKind::Fn(decl) = &ast.items[0].kind else { panic!("expected a function") };
    let p = res.local(decl.params[0].id).unwrap();
    assert_eq!((p.name.as_str(), p.mutable), ("p", false));
    let StmtKind::For(f) = &decl.body.stmts[0].kind else { panic!("expected a for loop") };
    let i = res.local(f.id).unwrap();
    assert_eq!((i.name.as_str(), i.mutable), ("i", false));
    let StmtKind::Let(l) = &f.body.stmts[0].kind else { panic!("expected a let") };
    let t = res.local(l.id).unwrap();
    assert_eq!((t.name.as_str(), t.mutable), ("t", true));
}
