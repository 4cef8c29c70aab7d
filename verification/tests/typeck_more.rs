use lumen::diagnostics::Diagnostics;
use lumen::errors::DiagCode;
use lumen::lexer::tokenize;
use lumen::parser::parse;
use lumen::sema::resolve::{resolve, FnId};
use lumen::sema::typeck::{check, ConstValue, Typeck};
use lumen::sema::types::{Elem, Type};
use lumen::source::SourceFile;

fn front(src: &str) -> (Typeck, Vec<DiagCode>) {
    let file = SourceFile::new("test.lm", src);
    let mut diags = Diagnostics::new();
    let tokens = tokenize(&file, &mut diags);
    let ast = parse(tokens, &mut diags);
    assert!(!diags.has_errors(), "unexpected parse errors: {:?}", diags.items());
    let res = resolve(&ast, &mut diags);
    let tc = check(&ast, &res, &mut diags);
    (tc, diags.items().iter().map(|d| d.code).collect())
}

#[test]
fn constants_are_evaluated_with_wrapping_integers() {
    let (tc, codes) = front(
        "const A: i64 = 9223372036854775807; const B: i64 = A + 1; const C: bool = 3 < 4 && true; \
         const D: i64 = -7 % 3; const S: bool = \"a\" != \"b\"; fn main() {}",
    );
    assert!(codes.is_empty(), "{codes:?}");
    assert_eq!(tc.const_values[0], ConstValue::Int(i64::MAX));
    assert_eq!(tc.const_values[1], ConstValue::Int(i64::MIN));
    assert_eq!(tc.const_values[2], ConstValue::Bool(true));
    assert_eq!(tc.const_values[3], ConstValue::Int(-1));
    assert_eq!(tc.const_values[4], ConstValue::Bool(true));
    assert_eq!(tc.const_types, vec![Type::Int, Type::Int, Type::Bool, Type::Int, Type::Bool]);
}

#[test]
fn division_by_zero_is_not_constant() {
    let (tc, codes) = front("const Z: i64 = 1 / 0; fn main() {}");
    assert_eq!(codes, vec![DiagCode::NotConstant]);
    assert_eq!(tc.const_values[0], ConstValue::Int(0));
}

#[test]
fn float_constants_keep_their_text_and_computation() {
    let (tc, codes) = front("const F: f64 = 1.50; const G: f64 = F * 2.0; const L: bool = F < G; fn main() {}");
    assert!(codes.is_empty(), "{codes:?}");
    assert_eq!(tc.const_values[0], ConstValue::Float("1.50".to_string()));
    assert!(matches!(tc.const_values[1], ConstValue::Computed(Type::Float, _)));
    assert!(matches!(tc.const_values[2], ConstValue::Computed(Type::Bool, _)));
    assert_eq!(tc.const_values[2].ty(), Type::Bool);
}

#[test]
fn main_is_recorded_when_valid() {
    let (tc, codes) = front("fn helper() {} fn main() {}");
    assert!(codes.is_empty());
    assert_eq!(tc.main, Some(FnId(1)));
    let (tc, codes) = front("fn main() -> i64 { 1 }");
    assert_eq!(codes, vec![DiagCode::BadMain]);
    assert_eq!(tc.main, None);
}

#[test]
fn match_exhaustiveness() {
    let (_tc, codes) = front("fn main() { let b = true; let x = match b { true => 1, false => 2 }; print_int(x); }");
    assert!(codes.is_empty(), "{codes:?}");
    let (_tc, codes) = front("fn main() { let n = 3; let x = match n { 1 => 1, 2 => 2 }; print_int(x); }");
    assert_eq!(codes, vec![DiagCode::NonExhaustiveMatch]);
    let (_tc, codes) = front("fn main() { let n = 3; let x = match n { 1 => 1, _ => 2 }; print_int(x); }");
    assert!(codes.is_empty(), "{codes:?}");
}

#[test]
fn struct_literals_must_be_complete() {
    let (tc, codes) = front("struct P { x: i64, y: i64 } fn main() { let p = P { x: 1 }; }");
    assert_eq!(codes, vec![DiagCode::BadStructLiteral]);
    assert_eq!(tc.structs[0].field("y"), Some((1, Type::Int)));
    assert_eq!(tc.structs[0].field("z"), None);
    let (_tc, codes) = front("struct P { x: i64, y: i64 } fn main() { let p = P { x: 1, y: 2, x: 3 }; print_int(p.x); }");
    assert_eq!(codes, vec![DiagCode::BadStructLiteral]);
    let (_tc, codes) = front("struct P { x: i64 } fn main() { let p = P { x: true }; print_int(p.z); }");
    assert_eq!(codes, vec![DiagCode::TypeMismatch, DiagCode::UnknownField]);
}

#[test]
fn tuples_are_interned_structurally() {
    let (tc, codes) = front("fn main() { let a = (1, true); let b = (2, false); let c = (1.5, \"s\"); print_int(a.0 + b.0); }");
    assert!(codes.is_empty(), "{codes:?}");
    assert_eq!(tc.tuple_types.len(), 2);
    assert_eq!(tc.tuple_elems(0), &[Type::Int, Type::Bool]);
    assert_eq!(tc.tuple_elems(1), &[Type::Float, Type::Str]);
    let (_tc, codes) = front("fn main() { let a = (1, 2); print_int(a.2); }");
    assert_eq!(codes, vec![DiagCode::UnknownField]);
}

#[test]
fn arrays_and_indexing() {
    let (tc, codes) = front("fn main() { let a = [1, 2]; a[0] = 5; print_int(a[1]); for v in a { print_int(v); } }");
    assert!(codes.is_empty(), "{codes:?}");
    assert!(tc.expr_types.values().iter().any(|&t| t == Type::Array(Elem::Int)));
    let (_tc, codes) = front("fn main() { let a = []; }");
    assert_eq!(codes, vec![DiagCode::BadArrayType]);
    let (_tc, codes) = front("fn main() { let x = 1; print_int(x[0]); }");
    assert_eq!(codes, vec![DiagCode::NotIndexable]);
    let (_tc, codes) = front("fn main() { let a = [1, true]; }");
    assert_eq!(codes, vec![DiagCode::TypeMismatch]);
}

#[test]
fn len_takes_one_array() {
    let (_tc, codes) = front("fn main() { print_int(len([1, 2], 3)); }");
    assert_eq!(codes, vec![DiagCode::ArityMismatch]);
    let (_tc, codes) = front("fn main() { print_int(len(3)); }");
    assert_eq!(codes, vec![DiagCode::TypeMismatch]);
}

#[test]
fn accessors_default_to_the_error_type() {
    let (tc, _codes) = front("const K: i64 = 2; fn main() {}");
    assert_eq!(tc.type_of(lumen::parser::ast::NodeId(999_999)), Type::Error);
    assert_eq!(tc.local_type(lumen::parser::ast::NodeId(999_999)), Type::Error);
    assert_eq!(tc.const_type(lumen::sema::resolve::ConstId(0)), Type::Int);
    assert_eq!(tc.const_type(lumen::sema::resolve::ConstId(5)), Type::Error);
    assert_eq!(tc.signature(FnId(0)).name, "main");
}
