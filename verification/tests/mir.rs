use lumen::diagnostics::Diagnostics;
use lumen::hir::lower;
use lumen::lexer::tokenize;
use lumen::mir::dot::to_dot;
use lumen::mir::lowering::build;
use lumen::mir::opt::{algebraic_simplify, const_fold, copy_propagation, dead_code, dead_store, local_cse, optimize};
use lumen::mir::print::print_mir;
use lumen::mir::{Inst, Program, Rvalue, Terminator};
use lumen::opt::{optimize as optimize_hir, OptOptions};
use lumen::parser::parse;
use lumen::sema::resolve::resolve;
use lumen::sema::typeck::check;
use lumen::source::SourceFile;

/// Front end, HIR (unoptimised) and MIR for `src`.
fn mir_of(src: &str) -> Program {
    let file = SourceFile::new("t.lm", src);
    let mut diags = Diagnostics::new();
    let tokens = tokenize(&file, &mut diags);
    let ast = parse(tokens, &mut diags);
    let res = resolve(&ast, &mut diags);
    let tc = check(&ast, &res, &mut diags);
    assert!(!diags.has_errors(), "errors: {:?}", diags.items());
    let mut hir = lower(&ast, &res, &tc);
    optimize_hir(&mut hir, OptOptions { enabled: false, max_iterations: 0 });
    build(&hir)
}

/// Every block must end in a real terminator (never `Unreachable`).
fn assert_well_formed(program: &Program) {
    for func in &program.functions {
        for (i, block) in func.blocks.iter().enumerate() {
            assert!(!matches!(block.term, Terminator::Unreachable), "fn {} bb{i} has no terminator", func.name);
        }
    }
}

#[test]
fn builds_well_formed_cfg() {
    let program = mir_of(
        "fn f(n: i64) -> i64 { if n < 0 { 0 - n } else { n } }\n\
         fn main() { print_int(f(0 - 5)); }",
    );
    let mut opt = mir_of(
        "fn f(n: i64) -> i64 { if n < 0 { 0 - n } else { n } }\n\
         fn main() { print_int(f(0 - 5)); }",
    );
    optimize(&mut opt);
    assert_well_formed(&program);
    assert_well_formed(&opt);
}

#[test]
fn loops_lower_to_branches() {
    let program = mir_of("fn main() { let mut i = 0; while i < 3 { i = i + 1; } }");
    let main = &program.functions[0];
    let has_branch = main.blocks.iter().any(|b| matches!(b.term, Terminator::Branch { .. }));
    assert!(has_branch, "while loop did not produce a branch");
}

#[test]
fn dump_is_deterministic() {
    let a = print_mir(&mir_of("fn main() { print_int(1 + 1); }"));
    let b = print_mir(&mir_of("fn main() { print_int(1 + 1); }"));
    assert_eq!(a, b);
}

#[test]
fn emits_a_digraph_with_edges() {
    let dot = to_dot(&mir_of("fn main() { let mut i = 0; while i < 3 { i = i + 1; } }"));
    assert!(dot.contains("digraph \"main\""));
    assert!(dot.contains("->"), "no edges in CFG");
    assert!(dot.contains("[label=\"T\"]"), "branch arms not labelled");
}

#[test]
fn is_deterministic() {
    let a = to_dot(&mir_of("fn main() { print_int(1); }"));
    let b = to_dot(&mir_of("fn main() { print_int(1); }"));
    assert_eq!(a, b);
}

#[test]
fn dump_of_a_straight_line_function() {
    let text = print_mir(&mir_of("fn main() { print_int(1 + 1); }"));
    assert_eq!(
        text,
        "fn main() [2 regs] {\n  bb0: (entry)\n    %0 = 1 + 1\n    %1 = call @print_int(%0)\n    return unit\n}\n"
    );
}

#[test]
fn dump_lists_parameters_and_separates_functions() {
    let text = print_mir(&mir_of("fn add(a: i64, b: i64) -> i64 { a + b }\nfn main() { print_int(add(1, 2)); }"));
    assert!(text.starts_with("fn add(_0, _1) [3 regs] {\n  bb0: (entry)\n"), "{text}");
    assert!(text.contains("}\n\nfn main() ["), "{text}");
    assert!(text.contains("call fn#0(1, 2)"), "{text}");
}

#[test]
fn loops_close_every_block_and_branch_inside_the_function() {
    let program = mir_of(
        "fn main() { let mut i = 0; while i < 10 { if i == 5 { break; } i = i + 1; continue; } for j in 0..3 { print_int(j); } }",
    );
    assert_well_formed(&program);
    for func in &program.functions {
        assert!((func.entry.0 as usize) < func.blocks.len());
        for block in &func.blocks {
            for t in block.term.successors() {
                assert!((t.0 as usize) < func.blocks.len());
            }
        }
    }
}

#[test]
fn short_circuit_and_if_produce_branches() {
    let dot = to_dot(&mir_of("fn main() { let a = true && false; if a || true { print_int(1); } }"));
    assert!(dot.matches("[label=\"T\"]").count() >= 3, "{dot}");
    assert!(dot.matches("[label=\"F\"]").count() >= 3, "{dot}");
}

#[test]
fn dot_labels_escape_quotes() {
    let dot = to_dot(&mir_of("fn main() { print_str(\"a\\\"b\"); }"));
    assert!(dot.contains("@print_str(\\\"a\\\\\\\"b\\\")"), "{dot}");
}

fn main_of(program: &mut Program) -> &mut lumen::mir::Function {
    let i = program.main;
    &mut program.functions[i]
}

fn dump_fn(f: &lumen::mir::Function) -> String {
    let mut text = String::new();
    for b in &f.blocks {
        for inst in &b.insts {
            text.push_str(&format!("{:?}\n", inst));
        }
        text.push_str(&format!("{:?}\n", b.term));
    }
    text
}

#[test]
fn const_fold_folds_constant_operators_and_branches() {
    let mut program = mir_of("fn main() { let x = 1 + 2 * 3; if true { print_int(x); } }");
    let f = main_of(&mut program);
    assert_eq!(const_fold(f), 2);
    let text = dump_fn(f);
    assert!(!text.contains("Branch"), "{text}");
    assert!(text.contains("Use(Const(Int(6)))"), "{text}");
    // `1 + %0` reads a register, so it stays.
    assert!(text.contains("Binary(Add, Const(Int(1)), Reg(Reg(0)))"), "{text}");
}

#[test]
fn const_fold_keeps_faulting_division() {
    let mut program = mir_of("fn main() { print_int(1 / 0); print_int(7 % 0); }");
    let f = main_of(&mut program);
    assert_eq!(const_fold(f), 0);
    let text = dump_fn(f);
    assert!(text.contains("Div") && text.contains("Rem"), "{text}");
}

#[test]
fn const_fold_wraps_and_concatenates() {
    let mut program = mir_of("fn main() { print_int(9223372036854775807 + 1); print_str(\"ab\" + \"cd\"); }");
    let f = main_of(&mut program);
    assert_eq!(const_fold(f), 2);
    let text = dump_fn(f);
    assert!(text.contains("Int(-9223372036854775808)"), "{text}");
    assert!(text.contains("Str(\"abcd\")"), "{text}");
}

#[test]
fn algebraic_simplify_applies_integer_laws() {
    let mut program = mir_of(
        "fn f(x: i64) -> i64 { let a = x + 0; let b = x * 1; let c = x * 0; let d = x / 1; let e = x % 1; a + b + c + d + e }\nfn main() { print_int(f(3)); }",
    );
    let f = &mut program.functions[0];
    assert_eq!(algebraic_simplify(f), 5);
    let text = dump_fn(f);
    assert!(text.contains("Use(Const(Int(0)))"), "{text}");
    assert_eq!(algebraic_simplify(f), 0);
}

#[test]
fn dead_code_drops_unread_assignments_only() {
    let mut program = mir_of("fn main() { let x = 1 + 2; 3 * 4; print_int(5); }");
    let f = main_of(&mut program);
    let before: usize = f.blocks.iter().map(|b| b.insts.len()).sum();
    let removed = dead_code(f);
    let after: usize = f.blocks.iter().map(|b| b.insts.len()).sum();
    assert_eq!(before - after, removed);
    assert_eq!(removed, 1, "{}", dump_fn(f));
    let text = dump_fn(f);
    assert!(text.contains("Call"), "{text}");
    assert!(text.contains("Store"), "{text}");
}

#[test]
fn local_cse_reuses_a_repeated_computation() {
    let mut program = mir_of("fn f(x: i64) -> i64 { (x + 1) * (x + 1) }\nfn main() { print_int(f(2)); }");
    let f = &mut program.functions[0];
    // The two loads of `x` are one computation; once copies are followed the
    // two additions are too.
    assert_eq!(local_cse(f), 1);
    let text = dump_fn(f);
    assert!(text.contains("Use(Reg(Reg(0)))"), "{text}");
    assert_eq!(copy_propagation(f) > 0, true);
    assert_eq!(local_cse(f), 1);
}

#[test]
fn local_cse_forgets_loads_after_a_store() {
    let mut program = mir_of("fn main() { let mut x = 1; print_int(x); x = 2; print_int(x); }");
    let f = main_of(&mut program);
    assert_eq!(local_cse(f), 0, "{}", dump_fn(f));
}

#[test]
fn dead_store_drops_an_overwritten_store() {
    let mut program = mir_of("fn main() { let mut x = 1; x = 2; print_int(x); }");
    let f = main_of(&mut program);
    assert_eq!(dead_store(f), 1);
    let text = dump_fn(f);
    assert_eq!(text.matches("Store").count(), 1, "{text}");
    assert!(!text.contains("Int(1)"), "{text}");
}

#[test]
fn dead_store_keeps_a_store_that_is_read() {
    let mut program = mir_of("fn main() { let mut x = 1; print_int(x); x = 2; print_int(x); }");
    let f = main_of(&mut program);
    assert_eq!(dead_store(f), 0);
}

#[test]
fn copy_propagation_forwards_copies() {
    let mut program = mir_of("fn main() { let x = 1 + 2; print_int(x); }");
    let f = main_of(&mut program);
    assert_eq!(const_fold(f), 1);
    // `%0 = 3` is now a copy: the store reads 3 directly.
    assert_eq!(copy_propagation(f), 1);
    let text = dump_fn(f);
    assert!(text.contains("Store { local: LocalId(0), src: Const(Int(3)) }"), "{text}");
    assert_eq!(dead_code(f), 1);
}

#[test]
fn constant_folding() {
    let mut program = mir_of("fn main() { let x = 1 + 2 * 3; print_int(x); }");
    optimize(&mut program);
    let main = &program.functions[0];
    let has_binary = main
        .blocks
        .iter()
        .flat_map(|b| &b.insts)
        .any(|i| matches!(i, Inst::Assign { rvalue: Rvalue::Binary(..), .. }));
    assert!(!has_binary, "arithmetic was not constant-folded:\n{}", print_mir(&program));
}

#[test]
fn constant_branch_is_simplified() {
    let mut program = mir_of("fn f() -> i64 { if true { 1 } else { 2 } } fn main() { print_int(f()); }");
    let before_blocks: usize = program.functions.iter().map(|f| f.blocks.len()).sum();
    optimize(&mut program);
    let after_blocks: usize = program.functions.iter().map(|f| f.blocks.len()).sum();
    assert!(after_blocks < before_blocks, "constant branch not simplified");
    assert_well_formed(&program);
}

#[test]
fn copy_propagation_and_dce() {
    let mut program = mir_of("fn main() { let x = 1 + 2 * 3; print_int(x); }");
    let raw_insts: usize = program.functions[0].blocks.iter().map(|b| b.insts.len()).sum();
    optimize(&mut program);
    let opt_insts: usize = program.functions[0].blocks.iter().map(|b| b.insts.len()).sum();
    assert!(
        opt_insts < raw_insts,
        "copy propagation/DCE removed nothing ({raw_insts} -> {opt_insts})\n{}",
        print_mir(&program)
    );
    assert_well_formed(&program);
}

#[test]
fn all_blocks_reachable_after_simplification() {
    let mut program = mir_of(
        "fn f(n: i64) -> i64 {\n\
        \x20   let mut s = 0;\n\
        \x20   for i in 0..n { s += i; }\n\
        \x20   s\n\
         }\n\
         fn main() { print_int(f(10)); }",
    );
    optimize(&mut program);
    for func in &program.functions {
        let mut seen = std::collections::HashSet::new();
        let mut stack = vec![func.entry];
        while let Some(b) = stack.pop() {
            if seen.insert(b) {
                stack.extend(func.block(b).term.successors());
            }
        }
        assert_eq!(seen.len(), func.blocks.len(), "fn {} has unreachable blocks", func.name);
    }
}

/// Counts `Binary` instructions across all functions.
fn count_binary(program: &Program) -> usize {
    program
        .functions
        .iter()
        .flat_map(|f| f.blocks.iter())
        .flat_map(|b| b.insts.iter())
        .filter(|i| matches!(i, Inst::Assign { rvalue: Rvalue::Binary(..), .. }))
        .count()
}

#[test]
fn local_cse_forwards_redundant_loads() {
    let mut program = mir_of("fn f(a: i64) -> i64 { a * a }\nfn main() { print_int(f(3)); }");
    let changed = local_cse(&mut program.functions[0]);
    assert!(changed >= 1, "expected the redundant load to be forwarded");
}

#[test]
fn full_optimization_eliminates_a_repeated_computation() {
    let mut program = mir_of("fn f(a: i64) -> i64 { let x = a * a; let y = a * a; x + y }\nfn main() { print_int(f(3)); }");
    let naive = count_binary(&program);
    optimize(&mut program);
    let optimized = count_binary(&program);
    assert!(optimized < naive, "CSE should cut the multiply count ({naive} -> {optimized})");
}

#[test]
fn algebraic_simplify_removes_identities() {
    let mut program = mir_of("fn f(x: i64) -> i64 { x * 1 + 0 } fn main() { print_int(f(9)); }");
    let changed = algebraic_simplify(&mut program.functions[0]);
    assert!(changed >= 1, "expected an algebraic rewrite");
}

#[test]
fn dead_store_drops_overwritten_assignment() {
    let mut program = mir_of("fn main() { let mut s = 1; s = 2; print_int(s); }");
    let removed = dead_store(&mut program.functions[0]);
    assert!(removed >= 1, "expected a dead store to be removed");
}

#[test]
fn optimized_dump_of_a_constant_program() {
    let mut program = mir_of("fn main() { print_int(1 + 1); }");
    let stats = optimize(&mut program);
    assert_eq!(stats.folded, 1);
    assert_eq!(
        print_mir(&program),
        "fn main() [2 regs] {\n  bb0: (entry)\n    %1 = call @print_int(2)\n    return unit\n}\n"
    );
}

#[test]
fn simplify_cfg_threads_and_prunes() {
    let mut program = mir_of("fn main() { if true { print_int(1); } else { print_int(2); } }");
    let f = main_of(&mut program);
    assert_eq!(const_fold(f), 1);
    let before = f.blocks.len();
    let removed = lumen::mir::opt::simplify_cfg(f);
    assert!(removed >= 1, "{}", dump_fn(f));
    assert_eq!(f.blocks.len(), before - removed);
    assert_eq!(f.entry.0, 0);
    assert_well_formed(&program);
}

#[test]
fn optimization_keeps_calls() {
    let mut program = mir_of("fn main() { let a = [1, 2]; a[0] = 3; print_int(a[0]); print_int(4); }");
    optimize(&mut program);
    let text = print_mir(&program);
    assert_eq!(text.matches("call @print_int").count(), 2, "{text}");
    assert!(text.contains("] <- 3"), "{text}");
}
