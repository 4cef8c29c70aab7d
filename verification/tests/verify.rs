use lumen::backend::bytecode::{Chunk, Op, Program};
use lumen::backend::verify::{verify, VerifyErrorKind};
use lumen::sema::types::Builtin;

/// A one-function program wrapping `code` with the given locals/consts.
fn program_of(code: Vec<Op>, n_params: usize, n_locals: usize) -> Program {
    Program {
        functions: vec![Chunk {
            name: "main".to_string(),
            n_locals,
            n_params,
            code,
            consts: Vec::new(),
        }],
        main: 0,
    }
}

#[test]
fn rejects_stack_underflow() {
    let program = program_of(vec![Op::AddInt, Op::Return], 0, 0);
    let err = verify(&program).unwrap_err();
    assert!(matches!(err.kind, VerifyErrorKind::StackUnderflow { .. }), "{err:?}");
    assert_eq!(err.pc, 0);
}

#[test]
fn rejects_fall_off_the_end() {
    let program = program_of(vec![Op::PushInt(1)], 0, 0);
    let err = verify(&program).unwrap_err();
    assert!(matches!(err.kind, VerifyErrorKind::FellOffEnd), "{err:?}");
}

#[test]
fn rejects_jump_out_of_range() {
    let program = program_of(vec![Op::Jump(99), Op::Return], 0, 0);
    let err = verify(&program).unwrap_err();
    assert!(matches!(err.kind, VerifyErrorKind::JumpOutOfRange { target: 99 }), "{err:?}");
}

#[test]
fn rejects_bad_local_slot() {
    let program = program_of(vec![Op::LoadLocal(5), Op::Return], 0, 1);
    let err = verify(&program).unwrap_err();
    assert!(matches!(err.kind, VerifyErrorKind::BadLocal { slot: 5, .. }), "{err:?}");
}

#[test]
fn rejects_bad_string_constant() {
    let program = program_of(vec![Op::PushStr(0), Op::Return], 0, 0);
    let err = verify(&program).unwrap_err();
    assert!(matches!(err.kind, VerifyErrorKind::BadConst { index: 0, .. }), "{err:?}");
}

#[test]
fn rejects_inconsistent_merge() {
    // Offset 3 (`return`) is reached at height 1 by fall-through from offset 2
    // and at height 0 by the conditional jump.
    let clash = vec![Op::PushBool(true), Op::JumpIfFalse(3), Op::PushInt(7), Op::Return];
    let program = program_of(clash, 0, 0);
    let err = verify(&program).unwrap_err();
    assert!(matches!(err.kind, VerifyErrorKind::InconsistentStack { .. }), "{err:?}");
}

#[test]
fn rejects_arity_mismatch() {
    let program = Program {
        functions: vec![Chunk {
            name: "main".to_string(),
            n_locals: 0,
            n_params: 0,
            code: vec![Op::PushInt(1), Op::Call { func: 0, argc: 1 }, Op::Return],
            consts: Vec::new(),
        }],
        main: 0,
    };
    let err = verify(&program).unwrap_err();
    assert!(matches!(err.kind, VerifyErrorKind::ArityMismatch { expected: 0, found: 1 }), "{err:?}");
}

#[test]
fn rejects_bad_entry_point() {
    let program = Program { functions: Vec::new(), main: 0 };
    let err = verify(&program).unwrap_err();
    assert!(matches!(err.kind, VerifyErrorKind::BadCallTarget { .. }), "{err:?}");
}

#[test]
fn error_message_names_function_and_offset() {
    let program = program_of(vec![Op::AddInt, Op::Return], 0, 0);
    let err = verify(&program).unwrap_err();
    let text = err.to_string();
    assert!(text.contains("`main`"), "{text}");
    assert!(text.contains("offset 0"), "{text}");
}

#[test]
fn accepts_a_loop_with_balanced_stack() {
    // let mut i = 0; while i < 3 { i = i + 1 } return i
    let code = vec![
        Op::PushInt(0),
        Op::StoreLocal(0),
        Op::LoadLocal(0),
        Op::PushInt(3),
        Op::LtInt,
        Op::JumpIfFalse(11),
        Op::LoadLocal(0),
        Op::PushInt(1),
        Op::AddInt,
        Op::StoreLocal(0),
        Op::Jump(2),
        Op::LoadLocal(0),
        Op::Return,
    ];
    assert_eq!(verify(&program_of(code, 0, 1)), Ok(()));
}

#[test]
fn strings_in_the_pool_are_accepted() {
    let program = program_of_with_consts();
    assert_eq!(verify(&program), Ok(()));
}

fn program_of_with_consts() -> Program {
    Program {
        functions: vec![Chunk {
            name: "main".to_string(),
            n_locals: 0,
            n_params: 0,
            code: vec![Op::PushStr(0), Op::CallBuiltin { builtin: Builtin::PrintStr, argc: 1 }, Op::Return],
            consts: vec!["hi".to_string()],
        }],
        main: 0,
    }
}

#[test]
fn rejects_an_empty_function_as_falling_off_the_end() {
    let mut program = program_of_with_consts();
    program.functions.push(Chunk {
        name: "empty".to_string(),
        n_locals: 0,
        n_params: 0,
        code: Vec::new(),
        consts: Vec::new(),
    });
    let err = verify(&program).unwrap_err();
    assert_eq!(err.func, 1);
    assert_eq!(err.name, "empty");
    assert_eq!(err.pc, 0);
    assert_eq!(err.kind, VerifyErrorKind::FellOffEnd);
}

#[test]
fn rejects_builtin_arity_and_reports_exact_fields() {
    let program = program_of(
        vec![Op::PushInt(1), Op::CallBuiltin { builtin: Builtin::MinInt, argc: 1 }, Op::Return],
        0,
        0,
    );
    let err = verify(&program).unwrap_err();
    assert_eq!(err.func, 0);
    assert_eq!(err.pc, 1);
    assert_eq!(err.kind, VerifyErrorKind::BuiltinArity { builtin: "min", expected: 2, found: 1 });
    assert_eq!(err.to_string(), "in `main` at offset 1: builtin `min` takes 2 arguments, got 1");
}

#[test]
fn len_builtin_takes_one_argument() {
    let program = program_of(
        vec![Op::MakeArray(0), Op::CallBuiltin { builtin: Builtin::Len, argc: 1 }, Op::Return],
        0,
        0,
    );
    assert_eq!(verify(&program), Ok(()));
}

#[test]
fn bad_call_target_and_entry_messages() {
    let program = program_of(vec![Op::Call { func: 4, argc: 0 }, Op::Return], 0, 0);
    let err = verify(&program).unwrap_err();
    assert_eq!(err.kind, VerifyErrorKind::BadCallTarget { target: 4, functions: 1 });
    let entry = verify(&Program { functions: Vec::new(), main: 2 }).unwrap_err();
    assert_eq!(entry.name, "<entry>");
    assert_eq!(entry.kind, VerifyErrorKind::BadCallTarget { target: 2, functions: 0 });
    assert_eq!(entry.to_string(), "in `<entry>` at offset 0: call target 2 out of range (0 functions)");
}

#[test]
fn first_failing_function_is_reported() {
    let good = Chunk { name: "main".to_string(), n_locals: 0, n_params: 0, code: vec![Op::PushUnit, Op::Return], consts: Vec::new() };
    let bad = Chunk { name: "f".to_string(), n_locals: 0, n_params: 0, code: vec![Op::Pop, Op::Return], consts: Vec::new() };
    let err = verify(&Program { functions: vec![good, bad], main: 0 }).unwrap_err();
    assert_eq!(err.func, 1);
    assert_eq!(err.name, "f");
    assert_eq!(err.kind, VerifyErrorKind::StackUnderflow { needed: 1, found: 0 });
}
