use lumen::backend::vm::VmError;
use lumen::mir::MirStats;

#[test]
fn runtime_error_messages() {
    assert_eq!(VmError::DivisionByZero.to_string(), "division by zero");
    assert_eq!(VmError::IntegerOverflow.to_string(), "integer overflow");
    assert_eq!(
        VmError::IndexOutOfBounds { index: -3, len: 2 }.to_string(),
        "array index -3 out of bounds (length 2)"
    );
    assert_eq!(
        VmError::StepLimitExceeded(1000).to_string(),
        "execution exceeded the step limit (1000 steps)"
    );
    assert_eq!(VmError::Internal("stack empty").to_string(), "internal VM error: stack empty");
}

#[test]
fn mir_stats_total_sums_every_pass() {
    let s = MirStats { folded: 1, simplified: 2, propagated: 3, cse: 4, dead_stores: 5, removed: 6, blocks_removed: 7 };
    assert_eq!(s.total(), 28);
    assert_eq!(MirStats::default().total(), 0);
}
