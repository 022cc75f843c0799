use bfvm::exec;
use bfvm::RunStatus;
use bfvm::VmError;

#[test]
fn empty_program_terminates() {
    let outcome = exec(Vec::new(), Vec::new(), 10);
    assert_eq!(outcome.status, RunStatus::Done);
    assert!(outcome.output.is_empty());
}

#[test]
fn eight_by_eight_outputs_at_sign() {
    let outcome = exec(b"++++++++[>++++++++<-]>.".to_vec(), Vec::new(), 100_000);
    assert_eq!(outcome.status, RunStatus::Done);
    assert_eq!(outcome.output, vec![64u8]);
}

#[test]
fn loop_once_terminates() {
    let outcome = exec(b"+[-]".to_vec(), Vec::new(), 1_000);
    assert_eq!(outcome.status, RunStatus::Done);
    assert!(outcome.output.is_empty());
}

#[test]
fn nested_loops_multiply() {
    let outcome = exec(b"++[>++[>+<-]<-]>>.".to_vec(), Vec::new(), 100_000);
    assert_eq!(outcome.status, RunStatus::Done);
    assert_eq!(outcome.output, vec![4u8]);
}

#[test]
fn skipped_loop_when_cell_zero() {
    let outcome = exec(b"[+++.]-.".to_vec(), Vec::new(), 1_000);
    assert_eq!(outcome.status, RunStatus::Done);
    assert_eq!(outcome.output, vec![255u8]);
}

#[test]
fn unmatched_close_reported() {
    let outcome = exec(b"]".to_vec(), Vec::new(), 10);
    assert_eq!(
        outcome.status,
        RunStatus::Fault(VmError::UnmatchedClose { position: 0 })
    );
    assert!(outcome.output.is_empty());
}

#[test]
fn unmatched_close_first_violation_reported() {
    let outcome = exec(b"[]]".to_vec(), Vec::new(), 10);
    assert_eq!(
        outcome.status,
        RunStatus::Fault(VmError::UnmatchedClose { position: 2 })
    );
}

#[test]
fn unmatched_open_reported() {
    let outcome = exec(b"[".to_vec(), Vec::new(), 10);
    assert_eq!(
        outcome.status,
        RunStatus::Fault(VmError::UnmatchedOpen { position: 0 })
    );
    assert!(outcome.output.is_empty());
}

#[test]
fn unmatched_open_last_pending_reported() {
    let outcome = exec(b"[[]".to_vec(), Vec::new(), 10);
    assert_eq!(
        outcome.status,
        RunStatus::Fault(VmError::UnmatchedOpen { position: 0 })
    );
}

#[test]
fn pointer_underflow_faults() {
    let outcome = exec("<".repeat(512).into_bytes(), Vec::new(), 10_000);
    assert_eq!(
        outcome.status,
        RunStatus::Fault(VmError::PointerOutOfBounds { pc: 511, pointer: 0 })
    );
}

#[test]
fn pointer_overflow_faults() {
    let outcome = exec(">".repeat(513).into_bytes(), Vec::new(), 10_000);
    assert_eq!(
        outcome.status,
        RunStatus::Fault(VmError::PointerOutOfBounds { pc: 512, pointer: 1023 })
    );
}

#[test]
fn output_kept_when_fault_stops_run() {
    let mut code = b".".to_vec();
    code.extend("<".repeat(512).into_bytes());
    let outcome = exec(code, Vec::new(), 10_000);
    assert_eq!(
        outcome.status,
        RunStatus::Fault(VmError::PointerOutOfBounds { pc: 512, pointer: 0 })
    );
    assert_eq!(outcome.output, vec![0u8]);
}

#[test]
fn read_consumes_input_in_order() {
    let outcome = exec(b",.,.".to_vec(), vec![65u8, 66u8], 1_000);
    assert_eq!(outcome.status, RunStatus::Done);
    assert_eq!(outcome.output, vec![65u8, 66u8]);
}

#[test]
fn read_past_end_of_input_stores_zero() {
    let outcome = exec(b"+,.".to_vec(), Vec::new(), 1_000);
    assert_eq!(outcome.status, RunStatus::Done);
    assert_eq!(outcome.output, vec![0u8]);
}

#[test]
fn decrement_fresh_cell_wraps_to_max() {
    let outcome = exec(b"-.".to_vec(), Vec::new(), 1_000);
    assert_eq!(outcome.status, RunStatus::Done);
    assert_eq!(outcome.output, vec![255u8]);
}

#[test]
fn other_bytes_are_noops() {
    let outcome = exec(b"a+b+c. comment".to_vec(), Vec::new(), 1_000);
    assert_eq!(outcome.status, RunStatus::Done);
    assert_eq!(outcome.output, vec![2u8]);
}

#[test]
fn endless_loop_runs_out_of_fuel() {
    let outcome = exec(b"+[]".to_vec(), Vec::new(), 50);
    assert_eq!(outcome.status, RunStatus::OutOfFuel);
    assert!(outcome.output.is_empty());
}
