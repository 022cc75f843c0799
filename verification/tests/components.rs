use bfvm::io::IoAdapter;
use bfvm::Engine;
use bfvm::Program;
use bfvm::RunStatus;
use bfvm::VirtualMachine;
use bfvm::VmError;

#[test]
fn engine_drives_program_to_done() {
    let program = Program::new(b"++.".to_vec()).unwrap();
    let mut engine = Engine::new(program, Vec::new());
    let status = engine.run(10);
    assert_eq!(status, RunStatus::Done);
    assert_eq!(engine.io.output, vec![2u8]);
    assert_eq!(engine.pc, 3);
}

#[test]
fn io_adapter_reads_in_order_then_zero() {
    let mut io = IoAdapter::new(vec![7u8]);
    assert_eq!(io.read(), 7);
    assert_eq!(io.read(), 0);
    io.write(9);
    assert_eq!(io.output, vec![9u8]);
}

#[test]
fn resolver_pairs_nested_brackets() {
    let program = Program::new(b"[[]]".to_vec()).unwrap();
    assert_eq!(program.jumps, vec![3, 2, 1, 0]);
}

#[test]
fn resolver_pairs_sequential_brackets() {
    let program = Program::new(b"[][]".to_vec()).unwrap();
    assert_eq!(program.jumps, vec![1, 0, 3, 2]);
}

#[test]
fn resolver_pairs_brackets_between_noops() {
    let program = Program::new(b"+[>[-]<]".to_vec()).unwrap();
    assert_eq!(program.jumps[1], 7);
    assert_eq!(program.jumps[7], 1);
    assert_eq!(program.jumps[3], 5);
    assert_eq!(program.jumps[5], 3);
}

#[test]
fn resolver_rejects_lone_close() {
    let err = Program::new(b"]".to_vec()).unwrap_err();
    assert_eq!(err, VmError::UnmatchedClose { position: 0 });
}

#[test]
fn resolver_rejects_lone_open() {
    let err = Program::new(b"[".to_vec()).unwrap_err();
    assert_eq!(err, VmError::UnmatchedOpen { position: 0 });
}

#[test]
fn fresh_tape_is_zeroed_with_midpoint_pointer() {
    let vm = VirtualMachine::new(4);
    assert_eq!(vm.pointer, 1);
    assert_eq!(vm.cells, vec![0, 0, 0, 0]);
}

#[test]
fn increment_wraps_at_cell_maximum() {
    let mut vm = VirtualMachine::new(4);
    vm.write_cell(255);
    vm.increment();
    assert_eq!(vm.read_cell(), 0);
}

#[test]
fn decrement_wraps_at_cell_minimum() {
    let mut vm = VirtualMachine::new(4);
    vm.decrement();
    assert_eq!(vm.read_cell(), 255);
}

#[test]
fn move_left_refused_at_cell_zero() {
    let mut vm = VirtualMachine::new(2);
    assert!(!vm.move_left());
    assert_eq!(vm.pointer, 0);
}

#[test]
fn move_right_refused_at_last_cell() {
    let mut vm = VirtualMachine::new(2);
    assert!(vm.move_right());
    assert!(!vm.move_right());
    assert_eq!(vm.pointer, 1);
}
