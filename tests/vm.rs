use rust_vm::semantics::{
    ADD, DIV, DROP_N, EQ, GE, GT, HALT, JUMP, JUMP_IF_ZERO, LE, LOAD_AT_DEPTH, LT, MOD, MUL,
    PUSH_CONST, STORE_AT_DEPTH, SUB,
};
use rust_vm::{binary_op, VmError, VM};

fn push(code: &mut Vec<u8>, v: i32) {
    code.push(PUSH_CONST);
    code.extend_from_slice(&v.to_be_bytes());
}

fn with_operand(code: &mut Vec<u8>, op: u8, v: i32) {
    code.push(op);
    code.extend_from_slice(&v.to_be_bytes());
}

fn run_program(code: Vec<u8>) -> (VM, Result<(), VmError>) {
    let mut vm = VM::new(code);
    let r = vm.run();
    (vm, r)
}

fn result_of(code: Vec<u8>) -> Result<i32, VmError> {
    let (vm, r) = run_program(code);
    r?;
    vm.get_result()
}

fn binary_program(first: i32, second: i32, op: u8) -> Vec<u8> {
    let mut code = Vec::new();
    push(&mut code, first);
    push(&mut code, second);
    code.push(op);
    code.push(HALT);
    code
}

#[test]
fn push_const_then_halt_gives_the_value() {
    for v in [0, 1, -1, 42, -123456, i32::MIN, i32::MAX] {
        let mut code = Vec::new();
        push(&mut code, v);
        code.push(HALT);
        assert_eq!(result_of(code), Ok(v));
    }
}

#[test]
fn running_twice_gives_the_same_result() {
    let code = binary_program(3, 5, SUB);
    let first = result_of(code.clone());
    let second = result_of(code);
    assert_eq!(first, Ok(2));
    assert_eq!(first, second);
}

#[test]
fn sub_uses_top_as_left_operand() {
    assert_eq!(result_of(binary_program(3, 5, SUB)), Ok(2));
}

#[test]
fn div_by_zero_right_operand_fails() {
    assert_eq!(result_of(binary_program(0, 7, DIV)), Err(VmError::DivideByZero));
    assert_eq!(result_of(binary_program(0, 7, MOD)), Err(VmError::DivideByZero));
}

#[test]
fn div_with_zero_on_top_divides_zero() {
    // The top (0) is the dividend and the value below it (7) the divisor.
    assert_eq!(result_of(binary_program(7, 0, DIV)), Ok(0));
}

#[test]
fn drop_of_only_value_leaves_no_result() {
    let mut code = Vec::new();
    push(&mut code, 1);
    with_operand(&mut code, DROP_N, 1);
    code.push(HALT);
    let (vm, r) = run_program(code);
    assert_eq!(r, Ok(()));
    assert_eq!(vm.get_result(), Err(VmError::EmptyResult));
}

#[test]
fn drop_on_empty_stack_underflows() {
    let mut code = Vec::new();
    with_operand(&mut code, DROP_N, 1);
    code.push(HALT);
    assert_eq!(run_program(code).1, Err(VmError::StackUnderflow));
}

#[test]
fn jump_if_zero_jumps_on_zero() {
    let mut code = Vec::new();
    push(&mut code, 0);
    push(&mut code, 10);
    code.push(JUMP_IF_ZERO);
    let mut vm = VM::new(code);
    assert_eq!(vm.step(), Ok(()));
    assert_eq!(vm.step(), Ok(()));
    assert_eq!(vm.step(), Ok(()));
    assert_eq!(vm.ip(), 10);
    assert!(vm.stack().is_empty());
}

#[test]
fn jump_if_zero_falls_through_on_nonzero() {
    let mut code = Vec::new();
    push(&mut code, 1);
    push(&mut code, 10);
    code.push(JUMP_IF_ZERO);
    push(&mut code, 77);
    code.push(HALT);
    let mut vm = VM::new(code);
    assert_eq!(vm.step(), Ok(()));
    assert_eq!(vm.step(), Ok(()));
    assert_eq!(vm.step(), Ok(()));
    assert_eq!(vm.ip(), 11);
    assert_eq!(vm.run(), Ok(()));
    assert_eq!(vm.get_result(), Ok(77));
    assert_eq!(vm.stack(), &[77]);
}

#[test]
fn load_at_depth_zero_duplicates_top() {
    let mut code = Vec::new();
    push(&mut code, 4);
    push(&mut code, 9);
    with_operand(&mut code, LOAD_AT_DEPTH, 0);
    code.push(HALT);
    let (vm, r) = run_program(code);
    assert_eq!(r, Ok(()));
    assert_eq!(vm.stack(), &[4, 9, 9]);
}

#[test]
fn load_at_depth_copies_deeper_value() {
    let mut code = Vec::new();
    push(&mut code, 4);
    push(&mut code, 9);
    with_operand(&mut code, LOAD_AT_DEPTH, 1);
    code.push(HALT);
    let (vm, r) = run_program(code);
    assert_eq!(r, Ok(()));
    assert_eq!(vm.stack(), &[4, 9, 4]);
}

#[test]
fn load_at_depth_out_of_range() {
    for d in [2, -1, i32::MAX, i32::MIN] {
        let mut code = Vec::new();
        push(&mut code, 4);
        push(&mut code, 9);
        with_operand(&mut code, LOAD_AT_DEPTH, d);
        let (vm, r) = run_program(code);
        assert_eq!(r, Err(VmError::AddressOutOfRange));
        assert_eq!(vm.stack(), &[4, 9]);
        assert_eq!(vm.ip(), 10);
    }
}

#[test]
fn store_at_depth_overwrites_below_popped_value() {
    let mut code = Vec::new();
    push(&mut code, 1);
    push(&mut code, 2);
    push(&mut code, 3);
    push(&mut code, 8);
    with_operand(&mut code, STORE_AT_DEPTH, 2);
    code.push(HALT);
    let (vm, r) = run_program(code);
    assert_eq!(r, Ok(()));
    assert_eq!(vm.stack(), &[8, 2, 3]);
}

#[test]
fn store_at_depth_errors() {
    let mut code = Vec::new();
    push(&mut code, 1);
    push(&mut code, 8);
    with_operand(&mut code, STORE_AT_DEPTH, 1);
    assert_eq!(run_program(code).1, Err(VmError::AddressOutOfRange));

    let mut code = Vec::new();
    with_operand(&mut code, STORE_AT_DEPTH, 0);
    assert_eq!(run_program(code).1, Err(VmError::StackUnderflow));
}

#[test]
fn lone_unknown_byte_fails() {
    assert_eq!(run_program(vec![0xFF]).1, Err(VmError::UnknownOpcode));
    assert_eq!(run_program(vec![0x35]).1, Err(VmError::UnknownOpcode));
}

#[test]
fn truncated_immediate_is_malformed() {
    let (vm, r) = run_program(vec![PUSH_CONST, 0, 0, 1]);
    assert_eq!(r, Err(VmError::MalformedProgram));
    assert_eq!(vm.ip(), 0);
    assert!(vm.stack().is_empty());
}

#[test]
fn negative_drop_count_is_malformed() {
    let mut code = Vec::new();
    push(&mut code, 1);
    with_operand(&mut code, DROP_N, -1);
    assert_eq!(run_program(code).1, Err(VmError::MalformedProgram));
}

#[test]
fn drop_n_removes_several() {
    let mut code = Vec::new();
    push(&mut code, 1);
    push(&mut code, 2);
    push(&mut code, 3);
    with_operand(&mut code, DROP_N, 2);
    code.push(HALT);
    let (vm, r) = run_program(code);
    assert_eq!(r, Ok(()));
    assert_eq!(vm.stack(), &[1]);
}

#[test]
fn binary_operators_take_top_first() {
    assert_eq!(result_of(binary_program(2, 3, ADD)), Ok(5));
    assert_eq!(result_of(binary_program(4, 6, MUL)), Ok(24));
    assert_eq!(result_of(binary_program(2, 7, DIV)), Ok(3));
    assert_eq!(result_of(binary_program(2, -7, DIV)), Ok(-3));
    assert_eq!(result_of(binary_program(2, 7, MOD)), Ok(1));
    assert_eq!(result_of(binary_program(2, -7, MOD)), Ok(-1));
    assert_eq!(result_of(binary_program(-2, 7, MOD)), Ok(1));
    assert_eq!(result_of(binary_program(3, 3, EQ)), Ok(1));
    assert_eq!(result_of(binary_program(3, 4, EQ)), Ok(0));
    assert_eq!(result_of(binary_program(3, 4, GT)), Ok(1));
    assert_eq!(result_of(binary_program(3, 4, LT)), Ok(0));
    assert_eq!(result_of(binary_program(4, 4, GE)), Ok(1));
    assert_eq!(result_of(binary_program(5, 4, GE)), Ok(0));
    assert_eq!(result_of(binary_program(4, 4, LE)), Ok(1));
    assert_eq!(result_of(binary_program(3, 4, LE)), Ok(0));
}

#[test]
fn arithmetic_wraps_at_32_bits() {
    assert_eq!(result_of(binary_program(1, i32::MAX, ADD)), Ok(i32::MIN));
    assert_eq!(result_of(binary_program(1, i32::MIN, SUB)), Ok(i32::MAX));
    assert_eq!(result_of(binary_program(2, i32::MAX, MUL)), Ok(-2));
    assert_eq!(result_of(binary_program(-1, i32::MIN, DIV)), Ok(i32::MIN));
    assert_eq!(result_of(binary_program(-1, i32::MIN, MOD)), Ok(0));
}

#[test]
fn binary_op_direct() {
    assert_eq!(binary_op(SUB, 5, 3), Ok(2));
    assert_eq!(binary_op(DIV, 7, 0), Err(VmError::DivideByZero));
    assert_eq!(binary_op(LT, 1, 2), Ok(1));
}

#[test]
fn binary_operator_underflow() {
    let mut code = Vec::new();
    push(&mut code, 1);
    code.push(ADD);
    let (vm, r) = run_program(code);
    assert_eq!(r, Err(VmError::StackUnderflow));
    assert_eq!(vm.stack(), &[1]);
}

#[test]
fn jump_sets_ip() {
    let mut code = Vec::new();
    push(&mut code, 12);
    code.push(JUMP);
    push(&mut code, 1);
    code.push(HALT);
    push(&mut code, 2);
    code.push(HALT);
    assert_eq!(result_of(code), Ok(2));
}

#[test]
fn jump_to_program_end_halts() {
    let mut code = Vec::new();
    push(&mut code, 6);
    code.push(JUMP);
    let (vm, r) = run_program(code);
    assert_eq!(r, Ok(()));
    assert!(vm.is_halted());
    assert_eq!(vm.ip(), 6);
}

#[test]
fn halt_stops_before_later_bytes() {
    let mut code = Vec::new();
    push(&mut code, 5);
    code.push(HALT);
    code.push(0xFF);
    let (vm, r) = run_program(code);
    assert_eq!(r, Ok(()));
    assert_eq!(vm.ip(), 7);
    assert_eq!(vm.get_result(), Ok(5));
}

#[test]
fn empty_program_halts_at_once() {
    let (vm, r) = run_program(Vec::new());
    assert_eq!(r, Ok(()));
    assert!(vm.is_halted());
    assert_eq!(vm.get_result(), Err(VmError::EmptyResult));
}

#[test]
fn step_after_halt_does_nothing() {
    let mut vm = VM::new(vec![HALT]);
    assert_eq!(vm.step(), Ok(()));
    assert_eq!(vm.ip(), 1);
    assert_eq!(vm.step(), Ok(()));
    assert_eq!(vm.ip(), 1);
}

#[test]
fn countdown_loop_runs_to_completion() {
    // counter = 3; loop: counter = counter - 1 until it is zero.
    let mut code = Vec::new();
    push(&mut code, 3); // 0..5
    push(&mut code, 1); // 5..10
    with_operand(&mut code, LOAD_AT_DEPTH, 1); // 10..15
    code.push(SUB); // 15
    with_operand(&mut code, STORE_AT_DEPTH, 0); // 16..21
    with_operand(&mut code, LOAD_AT_DEPTH, 0); // 21..26
    push(&mut code, 38); // 26..31
    code.push(JUMP_IF_ZERO); // 31
    push(&mut code, 5); // 32..37
    code.push(JUMP); // 37
    code.push(HALT); // 38
    assert_eq!(code.len(), 39);
    assert_eq!(result_of(code), Ok(0));
}
