use evm::context::ExecutionContext;
use evm::database::StubDatabase;
use evm::error::EvmError;
use evm::interpreter::{execute, execute_returning_stack, ExecutionResult};
use evm::stack::Stack;
use evm::word::U256;
use ruint::aliases::U256 as Uint;

fn word(v: u64) -> U256 {
    U256::from_u64(v)
}

fn from_ruint(v: Uint) -> U256 {
    U256::from_limbs(v.into_limbs())
}

fn run_with(code: Vec<u8>, gas: u64) -> (ExecutionResult, Vec<U256>) {
    let ctx = ExecutionContext { code, gas_limit: gas, ..Default::default() };
    let mut db = StubDatabase;
    execute_returning_stack(&ctx, &mut db)
}

fn push32(code: &mut Vec<u8>, v: Uint) {
    code.push(0x7F);
    code.extend_from_slice(&v.to_be_bytes::<32>());
}

fn neg(v: u64) -> Uint {
    Uint::ZERO.wrapping_sub(Uint::from(v))
}

#[test]
fn truncated_push_pads_on_the_right() {
    // PUSH2 with a single byte left in the code reads the missing byte as zero.
    let (result, stack) = run_with(vec![0x61, 0xAB], 100);
    assert!(matches!(result, ExecutionResult::Success { gas_used: 3, .. }));
    assert_eq!(stack, vec![word(0xAB00)]);
}

#[test]
fn push_immediate_is_big_endian() {
    let (_, stack) = run_with(vec![0x62, 0x01, 0x02, 0x03, 0x00], 100);
    assert_eq!(stack, vec![word(0x010203)]);
}

#[test]
fn sdiv_min_by_minus_one_wraps() {
    let min = Uint::from(1) << 255usize;
    let mut code = Vec::new();
    push32(&mut code, neg(1));
    push32(&mut code, min);
    code.push(0x05);
    let (_, stack) = run_with(code, 100);
    assert_eq!(stack, vec![from_ruint(min)]);
}

#[test]
fn smod_takes_sign_of_dividend() {
    // -7 smod -3 == -1 ; 7 smod -3 == 1
    let mut code = Vec::new();
    push32(&mut code, neg(3));
    push32(&mut code, neg(7));
    code.push(0x07);
    push32(&mut code, neg(3));
    code.extend_from_slice(&[0x60, 0x07, 0x07]);
    let (_, stack) = run_with(code, 100);
    assert_eq!(stack, vec![word(1), from_ruint(neg(1))]);
}

#[test]
fn signextend_beyond_31_bytes_keeps_value() {
    let (_, stack) = run_with(vec![0x60, 0xFF, 0x60, 0x1F, 0x0B, 0x00], 100);
    assert_eq!(stack, vec![word(0xFF)]);
}

#[test]
fn signextend_two_bytes() {
    // sign-extend 0x80FF from two bytes: negative
    let (_, stack) = run_with(vec![0x61, 0x80, 0xFF, 0x60, 0x01, 0x0B, 0x00], 100);
    let expected = (!Uint::from(0xFFFFu64)) | Uint::from(0x80FFu64);
    assert_eq!(stack, vec![from_ruint(expected)]);
    // 0x7FFF stays positive; the high byte 0x12 is cleared
    let (_, stack) = run_with(vec![0x62, 0x12, 0x7F, 0xFF, 0x60, 0x01, 0x0B, 0x00], 100);
    assert_eq!(stack, vec![word(0x7FFF)]);
}

#[test]
fn exp_wraps_and_charges_per_byte() {
    // 2 ** 256 wraps to zero; the exponent 256 takes two bytes: 10 + 100 gas
    let (result, stack) = run_with(vec![0x61, 0x01, 0x00, 0x60, 0x02, 0x0A, 0x00], 1000);
    assert!(matches!(result, ExecutionResult::Success { gas_used: 116, .. }));
    assert_eq!(stack, vec![U256::zero()]);
    // 3 ** 5 = 243, one exponent byte
    let (result, stack) = run_with(vec![0x60, 0x05, 0x60, 0x03, 0x0A, 0x00], 1000);
    assert!(matches!(result, ExecutionResult::Success { gas_used: 66, .. }));
    assert_eq!(stack, vec![word(243)]);
}

#[test]
fn exp_dynamic_gas_can_run_out() {
    // enough for the pushes and the static cost, not for the exponent byte
    let (result, stack) = run_with(vec![0x60, 0x05, 0x60, 0x03, 0x0A, 0x00], 20);
    assert!(matches!(result, ExecutionResult::Halt { reason: EvmError::OutOfGas }));
    assert!(stack.is_empty());
}

#[test]
fn addmod_and_mulmod_do_not_overflow() {
    // (MAX + MAX) mod 7 and (MAX * MAX) mod 7, computed exactly
    let mut code = Vec::new();
    code.extend_from_slice(&[0x60, 0x07]);
    push32(&mut code, Uint::MAX);
    push32(&mut code, Uint::MAX);
    code.push(0x08);
    let (_, stack) = run_with(code, 100);
    let expected = Uint::MAX.add_mod(Uint::MAX, Uint::from(7));
    assert_eq!(stack, vec![from_ruint(expected)]);

    let mut code = Vec::new();
    code.extend_from_slice(&[0x60, 0x07]);
    push32(&mut code, Uint::MAX);
    push32(&mut code, Uint::MAX);
    code.push(0x09);
    let (_, stack) = run_with(code, 100);
    let expected = Uint::MAX.mul_mod(Uint::MAX, Uint::from(7));
    assert_eq!(stack, vec![from_ruint(expected)]);
}

#[test]
fn sub_wraps_below_zero() {
    let (_, stack) = run_with(vec![0x60, 0x05, 0x60, 0x03, 0x03, 0x00], 100);
    assert_eq!(stack, vec![from_ruint(neg(2))]);
}

#[test]
fn mul_wraps() {
    let mut code = Vec::new();
    push32(&mut code, Uint::from(1) << 200usize);
    push32(&mut code, Uint::from(1) << 100usize);
    code.push(0x02);
    let (_, stack) = run_with(code, 100);
    assert_eq!(stack, vec![U256::zero()]);
}

#[test]
fn underflow_empties_the_stack() {
    let (result, stack) = run_with(vec![0x60, 0x01, 0x01], 100);
    assert!(matches!(result, ExecutionResult::Halt { reason: EvmError::StackUnderflow }));
    assert!(stack.is_empty());
    let (result, stack) = run_with(vec![0x60, 0x01, 0x60, 0x02, 0x08], 100);
    assert!(matches!(result, ExecutionResult::Halt { reason: EvmError::StackUnderflow }));
    assert!(stack.is_empty());
}

#[test]
fn static_gas_is_charged_before_the_opcode_runs() {
    // ADD on an empty stack with too little gas halts for gas, not underflow
    let ctx = ExecutionContext { code: vec![0x01], gas_limit: 2, ..Default::default() };
    let mut db = StubDatabase;
    assert!(matches!(execute(&ctx, &mut db), ExecutionResult::Halt { reason: EvmError::OutOfGas }));
}

#[test]
fn unknown_opcode_costs_nothing_and_halts() {
    let (result, stack) = run_with(vec![0x60, 0x01, 0xFE, 0x60, 0x02], 3);
    assert!(matches!(result, ExecutionResult::Halt { reason: EvmError::InvalidOpcode(0xFE) }));
    assert_eq!(stack, vec![word(1)]);
}

#[test]
fn final_stack_is_top_first() {
    let (_, stack) = run_with(vec![0x60, 0x01, 0x60, 0x02, 0x60, 0x03, 0x00], 100);
    assert_eq!(stack, vec![word(3), word(2), word(1)]);
}

#[test]
fn stack_dup_and_swap_errors() {
    let mut stack = Stack::new();
    assert_eq!(stack.dup(1), Err(EvmError::StackUnderflow));
    assert_eq!(stack.swap(0), Err(EvmError::StackUnderflow));
    for i in 0..1024 {
        stack.push(word(i)).unwrap();
    }
    assert_eq!(stack.dup(1), Err(EvmError::StackOverflow));
    assert_eq!(stack.len(), 1024);
    let copy = stack.clone();
    assert_eq!(copy.len(), 1024);
    assert_eq!(Stack::default().len(), 0);
}

#[test]
fn word_constructors() {
    assert_eq!(U256::max_value().into_limbs(), [u64::MAX; 4]);
    assert_eq!(U256::zero().into_limbs(), [0; 4]);
    assert_eq!(U256::from_u64(9).into_limbs(), [9, 0, 0, 0]);
    assert_eq!(U256::from_limbs([1, 2, 3, 4]).into_limbs(), [1, 2, 3, 4]);
}

#[test]
fn every_error_has_a_message() {
    assert_eq!(EvmError::WriteProtection.to_string(), "write protection violation");
    assert_eq!(EvmError::CallDepthExceeded.to_string(), "call depth exceeded");
    assert_eq!(EvmError::InvalidMemoryAccess.to_string(), "invalid memory access");
    assert_eq!(EvmError::ReturnDataOutOfBounds.to_string(), "return data out of bounds");
    assert_eq!(EvmError::InvalidOpcode(0x0C).to_string(), "invalid opcode: 0x0c");
}
