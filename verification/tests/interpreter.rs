use evm::context::ExecutionContext;
use evm::database::StubDatabase;
use evm::error::EvmError;
use evm::interpreter::{execute, execute_returning_stack, ExecutionResult};
use evm::word::U256;
use ruint::aliases::U256 as Uint;

fn word(v: u64) -> U256 {
    U256::from_u64(v)
}

fn from_ruint(v: Uint) -> U256 {
    U256::from_limbs(v.into_limbs())
}

fn run(bytecode: &[u8]) -> ExecutionResult {
    let ctx = ExecutionContext {
        code: bytecode.to_vec(),
        gas_limit: 10_000,
        ..Default::default()
    };
    let mut db = StubDatabase;
    execute(&ctx, &mut db)
}

fn run_returning_stack(bytecode: &[u8]) -> U256 {
    let ctx = ExecutionContext {
        code: bytecode.to_vec(),
        gas_limit: 100_000,
        ..Default::default()
    };
    let mut db = StubDatabase;
    let (result, stack) = execute_returning_stack(&ctx, &mut db);
    match result {
        ExecutionResult::Success { .. } => {},
        other => panic!("expected Success, got {other:?}"),
    }
    stack[0]
}

#[test]
fn stop() {
    let result = run(&[0x00]);
    match result {
        ExecutionResult::Success { gas_used, .. } => assert_eq!(gas_used, 0),
        other => panic!("expected Success, got {other:?}"),
    }
}

#[test]
fn empty_bytecode_is_stop() {
    let result = run(&[]);
    assert!(matches!(result, ExecutionResult::Success { .. }));
}

#[test]
fn push1() {
    let result = run(&[0x60, 0x42, 0x00]);
    match result {
        ExecutionResult::Success { gas_used, .. } => assert_eq!(gas_used, 3),
        other => panic!("expected Success, got {other:?}"),
    }
}

#[test]
fn push32() {
    let mut bytecode = vec![0x7F];
    bytecode.extend_from_slice(&[0xFF; 32]);
    bytecode.push(0x00);
    let result = run(&bytecode);
    assert!(matches!(result, ExecutionResult::Success { gas_used, .. } if gas_used == 3));
}

#[test]
fn pop() {
    let result = run(&[0x60, 0x01, 0x50, 0x00]);
    match result {
        ExecutionResult::Success { gas_used, .. } => assert_eq!(gas_used, 5),
        other => panic!("expected Success, got {other:?}"),
    }
}

#[test]
fn pop_empty_stack_halts() {
    let result = run(&[0x50]);
    assert!(matches!(result, ExecutionResult::Halt { reason: EvmError::StackUnderflow }));
}

#[test]
fn invalid_opcode_halts() {
    let result = run(&[0xEF]);
    assert!(matches!(result, ExecutionResult::Halt { reason: EvmError::InvalidOpcode(0xEF) }));
}

#[test]
fn out_of_gas() {
    let ctx = ExecutionContext {
        code: vec![0x60, 0x01, 0x00],
        gas_limit: 1,
        ..Default::default()
    };
    let mut db = StubDatabase;
    let result = execute(&ctx, &mut db);
    assert!(matches!(result, ExecutionResult::Halt { reason: EvmError::OutOfGas }));
}

#[test]
fn add() {
    let val = run_returning_stack(&[0x60, 0x01, 0x60, 0x02, 0x01, 0x00]);
    assert_eq!(val, word(3));
}

#[test]
fn add_overflow_wraps() {
    let mut bytecode = vec![0x7F];
    bytecode.extend_from_slice(&[0xFF; 32]);
    bytecode.extend_from_slice(&[0x60, 0x01]);
    bytecode.push(0x01);
    bytecode.push(0x00);
    let val = run_returning_stack(&bytecode);
    assert_eq!(val, U256::zero());
}

#[test]
fn mul() {
    let val = run_returning_stack(&[0x60, 0x03, 0x60, 0x07, 0x02, 0x00]);
    assert_eq!(val, word(21));
}

#[test]
fn sub() {
    let val = run_returning_stack(&[0x60, 0x03, 0x60, 0x05, 0x03, 0x00]);
    assert_eq!(val, word(2));
}

#[test]
fn div() {
    let val = run_returning_stack(&[0x60, 0x02, 0x60, 0x0A, 0x04, 0x00]);
    assert_eq!(val, word(5));
}

#[test]
fn div_by_zero() {
    let val = run_returning_stack(&[0x60, 0x00, 0x60, 0x0A, 0x04, 0x00]);
    assert_eq!(val, U256::zero());
}

#[test]
fn sdiv_positive() {
    let val = run_returning_stack(&[0x60, 0x02, 0x60, 0x04, 0x05, 0x00]);
    assert_eq!(val, word(2));
}

#[test]
fn sdiv_neg_dividend() {
    let neg4 = (!Uint::from(4)).wrapping_add(Uint::from(1));
    let neg2 = (!Uint::from(2)).wrapping_add(Uint::from(1));
    let mut bytecode = Vec::new();
    bytecode.push(0x60); bytecode.push(0x02);
    bytecode.push(0x7F);
    bytecode.extend_from_slice(&neg4.to_be_bytes::<32>());
    bytecode.push(0x05);
    bytecode.push(0x00);
    let val = run_returning_stack(&bytecode);
    assert_eq!(val, from_ruint(neg2));
}

#[test]
fn sdiv_both_neg() {
    let neg4 = (!Uint::from(4)).wrapping_add(Uint::from(1));
    let neg2 = (!Uint::from(2)).wrapping_add(Uint::from(1));
    let mut bytecode = Vec::new();
    bytecode.push(0x7F);
    bytecode.extend_from_slice(&neg2.to_be_bytes::<32>());
    bytecode.push(0x7F);
    bytecode.extend_from_slice(&neg4.to_be_bytes::<32>());
    bytecode.push(0x05);
    bytecode.push(0x00);
    let val = run_returning_stack(&bytecode);
    assert_eq!(val, word(2));
}

#[test]
fn mod_op() {
    let val = run_returning_stack(&[0x60, 0x03, 0x60, 0x0A, 0x06, 0x00]);
    assert_eq!(val, word(1));
}

#[test]
fn mod_by_zero() {
    let val = run_returning_stack(&[0x60, 0x00, 0x60, 0x0A, 0x06, 0x00]);
    assert_eq!(val, U256::zero());
}

#[test]
fn smod_positive() {
    let val = run_returning_stack(&[0x60, 0x03, 0x60, 0x0A, 0x07, 0x00]);
    assert_eq!(val, word(1));
}

#[test]
fn smod_neg_dividend() {
    let neg10 = (!Uint::from(10)).wrapping_add(Uint::from(1));
    let neg1 = (!Uint::from(1)).wrapping_add(Uint::from(1));
    let mut bytecode = Vec::new();
    bytecode.push(0x60); bytecode.push(0x03);
    bytecode.push(0x7F);
    bytecode.extend_from_slice(&neg10.to_be_bytes::<32>());
    bytecode.push(0x07);
    bytecode.push(0x00);
    let val = run_returning_stack(&bytecode);
    assert_eq!(val, from_ruint(neg1));
}

#[test]
fn addmod() {
    let val = run_returning_stack(&[0x60, 0x03, 0x60, 0x02, 0x60, 0x0A, 0x08, 0x00]);
    assert_eq!(val, U256::zero());
}

#[test]
fn addmod_zero_mod() {
    let val = run_returning_stack(&[0x60, 0x00, 0x60, 0x02, 0x60, 0x0A, 0x08, 0x00]);
    assert_eq!(val, U256::zero());
}

#[test]
fn mulmod() {
    let val = run_returning_stack(&[0x60, 0x04, 0x60, 0x03, 0x60, 0x0A, 0x09, 0x00]);
    assert_eq!(val, word(2));
}

#[test]
fn exp_op() {
    let val = run_returning_stack(&[0x60, 0x03, 0x60, 0x02, 0x0A, 0x00]);
    assert_eq!(val, word(8));
}

#[test]
fn exp_zero_exponent() {
    let val = run_returning_stack(&[0x60, 0x00, 0x60, 0x05, 0x0A, 0x00]);
    assert_eq!(val, word(1));
}

#[test]
fn exp_gas_dynamic_cost() {
    let result = run(&[0x60, 0xFF, 0x60, 0x02, 0x0A, 0x00]);
    match result {
        ExecutionResult::Success { gas_used, .. } => assert_eq!(gas_used, 66),
        other => panic!("expected Success, got {other:?}"),
    }
}

#[test]
fn signextend_negative() {
    let val = run_returning_stack(&[0x60, 0xFF, 0x60, 0x00, 0x0B, 0x00]);
    assert_eq!(val, U256::max_value());
}

#[test]
fn signextend_positive() {
    let val = run_returning_stack(&[0x60, 0x7F, 0x60, 0x00, 0x0B, 0x00]);
    assert_eq!(val, word(0x7F));
}
