use evm::context::ExecutionContext;
use evm::database::StubDatabase;
use evm::error::EvmError;
use evm::gas::Gas;
use evm::interpreter::{execute, ExecutionResult};
use evm::memory::Memory;
use evm::stack::Stack;
use evm::word::U256;

fn word(v: u64) -> U256 {
    U256::from_u64(v)
}

#[test]
fn pop_undoes_push() {
    let mut stack = Stack::new();
    stack.push(word(7)).unwrap();
    stack.push(word(8)).unwrap();
    stack.push(word(9)).unwrap();
    assert_eq!(stack.pop().unwrap(), word(9));
    assert_eq!(stack.len(), 2);
    assert_eq!(stack.peek(0).unwrap(), word(8));
    assert_eq!(stack.peek(1).unwrap(), word(7));
}

#[test]
fn swap_twice_restores() {
    let mut stack = Stack::new();
    for v in 1..=4 {
        stack.push(word(v)).unwrap();
    }
    stack.swap(3).unwrap();
    assert_eq!(stack.peek(0).unwrap(), word(1));
    assert_eq!(stack.peek(3).unwrap(), word(4));
    stack.swap(3).unwrap();
    for depth in 0..4 {
        assert_eq!(stack.peek(depth).unwrap(), word(4 - depth as u64));
    }
}

#[test]
fn read_after_write_at_unaligned_offset() {
    let mut memory = Memory::new();
    let value = U256::from_limbs([1, 2, 3, 4]);
    memory.set_u256(5, value);
    assert_eq!(memory.size(), 64);
    assert_eq!(memory.get_u256(5), value);
    assert_eq!(memory.size(), 64);
    assert_eq!(memory.get_u256(40), U256::zero());
    assert_eq!(memory.size(), 96);
}

#[test]
fn memory_growth_keeps_bytes() {
    let mut memory = Memory::new();
    memory.set_byte(3, 0x11);
    memory.set_byte(100, 0x22);
    assert_eq!(memory.size(), 128);
    let first = memory.get_u256(0);
    let expected: ruint::aliases::U256 = ruint::aliases::U256::from(0x11u64) << 224usize;
    assert_eq!(first, U256::from_limbs(expected.into_limbs()));
    assert_eq!(memory.size() % 32, 0);
}

#[test]
fn failed_consume_changes_nothing() {
    let mut gas = Gas::new(50);
    assert!(gas.consume(20).is_ok());
    assert_eq!(gas.consume(31), Err(EvmError::OutOfGas));
    assert_eq!(gas.used(), 20);
    assert_eq!(gas.remaining(), 30);
    assert!(gas.consume(30).is_ok());
    assert_eq!(gas.remaining(), 0);
    assert_eq!(gas.consume(u64::MAX), Err(EvmError::OutOfGas));
}

#[test]
fn gas_used_stays_within_limit() {
    for limit in 0..20u64 {
        let ctx = ExecutionContext {
            code: vec![0x60, 0x01, 0x60, 0x02, 0x01, 0x60, 0x03, 0x02, 0x00],
            gas_limit: limit,
            ..Default::default()
        };
        let mut db = StubDatabase;
        match execute(&ctx, &mut db) {
            ExecutionResult::Success { gas_used, .. } => {
                assert!(gas_used <= limit);
                assert_eq!(gas_used, 15);
            },
            ExecutionResult::Halt { reason } => {
                assert_eq!(reason, EvmError::OutOfGas);
                assert!(limit < 15);
            },
            other => panic!("unexpected {other:?}"),
        }
    }
}

#[test]
fn zero_divisors_give_zero() {
    // PUSH1 0, PUSH1 9, op, STOP for each of DIV, SDIV, MOD, SMOD
    for op in [0x04u8, 0x05, 0x06, 0x07] {
        let ctx = ExecutionContext {
            code: vec![0x60, 0x00, 0x60, 0x09, op, 0x00],
            gas_limit: 100,
            ..Default::default()
        };
        let mut db = StubDatabase;
        let (result, stack) = evm::interpreter::execute_returning_stack(&ctx, &mut db);
        assert!(matches!(result, ExecutionResult::Success { .. }));
        assert_eq!(stack, vec![U256::zero()]);
    }
    // PUSH1 0 (modulus), PUSH1 5, PUSH1 9, op, STOP for ADDMOD and MULMOD
    for op in [0x08u8, 0x09] {
        let ctx = ExecutionContext {
            code: vec![0x60, 0x00, 0x60, 0x05, 0x60, 0x09, op, 0x00],
            gas_limit: 100,
            ..Default::default()
        };
        let mut db = StubDatabase;
        let (_, stack) = evm::interpreter::execute_returning_stack(&ctx, &mut db);
        assert_eq!(stack, vec![U256::zero()]);
    }
}

#[test]
fn distinct_bytes_have_distinct_names() {
    let names: Vec<String> = (0..=255u8).map(evm::opcode::opcode_name).collect();
    for i in 0..256 {
        for j in (i + 1)..256 {
            assert_ne!(names[i], names[j]);
        }
    }
}

#[test]
fn overflow_comes_from_a_full_push_and_keeps_the_stack() {
    let mut code = Vec::new();
    for i in 0..1025u32 {
        code.push(0x60);
        code.push((i % 256) as u8);
    }
    let ctx = ExecutionContext { code, gas_limit: 1_000_000, ..Default::default() };
    let mut db = StubDatabase;
    let (result, stack) = evm::interpreter::execute_returning_stack(&ctx, &mut db);
    assert!(matches!(result, ExecutionResult::Halt { reason: EvmError::StackOverflow }));
    assert_eq!(stack.len(), 1024);
    assert_eq!(stack[0], word(1023 % 256));
}

#[test]
fn growing_twice_equals_growing_once() {
    let mut memory = Memory::new();
    memory.set_byte(40, 7);
    assert_eq!(memory.size(), 64);
    memory.set_byte(40, 7);
    assert_eq!(memory.size(), 64);
    memory.set_byte(10, 1);
    assert_eq!(memory.size(), 64);
}
