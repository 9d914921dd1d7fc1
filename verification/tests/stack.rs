use evm::error::EvmError;
use evm::stack::Stack;
use evm::word::U256;

fn word(v: u64) -> U256 {
    U256::from_u64(v)
}

#[test]
fn push_and_pop() {
    let mut stack = Stack::new();
    stack.push(word(42)).unwrap();
    assert_eq!(stack.pop().unwrap(), word(42));
}

#[test]
fn pop_empty_underflows() {
    let mut stack = Stack::new();
    assert_eq!(stack.pop(), Err(EvmError::StackUnderflow));
}

#[test]
fn push_overflow_at_1024() {
    let mut stack = Stack::new();
    for i in 0..1024 {
        stack.push(U256::from_u64(i)).unwrap();
    }
    assert_eq!(stack.push(U256::zero()), Err(EvmError::StackOverflow));
}

#[test]
fn peek() {
    let mut stack = Stack::new();
    stack.push(word(10)).unwrap();
    stack.push(word(20)).unwrap();
    assert_eq!(stack.peek(0).unwrap(), word(20));
    assert_eq!(stack.peek(1).unwrap(), word(10));
}

#[test]
fn peek_out_of_bounds() {
    let stack = Stack::new();
    assert_eq!(stack.peek(0), Err(EvmError::StackUnderflow));
}

#[test]
fn swap() {
    let mut stack = Stack::new();
    stack.push(word(1)).unwrap();
    stack.push(word(2)).unwrap();
    stack.push(word(3)).unwrap();
    stack.swap(1).unwrap();
    assert_eq!(stack.peek(0).unwrap(), word(2));
    assert_eq!(stack.peek(1).unwrap(), word(3));
}

#[test]
fn dup() {
    let mut stack = Stack::new();
    stack.push(word(5)).unwrap();
    stack.push(word(10)).unwrap();
    stack.dup(1).unwrap();
    assert_eq!(stack.len(), 3);
    assert_eq!(stack.peek(0).unwrap(), word(10));
}

#[test]
fn len_and_is_empty() {
    let mut stack = Stack::new();
    assert!(stack.is_empty());
    assert_eq!(stack.len(), 0);
    stack.push(U256::zero()).unwrap();
    assert!(!stack.is_empty());
    assert_eq!(stack.len(), 1);
}
