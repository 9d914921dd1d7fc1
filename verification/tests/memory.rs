use evm::memory::Memory;
use evm::word::U256;

fn word(v: u64) -> U256 {
    U256::from_u64(v)
}

/// `v << 248` computed by `ruint`.
fn top_byte(v: u64) -> U256 {
    let shifted: ruint::aliases::U256 = ruint::aliases::U256::from(v) << 248usize;
    U256::from_limbs(shifted.into_limbs())
}

#[test]
fn starts_empty() {
    let memory = Memory::new();
    assert_eq!(memory.size(), 0);
}

#[test]
fn set_and_get_u256() {
    let mut memory = Memory::new();
    memory.set_u256(0, word(0xff));
    assert_eq!(memory.get_u256(0), word(0xff));
    assert_eq!(memory.size(), 32);
}

#[test]
fn memory_grows_in_32_byte_words() {
    let mut memory = Memory::new();
    memory.set_u256(31, word(1));
    assert_eq!(memory.size(), 64);
}

#[test]
fn set_byte() {
    let mut memory = Memory::new();
    memory.set_byte(0, 0xAB);
    assert_eq!(memory.size(), 32);
    let val = memory.get_u256(0);
    let expected = top_byte(0xAB);
    assert_eq!(val, expected);
}

#[test]
fn read_uninitialized_returns_zero() {
    let mut memory = Memory::new();
    memory.set_byte(0, 0xFF);
    let val = memory.get_u256(0);
    let expected = top_byte(0xFF);
    assert_eq!(val, expected);
}
