use evm::database::{Database, StubDatabase};
use evm::word::U256;

#[test]
fn stub_database_returns_zeros() {
    let db = StubDatabase;
    assert_eq!(db.balance(&[0u8; 20]), U256::zero());
    assert!(db.code(&[0u8; 20]).is_empty());
    assert_eq!(db.code_hash(&[0u8; 20]), U256::zero());
    assert_eq!(db.storage(&[0u8; 20], &U256::zero()), U256::zero());
    assert_eq!(db.block_hash(0), U256::zero());
}
