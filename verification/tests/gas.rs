use evm::gas::Gas;

#[test]
fn new_gas_tracker() {
    let gas = Gas::new(1000);
    assert_eq!(gas.remaining(), 1000);
    assert_eq!(gas.used(), 0);
}

#[test]
fn consume_gas() {
    let mut gas = Gas::new(100);
    assert!(gas.consume(30).is_ok());
    assert_eq!(gas.remaining(), 70);
    assert_eq!(gas.used(), 30);
}

#[test]
fn consume_exact_limit() {
    let mut gas = Gas::new(10);
    assert!(gas.consume(10).is_ok());
    assert_eq!(gas.remaining(), 0);
}

#[test]
fn consume_over_limit_fails() {
    let mut gas = Gas::new(10);
    assert!(gas.consume(11).is_err());
    assert_eq!(gas.remaining(), 10);
}
