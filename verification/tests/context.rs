use evm::context::ExecutionContext;

#[test]
fn default_context() {
    let ctx = ExecutionContext::default();
    assert_eq!(ctx.gas_limit, 0);
    assert!(ctx.calldata.is_empty());
    assert!(ctx.code.is_empty());
}
