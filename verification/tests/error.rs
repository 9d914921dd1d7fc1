use evm::error::EvmError;

#[test]
fn error_display_messages() {
    assert_eq!(EvmError::StackUnderflow.to_string(), "stack underflow");
    assert_eq!(EvmError::StackOverflow.to_string(), "stack overflow");
    assert_eq!(EvmError::OutOfGas.to_string(), "out of gas");
    assert_eq!(EvmError::InvalidJump.to_string(), "invalid jump destination");
    assert_eq!(
        EvmError::InvalidOpcode(0xEF).to_string(),
        "invalid opcode: 0xef"
    );
}
