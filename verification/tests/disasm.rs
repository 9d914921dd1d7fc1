use evm::disasm::disassemble;

#[test]
fn disassemble_simple() {
    let bytecode = hex::decode("6001600201").unwrap();
    let result = disassemble(&bytecode);
    assert_eq!(result.len(), 3);
    assert_eq!(result[0], "0000: PUSH1 0x01");
    assert_eq!(result[1], "0002: PUSH1 0x02");
    assert_eq!(result[2], "0004: ADD");
}

#[test]
fn disassemble_push32() {
    let mut bytecode = vec![0x7F];
    bytecode.extend_from_slice(&[0x00; 31]);
    bytecode.push(0x01);
    let result = disassemble(&bytecode);
    assert_eq!(result.len(), 1);
    assert!(result[0].starts_with("0000: PUSH32 0x"));
}

#[test]
fn disassemble_unknown_opcode() {
    let bytecode = vec![0xEF];
    let result = disassemble(&bytecode);
    assert_eq!(result[0], "0000: UNKNOWN(0xef)");
}
