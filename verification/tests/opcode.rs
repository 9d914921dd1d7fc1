use evm::opcode::{opcode_gas, opcode_name};

#[test]
fn opcode_names() {
    assert_eq!(opcode_name(0x00), "STOP");
    assert_eq!(opcode_name(0x01), "ADD");
    assert_eq!(opcode_name(0x60), "PUSH1");
    assert_eq!(opcode_name(0x7F), "PUSH32");
    assert_eq!(opcode_name(0x50), "POP");
    assert_eq!(opcode_name(0xEE), "UNKNOWN(0xee)");
}

#[test]
fn static_gas_costs() {
    assert_eq!(opcode_gas(0x01), 3); // ADD
    assert_eq!(opcode_gas(0x02), 3); // MUL
    assert_eq!(opcode_gas(0x03), 3); // SUB
    assert_eq!(opcode_gas(0x04), 5); // DIV
    assert_eq!(opcode_gas(0x06), 5); // MOD
    assert_eq!(opcode_gas(0x08), 8); // ADDMOD
    assert_eq!(opcode_gas(0x09), 8); // MULMOD
    assert_eq!(opcode_gas(0x60), 3); // PUSH1
    assert_eq!(opcode_gas(0x7F), 3); // PUSH32
    assert_eq!(opcode_gas(0x00), 0); // STOP
    assert_eq!(opcode_gas(0x50), 2); // POP
    assert_eq!(opcode_gas(0x0A), 10); // EXP
    assert_eq!(opcode_gas(0x0B), 5); // SIGNEXTEND
}
