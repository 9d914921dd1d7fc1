use evm::context::ExecutionContext;
use evm::database::StubDatabase;
use evm::disasm::disassemble;
use evm::error::EvmError;
use evm::hexcode::parse_bytecode;
use evm::interpreter::{execute_with_trace, ExecutionResult};
use evm::opcode::opcode_name;
use evm::report::{outcome_line, trace_line};
use evm::word::U256;

#[test]
fn outcome_lines() {
    let success = ExecutionResult::Success { gas_used: 9, return_data: Vec::new(), logs: Vec::new() };
    assert_eq!(outcome_line(&success), "--- Execution complete: Success | Gas used: 9 ---");
    let revert = ExecutionResult::Revert { gas_used: 12345, return_data: Vec::new() };
    assert_eq!(outcome_line(&revert), "--- Execution complete: Revert | Gas used: 12345 ---");
    let halt = ExecutionResult::Halt { reason: EvmError::OutOfGas };
    assert_eq!(outcome_line(&halt), "--- Execution halted: out of gas ---");
}

#[test]
fn trace_of_one_plus_two() {
    let ctx = ExecutionContext {
        code: vec![0x60, 0x01, 0x60, 0x02, 0x01],
        gas_limit: 100,
        ..Default::default()
    };
    let mut db = StubDatabase;
    let (result, steps) = execute_with_trace(&ctx, &mut db);
    assert!(matches!(result, ExecutionResult::Success { gas_used: 9, .. }));
    assert_eq!(steps.len(), 4);
    assert_eq!(steps[0].pc, 0);
    assert_eq!(steps[0].operand, Some(vec![0x01]));
    assert_eq!(steps[2].opcode_name, "ADD");
    assert_eq!(steps[2].stack, vec![U256::from_u64(2), U256::from_u64(1)]);
    assert_eq!(steps[2].gas_used, 6);
    assert_eq!(steps[3].opcode_name, "STOP");
    assert_eq!(steps[3].pc, 5);
    assert_eq!(steps[3].operand, None);
    assert_eq!(
        trace_line(&steps[1]),
        "PC=0002  PUSH1 0x02     | Stack: [0x01] | Gas: 3"
    );
    assert_eq!(
        trace_line(&steps[3]),
        "PC=0005  STOP           | Stack: [0x03] | Gas: 9"
    );
    assert_eq!(
        trace_line(&steps[2]),
        "PC=0004  ADD            | Stack: [0x02, 0x01] | Gas: 6"
    );
}

#[test]
fn trace_shows_large_words_in_hex() {
    let mut code = vec![0x61, 0x12, 0x34];
    code.push(0x00);
    let ctx = ExecutionContext { code, gas_limit: 100, ..Default::default() };
    let mut db = StubDatabase;
    let (_, steps) = execute_with_trace(&ctx, &mut db);
    assert_eq!(trace_line(&steps[1]), "PC=0003  STOP           | Stack: [0x1234] | Gas: 3");
    assert_eq!(trace_line(&steps[0]), "PC=0000  PUSH2 0x1234   | Stack: [] | Gas: 0");
}

#[test]
fn parse_bytecode_strips_prefixes() {
    assert_eq!(parse_bytecode(b"6001"), Some(vec![0x60, 0x01]));
    assert_eq!(parse_bytecode(b"0x6001"), Some(vec![0x60, 0x01]));
    assert_eq!(parse_bytecode(b"0x0xAbCd"), Some(vec![0xAB, 0xCD]));
    assert_eq!(parse_bytecode(b""), Some(vec![]));
    assert_eq!(parse_bytecode(b"600"), None);
    assert_eq!(parse_bytecode(b"60zz"), None);
}

#[test]
fn disassemble_truncated_push_and_offsets() {
    let lines = disassemble(&[0x00, 0x50, 0x62, 0xAA]);
    assert_eq!(lines, vec!["0000: STOP", "0001: POP", "0002: PUSH3 0xaa"]);
    let mut code = vec![0x01; 10001];
    code[0] = 0x00;
    let lines = disassemble(&code);
    assert_eq!(lines.len(), 10001);
    assert_eq!(lines[10000], "10000: ADD");
    assert_eq!(lines[9], "0009: ADD");
}

#[test]
fn every_named_opcode() {
    let names = [
        (0x02, "MUL"), (0x03, "SUB"), (0x04, "DIV"), (0x05, "SDIV"), (0x06, "MOD"),
        (0x07, "SMOD"), (0x08, "ADDMOD"), (0x09, "MULMOD"), (0x0A, "EXP"),
        (0x0B, "SIGNEXTEND"), (0x6F, "PUSH16"), (0x0C, "UNKNOWN(0x0c)"),
    ];
    for (op, name) in names {
        assert_eq!(opcode_name(op), name);
    }
}
