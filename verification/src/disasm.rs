//! The disassembler: one line of text per instruction.

use vstd::prelude::*;
use crate::hexcode::encode_hex;
use crate::opcode::{self, opcode_name_text, is_push, push_size};
use crate::text::{decimal_padded, hex_text, push_decimal_padded};

verus! {

/// Where the instruction after the one at `pc` starts.
pub open spec fn next_instruction(code: Seq<u8>, pc: nat) -> nat {
    if is_push(code[pc as int]) {
        pc + 1 + push_size(code[pc as int])
    } else {
        pc + 1
    }
}

/// The line for the instruction at `pc`: the offset as four or more decimal
/// digits, the opcode's name and, for a push, `0x` and the immediate bytes
/// that the code holds, in hexadecimal.
pub open spec fn disassembly_line(code: Seq<u8>, pc: nat) -> Seq<char> {
    let op = code[pc as int];
    let head = decimal_padded(pc, 4) + seq![':', ' '] + opcode_name_text(op);
    if is_push(op) {
        let end = if pc + 1 + push_size(op) < code.len() {
            pc + 1 + push_size(op)
        } else {
            code.len() as nat
        };
        head + seq![' ', '0', 'x'] + hex_text(code.subrange((pc + 1) as int, end as int))
    } else {
        head
    }
}

/// How far `pc` still is from the end of the code.
pub open spec fn remaining(code: Seq<u8>, pc: nat) -> nat {
    if pc < code.len() {
        (code.len() - pc) as nat
    } else {
        0
    }
}

/// The lines for the instructions from `pc` to the end of the code.
pub open spec fn disassembly_from(code: Seq<u8>, pc: nat) -> Seq<Seq<char>>
    decreases remaining(code, pc),
{
    if pc >= code.len() {
        Seq::empty()
    } else {
        seq![disassembly_line(code, pc)] + disassembly_from(code, next_instruction(code, pc))
    }
}

pub fn disassemble(bytecode: &[u8]) -> (lines: Vec<String>)
    requires
        bytecode@.len() <= isize::MAX,
    ensures
        lines@.map_values(|s: String| s@) == disassembly_from(bytecode@, 0),
{
    let mut lines: Vec<String> = Vec::new();
    let mut pc: usize = 0;

    while pc < bytecode.len()
        invariant
            bytecode@.len() <= isize::MAX,
            lines@.map_values(|s: String| s@) + disassembly_from(bytecode@, pc as nat)
                == disassembly_from(bytecode@, 0),
        decreases remaining(bytecode@, pc as nat),
    {
        let op = bytecode[pc];
        let name = opcode::opcode_name(op);
        let mut line = String::new();
        push_decimal_padded(&mut line, pc as u64, 4);
        proof { reveal_strlit(": "); }
        line.append(": ");
        line.append(name.as_str());
        let ghost old_lines = lines@.map_values(|s: String| s@);
        let ghost at = pc;

        if 0x60 <= op && op <= 0x7F {
            let n = (op - 0x5F) as usize;
            let end = if pc + 1 + n < bytecode.len() { pc + 1 + n } else { bytecode.len() };
            let operand = vstd::slice::slice_subrange(bytecode, pc + 1, end);
            proof { reveal_strlit(" 0x"); }
            line.append(" 0x");
            line.append(encode_hex(operand).as_str());
            assert(line@ =~= disassembly_line(bytecode@, pc as nat));
            lines.push(line);
            pc += 1 + n;
        } else {
            assert(line@ =~= disassembly_line(bytecode@, pc as nat));
            lines.push(line);
            pc += 1;
        }
        assert(lines@.map_values(|s: String| s@) =~= old_lines.push(disassembly_line(bytecode@, at as nat)));
        assert(pc as nat == next_instruction(bytecode@, at as nat));
        assert(old_lines.push(disassembly_line(bytecode@, at as nat)) + disassembly_from(bytecode@, pc as nat)
            =~= old_lines + disassembly_from(bytecode@, at as nat));
    }
    lines
}

} // verus!
