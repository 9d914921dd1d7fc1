//! Opcode bytes, their names and their static gas costs.

use vstd::prelude::*;
use crate::text::{decimal, hex_byte, push_decimal, push_hex_byte};

verus! {

pub const STOP: u8 = 0x00;
pub const ADD: u8 = 0x01;
pub const MUL: u8 = 0x02;
pub const SUB: u8 = 0x03;
pub const DIV: u8 = 0x04;
pub const SDIV: u8 = 0x05;
pub const MOD: u8 = 0x06;
pub const SMOD: u8 = 0x07;
pub const ADDMOD: u8 = 0x08;
pub const MULMOD: u8 = 0x09;
pub const EXP: u8 = 0x0A;
pub const SIGNEXTEND: u8 = 0x0B;

pub const POP: u8 = 0x50;

pub const PUSH1: u8 = 0x60;
pub const PUSH32: u8 = 0x7F;

/// Whether `op` is one of `PUSH1` to `PUSH32`.
pub open spec fn is_push(op: u8) -> bool {
    PUSH1 <= op <= PUSH32
}

/// The number of immediate bytes that follow a `PUSHn` opcode.
pub open spec fn push_size(op: u8) -> nat {
    (op - 0x5F) as nat
}

/// The human-readable name of an opcode byte.
pub open spec fn opcode_name_text(op: u8) -> Seq<char> {
    if op == STOP {
        seq!['S', 'T', 'O', 'P']
    } else if op == ADD {
        seq!['A', 'D', 'D']
    } else if op == MUL {
        seq!['M', 'U', 'L']
    } else if op == SUB {
        seq!['S', 'U', 'B']
    } else if op == DIV {
        seq!['D', 'I', 'V']
    } else if op == SDIV {
        seq!['S', 'D', 'I', 'V']
    } else if op == MOD {
        seq!['M', 'O', 'D']
    } else if op == SMOD {
        seq!['S', 'M', 'O', 'D']
    } else if op == ADDMOD {
        seq!['A', 'D', 'D', 'M', 'O', 'D']
    } else if op == MULMOD {
        seq!['M', 'U', 'L', 'M', 'O', 'D']
    } else if op == EXP {
        seq!['E', 'X', 'P']
    } else if op == SIGNEXTEND {
        seq!['S', 'I', 'G', 'N', 'E', 'X', 'T', 'E', 'N', 'D']
    } else if op == POP {
        seq!['P', 'O', 'P']
    } else if is_push(op) {
        seq!['P', 'U', 'S', 'H'] + decimal(push_size(op))
    } else {
        seq!['U', 'N', 'K', 'N', 'O', 'W', 'N', '(', '0', 'x'] + hex_byte(op) + seq![')']
    }
}

/// The static gas cost of an opcode: zero for `STOP` and for unknown opcodes,
/// which halt at once.
pub open spec fn static_gas(op: u8) -> nat {
    if op == ADD || op == MUL || op == SUB {
        3
    } else if op == DIV || op == SDIV || op == MOD || op == SMOD || op == SIGNEXTEND {
        5
    } else if op == ADDMOD || op == MULMOD {
        8
    } else if op == EXP {
        10
    } else if op == POP {
        2
    } else if is_push(op) {
        3
    } else {
        0
    }
}

/// Return human-readable name for an opcode byte.
pub fn opcode_name(op: u8) -> (r: String)
    ensures
        r@ == opcode_name_text(op),
{
    let literal: &str = match op {
        STOP => { proof { reveal_strlit("STOP"); } "STOP" },
        ADD => { proof { reveal_strlit("ADD"); } "ADD" },
        MUL => { proof { reveal_strlit("MUL"); } "MUL" },
        SUB => { proof { reveal_strlit("SUB"); } "SUB" },
        DIV => { proof { reveal_strlit("DIV"); } "DIV" },
        SDIV => { proof { reveal_strlit("SDIV"); } "SDIV" },
        MOD => { proof { reveal_strlit("MOD"); } "MOD" },
        SMOD => { proof { reveal_strlit("SMOD"); } "SMOD" },
        ADDMOD => { proof { reveal_strlit("ADDMOD"); } "ADDMOD" },
        MULMOD => { proof { reveal_strlit("MULMOD"); } "MULMOD" },
        EXP => { proof { reveal_strlit("EXP"); } "EXP" },
        SIGNEXTEND => { proof { reveal_strlit("SIGNEXTEND"); } "SIGNEXTEND" },
        POP => { proof { reveal_strlit("POP"); } "POP" },
        0x60..=0x7F => {
            proof { reveal_strlit("PUSH"); }
            let mut s = String::from_str("PUSH");
            push_decimal(&mut s, (op - 0x5F) as u64);
            return s;
        },
        _ => {
            proof { reveal_strlit("UNKNOWN(0x"); reveal_strlit(")"); }
            let mut s = String::from_str("UNKNOWN(0x");
            push_hex_byte(&mut s, op);
            s.append(")");
            assert(s@ =~= opcode_name_text(op));
            return s;
        },
    };
    let r = String::from_str(literal);
    assert(r@ =~= opcode_name_text(op));
    r
}

/// Static gas cost for an opcode.
pub fn opcode_gas(op: u8) -> (r: u64)
    ensures
        r == static_gas(op),
{
    match op {
        STOP => 0,
        ADD | MUL | SUB => 3,
        DIV | SDIV | MOD | SMOD | SIGNEXTEND => 5,
        ADDMOD | MULMOD => 8,
        EXP => 10,  // base cost; 50 more per byte of the exponent
        POP => 2,
        0x60..=0x7F => 3,
        _ => 0,
    }
}

} // verus!
