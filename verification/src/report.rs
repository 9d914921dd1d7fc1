//! The lines in which the command-line tool reports a run.

use vstd::prelude::*;
use crate::error::error_message;
use crate::interpreter::{ExecutionResult, TraceStep};
use crate::text::{
    decimal, decimal_padded, hex_digits, hex_text, space_padded, zero_padded, push_decimal,
    push_decimal_padded, push_space_padded,
};
use crate::hexcode::encode_hex;
use crate::word::U256;

verus! {

/// The line that reports how a run ended.
pub open spec fn outcome_text(result: ExecutionResult) -> Seq<char> {
    match result {
        ExecutionResult::Success { gas_used, .. } => "--- Execution complete: Success | Gas used: "@
            + decimal(gas_used as nat) + " ---"@,
        ExecutionResult::Revert { gas_used, .. } => "--- Execution complete: Revert | Gas used: "@
            + decimal(gas_used as nat) + " ---"@,
        ExecutionResult::Halt { reason } => "--- Execution halted: "@ + error_message(reason)
            + " ---"@,
    }
}

/// The line that reports how a run ended.
pub fn outcome_line(result: &ExecutionResult) -> (r: String)
    ensures
        r@ == outcome_text(*result),
{
    match result {
        ExecutionResult::Success { gas_used, .. } => {
            let mut s = String::from_str("--- Execution complete: Success | Gas used: ");
            push_decimal(&mut s, *gas_used);
            s.append(" ---");
            assert(s@ =~= outcome_text(*result));
            s
        },
        ExecutionResult::Revert { gas_used, .. } => {
            let mut s = String::from_str("--- Execution complete: Revert | Gas used: ");
            push_decimal(&mut s, *gas_used);
            s.append(" ---");
            assert(s@ =~= outcome_text(*result));
            s
        },
        ExecutionResult::Halt { reason } => {
            let mut s = String::from_str("--- Execution halted: ");
            s.append(reason.to_string().as_str());
            s.append(" ---");
            assert(s@ =~= outcome_text(*result));
            s
        },
    }
}

/// The instruction of a trace step: its name and, for a push, `0x` and its
/// immediate bytes in hexadecimal.
pub open spec fn instruction_text(step: TraceStep) -> Seq<char> {
    match step.operand {
        Some(bytes) => step.opcode_name@ + " 0x"@ + hex_text(bytes@),
        None => step.opcode_name@,
    }
}

/// A word as the trace shows it: `0x` and at least two hexadecimal digits.
pub open spec fn word_text(w: nat) -> Seq<char> {
    "0x"@ + zero_padded(hex_digits(w), 2)
}

/// The words of a stack, separated by `, `.
pub open spec fn stack_text(words: Seq<U256>) -> Seq<char>
    decreases words.len(),
{
    if words.len() == 0 {
        Seq::empty()
    } else if words.len() == 1 {
        word_text(words[0]@)
    } else {
        stack_text(words.drop_last()) + ", "@ + word_text(words.last()@)
    }
}

/// The line that shows one trace step.
pub open spec fn trace_text(step: TraceStep) -> Seq<char> {
    "PC="@ + decimal_padded(step.pc as nat, 4) + "  "@ + space_padded(instruction_text(step), 14)
        + " | Stack: ["@ + stack_text(step.stack@) + "] | Gas: "@ + decimal(step.gas_used as nat)
}

/// The line that shows one trace step.
pub fn trace_line(step: &TraceStep) -> (r: String)
    ensures
        r@ == trace_text(*step),
{
    let mut instr = String::new();
    instr.append(step.opcode_name.as_str());
    match &step.operand {
        Some(bytes) => {
            instr.append(" 0x");
            instr.append(encode_hex(bytes.as_slice()).as_str());
        },
        None => {},
    }
    assert(instr@ =~= instruction_text(*step));

    let mut s = String::from_str("PC=");
    push_decimal_padded(&mut s, step.pc as u64, 4);
    s.append("  ");
    push_space_padded(&mut s, instr.as_str(), 14);
    s.append(" | Stack: [");
    let ghost start = s@;
    let mut i: usize = 0;
    while i < step.stack.len()
        invariant
            i <= step.stack@.len(),
            s@ == start + stack_text(step.stack@.subrange(0, i as int)),
        decreases step.stack@.len() - i,
    {
        if i > 0 {
            s.append(", ");
        }
        s.append("0x");
        s.append(step.stack[i].to_hex_padded().as_str());
        proof {
            let prefix = step.stack@.subrange(0, i + 1);
            assert(prefix.drop_last() =~= step.stack@.subrange(0, i as int));
        }
        i = i + 1;
    }
    assert(step.stack@.subrange(0, step.stack@.len() as int) =~= step.stack@);
    s.append("] | Gas: ");
    push_decimal(&mut s, step.gas_used);
    assert(s@ =~= trace_text(*step));
    s
}

} // verus!
