//! The meaning of execution: what each instruction does to the machine,
//! stated over natural numbers.

use vstd::prelude::*;
use vstd::arithmetic::power::pow;
use vstd::arithmetic::power2::pow2;
use crate::error::EvmError;
use crate::opcode::{
    STOP, ADD, MUL, SUB, DIV, SDIV, MOD, SMOD, ADDMOD, MULMOD, EXP, SIGNEXTEND, POP,
    is_push, push_size, static_gas,
};
use crate::word::{word_modulus, bit_set, bit_length, be_value};

verus! {

/// The number a word denotes when read as a two's complement signed number.
pub open spec fn to_signed(v: nat) -> int {
    if v < pow2(255) {
        v as int
    } else {
        v - word_modulus()
    }
}

/// The word that denotes a signed number, modulo `2^256`.
pub open spec fn from_signed(i: int) -> nat {
    (i % (word_modulus() as int)) as nat
}

pub open spec fn abs(i: int) -> nat {
    if i < 0 {
        (-i) as nat
    } else {
        i as nat
    }
}

/// Unsigned division; zero for a zero divisor.
pub open spec fn div_value(a: nat, b: nat) -> nat {
    if b == 0 {
        0
    } else {
        a / b
    }
}

/// Unsigned remainder; zero for a zero divisor.
pub open spec fn mod_value(a: nat, b: nat) -> nat {
    if b == 0 {
        0
    } else {
        a % b
    }
}

/// Signed division rounding toward zero; zero for a zero divisor.
pub open spec fn sdiv_value(a: nat, b: nat) -> nat {
    if b == 0 {
        0
    } else {
        let x = to_signed(a);
        let y = to_signed(b);
        let q = abs(x) / abs(y);
        if (x < 0) != (y < 0) {
            from_signed(-q)
        } else {
            from_signed(q as int)
        }
    }
}

/// Signed remainder, with the sign of the dividend; zero for a zero divisor.
pub open spec fn smod_value(a: nat, b: nat) -> nat {
    if b == 0 {
        0
    } else {
        let x = to_signed(a);
        let y = to_signed(b);
        let r = abs(x) % abs(y);
        if x < 0 {
            from_signed(-r)
        } else {
            from_signed(r as int)
        }
    }
}

/// `x` read as a signed number of `b + 1` bytes and widened to a word; `x`
/// itself when `b >= 31`.
pub open spec fn signextend_value(b: nat, x: nat) -> nat {
    if b < 31 {
        let k = 8 * b + 7;
        let low = x % pow2(k + 1);
        if bit_set(x, k) {
            (low + word_modulus() - pow2(k + 1)) as nat
        } else {
            low
        }
    } else {
        x
    }
}

/// The opcodes that pop two words and push one.
pub open spec fn is_binary(op: u8) -> bool {
    op == ADD || op == MUL || op == SUB || op == DIV || op == SDIV || op == MOD || op == SMOD
        || op == SIGNEXTEND
}

/// The opcodes that pop three words and push one.
pub open spec fn is_ternary(op: u8) -> bool {
    op == ADDMOD || op == MULMOD
}

/// What a binary opcode pushes, given the top word `a` and the word `b` below it.
pub open spec fn binary_value(op: u8, a: nat, b: nat) -> nat {
    if op == ADD {
        (a + b) % word_modulus()
    } else if op == MUL {
        (a * b) % word_modulus()
    } else if op == SUB {
        ((a - b) % (word_modulus() as int)) as nat
    } else if op == DIV {
        div_value(a, b)
    } else if op == SDIV {
        sdiv_value(a, b)
    } else if op == MOD {
        mod_value(a, b)
    } else if op == SMOD {
        smod_value(a, b)
    } else {
        signextend_value(a, b)
    }
}

/// What a ternary opcode pushes, given the three top words, top first: the sum
/// or product of the first two modulo the third, computed exactly, and zero
/// for a zero modulus.
pub open spec fn ternary_value(op: u8, a: nat, b: nat, n: nat) -> nat {
    if n == 0 {
        0
    } else if op == ADDMOD {
        (a + b) % n
    } else {
        (a * b) % n
    }
}

/// What `EXP` pushes: the power modulo `2^256`.
pub open spec fn exp_value(base: nat, exponent: nat) -> nat {
    pow(base as int, exponent) as nat % word_modulus()
}

/// The gas `EXP` costs beyond its static cost: 50 per byte of the exponent.
pub open spec fn exp_gas(exponent: nat) -> nat {
    50 * ((bit_length(exponent) + 7) / 8)
}

/// The opcode at `pc`; `STOP` past the end of the code.
pub open spec fn fetch(code: Seq<u8>, pc: nat) -> u8 {
    if pc < code.len() {
        code[pc as int]
    } else {
        STOP
    }
}

/// The `n` immediate bytes after the opcode at `pc`, zero past the end of the
/// code.
pub open spec fn push_data(code: Seq<u8>, pc: nat, n: nat) -> Seq<u8> {
    Seq::new(n, |j: int| if pc + 1 + j < code.len() { code[pc + 1 + j] } else { 0u8 })
}

/// The state of the machine between instructions.  The stack holds the
/// numbers its words denote, bottom first.
#[verifier::ext_equal]
pub struct Machine {
    pub pc: nat,
    pub stack: Seq<nat>,
    pub gas_used: nat,
}

/// What one instruction does: go on, stop, or halt for a reason.  Each carries
/// the machine as the instruction leaves it.
pub enum Transition {
    Continue(Machine),
    Stop(Machine),
    Halt(EvmError, Machine),
}

/// One instruction executed from machine `m`, under a gas limit.
pub open spec fn step(code: Seq<u8>, gas_limit: nat, m: Machine) -> Transition {
    let op = fetch(code, m.pc);
    let gas = m.gas_used + static_gas(op);
    let s = m.stack;
    let n = s.len();
    if gas > gas_limit {
        Transition::Halt(EvmError::OutOfGas, m)
    } else if op == STOP {
        Transition::Stop(Machine { pc: m.pc, stack: s, gas_used: gas })
    } else if is_binary(op) {
        if n < 2 {
            Transition::Halt(
                EvmError::StackUnderflow,
                Machine { pc: m.pc, stack: Seq::empty(), gas_used: gas },
            )
        } else {
            Transition::Continue(
                Machine {
                    pc: m.pc + 1,
                    stack: s.subrange(0, n - 2).push(binary_value(op, s[n - 1], s[n - 2])),
                    gas_used: gas,
                },
            )
        }
    } else if is_ternary(op) {
        if n < 3 {
            Transition::Halt(
                EvmError::StackUnderflow,
                Machine { pc: m.pc, stack: Seq::empty(), gas_used: gas },
            )
        } else {
            Transition::Continue(
                Machine {
                    pc: m.pc + 1,
                    stack: s.subrange(0, n - 3).push(
                        ternary_value(op, s[n - 1], s[n - 2], s[n - 3]),
                    ),
                    gas_used: gas,
                },
            )
        }
    } else if op == EXP {
        if n < 2 {
            Transition::Halt(
                EvmError::StackUnderflow,
                Machine { pc: m.pc, stack: Seq::empty(), gas_used: gas },
            )
        } else if gas + exp_gas(s[n - 2]) > gas_limit {
            Transition::Halt(
                EvmError::OutOfGas,
                Machine { pc: m.pc, stack: s.subrange(0, n - 2), gas_used: gas },
            )
        } else {
            Transition::Continue(
                Machine {
                    pc: m.pc + 1,
                    stack: s.subrange(0, n - 2).push(exp_value(s[n - 1], s[n - 2])),
                    gas_used: gas + exp_gas(s[n - 2]),
                },
            )
        }
    } else if is_push(op) {
        if n >= 1024 {
            Transition::Halt(EvmError::StackOverflow, Machine { pc: m.pc, stack: s, gas_used: gas })
        } else {
            Transition::Continue(
                Machine {
                    pc: m.pc + 1 + push_size(op),
                    stack: s.push(be_value(push_data(code, m.pc, push_size(op)))),
                    gas_used: gas,
                },
            )
        }
    } else if op == POP {
        if n == 0 {
            Transition::Halt(EvmError::StackUnderflow, Machine { pc: m.pc, stack: s, gas_used: gas })
        } else {
            Transition::Continue(Machine { pc: m.pc + 1, stack: s.drop_last(), gas_used: gas })
        }
    } else {
        Transition::Halt(EvmError::InvalidOpcode(op), Machine { pc: m.pc, stack: s, gas_used: gas })
    }
}

/// An instruction that lets the machine go on was fetched from within the code
/// and moves the program counter forward.
pub proof fn lemma_step_advances(code: Seq<u8>, gas_limit: nat, m: Machine)
    ensures
        step(code, gas_limit, m) matches Transition::Continue(next) ==> m.pc < code.len()
            && next.pc > m.pc,
{
}

/// How far the program counter still is from the end of the code.
pub open spec fn distance_to_end(code: Seq<u8>, m: Machine) -> nat {
    if m.pc < code.len() {
        (code.len() - m.pc) as nat
    } else {
        0
    }
}

/// Execution from machine `m` until it stops or halts.  It always ends: every
/// instruction that goes on moves the program counter forward, and past the end
/// of the code the machine stops.
pub open spec fn run(code: Seq<u8>, gas_limit: nat, m: Machine) -> Transition
    decreases distance_to_end(code, m),
{
    match step(code, gas_limit, m) {
        Transition::Continue(next) => {
            proof {
                lemma_step_advances(code, gas_limit, m);
            }
            run(code, gas_limit, next)
        },
        other => other,
    }
}

/// The machines before each instruction of a run from `m`, in order, the last
/// being the one before the instruction that stops or halts.
pub open spec fn trace(code: Seq<u8>, gas_limit: nat, m: Machine) -> Seq<Machine>
    decreases distance_to_end(code, m),
{
    match step(code, gas_limit, m) {
        Transition::Continue(next) => {
            proof {
                lemma_step_advances(code, gas_limit, m);
            }
            seq![m] + trace(code, gas_limit, next)
        },
        _ => seq![m],
    }
}

/// The immediate bytes of the push at `pc` that the code holds; `None` when
/// the instruction at `pc` is not a push.
pub open spec fn push_operand(code: Seq<u8>, pc: nat) -> Option<Seq<u8>> {
    if pc < code.len() && is_push(code[pc as int]) {
        let end = if pc + 1 + push_size(code[pc as int]) < code.len() {
            pc + 1 + push_size(code[pc as int])
        } else {
            code.len() as nat
        };
        Some(code.subrange((pc + 1) as int, end as int))
    } else {
        None
    }
}

/// The machine before the first instruction.
pub open spec fn initial_machine() -> Machine {
    Machine { pc: 0, stack: Seq::empty(), gas_used: 0 }
}

} // verus!
