//! The interpreter: runs bytecode to a stop or a halt.

use vstd::prelude::*;
use vstd::arithmetic::power2::{pow2, lemma_pow2_pos, lemma_pow2_strictly_increases};
use vstd::arithmetic::div_mod::{
    lemma_mod_add_multiples_vanish, lemma_small_mod, lemma_div_is_ordered_by_denominator,
};
use crate::bits::{
    lemma_top_bit, lemma_and_single_bit, lemma_or_mask_with_bit, lemma_and_low_mask,
    lemma_or_high_mask, lemma_bit_length_bound, lemma_be_value_leading_zeros,
};
use crate::context::ExecutionContext;
use crate::database::Database;
use crate::error::EvmError;
use crate::gas::Gas;
use crate::memory::Memory;
use crate::opcode::{self, opcode_name_text};
use crate::semantics::{
    to_signed, from_signed, abs, sdiv_value, smod_value, signextend_value, Machine, Transition,
    step, run, fetch, push_data, distance_to_end, initial_machine, trace, push_operand,
    lemma_step_advances,
};
use crate::stack::Stack;
use crate::word::{U256, word_modulus, lemma_word_bound, lemma_pow2_256};

verus! {

#[derive(Debug, Clone, PartialEq, Eq)]
pub struct Log {
    pub address: [u8; 20],
    pub topics: Vec<U256>,
    pub data: Vec<u8>,
}

#[derive(Debug)]
pub enum ExecutionResult {
    Success { gas_used: u64, return_data: Vec<u8>, logs: Vec<Log> },
    Revert { gas_used: u64, return_data: Vec<u8> },
    Halt { reason: EvmError },
}

/// The state of the machine before one instruction, as a trace records it.
#[derive(Debug, Clone)]
pub struct TraceStep {
    pub pc: usize,
    pub opcode_name: String,
    /// The immediate bytes of a push, as far as the code holds them.
    pub operand: Option<Vec<u8>>,
    /// The stack, top first.
    pub stack: Vec<U256>,
    /// The gas used before the instruction.
    pub gas_used: u64,
}

/// Whether a trace step records machine `m` before its next instruction.
pub open spec fn records(s: TraceStep, code: Seq<u8>, m: Machine) -> bool {
    &&& s.pc == m.pc
    &&& s.opcode_name@ == opcode_name_text(fetch(code, m.pc))
    &&& s.stack@.map_values(|w: U256| w@) == m.stack.reverse()
    &&& s.gas_used == m.gas_used
    &&& match s.operand {
        Some(bytes) => push_operand(code, m.pc) == Some(bytes@),
        None => push_operand(code, m.pc) is None,
    }
}

/// Whether an execution result reports how a run ended: a stop reports the gas
/// used, with no return data and no logs; a halt reports its reason.
pub open spec fn reports(result: ExecutionResult, end: Transition) -> bool {
    match result {
        ExecutionResult::Success { gas_used, return_data, logs } => {
            &&& end matches Transition::Stop(m)
            &&& gas_used == m.gas_used
            &&& return_data@.len() == 0
            &&& logs@.len() == 0
        },
        ExecutionResult::Revert { .. } => false,
        ExecutionResult::Halt { reason } => end matches Transition::Halt(e, _) && reason == e,
    }
}

/// The machine a run ends with.
pub open spec fn final_machine(end: Transition) -> Machine {
    match end {
        Transition::Continue(m) => m,
        Transition::Stop(m) => m,
        Transition::Halt(_, m) => m,
    }
}

/// Like `reports`, where a stop hands back the logs `logs`.
pub open spec fn reports_with_logs(result: ExecutionResult, end: Transition, logs: Vec<Log>) -> bool {
    match result {
        ExecutionResult::Success { gas_used, return_data, logs: l } => {
            &&& end matches Transition::Stop(m)
            &&& gas_used == m.gas_used
            &&& return_data@.len() == 0
            &&& l == logs
        },
        ExecutionResult::Revert { .. } => false,
        ExecutionResult::Halt { reason } => end matches Transition::Halt(e, _) && reason == e,
    }
}

/// The stack a run ends with.
pub open spec fn final_stack(end: Transition) -> Seq<nat> {
    match end {
        Transition::Continue(m) => m.stack,
        Transition::Stop(m) => m.stack,
        Transition::Halt(_, m) => m.stack,
    }
}

/// Two's complement negation: `2^256 - v` modulo `2^256`.
fn twos_complement(v: U256) -> (r: U256)
    ensures
        r@ == (word_modulus() - v@) as nat % word_modulus(),
{
    proof { lemma_word_bound(v); }
    (v.bitnot()).wrapping_add(U256::from_u64(1))
}

/// The magnitude of a word read as a signed number, and whether it is negative.
fn signed_magnitude(v: U256) -> (r: (bool, U256))
    ensures
        r.0 == (to_signed(v@) < 0),
        r.1@ == abs(to_signed(v@)),
        r.1@ <= pow2(255),
{
    proof {
        lemma_word_bound(v);
        lemma_top_bit(v@);
    }
    let neg = v.bit(255);
    if neg {
        let m = twos_complement(v);
        proof {
            lemma_small_mod((word_modulus() - v@) as nat, word_modulus());
        }
        (true, m)
    } else {
        (false, v)
    }
}

/// `from_signed(-q)` for `0 <= q <= 2^255`, computed by negating the word `q`.
fn negate(q: U256) -> (r: U256)
    requires
        q@ <= pow2(255),
    ensures
        r@ == from_signed(-(q@ as int)),
{
    proof {
        lemma_word_bound(q);
        lemma_top_bit(0);
        lemma_mod_add_multiples_vanish(-(q@ as int), word_modulus() as int);
    }
    twos_complement(q)
}

/// Signed division of `a` by a nonzero `b`, rounding toward zero.
fn signed_div(a: U256, b: U256) -> (r: U256)
    requires
        b@ != 0,
    ensures
        r@ == sdiv_value(a@, b@),
{
    let (a_neg, a_abs) = signed_magnitude(a);
    let (b_neg, b_abs) = signed_magnitude(b);
    proof {
        lemma_word_bound(b);
        lemma_top_bit(b@);
    }
    let quot = a_abs.div(b_abs);
    proof {
        lemma_div_is_ordered_by_denominator(a_abs@ as int, 1, b_abs@ as int);
        lemma_top_bit(0);
        lemma_small_mod(quot@, word_modulus());
    }
    if a_neg != b_neg {
        negate(quot)
    } else {
        quot
    }
}

/// Signed remainder of `a` by a nonzero `b`, with the sign of `a`.
fn signed_mod(a: U256, b: U256) -> (r: U256)
    requires
        b@ != 0,
    ensures
        r@ == smod_value(a@, b@),
{
    let (a_neg, a_abs) = signed_magnitude(a);
    let (_b_neg, b_abs) = signed_magnitude(b);
    proof {
        lemma_word_bound(b);
        lemma_top_bit(b@);
    }
    let rem = a_abs.rem(b_abs);
    proof {
        lemma_top_bit(0);
        lemma_small_mod(rem@, word_modulus());
    }
    if a_neg {
        negate(rem)
    } else {
        rem
    }
}

/// Sign-extends `x` from `b + 1` bytes.
fn sign_extend(b: U256, x: U256) -> (r: U256)
    ensures
        r@ == signextend_value(b@, x@),
{
    if b.less_than(&U256::from_u64(31)) {
        let bit_index = b.to_usize() * 8 + 7;
        let one = U256::from_u64(1);
        let sign_bit = one.shl(bit_index);
        let ghost k = bit_index as nat;
        proof {
            lemma_pow2_256();
            lemma_pow2_pos(k);
            lemma_pow2_strictly_increases(k, 256);
            lemma_pow2_strictly_increases(k + 1, 256);
            lemma_small_mod(pow2(k), word_modulus());
            assert(sign_bit@ == pow2(k));
            lemma_small_mod((pow2(k) - 1) as nat, word_modulus());
            lemma_or_mask_with_bit(k);
            lemma_word_bound(x);
            lemma_and_single_bit(x@, k);
            lemma_and_low_mask(x@, k + 1);
            lemma_or_high_mask(x@, k + 1, 256);
        }
        let mask = sign_bit.wrapping_sub(one).bitor(sign_bit);
        assert(mask@ == pow2(k + 1) - 1);
        assert(k == 8 * b@ + 7);
        let masked = x.bitand(sign_bit);
        assert(masked@ == pow2(k) * ((x@ / pow2(k)) % 2));
        assert(masked@ == 0 <==> (x@ / pow2(k)) % 2 == 0) by {
            let t = (x@ / pow2(k)) % 2;
            let p = pow2(k);
            assert(p > 0);
            if t != 0 {
                assert(p * t >= p) by (nonlinear_arith)
                    requires t >= 1;
            } else {
                assert(p * t == 0) by (nonlinear_arith)
                    requires t == 0;
            }
        }
        if !masked.same_as(&U256::zero()) {
            assert((x@ / pow2(k)) % 2 == 1);
            let inverted = mask.bitnot();
            assert(inverted@ == (pow2(256) - pow2(k + 1)) as nat);
            let r = x.bitor(inverted);
            assert(r@ == x@ % pow2(k + 1) + pow2(256) - pow2(k + 1));
            r
        } else {
            assert((x@ / pow2(k)) % 2 == 0);
            let r = x.bitand(mask);
            assert(r@ == x@ % pow2(k + 1));
            r
        }
    } else {
        x
    }
}

/// How one instruction ended.
enum Flow {
    Next,
    Stopped,
    Halted(EvmError),
}

/// The machine that the exec state denotes.
spec fn machine(pc: usize, stack: Seq<nat>, gas: &Gas) -> Machine {
    Machine { pc: pc as nat, stack, gas_used: gas.spec_used() }
}

/// Executes the instruction at `pc`.
fn execute_instruction(bytecode: &[u8], pc: &mut usize, stack: &mut Stack, gas: &mut Gas) -> (f: Flow)
    requires
        bytecode@.len() <= isize::MAX,
        *old(pc) <= bytecode@.len() + 32,
    ensures
        final(gas).spec_limit() == old(gas).spec_limit(),
        ({
            let before = machine(*old(pc), old(stack)@, old(gas));
            match step(bytecode@, old(gas).spec_limit(), before) {
                Transition::Continue(m) => {
                    &&& f is Next
                    &&& *final(pc) == m.pc
                    &&& final(stack)@ == m.stack
                    &&& final(gas).spec_used() == m.gas_used
                    &&& *final(pc) <= bytecode@.len() + 32
                },
                Transition::Stop(m) => {
                    &&& f is Stopped
                    &&& *final(pc) == m.pc
                    &&& final(stack)@ == m.stack
                    &&& final(gas).spec_used() == m.gas_used
                },
                Transition::Halt(e, m) => {
                    &&& f == Flow::Halted(e)
                    &&& *final(pc) == m.pc
                    &&& final(stack)@ == m.stack
                    &&& final(gas).spec_used() == m.gas_used
                },
            }
        }),
{
    let op = if *pc < bytecode.len() { bytecode[*pc] } else { opcode::STOP };
    assert(op == fetch(bytecode@, *pc as nat));

    // Deduct static gas cost before execution
    let cost = opcode::opcode_gas(op);
    if let Err(e) = gas.consume(cost) {
        return Flow::Halted(e);
    }

    match op {
        opcode::STOP => {
            return Flow::Stopped;
        },
        opcode::ADD => {
            let a = match stack.pop() { Ok(v) => v, Err(e) => return Flow::Halted(e) };
            let b = match stack.pop() { Ok(v) => v, Err(e) => return Flow::Halted(e) };
            if let Err(e) = stack.push(a.wrapping_add(b)) { return Flow::Halted(e); }
        },
        opcode::MUL => {
            let a = match stack.pop() { Ok(v) => v, Err(e) => return Flow::Halted(e) };
            let b = match stack.pop() { Ok(v) => v, Err(e) => return Flow::Halted(e) };
            if let Err(e) = stack.push(a.wrapping_mul(b)) { return Flow::Halted(e); }
        },
        opcode::SUB => {
            let a = match stack.pop() { Ok(v) => v, Err(e) => return Flow::Halted(e) };
            let b = match stack.pop() { Ok(v) => v, Err(e) => return Flow::Halted(e) };
            if let Err(e) = stack.push(a.wrapping_sub(b)) { return Flow::Halted(e); }
        },
        opcode::DIV => {
            let a = match stack.pop() { Ok(v) => v, Err(e) => return Flow::Halted(e) };
            let b = match stack.pop() { Ok(v) => v, Err(e) => return Flow::Halted(e) };
            let result = if b.is_zero() { U256::zero() } else { a.div(b) };
            if let Err(e) = stack.push(result) { return Flow::Halted(e); }
        },
        opcode::SDIV => {
            let a = match stack.pop() { Ok(v) => v, Err(e) => return Flow::Halted(e) };
            let b = match stack.pop() { Ok(v) => v, Err(e) => return Flow::Halted(e) };
            let result = if b.is_zero() { U256::zero() } else { signed_div(a, b) };
            if let Err(e) = stack.push(result) { return Flow::Halted(e); }
        },
        opcode::MOD => {
            let a = match stack.pop() { Ok(v) => v, Err(e) => return Flow::Halted(e) };
            let b = match stack.pop() { Ok(v) => v, Err(e) => return Flow::Halted(e) };
            let result = if b.is_zero() { U256::zero() } else { a.rem(b) };
            if let Err(e) = stack.push(result) { return Flow::Halted(e); }
        },
        opcode::SMOD => {
            let a = match stack.pop() { Ok(v) => v, Err(e) => return Flow::Halted(e) };
            let b = match stack.pop() { Ok(v) => v, Err(e) => return Flow::Halted(e) };
            let result = if b.is_zero() { U256::zero() } else { signed_mod(a, b) };
            if let Err(e) = stack.push(result) { return Flow::Halted(e); }
        },
        opcode::ADDMOD => {
            let a = match stack.pop() { Ok(v) => v, Err(e) => return Flow::Halted(e) };
            let b = match stack.pop() { Ok(v) => v, Err(e) => return Flow::Halted(e) };
            let n = match stack.pop() { Ok(v) => v, Err(e) => return Flow::Halted(e) };
            let result = if n.is_zero() { U256::zero() } else { a.add_mod(b, n) };
            if let Err(e) = stack.push(result) { return Flow::Halted(e); }
        },
        opcode::MULMOD => {
            let a = match stack.pop() { Ok(v) => v, Err(e) => return Flow::Halted(e) };
            let b = match stack.pop() { Ok(v) => v, Err(e) => return Flow::Halted(e) };
            let n = match stack.pop() { Ok(v) => v, Err(e) => return Flow::Halted(e) };
            let result = if n.is_zero() { U256::zero() } else { a.mul_mod(b, n) };
            if let Err(e) = stack.push(result) { return Flow::Halted(e); }
        },
        opcode::EXP => {
            let base = match stack.pop() { Ok(v) => v, Err(e) => return Flow::Halted(e) };
            let exponent = match stack.pop() { Ok(v) => v, Err(e) => return Flow::Halted(e) };
            proof {
                lemma_word_bound(exponent);
                lemma_pow2_256();
                lemma_bit_length_bound(exponent@, 256);
            }
            let exp_bytes = if exponent.is_zero() { 0u64 } else { (exponent.bit_len() as u64 + 7) / 8 };
            if let Err(e) = gas.consume(50 * exp_bytes) { return Flow::Halted(e); }
            let result = base.pow(exponent);
            if let Err(e) = stack.push(result) { return Flow::Halted(e); }
        },
        opcode::SIGNEXTEND => {
            let b = match stack.pop() { Ok(v) => v, Err(e) => return Flow::Halted(e) };
            let x = match stack.pop() { Ok(v) => v, Err(e) => return Flow::Halted(e) };
            let result = sign_extend(b, x);
            if let Err(e) = stack.push(result) { return Flow::Halted(e); }
        },

        // PUSH1..PUSH32
        0x60..=0x7F => {
            let n = (op - 0x5F) as usize;
            let mut bytes = [0u8; 32];
            let available = bytecode.len().saturating_sub(*pc + 1);
            let copy_len = if n < available { n } else { available };
            let mut j: usize = 0;
            while j < copy_len
                invariant
                    j <= copy_len,
                    copy_len <= n,
                    n <= 32,
                    copy_len <= available,
                    available == bytecode@.len() - (*pc + 1) || (available == 0 && *pc + 1 >= bytecode@.len()),
                    *pc < bytecode@.len(),
                    bytecode@.len() <= isize::MAX,
                    bytes@.len() == 32,
                    forall|i: int|
                        0 <= i < 32 ==> #[trigger] bytes@[i] == (if 32 - n <= i < 32 - n + j {
                            bytecode@[*pc + 1 + i - (32 - n)]
                        } else {
                            0u8
                        }),
                decreases copy_len - j,
            {
                bytes[32 - n + j] = bytecode[*pc + 1 + j];
                j = j + 1;
            }
            proof {
                let data = push_data(bytecode@, *pc as nat, n as nat);
                let zeros = bytes@.subrange(0, 32 - n as int);
                assert(bytes@ =~= zeros + data);
                lemma_be_value_leading_zeros(zeros, data);
            }
            let value = U256::from_be_bytes(bytes);
            if let Err(e) = stack.push(value) {
                return Flow::Halted(e);
            }
            *pc += n;
        },

        opcode::POP => {
            if let Err(e) = stack.pop() {
                return Flow::Halted(e);
            }
        },

        _ => {
            return Flow::Halted(EvmError::InvalidOpcode(op));
        },
    }

    *pc += 1;
    Flow::Next
}

/// Runs instructions from `pc` until the machine stops or halts.
fn run_loop<D: Database>(
    bytecode: &[u8],
    pc: &mut usize,
    stack: &mut Stack,
    _memory: &mut Memory,
    gas: &mut Gas,
    logs: Vec<Log>,
    _ctx: &ExecutionContext,
    _db: &mut D,
) -> (r: ExecutionResult)
    requires
        bytecode@.len() <= isize::MAX,
        *old(pc) <= bytecode@.len() + 32,
    ensures
        ({
            let end = run(bytecode@, old(gas).spec_limit(), machine(*old(pc), old(stack)@, old(gas)));
            &&& reports_with_logs(r, end, logs)
            &&& *final(pc) == final_machine(end).pc
            &&& final(stack)@ == final_machine(end).stack
            &&& final(gas).spec_used() == final_machine(end).gas_used
            &&& final(gas).spec_limit() == old(gas).spec_limit()
        }),
        final(stack)@ == final_stack(
            run(bytecode@, old(gas).spec_limit(), machine(*old(pc), old(stack)@, old(gas))),
        ),
        *final(_memory) == *old(_memory),
        *final(_db) == *old(_db),
{
    let ghost limit = old(gas).spec_limit();
    let ghost end = run(bytecode@, limit, machine(*old(pc), old(stack)@, old(gas)));
    loop
        invariant
            bytecode@.len() <= isize::MAX,
            *pc <= bytecode@.len() + 32,
            gas.spec_limit() == limit,
            limit == old(gas).spec_limit(),
            *_memory == *old(_memory),
            end == run(bytecode@, limit, machine(*old(pc), old(stack)@, old(gas))),
            run(bytecode@, limit, machine(*pc, stack@, gas)) == end,
        decreases distance_to_end(bytecode@, machine(*pc, stack@, gas)),
    {
        let ghost before = machine(*pc, stack@, gas);
        proof {
            lemma_step_advances(bytecode@, limit, before);
        }
        match execute_instruction(bytecode, pc, stack, gas) {
            Flow::Next => {
                assert(machine(*pc, stack@, gas) =~= step(bytecode@, limit, before)->Continue_0);
            },
            Flow::Stopped => {
                let r = ExecutionResult::Success {
                    gas_used: gas.used(),
                    return_data: Vec::new(),
                    logs,
                };
                return r;
            },
            Flow::Halted(e) => {
                return ExecutionResult::Halt { reason: e };
            },
        }
    }
}

/// The words of the stack, top first.
fn top_first(stack: &Stack) -> (r: Vec<U256>)
    ensures
        r@.map_values(|w: U256| w@) == stack@.reverse(),
{
    let ghost reversed = stack@.reverse();
    let mut values: Vec<U256> = Vec::new();
    let mut i: usize = 0;
    while i < stack.len()
        invariant
            i <= stack@.len(),
            reversed == stack@.reverse(),
            values@.len() == i,
            forall|j: int| 0 <= j < i ==> #[trigger] values@[j]@ == reversed[j],
        decreases stack@.len() - i,
    {
        match stack.peek(i) {
            Ok(v) => values.push(v),
            Err(_) => {},
        }
        i = i + 1;
    }
    assert(values@.map_values(|w: U256| w@) =~= reversed);
    values
}

/// Execute bytecode and also return the final stack contents (top-first).
pub fn execute_returning_stack<D: Database>(ctx: &ExecutionContext, db: &mut D) -> (r: (
    ExecutionResult,
    Vec<U256>,
))
    requires
        ctx.code@.len() <= isize::MAX,
    ensures
        ({
            let end = run(ctx.code@, ctx.gas_limit as nat, initial_machine());
            &&& reports(r.0, end)
            &&& r.1@.map_values(|w: U256| w@) == final_stack(end).reverse()
        }),
        *final(db) == *old(db),
{
    let bytecode = ctx.code.as_slice();
    let mut pc: usize = 0;
    let mut stack = Stack::new();
    let mut memory = Memory::new();
    let mut gas = Gas::new(ctx.gas_limit);
    let logs: Vec<Log> = Vec::new();

    assert(machine(pc, stack@, &gas) =~= initial_machine());
    let result = run_loop(bytecode, &mut pc, &mut stack, &mut memory, &mut gas, logs, ctx, db);
    let stack_values: Vec<U256> = top_first(&stack);
    (result, stack_values)
}

pub fn execute<D: Database>(ctx: &ExecutionContext, db: &mut D) -> (r: ExecutionResult)
    requires
        ctx.code@.len() <= isize::MAX,
    ensures
        reports(r, run(ctx.code@, ctx.gas_limit as nat, initial_machine())),
        *final(db) == *old(db),
{
    let bytecode = ctx.code.as_slice();
    let mut pc: usize = 0;
    let mut stack = Stack::new();
    let mut memory = Memory::new();
    let mut gas = Gas::new(ctx.gas_limit);
    let logs: Vec<Log> = Vec::new();

    assert(machine(pc, stack@, &gas) =~= initial_machine());
    run_loop(bytecode, &mut pc, &mut stack, &mut memory, &mut gas, logs, ctx, db)
}

/// Execute bytecode and also return a record of the machine before each
/// instruction.
pub fn execute_with_trace<D: Database>(ctx: &ExecutionContext, _db: &mut D) -> (r: (
    ExecutionResult,
    Vec<TraceStep>,
))
    requires
        ctx.code@.len() <= isize::MAX,
    ensures
        reports(r.0, run(ctx.code@, ctx.gas_limit as nat, initial_machine())),
        *final(_db) == *old(_db),
        r.1@.len() == trace(ctx.code@, ctx.gas_limit as nat, initial_machine()).len(),
        forall|i: int|
            0 <= i < r.1@.len() ==> records(
                #[trigger] r.1@[i],
                ctx.code@,
                trace(ctx.code@, ctx.gas_limit as nat, initial_machine())[i],
            ),
{
    let bytecode = ctx.code.as_slice();
    let mut pc: usize = 0;
    let mut stack = Stack::new();
    let mut gas = Gas::new(ctx.gas_limit);
    let mut steps: Vec<TraceStep> = Vec::new();
    let ghost code = bytecode@;
    let ghost limit = ctx.gas_limit as nat;
    let ghost end = run(code, limit, initial_machine());
    let ghost full = trace(code, limit, initial_machine());
    let ghost mut seen: Seq<Machine> = Seq::empty();
    assert(machine(pc, stack@, &gas) =~= initial_machine());

    loop
        invariant
            code == bytecode@,
            code == ctx.code@,
            limit == ctx.gas_limit as nat,
            code.len() <= isize::MAX,
            pc <= code.len() + 32,
            gas.spec_limit() == limit,
            run(code, limit, machine(pc, stack@, &gas)) == end,
            end == run(code, limit, initial_machine()),
            full == trace(code, limit, initial_machine()),
            full == seen + trace(code, limit, machine(pc, stack@, &gas)),
            steps@.len() == seen.len(),
            forall|i: int| 0 <= i < steps@.len() ==> records(#[trigger] steps@[i], code, seen[i]),
        decreases distance_to_end(code, machine(pc, stack@, &gas)),
    {
        let ghost before = machine(pc, stack@, &gas);
        proof {
            lemma_step_advances(code, limit, before);
        }
        let op = if pc < bytecode.len() { bytecode[pc] } else { opcode::STOP };
        let operand = if pc < bytecode.len() && 0x60 <= op && op <= 0x7F {
            let n = (op - 0x5F) as usize;
            let end = if pc + 1 + n < bytecode.len() { pc + 1 + n } else { bytecode.len() };
            Some(vstd::slice::slice_to_vec(vstd::slice::slice_subrange(bytecode, pc + 1, end)))
        } else {
            None
        };
        let record = TraceStep {
            pc,
            opcode_name: opcode::opcode_name(op),
            operand,
            stack: top_first(&stack),
            gas_used: gas.used(),
        };
        assert(records(record, code, before));
        steps.push(record);
        proof {
            seen = seen.push(before);
        }
        match execute_instruction(bytecode, &mut pc, &mut stack, &mut gas) {
            Flow::Next => {
                let ghost next = step(code, limit, before)->Continue_0;
                assert(machine(pc, stack@, &gas) =~= next);
                assert(full =~= seen + trace(code, limit, machine(pc, stack@, &gas)));
            },
            Flow::Stopped => {
                assert(full =~= seen);
                return (
                    ExecutionResult::Success {
                        gas_used: gas.used(),
                        return_data: Vec::new(),
                        logs: Vec::new(),
                    },
                    steps,
                );
            },
            Flow::Halted(e) => {
                assert(full =~= seen);
                return (ExecutionResult::Halt { reason: e }, steps);
            },
        }
    }
}

} // verus!
