//! Properties of the library that span several calls or every state.

use vstd::prelude::*;
use vstd::arithmetic::div_mod::{
    lemma_small_mod, lemma_fundamental_div_mod, lemma_mod_multiples_basic, lemma_mod_breakdown,
    lemma_mod_multiples_vanish, lemma_mod_add_multiples_vanish,
};
use vstd::arithmetic::power2::{pow2, lemma_pow2_adds, lemma_pow2_pos, lemma_pow2_strictly_increases};
use vstd::arithmetic::mul::lemma_mul_is_distributive_add;
use crate::memory::{grown, grown_len, with_word, word_at};
use crate::error::EvmError;
use crate::opcode::{ADD, SUB, MUL, DIV, SDIV, MOD, SMOD, ADDMOD, MULMOD, SIGNEXTEND, is_push, push_size, opcode_name_text};
use crate::text::{
    digit_char, decimal, decimal_padded, zeros, hex_text, space_padded, hex_digits, zero_padded,
};
use crate::interpreter::{ExecutionResult, TraceStep};
use crate::report::{outcome_text, trace_text, instruction_text, stack_text, word_text};
use crate::disasm::{disassembly_line, next_instruction};
use crate::semantics::{
    Machine, Transition, step, run, binary_value, ternary_value, distance_to_end,
    lemma_step_advances, fetch, push_data, to_signed, from_signed, abs, exp_value, exp_gas,
};
use crate::word::{U256, word_modulus, be_bytes, be_value, bit_length, lemma_pow2_256};
use vstd::arithmetic::power::pow;

verus! {

/// Popping right after a push gives back the pushed word and leaves the stack
/// as it was before the push.
pub proof fn law_pop_undoes_push(stack: Seq<nat>, value: nat)
    ensures
        stack.push(value).last() == value,
        stack.push(value).drop_last() == stack,
{
    assert(stack.push(value).drop_last() =~= stack);
}

/// Swapping the top with the same depth twice leaves the stack as it was.
pub proof fn law_swap_twice(stack: Seq<nat>, depth: nat)
    requires
        depth < stack.len(),
    ensures
        ({
            let top = stack.len() - 1;
            let once = stack.update(top, stack[top - depth]).update(top - depth, stack[top]);
            once.update(top, once[top - depth]).update(top - depth, once[top]) == stack
        }),
{
    let top = stack.len() - 1;
    let once = stack.update(top, stack[top - depth]).update(top - depth, stack[top]);
    assert(once.update(top, once[top - depth]).update(top - depth, once[top]) =~= stack);
}

/// Growing memory whose length is a multiple of 32 keeps every byte it had,
/// fills the new bytes with zeros, covers the bytes asked for, and leaves a
/// length that is still a multiple of 32.
pub proof fn law_memory_growth(mem: Seq<u8>, offset: nat, size: nat)
    requires
        mem.len() % 32 == 0,
    ensures
        grown(mem, offset, size).len() == grown_len(mem.len(), offset, size),
        grown(mem, offset, size).len() % 32 == 0,
        grown(mem, offset, size).len() >= mem.len(),
        grown(mem, offset, size).len() >= offset + size,
        grown(mem, offset, size).subrange(0, mem.len() as int) == mem,
        forall|i: int|
            mem.len() <= i < grown(mem, offset, size).len() ==> #[trigger] grown(
                mem,
                offset,
                size,
            )[i] == 0,
{
    assert(grown(mem, offset, size).subrange(0, mem.len() as int) =~= mem);
}

/// Growing memory is idempotent: growing it again for the same range changes
/// nothing, and a range it already covers does not grow it at all.
pub proof fn law_growth_idempotent(mem: Seq<u8>, offset: nat, size: nat)
    ensures
        grown(grown(mem, offset, size), offset, size) == grown(mem, offset, size),
        offset + size <= mem.len() ==> grown(mem, offset, size) == mem,
{
    assert(grown(grown(mem, offset, size), offset, size) =~= grown(mem, offset, size));
    if offset + size <= mem.len() {
        assert(grown(mem, offset, size) =~= mem);
    }
}

/// Reading a word where one was just written gives it back, and the read does
/// not grow the memory again.
pub proof fn law_read_after_write(mem: Seq<u8>, offset: nat, value: nat)
    requires
        value < word_modulus(),
    ensures
        grown(with_word(mem, offset, value), offset, 32) == with_word(mem, offset, value),
        word_at(with_word(mem, offset, value), offset) == value,
{
    let after = with_word(mem, offset, value);
    crate::bits::lemma_be_value_of_bytes(value, 32);
    assert(after.len() == grown(mem, offset, 32).len());
    assert(grown(after, offset, 32) =~= after);
    assert(after.subrange(offset as int, (offset + 32) as int) =~= be_bytes(value, 32));
    lemma_pow2_256();
    lemma_small_mod(value, word_modulus());
}

/// Dividing, or taking a remainder, by zero gives zero rather than an error.
pub proof fn law_zero_divisor_gives_zero(a: nat, b: nat)
    ensures
        binary_value(DIV, a, 0) == 0,
        binary_value(SDIV, a, 0) == 0,
        binary_value(MOD, a, 0) == 0,
        binary_value(SMOD, a, 0) == 0,
        ternary_value(ADDMOD, a, b, 0) == 0,
        ternary_value(MULMOD, a, b, 0) == 0,
{
}

/// The gas a run has used when it ends never exceeds the limit.
pub proof fn law_run_within_gas_limit(code: Seq<u8>, gas_limit: nat, m: Machine)
    requires
        m.gas_used <= gas_limit,
    ensures
        match run(code, gas_limit, m) {
            Transition::Continue(end) => end.gas_used <= gas_limit,
            Transition::Stop(end) => end.gas_used <= gas_limit,
            Transition::Halt(_, end) => end.gas_used <= gas_limit,
        },
    decreases distance_to_end(code, m),
{
    lemma_step_advances(code, gas_limit, m);
    if let Transition::Continue(next) = step(code, gas_limit, m) {
        law_run_within_gas_limit(code, gas_limit, next);
    }
}

/// The stack never holds more than 1024 words, during a run or when it ends.
pub proof fn law_run_stack_depth(code: Seq<u8>, gas_limit: nat, m: Machine)
    requires
        m.stack.len() <= 1024,
    ensures
        match run(code, gas_limit, m) {
            Transition::Continue(end) => end.stack.len() <= 1024,
            Transition::Stop(end) => end.stack.len() <= 1024,
            Transition::Halt(_, end) => end.stack.len() <= 1024,
        },
    decreases distance_to_end(code, m),
{
    lemma_step_advances(code, gas_limit, m);
    if let Transition::Continue(next) = step(code, gas_limit, m) {
        law_run_stack_depth(code, gas_limit, next);
    }
}

/// An instruction overflows the stack only when it is a push and the stack
/// already holds 1024 words (the arithmetic opcodes pop before they push), and
/// the stack is then left as it was, at the offset of that push.
pub proof fn law_overflow_only_from_full_push(code: Seq<u8>, gas_limit: nat, m: Machine)
    requires
        m.stack.len() <= 1024,
    ensures
        step(code, gas_limit, m) matches Transition::Halt(EvmError::StackOverflow, end) ==> {
            &&& is_push(fetch(code, m.pc))
            &&& m.stack.len() == 1024
            &&& end.stack == m.stack
            &&& end.pc == m.pc
        },
{
}

/// A run that halts with a stack overflow ends at a push, with 1024 words on
/// the stack.
pub proof fn law_run_overflow_only_from_full_push(code: Seq<u8>, gas_limit: nat, m: Machine)
    requires
        m.stack.len() <= 1024,
    ensures
        run(code, gas_limit, m) matches Transition::Halt(EvmError::StackOverflow, end) ==> {
            &&& is_push(fetch(code, end.pc))
            &&& end.stack.len() == 1024
        },
    decreases distance_to_end(code, m),
{
    lemma_step_advances(code, gas_limit, m);
    law_overflow_only_from_full_push(code, gas_limit, m);
    if let Transition::Continue(next) = step(code, gas_limit, m) {
        law_run_overflow_only_from_full_push(code, gas_limit, next);
    }
}

/// The digit that a character below 16 stands for, inverse to `digit_char`.
pub open spec fn digit_value(c: char) -> int {
    if (c as int) < 97 {
        c as int - 48
    } else {
        c as int - 87
    }
}

proof fn lemma_digit_value(d: nat)
    requires
        d < 16,
    ensures
        digit_value(digit_char(d)) == d,
{
}

/// Whether a character is one of the decimal digits `0` to `9`.
pub open spec fn is_decimal_digit(c: char) -> bool {
    '0' <= c <= '9'
}

/// The number of decimal digits needed to write `n`.
pub open spec fn digit_count(n: nat) -> nat
    decreases n,
{
    if n < 10 {
        1
    } else {
        1 + digit_count(n / 10)
    }
}

/// The number that decimal digits stand for, most significant first.
pub open spec fn decimal_value(digits: Seq<char>) -> int
    decreases digits.len(),
{
    if digits.len() == 0 {
        0
    } else {
        decimal_value(digits.drop_last()) * 10 + digit_value(digits.last())
    }
}

proof fn lemma_decimal_value(n: nat)
    ensures
        decimal_value(decimal(n)) == n,
        n < 10 ==> decimal(n).len() == 1,
        10 <= n < 100 ==> decimal(n).len() == 2,
    decreases n,
{
    if n < 10 {
        lemma_digit_value(n);
        assert(decimal(n).drop_last() =~= Seq::<char>::empty());
        assert(decimal(n).last() == digit_char(n));
        assert(decimal_value(decimal(n)) == decimal_value(Seq::<char>::empty()) * 10 + digit_value(digit_char(n)));
    } else {
        lemma_decimal_value(n / 10);
        lemma_digit_value(n % 10);
        assert(decimal(n).drop_last() =~= decimal(n / 10));
        assert(decimal(n).last() == digit_char(n % 10));
        assert(decimal_value(decimal(n)) == decimal_value(decimal(n / 10)) * 10 + digit_value(digit_char(n % 10)));
    }
}

/// The opcode byte that a name stands for.
spec fn name_code(s: Seq<char>) -> int {
    if s.len() == 13 {
        16 * digit_value(s[10]) + digit_value(s[11])
    } else if s.len() >= 5 && s[0] == 'P' && s[1] == 'U' {
        0x5F + decimal_value(s.subrange(4, s.len() as int))
    } else if s.len() == 4 {
        if s[1] == 'T' {
            0x00
        } else if s[1] == 'D' {
            0x05
        } else {
            0x07
        }
    } else if s.len() == 3 {
        if s[0] == 'A' {
            0x01
        } else if s[0] == 'S' {
            0x03
        } else if s[0] == 'D' {
            0x04
        } else if s[0] == 'E' {
            0x0A
        } else if s[0] == 'P' {
            0x50
        } else if s[1] == 'U' {
            0x02
        } else {
            0x06
        }
    } else if s.len() == 6 {
        if s[0] == 'A' {
            0x08
        } else {
            0x09
        }
    } else {
        0x0B
    }
}

proof fn lemma_name_code(op: u8)
    ensures
        name_code(opcode_name_text(op)) == op,
{
    let s = opcode_name_text(op);
    if is_push(op) && op != 0x50 {
        let n = push_size(op);
        lemma_decimal_value(n);
        assert(s.subrange(4, s.len() as int) =~= decimal(n));
    } else if !(op <= 0x0B || op == 0x50 || is_push(op)) {
        lemma_digit_value(op as nat / 16);
        lemma_digit_value(op as nat % 16);
    }
}

/// Distinct opcode bytes get distinct names, so a name identifies its byte.
pub proof fn law_distinct_names(op1: u8, op2: u8)
    requires
        op1 != op2,
    ensures
        opcode_name_text(op1) != opcode_name_text(op2),
{
    lemma_name_code(op1);
    lemma_name_code(op2);
}

/// `decimal(n)` has `digit_count(n)` characters, all decimal digits.
proof fn lemma_decimal_digits(n: nat)
    ensures
        decimal(n).len() == digit_count(n),
        forall|i: int| 0 <= i < decimal(n).len() ==> is_decimal_digit(#[trigger] decimal(n)[i]),
    decreases n,
{
    if n >= 10 {
        lemma_decimal_digits(n / 10);
        assert forall|i: int| 0 <= i < decimal(n).len() implies is_decimal_digit(
            #[trigger] decimal(n)[i],
        ) by {
            if i < decimal(n).len() - 1 {
                assert(decimal(n)[i] == decimal(n / 10)[i]);
            }
        }
    }
}

/// Leading zeros do not change the value of decimal digits.
proof fn lemma_leading_zeros(k: nat, digits: Seq<char>)
    ensures
        decimal_value(zeros(k) + digits) == decimal_value(digits),
    decreases digits.len(), k,
{
    if digits.len() == 0 {
        if k > 0 {
            assert((zeros(k) + digits).drop_last() =~= zeros((k - 1) as nat) + digits);
            lemma_leading_zeros((k - 1) as nat, digits);
        } else {
            assert(zeros(k) + digits =~= digits);
        }
    } else {
        assert((zeros(k) + digits).drop_last() =~= zeros(k) + digits.drop_last());
        lemma_leading_zeros(k, digits.drop_last());
    }
}

/// The decimal text of `n` padded to `width` is `max(width, digit_count(n))`
/// decimal digits that stand for `n`.
proof fn lemma_padded_digits(n: nat, width: nat)
    ensures
        decimal_padded(n, width).len() == (if digit_count(n) < width { width } else { digit_count(n) }),
        forall|i: int|
            0 <= i < decimal_padded(n, width).len() ==> is_decimal_digit(
                #[trigger] decimal_padded(n, width)[i],
            ),
        decimal_value(decimal_padded(n, width)) == n,
{
    lemma_decimal_digits(n);
    lemma_decimal_value(n);
    let d = decimal(n);
    if d.len() < width {
        lemma_leading_zeros((width - d.len()) as nat, d);
        assert forall|i: int| 0 <= i < decimal_padded(n, width).len() implies is_decimal_digit(
            #[trigger] decimal_padded(n, width)[i],
        ) by {
            if i >= width - d.len() {
                assert(decimal_padded(n, width)[i] == d[i - (width - d.len())]);
            }
        }
    }
}

/// The program counter of a trace line is written in decimal: after `PC=`
/// come at least four decimal digits, as many as `pc` needs, that stand for
/// `pc`, and then a space.
pub proof fn law_trace_line_pc_in_decimal(step: TraceStep)
    ensures
        ({
            let t = trace_text(step);
            let w: int = if digit_count(step.pc as nat) < 4 { 4 } else { digit_count(step.pc as nat) as int };
            &&& t.subrange(0, 3) == seq!['P', 'C', '=']
            &&& forall|i: int| 3 <= i < 3 + w ==> is_decimal_digit(#[trigger] t[i])
            &&& decimal_value(t.subrange(3, 3 + w)) == step.pc
            &&& t[3 + w] == ' '
        }),
{
    reveal_strlit("PC=");
    reveal_strlit("  ");
    let t = trace_text(step);
    let f = decimal_padded(step.pc as nat, 4);
    lemma_padded_digits(step.pc as nat, 4);
    assert(t.subrange(0, 3) =~= seq!['P', 'C', '=']);
    assert(t.subrange(3, 3 + f.len() as int) =~= f);
    assert forall|i: int| 3 <= i < 3 + f.len() implies is_decimal_digit(#[trigger] t[i]) by {
        assert(t[i] == f[i - 3]);
    }
}

/// The gas of a success or revert line is written in decimal, most significant
/// digit first: after the fixed head come the decimal digits that stand for the
/// gas used, and then ` ---`.
pub proof fn law_outcome_gas_in_decimal(result: ExecutionResult)
    ensures
        match result {
            ExecutionResult::Success { gas_used, .. } => {
                let head = "--- Execution complete: Success | Gas used: "@;
                let t = outcome_text(result);
                let w = digit_count(gas_used as nat) as int;
                let h = head.len() as int;
                &&& t.subrange(0, h) == head
                &&& forall|i: int| h <= i < h + w ==> is_decimal_digit(#[trigger] t[i])
                &&& decimal_value(t.subrange(h, h + w)) == gas_used
                &&& t.subrange(h + w, t.len() as int) == " ---"@
            },
            ExecutionResult::Revert { gas_used, .. } => {
                let head = "--- Execution complete: Revert | Gas used: "@;
                let t = outcome_text(result);
                let w = digit_count(gas_used as nat) as int;
                let h = head.len() as int;
                &&& t.subrange(0, h) == head
                &&& forall|i: int| h <= i < h + w ==> is_decimal_digit(#[trigger] t[i])
                &&& decimal_value(t.subrange(h, h + w)) == gas_used
                &&& t.subrange(h + w, t.len() as int) == " ---"@
            },
            ExecutionResult::Halt { .. } => true,
        },
{
    match result {
        ExecutionResult::Success { gas_used, .. } => {
            let head = "--- Execution complete: Success | Gas used: "@;
            let t = outcome_text(result);
            let d = decimal(gas_used as nat);
            lemma_decimal_digits(gas_used as nat);
            lemma_decimal_value(gas_used as nat);
            assert(t.subrange(0, head.len() as int) =~= head);
            assert(t.subrange(head.len() as int, (head.len() + d.len()) as int) =~= d);
            assert(t.subrange((head.len() + d.len()) as int, t.len() as int) =~= " ---"@);
            assert forall|i: int| head.len() <= i < head.len() + d.len() implies is_decimal_digit(
                #[trigger] t[i],
            ) by {
                assert(t[i] == d[i - head.len()]);
            }
        },
        ExecutionResult::Revert { gas_used, .. } => {
            let head = "--- Execution complete: Revert | Gas used: "@;
            let t = outcome_text(result);
            let d = decimal(gas_used as nat);
            lemma_decimal_digits(gas_used as nat);
            lemma_decimal_value(gas_used as nat);
            assert(t.subrange(0, head.len() as int) =~= head);
            assert(t.subrange(head.len() as int, (head.len() + d.len()) as int) =~= d);
            assert(t.subrange((head.len() + d.len()) as int, t.len() as int) =~= " ---"@);
            assert forall|i: int| head.len() <= i < head.len() + d.len() implies is_decimal_digit(
                #[trigger] t[i],
            ) by {
                assert(t[i] == d[i - head.len()]);
            }
        },
        ExecutionResult::Halt { .. } => {},
    }
}

/// `q * d <= x < (q + 1) * d` for `q = x / d`, and `x - x % d == d * (x / d)`.
proof fn lemma_quotient_bounds(x: nat, d: nat)
    requires
        d > 0,
    ensures
        (x / d) * d <= x,
        x < (x / d + 1) * d,
        x % d < d,
        x - x % d == (x / d) * d,
{
    lemma_fundamental_div_mod(x as int, d as int);
    lemma_mul_is_distributive_add(d as int, (x / d) as int, 1);
    assert((x / d) * d == d * (x / d)) by (nonlinear_arith);
    assert((x / d + 1) * d == d * (x / d + 1)) by (nonlinear_arith);
}

/// A signed number in `[-2^255, 2^255)` reads back from the word that denotes it.
proof fn lemma_signed_round_trip(q: int)
    requires
        -(pow2(255) as int) <= q < pow2(255),
    ensures
        to_signed(from_signed(q)) == q,
{
    lemma_pow2_256();
    assert(word_modulus() == pow2(255) * 2) by {
        vstd::arithmetic::power2::lemma_pow2_unfold(256);
    }
    let w = word_modulus() as int;
    if q >= 0 {
        lemma_small_mod(q as nat, w as nat);
    } else {
        lemma_mod_add_multiples_vanish(q, w);
        lemma_small_mod((w + q) as nat, w as nat);
    }
}

/// `SDIV` divides as signed numbers, rounding toward zero: read as a signed
/// number, its result is `|x| / |y|`, negated exactly when the operands' signs
/// differ.  The one quotient that does not fit, `-2^255 / -1`, wraps to
/// `-2^255`.  In every case the result stands (modulo `2^256`) for a quotient
/// `q` with `|q| * |y| <= |x| < (|q| + 1) * |y|`, negative exactly when the
/// signs differ (or zero).
pub proof fn law_sdiv_rounds_toward_zero(a: nat, b: nat)
    requires
        a < word_modulus(),
        b < word_modulus(),
        b != 0,
    ensures
        ({
            let x = to_signed(a);
            let y = to_signed(b);
            let m = abs(x) / abs(y);
            !(a == pow2(255) && b == word_modulus() - 1) ==> to_signed(binary_value(SDIV, a, b)) == (
            if (x < 0) != (y < 0) {
                -m
            } else {
                m as int
            })
        }),
        (a == pow2(255) && b == word_modulus() - 1) ==> binary_value(SDIV, a, b) == pow2(255),
        ({
            let x = to_signed(a);
            let y = to_signed(b);
            exists|q: int|
                #![trigger from_signed(q)]
                {
                    &&& from_signed(q) == binary_value(SDIV, a, b)
                    &&& abs(q) * abs(y) <= abs(x)
                    &&& abs(x) < (abs(q) + 1) * abs(y)
                    &&& (q == 0 || ((q < 0) <==> ((x < 0) != (y < 0))))
                }
        }),
{
    let x = to_signed(a);
    let y = to_signed(b);
    lemma_pow2_256();
    assert(word_modulus() == pow2(255) * 2) by {
        vstd::arithmetic::power2::lemma_pow2_unfold(256);
    }
    assert(abs(y) > 0);
    assert(abs(x) <= pow2(255));
    let m = abs(x) / abs(y);
    lemma_quotient_bounds(abs(x), abs(y));
    let q: int = if (x < 0) != (y < 0) { -m } else { m as int };
    assert(abs(q) == m);
    assert(from_signed(q) == binary_value(SDIV, a, b));
    assert(m <= abs(x)) by {
        assert(m * abs(y) >= m) by (nonlinear_arith)
            requires
                abs(y) >= 1,
        ;
    }
    if a == pow2(255) && b == word_modulus() - 1 {
        assert(x == -(pow2(255) as int));
        assert(y == -1);
        assert(abs(y) == 1);
        vstd::arithmetic::div_mod::lemma_div_basics(abs(x) as int);
        assert(m == pow2(255));
        lemma_small_mod(pow2(255), word_modulus());
    } else {
        if (x < 0) == (y < 0) {
            if x >= 0 {
                assert(m < pow2(255));
            } else if abs(y) == 1 {
                assert(y == -1);
                assert(b == word_modulus() - 1);
                assert(a != pow2(255));
                assert(abs(x) < pow2(255));
            } else {
                assert(m * 2 <= m * abs(y)) by (nonlinear_arith)
                    requires
                        abs(y) >= 2,
                ;
            }
            assert(m < pow2(255));
        }
        lemma_signed_round_trip(q);
    }
}

/// `SMOD` takes the signed remainder: its result stands (modulo `2^256`) for a
/// remainder `r` smaller in magnitude than the divisor, with the sign of the
/// dividend (or zero), such that the dividend minus `r` is a multiple of the
/// divisor.
pub proof fn law_smod_sign_of_dividend(a: nat, b: nat)
    requires
        a < word_modulus(),
        b < word_modulus(),
        b != 0,
    ensures
        ({
            let x = to_signed(a);
            let y = to_signed(b);
            exists|r: int|
                #![trigger from_signed(r)]
                {
                    &&& from_signed(r) == binary_value(SMOD, a, b)
                    &&& abs(r) < abs(y)
                    &&& (r == 0 || ((r < 0) <==> (x < 0)))
                    &&& (x - r) % (abs(y) as int) == 0
                }
        }),
{
    let x = to_signed(a);
    let y = to_signed(b);
    assert(abs(y) > 0);
    let rem = abs(x) % abs(y);
    lemma_quotient_bounds(abs(x), abs(y));
    let k = abs(x) / abs(y);
    let r: int = if x < 0 { -rem } else { rem as int };
    if x < 0 {
        assert(x - r == -((k * abs(y)) as int));
        lemma_mod_multiples_basic(-(k as int), abs(y) as int);
        assert(-(k as int) * (abs(y) as int) == -((k * abs(y)) as int)) by (nonlinear_arith);
    } else {
        assert(x - r == (k * abs(y)) as int);
        lemma_mod_multiples_basic(k as int, abs(y) as int);
    }
    assert(from_signed(r) == binary_value(SMOD, a, b));
}

/// `ADDMOD` and `MULMOD` give the remainder modulo `n` of the exact sum and
/// product: the unique number below `n` that differs from it by a multiple of
/// `n`, with no reduction modulo `2^256` first.
pub proof fn law_modular_ops_are_exact(a: nat, b: nat, n: nat)
    requires
        n != 0,
    ensures
        ternary_value(ADDMOD, a, b, n) < n,
        ((a + b) - ternary_value(ADDMOD, a, b, n)) % (n as int) == 0,
        ternary_value(MULMOD, a, b, n) < n,
        ((a * b) - ternary_value(MULMOD, a, b, n)) % (n as int) == 0,
{
    lemma_quotient_bounds(a + b, n);
    lemma_mod_multiples_basic(((a + b) / n) as int, n as int);
    lemma_quotient_bounds(a * b, n);
    lemma_mod_multiples_basic(((a * b) / n) as int, n as int);
}

/// The line of a push shows, after ` 0x`, every immediate byte that the code
/// holds, in hexadecimal: the first bytes of the very operand the interpreter
/// pushes, as many as lie within the code.
pub proof fn law_push_line_shows_operand(code: Seq<u8>, pc: nat)
    requires
        pc < code.len(),
        is_push(code[pc as int]),
    ensures
        ({
            let n = push_size(code[pc as int]);
            let k = if n < code.len() - pc - 1 { n } else { (code.len() - pc - 1) as nat };
            disassembly_line(code, pc) == decimal_padded(pc, 4) + seq![':', ' '] + opcode_name_text(
                code[pc as int],
            ) + seq![' ', '0', 'x'] + hex_text(push_data(code, pc, n).subrange(0, k as int))
        }),
{
    let n = push_size(code[pc as int]);
    let k = if n < code.len() - pc - 1 { n } else { (code.len() - pc - 1) as nat };
    assert(code.subrange((pc + 1) as int, (pc + 1 + k) as int) =~= push_data(code, pc, n).subrange(
        0,
        k as int,
    ));
}

/// `SIGNEXTEND` keeps the low `b + 1` bytes of `x` and widens them as a signed
/// number: the result agrees with `x` modulo `2^(8b+8)` and, read as a signed
/// word, lies in `[-2^(8b+7), 2^(8b+7))`.  From 31 on, `x` is kept whole.
pub proof fn law_signextend_widens_low_bytes(b: nat, x: nat)
    requires
        x < word_modulus(),
    ensures
        b < 31 ==> {
            let k = 8 * b + 7;
            let r = binary_value(SIGNEXTEND, b, x);
            &&& r < word_modulus()
            &&& r % pow2(k + 1) == x % pow2(k + 1)
            &&& -pow2(k) <= to_signed(r) < pow2(k)
        },
        b >= 31 ==> binary_value(SIGNEXTEND, b, x) == x,
{
    if b < 31 {
        let k = 8 * b + 7;
        let p = pow2(k);
        let p1 = pow2(k + 1);
        let low = x % p1;
        lemma_pow2_256();
        lemma_pow2_pos(k);
        lemma_pow2_pos(k + 1);
        lemma_pow2_strictly_increases(k + 1, 255);
        assert(p1 == p * 2) by { vstd::arithmetic::power2::lemma_pow2_unfold(k + 1); }
        lemma_mod_breakdown(x as int, p as int, 2);
        assert(low == p * ((x / p) % 2) + x % p);
        lemma_pow2_adds(k + 1, (256 - (k + 1)) as nat);
        let c = pow2((256 - (k + 1)) as nat);
        lemma_pow2_pos((256 - (k + 1)) as nat);
        assert(word_modulus() == p1 * c);
        assert(word_modulus() == pow2(255) * 2) by {
            vstd::arithmetic::power2::lemma_pow2_unfold(256);
        }
        assert(p1 <= pow2(255));
        if (x / p) % 2 == 1 {
            assert(low >= p);
            let c1: int = c - 1;
            assert(c >= 1);
            let r: int = low + word_modulus() - p1;
            assert(r == low + p1 * c1) by (nonlinear_arith)
                requires
                    r == low + word_modulus() - p1,
                    word_modulus() == p1 * c,
                    c1 == c - 1,
            ;
            lemma_mod_multiples_vanish(c1, low as int, p1 as int);
            assert(p1 * c1 == c1 * p1) by (nonlinear_arith);
            lemma_small_mod(low, p1);
            lemma_small_mod(x % p1, p1);
            assert(r % (p1 as int) == low);
            assert(r < word_modulus());
        } else {
            assert((x / p) % 2 == 0);
            assert(p * ((x / p) % 2) == 0);
            assert(x % p < p);
            assert(low < p);
            lemma_small_mod(low, p1);
        }
    }
}


/// Adding and subtracting the same word undo each other, and unsigned
/// division splits a word into quotient and remainder: `(a / b) * b + a % b`
/// gives `a` back, with the remainder below `b`.  The operand on top of the
/// stack is the first argument.
pub proof fn law_unsigned_arithmetic(a: nat, b: nat)
    requires
        a < word_modulus(),
        b < word_modulus(),
    ensures
        binary_value(ADD, a, b) < word_modulus(),
        binary_value(SUB, a, b) < word_modulus(),
        binary_value(MUL, a, b) < word_modulus(),
        binary_value(SUB, binary_value(ADD, a, b), b) == a,
        binary_value(ADD, binary_value(SUB, a, b), b) == a,
        ((a * b) - binary_value(MUL, a, b)) % (word_modulus() as int) == 0,
        b != 0 ==> binary_value(MOD, a, b) < b,
        b != 0 ==> binary_value(
            ADD,
            binary_value(MUL, binary_value(DIV, a, b), b),
            binary_value(MOD, a, b),
        ) == a,
{
    let w = word_modulus();
    lemma_pow2_256();
    lemma_pow2_pos(256);
    // Sum, then difference.
    if a + b < w {
        lemma_small_mod(a + b, w);
        lemma_small_mod(a, w);
    } else {
        lemma_quotient_bounds(a + b, w);
        lemma_fundamental_div_mod((a + b) as int, w as int);
        assert((a + b) / w == 1) by {
            vstd::arithmetic::div_mod::lemma_div_plus_one((a + b - w) as int, w as int);
            vstd::arithmetic::div_mod::lemma_basic_div((a + b - w) as int, w as int);
        }
        assert(binary_value(ADD, a, b) == a + b - w);
        lemma_mod_add_multiples_vanish(a - w, w as int);
        lemma_small_mod(a, w);
    }
    // Difference, then sum.
    if a >= b {
        lemma_small_mod((a - b) as nat, w);
        lemma_small_mod(a, w);
    } else {
        lemma_mod_add_multiples_vanish(a - b, w as int);
        lemma_small_mod((w + a - b) as nat, w);
        assert(binary_value(SUB, a, b) == w + a - b);
        lemma_mod_add_multiples_vanish(a as int, w as int);
        lemma_small_mod(a, w);
    }
    // Product.
    lemma_quotient_bounds(a * b, w);
    lemma_mod_multiples_basic(((a * b) / w) as int, w as int);
    // Quotient and remainder.
    if b != 0 {
        lemma_quotient_bounds(a, b);
        let q = a / b;
        let r = a % b;
        assert(q * b <= a);
        lemma_small_mod(q * b, w);
        lemma_small_mod(q * b + r, w);
        assert(q * b + r == a);
    }
}

/// `EXP` raises the top word to the power of the second, modulo `2^256`: any
/// word to the power zero is one, and one more in the exponent multiplies the
/// result by the base.
pub proof fn law_exp_powers(base: nat, exponent: nat)
    ensures
        exp_value(base, 0) == 1,
        exp_value(base, exponent + 1) == (exp_value(base, exponent) * base) % word_modulus(),
{
    let w = word_modulus();
    lemma_pow2_256();
    lemma_pow2_pos(256);
    assert(w > 1) by {
        vstd::arithmetic::power2::lemma_pow2_unfold(256);
        lemma_pow2_pos(255);
    }
    vstd::arithmetic::power::lemma_pow0(base as int);
    lemma_small_mod(1, w);
    let p = pow(base as int, exponent);
    assert(pow(base as int, exponent + 1) == base * p) by {
        reveal(pow);
    }
    if base == 0 {
        vstd::arithmetic::power::lemma0_pow(exponent + 1);
        if exponent == 0 {
            lemma_small_mod(0, w);
        } else {
            vstd::arithmetic::power::lemma0_pow(exponent);
            lemma_small_mod(0, w);
        }
    } else {
        vstd::arithmetic::power::lemma_pow_positive(base as int, exponent);
        vstd::arithmetic::div_mod::lemma_mul_mod_noop_left(p, base as int, w as int);
        assert(base * p == p * base) by (nonlinear_arith);
    }
}

/// A positive number needs `bit_length` bits: it lies in
/// `[2^(bit_length - 1), 2^bit_length)`.
proof fn lemma_bit_length_exact(v: nat)
    requires
        v > 0,
    ensures
        bit_length(v) >= 1,
        pow2((bit_length(v) - 1) as nat) <= v < pow2(bit_length(v)),
    decreases v,
{
    vstd::arithmetic::power2::lemma2_to64();
    if v == 1 {
        assert(bit_length(0) == 0);
        assert(bit_length(1) == 1);
    } else {
        lemma_bit_length_exact(v / 2);
        let l = bit_length(v / 2);
        vstd::arithmetic::power2::lemma_pow2_unfold(l);
        vstd::arithmetic::power2::lemma_pow2_unfold(l + 1);
        if l >= 2 {
            vstd::arithmetic::power2::lemma_pow2_unfold((l - 1) as nat);
        }
        assert(bit_length(v) == l + 1);
    }
}

/// `EXP` costs 50 gas for each byte of its exponent: nothing for a zero
/// exponent, and otherwise `50 * k` for the `k` with
/// `2^(8(k-1)) <= exponent < 2^(8k)`.
pub proof fn law_exp_gas_per_byte(exponent: nat)
    ensures
        exponent == 0 ==> exp_gas(exponent) == 0,
        exponent > 0 ==> {
            let k = exp_gas(exponent) / 50;
            &&& exp_gas(exponent) % 50 == 0
            &&& k >= 1
            &&& pow2((8 * (k - 1)) as nat) <= exponent < pow2(8 * k)
        },
{
    if exponent > 0 {
        lemma_bit_length_exact(exponent);
        let l = bit_length(exponent);
        let k = (l + 7) / 8;
        assert(exp_gas(exponent) == 50 * k);
        assert(exp_gas(exponent) / 50 == k);
        assert(8 * k <= l + 7 && l <= 8 * k);
        if l < 8 * k {
            lemma_pow2_strictly_increases(l, 8 * k);
        }
        if 8 * (k - 1) < l - 1 {
            lemma_pow2_strictly_increases((8 * (k - 1)) as nat, (l - 1) as nat);
        }
    }
}


/// The gas of a trace line is written last, in decimal, most significant digit
/// first: the line ends with `] | Gas: ` and the decimal digits that stand for
/// the gas used before the instruction.
pub proof fn law_trace_line_gas_in_decimal(step: TraceStep)
    ensures
        ({
            let t = trace_text(step);
            let w = digit_count(step.gas_used as nat) as int;
            let n = t.len() as int;
            &&& n >= w + 9
            &&& t.subrange(n - w - 9, n - w) == "] | Gas: "@
            &&& forall|i: int| n - w <= i < n ==> is_decimal_digit(#[trigger] t[i])
            &&& decimal_value(t.subrange(n - w, n)) == step.gas_used
        }),
{
    reveal_strlit("] | Gas: ");
    let t = trace_text(step);
    let d = decimal(step.gas_used as nat);
    lemma_decimal_digits(step.gas_used as nat);
    lemma_decimal_value(step.gas_used as nat);
    let n = t.len() as int;
    let w = d.len() as int;
    let before = "PC="@ + decimal_padded(step.pc as nat, 4) + "  "@ + space_padded(
        instruction_text(step),
        14,
    ) + " | Stack: ["@ + stack_text(step.stack@);
    assert(t == before + "] | Gas: "@ + d);
    assert(t.subrange(n - w, n) =~= d);
    assert(t.subrange(n - w - 9, n - w) =~= "] | Gas: "@);
    assert forall|i: int| n - w <= i < n implies is_decimal_digit(#[trigger] t[i]) by {
        assert(t[i] == d[i - (n - w)]);
    }
}

/// Every line of the disassembly starts with the offset of its instruction in
/// decimal, at least four digits, then `: ` and the name of the opcode; the
/// line of an instruction other than a push holds nothing more.
pub proof fn law_disassembly_line_head(code: Seq<u8>, pc: nat)
    requires
        pc < code.len(),
    ensures
        ({
            let t = disassembly_line(code, pc);
            let w: int = if digit_count(pc) < 4 { 4 } else { digit_count(pc) as int };
            let name = opcode_name_text(code[pc as int]);
            &&& forall|i: int| 0 <= i < w ==> is_decimal_digit(#[trigger] t[i])
            &&& decimal_value(t.subrange(0, w)) == pc
            &&& t.subrange(w, w + 2) == seq![':', ' ']
            &&& t.subrange(w + 2, w + 2 + name.len()) == name
            &&& !is_push(code[pc as int]) ==> t.len() == w + 2 + name.len()
        }),
{
    let t = disassembly_line(code, pc);
    let f = decimal_padded(pc, 4);
    let name = opcode_name_text(code[pc as int]);
    lemma_padded_digits(pc, 4);
    let w = f.len() as int;
    assert(t.subrange(0, w) =~= f);
    assert(t.subrange(w, w + 2) =~= seq![':', ' ']);
    assert(t.subrange(w + 2, w + 2 + name.len()) =~= name);
    assert forall|i: int| 0 <= i < w implies is_decimal_digit(#[trigger] t[i]) by {
        assert(t[i] == f[i]);
    }
}

/// The disassembler walks the code as the interpreter does: wherever an
/// instruction lets the machine go on, the interpreter's next program counter
/// is where the disassembler puts the next line.
pub proof fn law_disassembly_follows_execution(code: Seq<u8>, gas_limit: nat, m: Machine)
    ensures
        step(code, gas_limit, m) matches Transition::Continue(next) ==> next.pc
            == next_instruction(code, m.pc),
{
}


/// Whether a character is a lowercase hexadecimal digit.
pub open spec fn is_hex_digit(c: char) -> bool {
    ('0' <= c <= '9') || ('a' <= c <= 'f')
}

/// The number that hexadecimal digits stand for, most significant first.
pub open spec fn hex_value(digits: Seq<char>) -> int
    decreases digits.len(),
{
    if digits.len() == 0 {
        0
    } else {
        hex_value(digits.drop_last()) * 16 + digit_value(digits.last())
    }
}

/// `hex_digits(n)` is a nonempty run of hexadecimal digits that stands for `n`.
proof fn lemma_hex_digits(n: nat)
    ensures
        hex_digits(n).len() >= 1,
        forall|i: int| 0 <= i < hex_digits(n).len() ==> is_hex_digit(#[trigger] hex_digits(n)[i]),
        hex_value(hex_digits(n)) == n,
    decreases n,
{
    let h = hex_digits(n);
    if n < 16 {
        lemma_digit_value(n);
        assert(h.drop_last() =~= Seq::<char>::empty());
        assert(hex_value(h) == hex_value(Seq::<char>::empty()) * 16 + digit_value(digit_char(n)));
    } else {
        lemma_hex_digits(n / 16);
        lemma_digit_value(n % 16);
        assert(h.drop_last() =~= hex_digits(n / 16));
        assert(hex_value(h) == hex_value(hex_digits(n / 16)) * 16 + digit_value(digit_char(n % 16)));
        assert forall|i: int| 0 <= i < h.len() implies is_hex_digit(#[trigger] h[i]) by {
            if i < h.len() - 1 {
                assert(h[i] == hex_digits(n / 16)[i]);
            }
        }
    }
}

/// Leading zeros do not change the value of hexadecimal digits.
proof fn lemma_hex_leading_zeros(k: nat, digits: Seq<char>)
    ensures
        hex_value(zeros(k) + digits) == hex_value(digits),
    decreases digits.len(), k,
{
    if digits.len() == 0 {
        if k > 0 {
            assert((zeros(k) + digits).drop_last() =~= zeros((k - 1) as nat) + digits);
            lemma_hex_leading_zeros((k - 1) as nat, digits);
        } else {
            assert(zeros(k) + digits =~= digits);
        }
    } else {
        assert((zeros(k) + digits).drop_last() =~= zeros(k) + digits.drop_last());
        lemma_hex_leading_zeros(k, digits.drop_last());
    }
}

/// A stack word in a trace line is `0x` and at least two hexadecimal digits
/// that stand for the word.
pub proof fn law_word_text_in_hex(w: nat)
    ensures
        ({
            let t = word_text(w);
            &&& t.len() >= 4
            &&& t[0] == '0'
            &&& t[1] == 'x'
            &&& forall|i: int| 2 <= i < t.len() ==> is_hex_digit(#[trigger] t[i])
            &&& hex_value(t.subrange(2, t.len() as int)) == w
        }),
{
    reveal_strlit("0x");
    let t = word_text(w);
    let h = hex_digits(w);
    lemma_hex_digits(w);
    let p = zero_padded(h, 2);
    if h.len() < 2 {
        lemma_hex_leading_zeros((2 - h.len()) as nat, h);
    }
    assert(t.subrange(2, t.len() as int) =~= p);
    assert forall|i: int| 2 <= i < t.len() implies is_hex_digit(#[trigger] t[i]) by {
        assert(t[i] == p[i - 2]);
        if h.len() < 2 && i - 2 < 2 - h.len() {
            assert(p[i - 2] == '0');
        } else if h.len() < 2 {
            assert(p[i - 2] == h[i - 2 - (2 - h.len())]);
        }
    }
}

/// The hexadecimal text of bytes has two digits per byte and, read as one
/// hexadecimal number, stands for the bytes read as a big-endian number: the
/// value a push of those bytes puts on the stack.
pub proof fn law_hex_text_is_big_endian(bytes: Seq<u8>)
    ensures
        hex_text(bytes).len() == 2 * bytes.len(),
        forall|i: int| 0 <= i < hex_text(bytes).len() ==> is_hex_digit(#[trigger] hex_text(bytes)[i]),
        hex_value(hex_text(bytes)) == be_value(bytes),
    decreases bytes.len(),
{
    if bytes.len() > 0 {
        let rest = bytes.drop_last();
        let b = bytes.last();
        law_hex_text_is_big_endian(rest);
        let hi = b as nat / 16;
        let lo = b as nat % 16;
        lemma_digit_value(hi);
        lemma_digit_value(lo);
        let t = hex_text(bytes);
        let r = hex_text(rest);
        assert(t == r + seq![digit_char(hi), digit_char(lo)]);
        assert(t.drop_last() =~= r.push(digit_char(hi)));
        assert(t.drop_last().drop_last() =~= r);
        let t1 = t.drop_last();
        assert(t.last() == digit_char(lo));
        assert(t1.last() == digit_char(hi));
        assert(hex_value(t1) == hex_value(t1.drop_last()) * 16 + digit_value(t1.last()));
        assert(hex_value(t1) == hex_value(r) * 16 + hi);
        assert(hex_value(t) == hex_value(t1) * 16 + digit_value(t.last()));
        assert(hex_value(t) == (hex_value(r) * 16 + hi) * 16 + lo);
        assert(b as nat == hi * 16 + lo);
        assert(hex_value(t) == hex_value(r) * 256 + hi * 16 + lo) by (nonlinear_arith)
            requires
                hex_value(t) == (hex_value(r) * 16 + hi) * 16 + lo,
        ;
        assert forall|i: int| 0 <= i < t.len() implies is_hex_digit(#[trigger] t[i]) by {
            if i < r.len() {
                assert(t[i] == r[i]);
            }
        }
    }
}


/// The stack of a trace line lists its words in order, separated by `, `: one
/// word shows as its own text, and the text of two runs of words one after the
/// other is the text of the first, `, `, and the text of the second.
pub proof fn law_stack_text_joins(ws1: Seq<U256>, ws2: Seq<U256>)
    ensures
        stack_text(Seq::empty()) == Seq::<char>::empty(),
        ws1.len() == 1 ==> stack_text(ws1) == word_text(ws1[0]@),
        ws1.len() > 0 && ws2.len() > 0 ==> stack_text(ws1 + ws2) == stack_text(ws1) + ", "@
            + stack_text(ws2),
    decreases ws2.len(),
{
    if ws1.len() > 0 && ws2.len() > 0 {
        let all = ws1 + ws2;
        if ws2.len() == 1 {
            assert(all.drop_last() =~= ws1);
            assert(all.last() == ws2[0]);
        } else {
            law_stack_text_joins(ws1, ws2.drop_last());
            assert(all.drop_last() =~= ws1 + ws2.drop_last());
            assert(all.last() == ws2.last());
            assert(stack_text(all) =~= stack_text(ws1) + ", "@ + stack_text(ws2));
        }
    }
}

} // verus!
