//! Facts about the bitwise and positional spec functions of `word`.

use vstd::prelude::*;
use vstd::arithmetic::power2::*;
use vstd::arithmetic::div_mod::*;
use vstd::arithmetic::mul::*;
use crate::word::{bit_and, bit_or, bit_set, bit_length, be_value, be_bytes, word_modulus, lemma_pow2_256};

verus! {

/// `v mod 2^m` split at the lowest bit.
proof fn lemma_mod_pow2_halves(x: nat, m: nat)
    requires
        m > 0,
    ensures
        x % pow2(m) == 2 * ((x / 2) % pow2((m - 1) as nat)) + x % 2,
{
    lemma_pow2_unfold(m);
    lemma_pow2_pos((m - 1) as nat);
    lemma_mod_breakdown(x as int, 2, pow2((m - 1) as nat) as int);
}

/// AND with `2^m - 1` keeps the low `m` bits.
pub proof fn lemma_and_low_mask(x: nat, m: nat)
    ensures
        bit_and(x, (pow2(m) - 1) as nat) == x % pow2(m),
    decreases m,
{
    lemma_pow2_pos(m);
    if m == 0 {
        assert(pow2(0) == 1) by { lemma2_to64(); }
    } else {
        let y = (pow2(m) - 1) as nat;
        lemma_pow2_unfold(m);
        lemma_pow2_pos((m - 1) as nat);
        if x == 0 {
            assert(0nat % pow2(m) == 0);
        } else {
            assert(y % 2 == 1);
            assert(y / 2 == (pow2((m - 1) as nat) - 1) as nat);
            lemma_and_low_mask(x / 2, (m - 1) as nat);
            lemma_mod_pow2_halves(x, m);
        }
    }
}

/// AND with `2^k` isolates bit `k`.
pub proof fn lemma_and_single_bit(x: nat, k: nat)
    ensures
        bit_and(x, pow2(k)) == pow2(k) * ((x / pow2(k)) % 2),
    decreases k,
{
    lemma_pow2_pos(k);
    if k == 0 {
        assert(pow2(0) == 1) by { lemma2_to64(); }
        if x != 0 {
            assert(bit_and(x / 2, 0) == 0);
            assert(bit_and(x, 1) == x % 2);
        }
        assert(x / pow2(k) == x);
        assert(bit_and(x, pow2(k)) == pow2(k) * ((x / pow2(k)) % 2));
    } else {
        lemma_pow2_unfold(k);
        lemma_pow2_pos((k - 1) as nat);
        if x == 0 {
            assert(0nat / pow2(k) == 0);
            assert(pow2(k) * 0 == 0);
            assert(bit_and(x, pow2(k)) == pow2(k) * ((x / pow2(k)) % 2));
        } else {
            assert(pow2(k) % 2 == 0);
            assert(pow2(k) / 2 == pow2((k - 1) as nat));
            lemma_and_single_bit(x / 2, (k - 1) as nat);
            lemma_div_denominator(x as int, 2, pow2((k - 1) as nat) as int);
            assert(bit_and(x, pow2(k)) == 2 * bit_and(x / 2, pow2((k - 1) as nat)));
            assert((x / 2) / pow2((k - 1) as nat) == x / pow2(k));
            let t = (x / pow2(k)) % 2;
            let h = pow2((k - 1) as nat);
            assert(2 * (h * t) == (2 * h) * t) by (nonlinear_arith);
            assert(bit_and(x, pow2(k)) == pow2(k) * ((x / pow2(k)) % 2));
        }
    }
}

/// `(2^k - 1) | 2^k == 2^(k+1) - 1`.
pub proof fn lemma_or_mask_with_bit(k: nat)
    ensures
        bit_or((pow2(k) - 1) as nat, pow2(k)) == pow2(k + 1) - 1,
    decreases k,
{
    lemma_pow2_pos(k);
    lemma_pow2_unfold(k + 1);
    if k == 0 {
        assert(pow2(0) == 1) by { lemma2_to64(); }
        assert(bit_or(0, 1) == 1);
    } else {
        lemma_pow2_unfold(k);
        lemma_pow2_pos((k - 1) as nat);
        lemma_or_mask_with_bit((k - 1) as nat);
        let a = (pow2(k) - 1) as nat;
        assert(a / 2 == (pow2((k - 1) as nat) - 1) as nat);
        assert(pow2(k) / 2 == pow2((k - 1) as nat));
        assert(a % 2 == 1);
    }
}

/// OR with `2^n - 1` gives `2^n - 1` for any `x < 2^n`.
pub proof fn lemma_or_all_ones(x: nat, n: nat)
    requires
        x < pow2(n),
    ensures
        bit_or(x, (pow2(n) - 1) as nat) == pow2(n) - 1,
    decreases n,
{
    lemma_pow2_pos(n);
    if n == 0 {
        assert(pow2(0) == 1) by { lemma2_to64(); }
    } else if x != 0 {
        lemma_pow2_unfold(n);
        lemma_pow2_pos((n - 1) as nat);
        let y = (pow2(n) - 1) as nat;
        assert(y % 2 == 1);
        assert(y / 2 == (pow2((n - 1) as nat) - 1) as nat);
        assert(x / 2 < pow2((n - 1) as nat));
        lemma_or_all_ones(x / 2, (n - 1) as nat);
    }
}

/// OR with `2^n - 2^m` keeps the low `m` bits of `x` and sets bits `m..n`.
pub proof fn lemma_or_high_mask(x: nat, m: nat, n: nat)
    requires
        x < pow2(n),
        m <= n,
    ensures
        bit_or(x, (pow2(n) - pow2(m)) as nat) == x % pow2(m) + pow2(n) - pow2(m),
    decreases m,
{
    lemma_pow2_pos(n);
    lemma_pow2_pos(m);
    if m == n {
        lemma_small_mod(x, pow2(n));
        assert(bit_or(x, 0) == x);
    } else {
        lemma_pow2_strictly_increases(m, n);
        if m == 0 {
            assert(pow2(0) == 1) by { lemma2_to64(); }
            lemma_or_all_ones(x, n);
        } else {
            let b = (pow2(n) - pow2(m)) as nat;
            lemma_pow2_unfold(n);
            lemma_pow2_unfold(m);
            lemma_pow2_pos((n - 1) as nat);
            lemma_pow2_pos((m - 1) as nat);
            assert(b % 2 == 0);
            assert(b / 2 == (pow2((n - 1) as nat) - pow2((m - 1) as nat)) as nat);
            assert(x / 2 < pow2((n - 1) as nat));
            lemma_or_high_mask(x / 2, (m - 1) as nat, (n - 1) as nat);
            lemma_mod_pow2_halves(x, m);
            if x == 0 {
                assert(0nat % pow2(m) == 0);
            }
        }
    }
}

/// For a word, bit 255 is set exactly when the word is at least `2^255`.
pub proof fn lemma_top_bit(v: nat)
    requires
        v < word_modulus(),
    ensures
        bit_set(v, 255) == (v >= pow2(255)),
        pow2(255) * 2 == word_modulus(),
{
    lemma_pow2_256();
    lemma_pow2_unfold(256);
    lemma_pow2_pos(255);
    if v >= pow2(255) {
        lemma_div_plus_one(v as int - pow2(255), pow2(255) as int);
        lemma_fundamental_div_mod(v as int, pow2(255) as int);
        assert(v / pow2(255) == 1) by {
            lemma_div_is_ordered(pow2(255) as int, v as int, pow2(255) as int);
            lemma_div_by_self(pow2(255) as int);
            lemma_div_is_strictly_smaller(v as int, pow2(255) as int);
            lemma_div_multiples_vanish(2, pow2(255) as int);
            lemma_div_by_multiple_is_strongly_ordered(v as int, word_modulus() as int, 2, pow2(255) as int);
        }
    } else {
        lemma_basic_div(v as int, pow2(255) as int);
    }
}

/// A word needs at most 256 bits.
pub proof fn lemma_bit_length_bound(v: nat, n: nat)
    requires
        v < pow2(n),
    ensures
        bit_length(v) <= n,
    decreases n,
{
    if v != 0 {
        if n == 0 {
            assert(pow2(0) == 1) by { lemma2_to64(); }
        } else {
            lemma_pow2_unfold(n);
            lemma_bit_length_bound(v / 2, (n - 1) as nat);
        }
    }
}

/// Leading zero bytes do not change a big-endian value.
pub proof fn lemma_be_value_leading_zeros(zeros: Seq<u8>, s: Seq<u8>)
    requires
        forall|i: int| 0 <= i < zeros.len() ==> zeros[i] == 0,
    ensures
        be_value(zeros + s) == be_value(s),
    decreases s.len(),
{
    if s.len() == 0 {
        assert(zeros + s =~= zeros);
        lemma_be_value_zeros(zeros);
    } else {
        assert((zeros + s).drop_last() =~= zeros + s.drop_last());
        lemma_be_value_leading_zeros(zeros, s.drop_last());
    }
}

/// A sequence of zero bytes denotes zero.
pub proof fn lemma_be_value_zeros(zeros: Seq<u8>)
    requires
        forall|i: int| 0 <= i < zeros.len() ==> zeros[i] == 0,
    ensures
        be_value(zeros) == 0,
    decreases zeros.len(),
{
    if zeros.len() > 0 {
        lemma_be_value_zeros(zeros.drop_last());
    }
}

/// Reading back the `n` big-endian bytes of `v` gives `v` modulo `2^(8n)`.
pub proof fn lemma_be_value_of_bytes(v: nat, n: nat)
    ensures
        be_bytes(v, n).len() == n,
        be_value(be_bytes(v, n)) == v % pow2(8 * n),
    decreases n,
{
    if n == 0 {
        assert(pow2(0) == 1) by { lemma2_to64(); }
    } else {
        let m = (n - 1) as nat;
        lemma_be_value_of_bytes(v / 256, m);
        assert(be_bytes(v, n).drop_last() =~= be_bytes(v / 256, m));
        lemma_pow2_adds(8, 8 * m);
        assert(pow2(8) == 256) by { lemma2_to64(); }
        assert(8 * n == 8 + 8 * m);
        lemma_pow2_pos(8 * m);
        lemma_mod_breakdown(v as int, 256, pow2(8 * m) as int);
    }
}

} // verus!
