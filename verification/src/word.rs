//! 256-bit machine words.
//!
//! `U256` holds a word as four little-endian 64-bit limbs.  Its view is the
//! natural number it denotes, always below `2^256`.  The arithmetic itself is
//! done by the `ruint` crate; each operation used by the interpreter is a
//! trusted wrapper whose contract states its result over the views.

use vstd::prelude::*;
use vstd::arithmetic::power2::*;
use vstd::arithmetic::power::pow;
use ruint::aliases::U256 as Uint256;
use crate::text::{hex_digits, zero_padded};

verus! {

/// `2^256`, the number of distinct machine words.
pub open spec fn word_modulus() -> nat {
    0x1_0000_0000_0000_0000_0000_0000_0000_0000_0000_0000_0000_0000_0000_0000_0000_0000nat
}

/// `2^64`.
pub open spec fn limb_base() -> nat {
    0x1_0000_0000_0000_0000nat
}

/// The number denoted by four little-endian 64-bit limbs.
pub open spec fn limbs_value(limbs: [u64; 4]) -> nat {
    limbs[0] as nat + limb_base() * (limbs[1] as nat + limb_base() * (limbs[2] as nat
        + limb_base() * limbs[3] as nat))
}

/// A 256-bit unsigned machine word.
#[derive(Clone, Copy, Debug, PartialEq, Eq)]
pub struct U256 {
    limbs: [u64; 4],
}

impl View for U256 {
    type V = nat;

    closed spec fn view(&self) -> nat {
        limbs_value(self.limbs)
    }
}

pub proof fn lemma_limbs_value_bound(limbs: [u64; 4])
    ensures
        limbs_value(limbs) < word_modulus(),
{
    let b = limb_base();
    let l0 = limbs[0] as nat;
    let l1 = limbs[1] as nat;
    let l2 = limbs[2] as nat;
    let l3 = limbs[3] as nat;
    assert(l2 + b * l3 <= b * b - 1) by (nonlinear_arith)
        requires l2 < b, l3 < b;
    assert(l1 + b * (l2 + b * l3) <= b * b * b - 1) by (nonlinear_arith)
        requires l1 < b, l2 + b * l3 <= b * b - 1;
    assert(l0 + b * (l1 + b * (l2 + b * l3)) <= b * b * b * b - 1) by (nonlinear_arith)
        requires l0 < b, l1 + b * (l2 + b * l3) <= b * b * b - 1;
    assert(b * b * b * b == word_modulus());
}

/// Every word denotes a number below `2^256`.
pub broadcast proof fn lemma_word_bound(w: U256)
    ensures
        #[trigger] w@ < word_modulus(),
{
    lemma_limbs_value_bound(w.limbs);
}

impl U256 {
    /// The word zero.
    pub fn zero() -> (r: U256)
        ensures
            r@ == 0,
    {
        U256 { limbs: [0, 0, 0, 0] }
    }

    /// The word `2^256 - 1`, all bits set.
    pub fn max_value() -> (r: U256)
        ensures
            r@ == word_modulus() - 1,
    {
        U256 { limbs: [u64::MAX, u64::MAX, u64::MAX, u64::MAX] }
    }

    /// The word built from four little-endian limbs.
    pub fn from_limbs(limbs: [u64; 4]) -> (r: U256)
        ensures
            r@ == limbs_value(limbs),
    {
        U256 { limbs }
    }

    /// The word denoting `v`.
    pub fn from_u64(v: u64) -> (r: U256)
        ensures
            r@ == v as nat,
    {
        U256::ruint_from_u64(v)
    }

    /// The four little-endian limbs of this word.
    pub fn into_limbs(self) -> (r: [u64; 4])
        ensures
            limbs_value(r) == self@,
    {
        self.limbs
    }
}


/// `pow2(256)` is the word modulus.
pub proof fn lemma_pow2_256()
    ensures
        pow2(256) == word_modulus(),
{
    lemma2_to64();
    lemma_pow2_adds(64, 64);
    assert(pow2(128) == 0x1_0000_0000_0000_0000_0000_0000_0000_0000nat);
    lemma_pow2_adds(128, 128);
}

/// Bitwise AND of two natural numbers.
pub open spec fn bit_and(a: nat, b: nat) -> nat
    decreases a,
{
    if a == 0 || b == 0 {
        0
    } else {
        2 * bit_and(a / 2, b / 2) + (if a % 2 == 1 && b % 2 == 1 { 1nat } else { 0nat })
    }
}

/// Bitwise OR of two natural numbers.
pub open spec fn bit_or(a: nat, b: nat) -> nat
    decreases a,
{
    if a == 0 {
        b
    } else if b == 0 {
        a
    } else {
        2 * bit_or(a / 2, b / 2) + (if a % 2 == 1 || b % 2 == 1 { 1nat } else { 0nat })
    }
}

/// Whether bit `i` of `v` is set.
pub open spec fn bit_set(v: nat, i: nat) -> bool {
    (v / pow2(i)) % 2 == 1
}

/// The number of bits needed to write `v`: zero for zero.
pub open spec fn bit_length(v: nat) -> nat
    decreases v,
{
    if v == 0 {
        0
    } else {
        1 + bit_length(v / 2)
    }
}

/// The number denoted by a sequence of bytes, most significant first.
pub open spec fn be_value(bytes: Seq<u8>) -> nat
    decreases bytes.len(),
{
    if bytes.len() == 0 {
        0
    } else {
        be_value(bytes.drop_last()) * 256 + bytes.last() as nat
    }
}

/// The `n` bytes, most significant first, of `v` modulo `256^n`.
pub open spec fn be_bytes(v: nat, n: nat) -> Seq<u8>
    decreases n,
{
    if n == 0 {
        Seq::empty()
    } else {
        be_bytes(v / 256, (n - 1) as nat).push((v % 256) as u8)
    }
}

impl U256 {
    /// Calls `ruint::Uint::from` on a `u64`: the word denoting that number.
    #[verifier::external_body]
    pub(crate) fn ruint_from_u64(v: u64) -> (r: U256)
        ensures
            r@ == v as nat,
    {
        U256 { limbs: Uint256::from(v).into_limbs() }
    }

    /// Calls `ruint::Uint::wrapping_add`: the sum modulo `2^256`.
    #[verifier::external_body]
    pub(crate) fn wrapping_add(self, rhs: U256) -> (r: U256)
        ensures
            r@ == (self@ + rhs@) % word_modulus(),
    {
        U256 {
            limbs: Uint256::from_limbs(self.limbs).wrapping_add(Uint256::from_limbs(rhs.limbs)).into_limbs(),
        }
    }

    /// Calls `ruint::Uint::wrapping_sub`: the difference modulo `2^256`.
    #[verifier::external_body]
    pub(crate) fn wrapping_sub(self, rhs: U256) -> (r: U256)
        ensures
            r@ == ((self@ - rhs@) % (word_modulus() as int)) as nat,
    {
        U256 {
            limbs: Uint256::from_limbs(self.limbs).wrapping_sub(Uint256::from_limbs(rhs.limbs)).into_limbs(),
        }
    }

    /// Calls `ruint::Uint::wrapping_mul`: the product modulo `2^256`.
    #[verifier::external_body]
    pub(crate) fn wrapping_mul(self, rhs: U256) -> (r: U256)
        ensures
            r@ == (self@ * rhs@) % word_modulus(),
    {
        U256 {
            limbs: Uint256::from_limbs(self.limbs).wrapping_mul(Uint256::from_limbs(rhs.limbs)).into_limbs(),
        }
    }

    /// Calls `Div::div` of `ruint::Uint`: the quotient rounded down.  It panics
    /// on a zero divisor, which `requires` leaves out.
    #[verifier::external_body]
    pub(crate) fn div(self, rhs: U256) -> (r: U256)
        requires
            rhs@ != 0,
        ensures
            r@ == self@ / rhs@,
    {
        U256 { limbs: (Uint256::from_limbs(self.limbs) / Uint256::from_limbs(rhs.limbs)).into_limbs() }
    }

    /// Calls `Rem::rem` of `ruint::Uint`: the remainder.  It panics on a zero
    /// divisor, which `requires` leaves out.
    #[verifier::external_body]
    pub(crate) fn rem(self, rhs: U256) -> (r: U256)
        requires
            rhs@ != 0,
        ensures
            r@ == self@ % rhs@,
    {
        U256 { limbs: (Uint256::from_limbs(self.limbs) % Uint256::from_limbs(rhs.limbs)).into_limbs() }
    }

    /// Calls `ruint::Uint::add_mod`: `(self + rhs) mod modulus` computed without
    /// overflow, and zero for a zero modulus.
    #[verifier::external_body]
    pub(crate) fn add_mod(self, rhs: U256, modulus: U256) -> (r: U256)
        ensures
            r@ == (if modulus@ == 0 { 0 } else { (self@ + rhs@) % modulus@ }),
    {
        U256 {
            limbs: Uint256::from_limbs(self.limbs).add_mod(
                Uint256::from_limbs(rhs.limbs),
                Uint256::from_limbs(modulus.limbs),
            ).into_limbs(),
        }
    }

    /// Calls `ruint::Uint::mul_mod`: `(self * rhs) mod modulus` computed without
    /// overflow, and zero for a zero modulus.
    #[verifier::external_body]
    pub(crate) fn mul_mod(self, rhs: U256, modulus: U256) -> (r: U256)
        ensures
            r@ == (if modulus@ == 0 { 0 } else { (self@ * rhs@) % modulus@ }),
    {
        U256 {
            limbs: Uint256::from_limbs(self.limbs).mul_mod(
                Uint256::from_limbs(rhs.limbs),
                Uint256::from_limbs(modulus.limbs),
            ).into_limbs(),
        }
    }

    /// Calls `ruint::Uint::pow`, which wraps: `self^exp` modulo `2^256`.
    #[verifier::external_body]
    pub(crate) fn pow(self, exp: U256) -> (r: U256)
        ensures
            r@ == pow(self@ as int, exp@) as nat % word_modulus(),
    {
        U256 { limbs: Uint256::from_limbs(self.limbs).pow(Uint256::from_limbs(exp.limbs)).into_limbs() }
    }

    /// Calls `ruint::Uint::bit`: whether bit `index` is set (false past bit 255).
    #[verifier::external_body]
    pub(crate) fn bit(&self, index: usize) -> (r: bool)
        ensures
            r == (index < 256 && bit_set(self@, index as nat)),
    {
        Uint256::from_limbs(self.limbs).bit(index)
    }

    /// Calls `ruint::Uint::bit_len`: the number of bits needed to write the word.
    #[verifier::external_body]
    pub(crate) fn bit_len(&self) -> (r: usize)
        ensures
            r as nat == bit_length(self@),
    {
        Uint256::from_limbs(self.limbs).bit_len()
    }

    /// Calls `ruint::Uint::is_zero`.
    #[verifier::external_body]
    pub(crate) fn is_zero(&self) -> (r: bool)
        ensures
            r == (self@ == 0),
    {
        Uint256::from_limbs(self.limbs).is_zero()
    }

    /// Calls `PartialEq::eq` of `ruint::Uint`: whether the two words are equal.
    #[verifier::external_body]
    pub(crate) fn same_as(&self, other: &U256) -> (r: bool)
        ensures
            r == (self@ == other@),
    {
        Uint256::from_limbs(self.limbs) == Uint256::from_limbs(other.limbs)
    }

    /// Calls `PartialOrd::lt` of `ruint::Uint`: whether `self` is below `other`.
    #[verifier::external_body]
    pub(crate) fn less_than(&self, other: &U256) -> (r: bool)
        ensures
            r == (self@ < other@),
    {
        Uint256::from_limbs(self.limbs) < Uint256::from_limbs(other.limbs)
    }

    /// Calls `ruint::Uint::to::<usize>`, which panics when the word does not fit;
    /// `requires` leaves that out.
    #[verifier::external_body]
    pub(crate) fn to_usize(&self) -> (r: usize)
        requires
            self@ <= usize::MAX,
        ensures
            r as nat == self@,
    {
        Uint256::from_limbs(self.limbs).to::<usize>()
    }

    /// Calls `Shl<usize>::shl` of `ruint::Uint`: `self * 2^shift` modulo `2^256`.
    #[verifier::external_body]
    pub(crate) fn shl(self, shift: usize) -> (r: U256)
        ensures
            r@ == (self@ * pow2(shift as nat)) % word_modulus(),
    {
        U256 { limbs: (Uint256::from_limbs(self.limbs) << shift).into_limbs() }
    }

    /// Calls `Not::not` of `ruint::Uint`: every bit flipped.
    #[verifier::external_body]
    pub(crate) fn bitnot(self) -> (r: U256)
        ensures
            r@ == word_modulus() - 1 - self@,
    {
        U256 { limbs: (!Uint256::from_limbs(self.limbs)).into_limbs() }
    }

    /// Calls `BitAnd::bitand` of `ruint::Uint`.
    #[verifier::external_body]
    pub(crate) fn bitand(self, rhs: U256) -> (r: U256)
        ensures
            r@ == bit_and(self@, rhs@),
    {
        U256 { limbs: (Uint256::from_limbs(self.limbs) & Uint256::from_limbs(rhs.limbs)).into_limbs() }
    }

    /// Calls `BitOr::bitor` of `ruint::Uint`.
    #[verifier::external_body]
    pub(crate) fn bitor(self, rhs: U256) -> (r: U256)
        ensures
            r@ == bit_or(self@, rhs@),
    {
        U256 { limbs: (Uint256::from_limbs(self.limbs) | Uint256::from_limbs(rhs.limbs)).into_limbs() }
    }

    /// Calls `ruint::Uint::from_be_bytes::<32>`: the word whose big-endian bytes
    /// are `bytes`.
    #[verifier::external_body]
    pub(crate) fn from_be_bytes(bytes: [u8; 32]) -> (r: U256)
        ensures
            r@ == be_value(bytes@),
    {
        U256 { limbs: Uint256::from_be_bytes::<32>(bytes).into_limbs() }
    }

    /// Formats the word with `LowerHex` of `ruint::Uint` as `{:02x}` does: its
    /// lowercase hexadecimal digits with no leading zeros, padded with zeros to
    /// two digits.
    #[verifier::external_body]
    pub(crate) fn to_hex_padded(&self) -> (r: String)
        ensures
            r@ == zero_padded(hex_digits(self@), 2),
    {
        format!("{:02x}", Uint256::from_limbs(self.limbs))
    }

    /// Calls `ruint::Uint::to_be_bytes::<32>`: the 32 big-endian bytes of the word.
    #[verifier::external_body]
    pub(crate) fn to_be_bytes(&self) -> (r: [u8; 32])
        ensures
            r@ == be_bytes(self@, 32),
    {
        Uint256::from_limbs(self.limbs).to_be_bytes::<32>()
    }
}

} // verus!
