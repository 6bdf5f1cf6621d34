//! Arbitrary-precision unsigned numbers, held as little-endian bytes.
//!
//! The arithmetic itself is done by `num::BigUint`; the functions here state
//! what each operation computes on the numbers the bytes stand for.
use vstd::arithmetic::div_mod::{lemma_breakdown, lemma_fundamental_div_mod_converse};
use vstd::arithmetic::power2::{lemma_pow2_adds, lemma_pow2_pos, lemma_pow2_unfold, pow2};
use vstd::prelude::*;

use num::{BigInt, BigUint, ToPrimitive};

verus! {

/// The number that little-endian bytes stand for.
pub open spec fn le_value(b: Seq<u8>) -> nat
    decreases b.len(),
{
    if b.len() == 0 {
        0
    } else {
        b[0] as nat + 256 * le_value(b.drop_first())
    }
}

/// Bitwise and of two naturals.
pub open spec fn bit_and(a: nat, b: nat) -> nat
    decreases a,
{
    if a == 0 || b == 0 {
        0
    } else {
        (if a % 2 == 1 && b % 2 == 1 { 1nat } else { 0nat }) + 2 * bit_and(a / 2, b / 2)
    }
}

/// Bitwise or of two naturals.
pub open spec fn bit_or(a: nat, b: nat) -> nat
    decreases a + b,
{
    if a == 0 {
        b
    } else if b == 0 {
        a
    } else {
        (if a % 2 == 1 || b % 2 == 1 { 1nat } else { 0nat }) + 2 * bit_or(a / 2, b / 2)
    }
}

/// The binary digits of `n`, most significant first, without leading zeros
/// (zero is written "0").
pub open spec fn binary_digits(n: nat) -> Seq<char>
    decreases n,
{
    if n < 2 {
        seq![if n == 0 { '0' } else { '1' }]
    } else {
        binary_digits(n / 2).push(if n % 2 == 0 { '0' } else { '1' })
    }
}

/// `s` padded on the left with `'0'` to at least `width` characters.
pub open spec fn pad_zeros(s: Seq<char>, width: nat) -> Seq<char> {
    if s.len() >= width {
        s
    } else {
        Seq::new((width - s.len()) as nat, |_i: int| '0') + s
    }
}

/// `format!("{n:0>width$b}")`: the binary digits of `n`, left-padded with zeros.
pub open spec fn padded_binary(n: nat, width: nat) -> Seq<char> {
    pad_zeros(binary_digits(n), width)
}

// ── Calls into `num::BigUint` ────────────────────────────────────────────────

/// `BigUint::from_bytes_le(a) << shift`, as little-endian bytes. The contract
/// claims that the number is multiplied by two to the power `shift`, which is
/// what `num` documents for a left shift.
#[verifier::external_body]
pub(crate) fn biguint_shl(a: &[u8], shift: usize) -> (r: Vec<u8>)
    ensures
        le_value(r@) == le_value(a@) * pow2(shift as nat),
{
    (BigUint::from_bytes_le(a) << shift).to_bytes_le()
}

/// `BigUint::from_bytes_le(a) >> shift`, as little-endian bytes. The contract
/// claims that the number is divided by two to the power `shift`, rounding
/// down.
#[verifier::external_body]
pub(crate) fn biguint_shr(a: &[u8], shift: u32) -> (r: Vec<u8>)
    ensures
        le_value(r@) == le_value(a@) / pow2(shift as nat),
{
    (BigUint::from_bytes_le(a) >> shift).to_bytes_le()
}

/// `BigUint::from_bytes_le(a) - b`, as little-endian bytes. `num` panics when
/// `b` is larger, which `requires` rules out; the contract claims the
/// difference.
#[verifier::external_body]
pub(crate) fn biguint_sub_u32(a: &[u8], b: u32) -> (r: Vec<u8>)
    requires
        le_value(a@) >= b,
    ensures
        le_value(r@) == le_value(a@) - b,
{
    (BigUint::from_bytes_le(a) - b).to_bytes_le()
}

/// `BigUint::from_bytes_le(a) & BigUint::from_bytes_le(b)`, as little-endian
/// bytes. The contract claims the bitwise and of the two numbers.
#[verifier::external_body]
pub(crate) fn biguint_and(a: &[u8], b: &[u8]) -> (r: Vec<u8>)
    ensures
        le_value(r@) == bit_and(le_value(a@), le_value(b@)),
{
    (BigUint::from_bytes_le(a) & BigUint::from_bytes_le(b)).to_bytes_le()
}

/// `BigUint::from_bytes_le(a) | BigUint::from_bytes_le(b)`, as little-endian
/// bytes. The contract claims the bitwise or of the two numbers.
#[verifier::external_body]
pub(crate) fn biguint_or(a: &[u8], b: &[u8]) -> (r: Vec<u8>)
    ensures
        le_value(r@) == bit_or(le_value(a@), le_value(b@)),
{
    (BigUint::from_bytes_le(a) | BigUint::from_bytes_le(b)).to_bytes_le()
}

/// `format!("{:0>width$b}", BigUint::from_bytes_le(a))`. `num` formats a
/// `BigUint` in binary as `to_str_radix(2)` handed to `pad_integral`, so with
/// a zero fill aligned right the text is the binary digits padded on the left
/// with zeros to `width` characters, which the contract claims.
#[verifier::external_body]
pub(crate) fn biguint_binary_padded(a: &[u8], width: usize) -> (r: String)
    ensures
        r@ == padded_binary(le_value(a@), width as nat),
{
    format!("{:0>width$b}", BigUint::from_bytes_le(a), width = width)
}

/// A natural number of any size, held as the little-endian bytes of
/// `num::BigUint::to_bytes_le`.
#[derive(Debug, Clone, PartialEq, Eq)]
pub struct UnsignedBigInt {
    pub bytes: Vec<u8>,
}

impl View for UnsignedBigInt {
    type V = nat;

    open spec fn view(&self) -> nat {
        le_value(self.bytes@)
    }
}

/// `BigUint::from_bytes_le(a).to_u64()`: the number as a `u64`, or `None`
/// when it does not fit, as `num`'s `ToPrimitive` documents.
#[verifier::external_body]
pub(crate) fn biguint_to_u64(a: &[u8]) -> (r: Option<u64>)
    ensures
        r == (if le_value(a@) <= u64::MAX {
            Some(le_value(a@) as u64)
        } else {
            None::<u64>
        }),
{
    BigUint::from_bytes_le(a).to_u64()
}

// ── Signed numbers ───────────────────────────────────────────────────────────

/// The integer that two's-complement little-endian bytes stand for.
pub open spec fn signed_le_value(b: Seq<u8>) -> int {
    if b.len() > 0 && b.last() > 0x7f {
        le_value(b) - pow2((8 * b.len()) as nat)
    } else {
        le_value(b) as int
    }
}

/// An integer of any size, held as the two's-complement little-endian
/// bytes of `num::BigInt::to_signed_bytes_le`.
#[derive(Debug, Clone, PartialEq, Eq)]
pub struct SignedBigInt {
    pub bytes: Vec<u8>,
}

impl View for SignedBigInt {
    type V = int;

    open spec fn view(&self) -> int {
        signed_le_value(self.bytes@)
    }
}

impl SignedBigInt {
    /// A copy of this number.
    pub fn duplicate(&self) -> (r: Self)
        ensures
            r@ == self@,
    {
        let bytes = self.bytes.clone();
        assert(bytes@ =~= self.bytes@);
        SignedBigInt { bytes }
    }
}

/// `a / d` rounded toward zero, as integer division of a `BigInt` does.
pub open spec fn div_toward_zero(a: int, d: nat) -> int {
    if a >= 0 {
        a / (d as int)
    } else {
        -((-a) / (d as int))
    }
}

/// `BigInt::from_signed_bytes_le(a) + BigInt::from_signed_bytes_le(b)`, as
/// two's-complement little-endian bytes. The contract claims the sum.
#[verifier::external_body]
pub(crate) fn bigint_add(a: &[u8], b: &[u8]) -> (r: Vec<u8>)
    ensures
        signed_le_value(r@) == signed_le_value(a@) + signed_le_value(b@),
{
    (BigInt::from_signed_bytes_le(a) + BigInt::from_signed_bytes_le(b)).to_signed_bytes_le()
}

/// `BigInt::from_signed_bytes_le(a) / d`, as two's-complement little-endian
/// bytes. `num` divides the magnitude and keeps the sign, so the quotient is
/// rounded toward zero, which the contract claims; it panics on a zero
/// divisor, which `requires` rules out.
#[verifier::external_body]
pub(crate) fn bigint_div_u32(a: &[u8], d: u32) -> (r: Vec<u8>)
    requires
        d > 0,
    ensures
        signed_le_value(r@) == div_toward_zero(signed_le_value(a@), d as nat),
{
    (BigInt::from_signed_bytes_le(a) / d).to_signed_bytes_le()
}

/// `BigInt::from_signed_bytes_le(a) < BigInt::from_signed_bytes_le(b)`. The
/// contract claims the numeric order, which `BigInt`'s `Ord` implements.
#[verifier::external_body]
pub(crate) fn bigint_lt(a: &[u8], b: &[u8]) -> (r: bool)
    ensures
        r == (signed_le_value(a@) < signed_le_value(b@)),
{
    BigInt::from_signed_bytes_le(a) < BigInt::from_signed_bytes_le(b)
}

// ── Laws of the bit operations ───────────────────────────────────────────────

/// Masking with `2^w - 1` keeps the value modulo `2^w`.
pub proof fn lemma_and_low_mask(x: nat, w: nat)
    ensures
        bit_and(x, (pow2(w) - 1) as nat) == x % pow2(w),
    decreases w,
{
    lemma_pow2_pos(w);
    if w == 0 {
        assert(pow2(0) == 1) by {
            vstd::arithmetic::power2::lemma2_to64();
        }
    } else {
        lemma_pow2_unfold(w);
        let p = pow2((w - 1) as nat);
        lemma_pow2_pos((w - 1) as nat);
        let m = (pow2(w) - 1) as nat;
        assert(m == 2 * p - 1);
        if x == 0 {
        } else {
            assert(m % 2 == 1 && m / 2 == p - 1);
            lemma_and_low_mask(x / 2, (w - 1) as nat);
            lemma_breakdown(x as int, 2, p as int);
            assert(bit_and(x, m) == (if x % 2 == 1 { 1nat } else { 0nat }) + 2 * bit_and(
                x / 2,
                (p - 1) as nat,
            ));
        }
    }
}

/// Or-ing a number below `2^k` with a multiple of `2^k` adds them.
pub proof fn lemma_or_disjoint(a: nat, b: nat, k: nat)
    requires
        a < pow2(k),
    ensures
        bit_or(a, b * pow2(k)) == a + b * pow2(k),
    decreases k,
{
    lemma_pow2_pos(k);
    if k == 0 {
        assert(pow2(0) == 1) by {
            vstd::arithmetic::power2::lemma2_to64();
        }
        assert(a == 0);
    } else {
        lemma_pow2_unfold(k);
        let p = pow2((k - 1) as nat);
        let c = b * pow2(k);
        assert(c == 2 * (b * p)) by (nonlinear_arith)
            requires
                c == b * pow2(k),
                pow2(k) == 2 * p,
        ;
        if a == 0 || c == 0 {
        } else {
            assert(c % 2 == 0 && c / 2 == b * p);
            assert(a / 2 < p);
            lemma_or_disjoint(a / 2, b, (k - 1) as nat);
        }
    }
}

/// Shifting left by `k` then right by `k` gives the number back, and the
/// bits below `2^k` of a disjoint or are those of the low part.
pub proof fn lemma_shift_out_low(a: nat, v: nat, k: nat)
    requires
        a < pow2(k),
    ensures
        (a + v * pow2(k)) / pow2(k) == v,
{
    lemma_pow2_pos(k);
    lemma_fundamental_div_mod_converse((a + v * pow2(k)) as int, pow2(k) as int, v as int, a as int);
}

/// A number below `2^w` is its own remainder modulo `2^w`.
pub proof fn lemma_small_mod(v: nat, w: nat)
    requires
        v < pow2(w),
    ensures
        v % pow2(w) == v,
{
    lemma_pow2_pos(w);
    lemma_fundamental_div_mod_converse(v as int, pow2(w) as int, 0, v as int);
}

/// `2^a * 2^b == 2^(a + b)`.
pub proof fn lemma_pow2_add(a: nat, b: nat)
    ensures
        pow2(a) * pow2(b) == pow2(a + b),
{
    lemma_pow2_adds(a, b);
}

} // verus!
