//! Signal values and the bit-level operations that split fields and buses
//! perform on them.
use vstd::arithmetic::power2::{lemma_pow2_pos, pow2};
use vstd::prelude::*;
use vstd::string::*;
use vstd::utf8::*;

use crate::bignum::{
    biguint_and, biguint_binary_padded, biguint_or, biguint_shl, biguint_shr, biguint_sub_u32,
    bit_or, lemma_and_low_mask, lemma_or_disjoint, lemma_shift_out_low, lemma_small_mod, le_value,
    padded_binary,
};
use crate::text::{repeat_seq, repeat_str};

verus! {

broadcast use vstd::utf8::group_utf8_lib;

/// The value of a variable at some time: either a number, or a string such as
/// a bit string with `x` and `z` digits (most significant bit first).
#[derive(Debug, Clone, PartialEq, Eq)]
pub enum VariableValue {
    /// A number, as little-endian bytes.
    BigUint(Vec<u8>),
    /// Any other value, as text.
    String(String),
}

/// What a `VariableValue` stands for.
pub enum ValueView {
    Num(nat),
    Bits(Seq<char>),
}

impl View for VariableValue {
    type V = ValueView;

    open spec fn view(&self) -> ValueView {
        match self {
            VariableValue::BigUint(b) => ValueView::Num(le_value(b@)),
            VariableValue::String(s) => ValueView::Bits(s@),
        }
    }
}

// ── Extending bit strings ────────────────────────────────────────────────────

/// The character with which a bit string is widened on the left, if any: a
/// number is widened with zeros, an unknown (`x`) or floating (`z`) value
/// with its own digit; empty and other text is left alone.
pub open spec fn extension_digit(val: Seq<char>) -> Option<char> {
    if val.len() == 0 {
        None
    } else if val[0] == '0' || val[0] == '1' {
        Some('0')
    } else if val[0] == 'x' {
        Some('x')
    } else if val[0] == 'z' {
        Some('z')
    } else {
        None
    }
}

/// The byte length of `val`, truncated to 32 bits as `val.len() as u32` does.
pub open spec fn byte_len_u32(val: Seq<char>) -> u32 {
    (encode_utf8(val).len() as usize) as u32
}

/// `val` widened on the left to `num_bits` characters (counting bytes).
pub open spec fn extend_string_spec(val: Seq<char>, num_bits: u32) -> Seq<char> {
    let len = byte_len_u32(val);
    if num_bits > len {
        match extension_digit(val) {
            Some(c) => repeat_seq(seq![c], (num_bits - len) as nat) + val,
            None => val,
        }
    } else {
        val
    }
}

/// Widens a bit string to `num_bits` digits.
pub fn extend_string(val: &str, num_bits: u32) -> (r: String)
    ensures
        r@ == extend_string_spec(val@, num_bits),
{
    let blen = val.len();
    assert(val.spec_bytes() == encode_utf8(val@));
    let len = blen as u32;
    if num_bits > len {
        let extra = num_bits - len;
        let unit: &str;
        if val.is_empty() {
            return val.to_owned();
        } else {
            let c = val.get_char(0);
            if c == '0' || c == '1' {
                proof { reveal_strlit("0"); }
                unit = "0";
            } else if c == 'x' {
                proof { reveal_strlit("x"); }
                unit = "x";
            } else if c == 'z' {
                proof { reveal_strlit("z"); }
                unit = "z";
            } else {
                return val.to_owned();
            }
        }
        assert(unit@ =~= seq![extension_digit(val@)->Some_0]);
        let mut r = repeat_str(unit, extra as usize);
        r.append(val);
        r
    } else {
        val.to_owned()
    }
}

// ── Extracting a bit range ───────────────────────────────────────────────────

/// The byte range `[lo, hi)` of the widened string that holds bits
/// `[start, end]` of a `total`-bit value.
pub open spec fn extract_window(total: u32, start: u32, end: u32) -> (int, int) {
    (if total >= end + 1 { total - (end + 1) } else { 0 }, total - start)
}

/// When the window is inside the text, both its ends fall between characters.
pub open spec fn window_on_boundaries(b: Seq<u8>, lo: int, hi: int) -> bool {
    (hi <= b.len() && lo <= hi) ==> (is_char_boundary(b, lo) && is_char_boundary(b, hi))
}

/// The inputs on which `extract_bits` runs without panicking.
pub open spec fn extract_bits_ok(v: ValueView, total: u32, start: u32, end: u32) -> bool {
    &&& start <= end
    &&& end - start < u32::MAX
    &&& v matches ValueView::Bits(s) ==> {
        &&& end < u32::MAX
        &&& start <= total
        &&& window_on_boundaries(
            encode_utf8(extend_string_spec(s, total)),
            extract_window(total, start, end).0,
            extract_window(total, start, end).1,
        )
    }
}

/// Bits `[start, end]` (0 = least significant) of a value that is `total`
/// bits wide.
pub open spec fn extract_bits_spec(v: ValueView, total: u32, start: u32, end: u32) -> ValueView {
    let width = (end - start + 1) as nat;
    match v {
        ValueView::Num(n) => ValueView::Num((n / pow2(start as nat)) % pow2(width)),
        ValueView::Bits(s) => {
            let b = encode_utf8(extend_string_spec(s, total));
            let lo = extract_window(total, start, end).0;
            let hi = extract_window(total, start, end).1;
            if hi <= b.len() && lo <= hi {
                ValueView::Bits(decode_utf8(b.subrange(lo, hi)))
            } else {
                ValueView::Bits(repeat_seq(seq!['x'], width))
            }
        },
    }
}

proof fn lemma_boundary_in_tail(b: Seq<u8>, lo: int, hi: int)
    requires
        valid_utf8(b),
        0 <= lo <= hi <= b.len(),
        is_char_boundary(b, lo),
        is_char_boundary(b, hi),
    ensures
        valid_utf8(b.subrange(lo, b.len() as int)),
        is_char_boundary(b.subrange(lo, b.len() as int), hi - lo),
{
    let tail = b.subrange(lo, b.len() as int);
    valid_utf8_split(b, lo);
    is_char_boundary_start_end_of_seq(tail);
    if hi < b.len() {
        is_char_boundary_iff_not_is_continuation_byte(b, hi);
        is_char_boundary_iff_not_is_continuation_byte(tail, hi - lo);
        assert(tail[hi - lo] == b[hi]);
    }
}

fn one_byte() -> (r: Vec<u8>)
    ensures
        le_value(r@) == 1,
{
    let mut r: Vec<u8> = Vec::new();
    r.push(1u8);
    proof {
        assert(r@.drop_first() =~= Seq::<u8>::empty());
        reveal_with_fuel(le_value, 2);
    }
    r
}

/// Extracts bits `[start_bit, end_bit]` (inclusive, 0 = LSB) from `value`.
/// `total_source_bits` is the full width of `value`.
pub fn extract_bits(value: VariableValue, total_source_bits: u32, start_bit: u32, end_bit: u32) -> (r:
    VariableValue)
    requires
        extract_bits_ok(value@, total_source_bits, start_bit, end_bit),
    ensures
        r@ == extract_bits_spec(value@, total_source_bits, start_bit, end_bit),
{
    let width = end_bit - start_bit + 1;
    match value {
        VariableValue::BigUint(u) => {
            let one = one_byte();
            let limit = biguint_shl(one.as_slice(), width as usize);
            proof {
                lemma_pow2_pos(width as nat);
                assert(le_value(limit@) == le_value(one@) * pow2(width as nat));
            }
            let mask = biguint_sub_u32(limit.as_slice(), 1u32);
            let shifted = biguint_shr(u.as_slice(), start_bit);
            let r = biguint_and(shifted.as_slice(), mask.as_slice());
            proof {
                lemma_and_low_mask(le_value(shifted@), width as nat);
            }
            VariableValue::BigUint(r)
        },
        VariableValue::String(s) => {
            let padded = extend_string(s.as_str(), total_source_bits);
            let str_start = total_source_bits.saturating_sub(end_bit + 1);
            let str_end = total_source_bits - start_bit;
            let p = padded.as_str();
            let ghost b = p.spec_bytes();
            let byte_len = p.as_bytes().len();
            assert(byte_len == b.len());
            if (str_end as usize) <= byte_len && str_start <= str_end {
                proof {
                    lemma_boundary_in_tail(b, str_start as int, str_end as int);
                }
                let (_, tail) = p.split_at(str_start as usize);
                assert(tail.spec_bytes() =~= b.subrange(str_start as int, b.len() as int));
                let (mid, _) = tail.split_at((str_end - str_start) as usize);
                assert(mid.spec_bytes() =~= b.subrange(str_start as int, str_end as int));
                proof {
                    encode_utf8_decode_utf8(mid@);
                }
                let out = mid.to_owned();
                VariableValue::String(out)
            } else {
                proof { reveal_strlit("x"); }
                assert("x"@ =~= seq!['x']);
                let out = repeat_str("x", width as usize);
                VariableValue::String(out)
            }
        },
    }
}

// ── Concatenating bus sources ────────────────────────────────────────────────

/// `n` zero digits.
pub open spec fn zeros(n: nat) -> Seq<char> {
    repeat_seq(seq!['0'], n)
}

/// The text of the bits gathered so far, widened on the left with zeros to
/// `bit_offset` digits (counting bytes), so that what is placed above it
/// starts at bit `bit_offset`.
pub open spec fn pad_to_offset(acc: Seq<char>, bit_offset: u32) -> Seq<char> {
    let len = encode_utf8(acc).len();
    if len < bit_offset {
        zeros((bit_offset - len) as nat) + acc
    } else {
        acc
    }
}

/// The value of a bus after `src`, `src_bits` wide, is placed at bits
/// `[bit_offset, bit_offset + src_bits)` above the bits gathered so far in
/// `acc`; bits below `bit_offset` that nothing supplied are zero.
pub open spec fn concat_values_spec(
    acc: Option<ValueView>,
    src: ValueView,
    src_bits: u32,
    bit_offset: u32,
) -> ValueView {
    match acc {
        None => match src {
            ValueView::Num(u) => ValueView::Num(u * pow2(bit_offset as nat)),
            ValueView::Bits(s) => ValueView::Bits(extend_string_spec(s, src_bits) + zeros(bit_offset as nat)),
        },
        Some(ValueView::Num(a)) => match src {
            ValueView::Num(u) => ValueView::Num(bit_or(a, u * pow2(bit_offset as nat))),
            ValueView::Bits(s) => ValueView::Bits(
                extend_string_spec(s, src_bits) + padded_binary(a, bit_offset as nat),
            ),
        },
        Some(ValueView::Bits(a)) => match src {
            ValueView::Num(u) => ValueView::Bits(padded_binary(u, src_bits as nat) + pad_to_offset(a, bit_offset)),
            ValueView::Bits(s) => ValueView::Bits(extend_string_spec(s, src_bits) + pad_to_offset(a, bit_offset)),
        },
    }
}

pub open spec fn option_view(acc: Option<VariableValue>) -> Option<ValueView> {
    match acc {
        Some(v) => Some(v@),
        None => None,
    }
}

/// `acc` widened on the left with zeros to `bit_offset` digits.
fn widen_to_offset(acc: &str, bit_offset: u32) -> (r: String)
    ensures
        r@ == pad_to_offset(acc@, bit_offset),
{
    let len = acc.as_bytes().len();
    assert(acc.spec_bytes() == encode_utf8(acc@));
    assert(len == acc.spec_bytes().len());
    if len < bit_offset as usize {
        proof {
            reveal_strlit("0");
            assert("0"@ =~= seq!['0']);
        }
        let mut r = repeat_str("0", bit_offset as usize - len);
        r.append(acc);
        r
    } else {
        acc.to_owned()
    }
}

/// `n` zero digits.
fn zero_digits(n: u32) -> (r: String)
    ensures
        r@ == zeros(n as nat),
{
    proof {
        reveal_strlit("0");
        assert("0"@ =~= seq!['0']);
    }
    repeat_str("0", n as usize)
}

/// Concatenates a new source value on top of the accumulator (acc = lower
/// bits already done). `src_val` goes at bit positions
/// `[bit_offset .. bit_offset + src_bits)`.
pub fn concat_values(acc: Option<VariableValue>, src_val: VariableValue, src_bits: u32, bit_offset: u32) -> (r:
    VariableValue)
    ensures
        r@ == concat_values_spec(option_view(acc), src_val@, src_bits, bit_offset),
{
    match acc {
        None => match src_val {
            VariableValue::BigUint(u) => VariableValue::BigUint(biguint_shl(u.as_slice(), bit_offset as usize)),
            VariableValue::String(s) => {
                let padded = extend_string(s.as_str(), src_bits);
                VariableValue::String(padded.concat(zero_digits(bit_offset).as_str()))
            },
        },
        Some(VariableValue::BigUint(acc_u)) => match src_val {
            VariableValue::BigUint(v) => {
                let shifted = biguint_shl(v.as_slice(), bit_offset as usize);
                VariableValue::BigUint(biguint_or(acc_u.as_slice(), shifted.as_slice()))
            },
            VariableValue::String(s) => {
                let acc_bits = biguint_binary_padded(acc_u.as_slice(), bit_offset as usize);
                let padded = extend_string(s.as_str(), src_bits);
                VariableValue::String(padded.concat(acc_bits.as_str()))
            },
        },
        Some(VariableValue::String(acc_s)) => match src_val {
            VariableValue::BigUint(v) => {
                let v_bits = biguint_binary_padded(v.as_slice(), src_bits as usize);
                VariableValue::String(v_bits.concat(widen_to_offset(acc_s.as_str(), bit_offset).as_str()))
            },
            VariableValue::String(s) => {
                let padded = extend_string(s.as_str(), src_bits);
                VariableValue::String(padded.concat(widen_to_offset(acc_s.as_str(), bit_offset).as_str()))
            },
        },
    }
}

/// The value of a bus after a source without data, shown as the `x` digits
/// `x_bits`, is placed at bit `bit_offset` above the bits gathered so far;
/// bits below `bit_offset` that nothing supplied are zero.
pub open spec fn concat_with_x_spec(acc: Option<ValueView>, x_bits: Seq<char>, bit_offset: u32) -> ValueView {
    match acc {
        None => ValueView::Bits(x_bits + zeros(bit_offset as nat)),
        Some(ValueView::Bits(s)) => ValueView::Bits(x_bits + pad_to_offset(s, bit_offset)),
        Some(ValueView::Num(u)) => ValueView::Bits(x_bits + padded_binary(u, bit_offset as nat)),
    }
}

/// Places unknown bits on top of the accumulator.
pub fn concat_with_x(acc: Option<VariableValue>, x_bits: String, bit_offset: u32) -> (r: VariableValue)
    ensures
        r@ == concat_with_x_spec(option_view(acc), x_bits@, bit_offset),
{
    match acc {
        None => VariableValue::String(x_bits.concat(zero_digits(bit_offset).as_str())),
        Some(VariableValue::String(s)) => VariableValue::String(
            x_bits.concat(widen_to_offset(s.as_str(), bit_offset).as_str()),
        ),
        Some(VariableValue::BigUint(u)) => {
            let existing = biguint_binary_padded(u.as_slice(), bit_offset as usize);
            VariableValue::String(x_bits.concat(existing.as_str()))
        },
    }
}

/// Public alias of `concat_with_x`.
pub fn concat_with_x_pub(acc: Option<VariableValue>, x_bits: String, bit_offset: u32) -> (r:
    VariableValue)
    ensures
        r@ == concat_with_x_spec(option_view(acc), x_bits@, bit_offset),
{
    concat_with_x(acc, x_bits, bit_offset)
}

// ── Laws ─────────────────────────────────────────────────────────────────────

/// Splitting a bus gives its sources back: after a number `v` of `bits`
/// bits is placed at bit `offset` above the bits gathered so far (`acc`, or
/// none when no lower source supplied a value), extracting bits
/// `[offset, offset + bits - 1]` yields `v`, and extracting bits
/// `[0, offset - 1]` yields `acc`, or zero when there is none.
pub proof fn lemma_split_field_recovers_bus_source(
    acc: Option<nat>,
    v: nat,
    bits: u32,
    offset: u32,
    total: u32,
)
    requires
        bits >= 1,
        offset + bits - 1 <= u32::MAX,
        acc matches Some(a) ==> a < pow2(offset as nat),
        v < pow2(bits as nat),
    ensures
        ({
            let bus = concat_values_spec(
                match acc {
                    Some(a) => Some(ValueView::Num(a)),
                    None => None,
                },
                ValueView::Num(v),
                bits,
                offset,
            );
            &&& extract_bits_ok(bus, total, offset, (offset + bits - 1) as u32)
            &&& extract_bits_spec(bus, total, offset, (offset + bits - 1) as u32) == ValueView::Num(v)
            &&& offset >= 1 ==> extract_bits_spec(bus, total, 0, (offset - 1) as u32) == ValueView::Num(
                match acc {
                    Some(a) => a,
                    None => 0,
                },
            )
        }),
{
    lemma_pow2_pos(offset as nat);
    let width = bits as nat;
    let p = pow2(offset as nat);
    assert(((offset + bits - 1) as u32 - offset + 1) as nat == width);
    assert(pow2(0) == 1) by {
        vstd::arithmetic::power2::lemma2_to64();
    }
    let a: nat = match acc {
        Some(a) => a,
        None => 0,
    };
    match acc {
        Some(_) => {
            lemma_or_disjoint(a, v, offset as nat);
        },
        None => {},
    }
    let n = a + v * p;
    lemma_shift_out_low(a, v, offset as nat);
    lemma_small_mod(v, width);
    if offset >= 1 {
        assert(n / 1 == n);
        assert(n % p == a) by {
            vstd::arithmetic::div_mod::lemma_fundamental_div_mod_converse(
                n as int,
                p as int,
                v as int,
                a as int,
            );
        }
    }
}

/// Extracting all `n` bits of an `n`-bit number gives the number back.
pub proof fn lemma_extract_whole_number(v: nat, n: u32)
    requires
        n >= 1,
        v < pow2(n as nat),
    ensures
        extract_bits_ok(ValueView::Num(v), n, 0, (n - 1) as u32),
        extract_bits_spec(ValueView::Num(v), n, 0, (n - 1) as u32) == ValueView::Num(v),
{
    assert(pow2(0) == 1) by {
        vstd::arithmetic::power2::lemma2_to64();
    }
    assert(v / 1 == v);
    lemma_small_mod(v, n as nat);
}

/// Extracting all `n` bits of a bit string whose text is `n` bytes long gives
/// the text back.
pub proof fn lemma_extract_whole_bit_string(s: Seq<char>, n: u32)
    requires
        n >= 1,
        encode_utf8(s).len() == n,
    ensures
        extract_bits_ok(ValueView::Bits(s), n, 0, (n - 1) as u32),
        extract_bits_spec(ValueView::Bits(s), n, 0, (n - 1) as u32) == ValueView::Bits(s),
{
    let b = encode_utf8(s);
    assert(byte_len_u32(s) == n);
    assert(extend_string_spec(s, n) == s);
    is_char_boundary_start_end_of_seq(b);
    assert(b.subrange(0, n as int) =~= b);
    encode_utf8_decode_utf8(s);
}

proof fn lemma_encode_concat(x: Seq<char>, a: Seq<char>)
    ensures
        encode_utf8(x + a) == encode_utf8(x) + encode_utf8(a),
    decreases x.len(),
{
    if x.len() == 0 {
        assert(x + a =~= a);
        assert(encode_utf8(x) + encode_utf8(a) =~= encode_utf8(a));
    } else {
        lemma_encode_concat(x.drop_first(), a);
        assert((x + a).drop_first() =~= x.drop_first() + a);
        assert((x + a)[0] == x[0]);
        assert(encode_utf8(x + a) =~= encode_utf8(x) + encode_utf8(a));
    }
}

proof fn lemma_concat_boundary(x: Seq<char>, a: Seq<char>)
    ensures
        valid_utf8(encode_utf8(x + a)),
        is_char_boundary(encode_utf8(x + a), encode_utf8(x).len() as int),
    decreases x.len(),
{
    encode_utf8_valid_utf8(x + a);
    lemma_encode_concat(x, a);
    if x.len() > 0 {
        let bytes = encode_utf8(x + a);
        encode_utf8_first_scalar(x + a);
        assert((x + a).drop_first() =~= x.drop_first() + a);
        assert((x + a)[0] == x[0]);
        lemma_encode_concat(x.drop_first(), a);
        assert(pop_first_scalar(bytes) =~= encode_utf8(x.drop_first() + a));
        lemma_concat_boundary(x.drop_first(), a);
    }
}

proof fn lemma_zeros_encode(n: nat)
    ensures
        encode_utf8(zeros(n)).len() == n,
    decreases n,
{
    if n > 0 {
        lemma_zeros_encode((n - 1) as nat);
        assert(zeros(n) == zeros((n - 1) as nat) + seq!['0']);
        lemma_encode_concat(zeros((n - 1) as nat), seq!['0']);
        let one = seq!['0'];
        assert(one.drop_first() =~= Seq::<char>::empty());
        assert((one[0] as u32) == 48);
        assert(has_width_1_encoding(one[0] as u32));
        assert(encode_scalar(one[0] as u32).len() == 1);
        assert(encode_utf8(one) == encode_scalar(one[0] as u32) + encode_utf8(one.drop_first()));
        assert(encode_utf8(one).len() == 1);
    } else {
        assert(zeros(0) =~= Seq::<char>::empty());
    }
}

/// The digits below `offset` of a bus of bit strings: those gathered so far
/// widened with zeros, or only zeros when no lower source supplied a value.
pub open spec fn low_digits(acc: Option<Seq<char>>, offset: u32) -> Seq<char> {
    match acc {
        Some(a) => pad_to_offset(a, offset),
        None => zeros(offset as nat),
    }
}

/// Splitting a bus of bit strings gives its sources back: after the bit
/// string `s`, widened to `bits` digits, is placed at bit `offset` above the
/// digits `acc` gathered so far (or none), extracting bits
/// `[offset, offset + bits - 1]` of the `offset + bits` wide bus yields the
/// widened `s`, and extracting bits `[0, offset - 1]` yields `acc` widened
/// with zeros to `offset` digits (each digit taken as one byte wide).
pub proof fn lemma_split_field_recovers_bit_string(
    acc: Option<Seq<char>>,
    s: Seq<char>,
    bits: u32,
    offset: u32,
)
    requires
        bits >= 1,
        offset + bits <= u32::MAX,
        encode_utf8(extend_string_spec(s, bits)).len() == bits,
        acc matches Some(a) ==> encode_utf8(a).len() <= offset,
    ensures
        ({
            let bus = concat_values_spec(
                match acc {
                    Some(a) => Some(ValueView::Bits(a)),
                    None => None,
                },
                ValueView::Bits(s),
                bits,
                offset,
            );
            let total = (offset + bits) as u32;
            &&& extract_bits_ok(bus, total, offset, (total - 1) as u32)
            &&& extract_bits_spec(bus, total, offset, (total - 1) as u32) == ValueView::Bits(
                extend_string_spec(s, bits),
            )
            &&& offset >= 1 ==> extract_bits_ok(bus, total, 0, (offset - 1) as u32)
                && extract_bits_spec(bus, total, 0, (offset - 1) as u32) == ValueView::Bits(
                low_digits(acc, offset),
            )
        }),
{
    let x = extend_string_spec(s, bits);
    let low = low_digits(acc, offset);
    match acc {
        Some(a) => {
            let len = encode_utf8(a).len();
            if len < offset {
                lemma_zeros_encode((offset - len) as nat);
                lemma_encode_concat(zeros((offset - len) as nat), a);
            }
        },
        None => {
            lemma_zeros_encode(offset as nat);
        },
    }
    assert(encode_utf8(low).len() == offset);
    let joined = x + low;
    let total = (offset + bits) as u32;
    let b = encode_utf8(joined);
    lemma_encode_concat(x, low);
    lemma_concat_boundary(x, low);
    assert(b.len() == total);
    assert(byte_len_u32(joined) == total);
    assert(extend_string_spec(joined, total) == joined);
    is_char_boundary_start_end_of_seq(b);
    assert(b.subrange(0, bits as int) =~= encode_utf8(x));
    encode_utf8_decode_utf8(x);
    assert(b.subrange(bits as int, total as int) =~= encode_utf8(low));
    encode_utf8_decode_utf8(low);
}

} // verus!
