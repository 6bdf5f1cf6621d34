//! Text helpers: decimal rendering and parsing of unsigned integers,
//! whitespace trimming and repetition of string pieces.
use vstd::prelude::*;
use vstd::string::*;

verus! {

// ── Decimal digits ───────────────────────────────────────────────────────────

/// The ASCII character of a decimal digit.
pub open spec fn digit_char(d: nat) -> char {
    if d == 0 {
        '0'
    } else if d == 1 {
        '1'
    } else if d == 2 {
        '2'
    } else if d == 3 {
        '3'
    } else if d == 4 {
        '4'
    } else if d == 5 {
        '5'
    } else if d == 6 {
        '6'
    } else if d == 7 {
        '7'
    } else if d == 8 {
        '8'
    } else {
        '9'
    }
}

/// The decimal representation of `n`, most significant digit first, without
/// leading zeros (zero is written "0").
pub open spec fn decimal(n: nat) -> Seq<char>
    decreases n,
{
    if n < 10 {
        seq![digit_char(n)]
    } else {
        decimal(n / 10).push(digit_char(n % 10))
    }
}

/// A one-character string holding the decimal digit `d`.
fn digit_string(d: u64) -> (r: String)
    requires
        d < 10,
    ensures
        r@ == seq![digit_char(d as nat)],
{
    if d == 0 {
        proof { reveal_strlit("0"); }
        String::from_str("0")
    } else if d == 1 {
        proof { reveal_strlit("1"); }
        String::from_str("1")
    } else if d == 2 {
        proof { reveal_strlit("2"); }
        String::from_str("2")
    } else if d == 3 {
        proof { reveal_strlit("3"); }
        String::from_str("3")
    } else if d == 4 {
        proof { reveal_strlit("4"); }
        String::from_str("4")
    } else if d == 5 {
        proof { reveal_strlit("5"); }
        String::from_str("5")
    } else if d == 6 {
        proof { reveal_strlit("6"); }
        String::from_str("6")
    } else if d == 7 {
        proof { reveal_strlit("7"); }
        String::from_str("7")
    } else if d == 8 {
        proof { reveal_strlit("8"); }
        String::from_str("8")
    } else {
        proof { reveal_strlit("9"); }
        String::from_str("9")
    }
}

/// Renders `n` in decimal, as `n.to_string()` does.
pub fn decimal_string(n: u64) -> (r: String)
    ensures
        r@ == decimal(n as nat),
    decreases n,
{
    if n < 10 {
        digit_string(n)
    } else {
        let mut s = decimal_string(n / 10);
        let d = digit_string(n % 10);
        s.append(d.as_str());
        s
    }
}

// ── Parsing unsigned integers ────────────────────────────────────────────────

pub open spec fn is_digit(c: char) -> bool {
    '0' <= c && c <= '9'
}

pub open spec fn digit_value(c: char) -> nat {
    (c as u32 - '0' as u32) as nat
}

/// The value of a string of decimal digits, most significant first.
pub open spec fn digits_value(s: Seq<char>) -> nat
    decreases s.len(),
{
    if s.len() == 0 {
        0
    } else {
        digits_value(s.drop_last()) * 10 + digit_value(s.last())
    }
}

pub open spec fn all_digits(s: Seq<char>) -> bool {
    forall|i: int| 0 <= i < s.len() ==> is_digit(#[trigger] s[i])
}

/// The digits of an unsigned literal: the text without one leading `+`.
pub open spec fn unsigned_body(s: Seq<char>) -> Seq<char> {
    if s.len() > 0 && s[0] == '+' {
        s.drop_first()
    } else {
        s
    }
}

/// What `str::parse::<u32>` gives: an optional `+` followed by one or more
/// decimal digits whose value fits in a `u32`; anything else is an error.
pub open spec fn parse_u32_spec(s: Seq<char>) -> Option<u32> {
    let body = unsigned_body(s);
    if body.len() > 0 && all_digits(body) && digits_value(body) <= u32::MAX {
        Some(digits_value(body) as u32)
    } else {
        None
    }
}

proof fn lemma_digits_value_prefix(s: Seq<char>, k: int)
    requires
        0 <= k <= s.len(),
        all_digits(s),
    ensures
        digits_value(s.subrange(0, k)) <= digits_value(s),
    decreases s.len() - k,
{
    if k < s.len() {
        lemma_digits_value_prefix(s, k + 1);
        assert(s.subrange(0, k + 1).drop_last() =~= s.subrange(0, k));
        assert(is_digit(s[k]));
    } else {
        assert(s.subrange(0, k) =~= s);
    }
}

/// Parses a decimal `u32` the way `str::parse::<u32>` does.
pub fn parse_u32(s: &str) -> (r: Option<u32>)
    ensures
        r == parse_u32_spec(s@),
{
    let n = s.unicode_len();
    let mut start: usize = 0;
    if n > 0 && s.get_char(0) == '+' {
        start = 1;
    }
    let ghost body = unsigned_body(s@);
    assert(body =~= s@.subrange(start as int, n as int));
    if start == n {
        return None;
    }
    let mut i: usize = start;
    let mut acc: u64 = 0;
    while i < n
        invariant
            start <= i <= n,
            n == s@.len(),
            body == s@.subrange(start as int, n as int),
            body == unsigned_body(s@),
            all_digits(s@.subrange(start as int, i as int)),
            acc == digits_value(s@.subrange(start as int, i as int)),
            acc <= u32::MAX,
        decreases n - i,
    {
        let c = s.get_char(i);
        let ghost prefix = s@.subrange(start as int, i as int);
        let ghost next = s@.subrange(start as int, i as int + 1);
        assert(next.drop_last() =~= prefix);
        assert(next[next.len() - 1] == c);
        if !(c >= '0' && c <= '9') {
            proof {
                assert(body[i - start] == c);
                assert(!is_digit(body[i - start]));
                assert(!all_digits(body));
            }
            return None;
        }
        let d = (c as u32 - '0' as u32) as u64;
        assert(d < 10);
        acc = acc * 10 + d;
        assert(digit_value(c) == d);
        assert(acc == digits_value(next));
        i = i + 1;
        assert(all_digits(next));
        if acc > u32::MAX as u64 {
            proof {
                if all_digits(body) {
                    assert(body.subrange(0, (i - start) as int) =~= next);
                    lemma_digits_value_prefix(body, (i - start) as int);
                    assert(digits_value(body) > u32::MAX);
                }
                assert(parse_u32_spec(s@).is_none());
            }
            return None;
        }
    }
    assert(s@.subrange(start as int, i as int) =~= body);
    Some(acc as u32)
}

/// `n` in decimal with a leading `-` when negative, as `n.to_string()` does.
pub open spec fn signed_decimal(n: int) -> Seq<char> {
    if n < 0 {
        seq!['-'] + decimal((-n) as nat)
    } else {
        decimal(n as nat)
    }
}

/// Renders `n` in decimal.
pub fn signed_decimal_string(n: i64) -> (r: String)
    ensures
        r@ == signed_decimal(n as int),
{
    if n < 0 {
        let magnitude: u64 = if n == i64::MIN {
            9223372036854775808u64
        } else {
            (-n) as u64
        };
        proof { reveal_strlit("-"); }
        let mut s = String::from_str("-");
        assert(s@ =~= seq!['-']);
        s.append(decimal_string(magnitude).as_str());
        s
    } else {
        decimal_string(n as u64)
    }
}

// ── Ordering of text ─────────────────────────────────────────────────────────

/// Lexicographic order of character sequences by code point, which is the
/// order of `String`s (their UTF-8 bytes compare the same way).
pub open spec fn seq_lt(a: Seq<char>, b: Seq<char>) -> bool
    decreases a.len(),
{
    if b.len() == 0 {
        false
    } else if a.len() == 0 {
        true
    } else if a[0] != b[0] {
        a[0] < b[0]
    } else {
        seq_lt(a.drop_first(), b.drop_first())
    }
}

/// Two different sequences are ordered one way or the other.
pub proof fn lemma_seq_lt_total(a: Seq<char>, b: Seq<char>)
    requires
        a != b,
    ensures
        seq_lt(a, b) || seq_lt(b, a),
    decreases a.len(),
{
    if a.len() == 0 || b.len() == 0 {
        if a.len() == 0 && b.len() == 0 {
            assert(a =~= b);
        }
    } else if a[0] != b[0] {
    } else {
        if a.drop_first() == b.drop_first() {
            assert(a =~= seq![a[0]] + a.drop_first());
            assert(b =~= seq![b[0]] + b.drop_first());
        }
        lemma_seq_lt_total(a.drop_first(), b.drop_first());
    }
}

/// No sequence comes before itself.
pub proof fn lemma_seq_lt_irreflexive(a: Seq<char>)
    ensures
        !seq_lt(a, a),
    decreases a.len(),
{
    if a.len() > 0 {
        lemma_seq_lt_irreflexive(a.drop_first());
    }
}

/// Whether `a` comes before `b`.
pub fn str_lt(a: &str, b: &str) -> (r: bool)
    ensures
        r == seq_lt(a@, b@),
{
    let na = a.unicode_len();
    let nb = b.unicode_len();
    let mut i: usize = 0;
    assert(a@.skip(0) =~= a@ && b@.skip(0) =~= b@);
    while i < na && i < nb
        invariant
            i <= na,
            i <= nb,
            na == a@.len(),
            nb == b@.len(),
            seq_lt(a@, b@) == seq_lt(a@.skip(i as int), b@.skip(i as int)),
        decreases na - i,
    {
        let ca = a.get_char(i);
        let cb = b.get_char(i);
        let ghost sa = a@.skip(i as int);
        let ghost sb = b@.skip(i as int);
        assert(sa[0] == ca && sb[0] == cb);
        if ca != cb {
            return ca < cb;
        }
        assert(sa.drop_first() =~= a@.skip(i + 1));
        assert(sb.drop_first() =~= b@.skip(i + 1));
        i = i + 1;
    }
    i < nb
}

proof fn lemma_digit_char(d: nat)
    requires
        d < 10,
    ensures
        is_digit(digit_char(d)),
        digit_value(digit_char(d)) == d,
{
    assert('0' as u32 == 48 && '1' as u32 == 49 && '2' as u32 == 50 && '3' as u32 == 51 && '4' as u32
        == 52 && '5' as u32 == 53 && '6' as u32 == 54 && '7' as u32 == 55 && '8' as u32 == 56 && '9'
        as u32 == 57);
}

/// The decimal text of a number is all digits, begins with no sign, and
/// reads back as the number.
pub proof fn lemma_decimal_reads_back(n: nat)
    ensures
        decimal(n).len() > 0,
        all_digits(decimal(n)),
        digits_value(decimal(n)) == n,
    decreases n,
{
    lemma_digit_char(n % 10);
    if n < 10 {
        let d = seq![digit_char(n)];
        assert(d.drop_last() =~= Seq::<char>::empty());
        assert(digits_value(d) == digits_value(d.drop_last()) * 10 + digit_value(d.last()));
        assert(digits_value(d) == digit_value(digit_char(n)));
    } else {
        lemma_decimal_reads_back(n / 10);
        let d = decimal(n);
        assert(d.drop_last() == decimal(n / 10));
        assert(d.last() == digit_char(n % 10));
        assert(digits_value(d) == (n / 10) * 10 + n % 10);
        assert forall|i: int| 0 <= i < d.len() implies is_digit(#[trigger] d[i]) by {
            if i < d.len() - 1 {
                assert(d[i] == decimal(n / 10)[i]);
            }
        }
    }
}

// ── Whitespace ───────────────────────────────────────────────────────────────

/// The characters with the Unicode `White_Space` property, which
/// `char::is_whitespace` and `str::trim` use.
pub open spec fn is_white_space(c: char) -> bool {
    ||| ('\u{9}' <= c && c <= '\u{d}')
    ||| c == ' '
    ||| c == '\u{85}'
    ||| c == '\u{a0}'
    ||| c == '\u{1680}'
    ||| ('\u{2000}' <= c && c <= '\u{200a}')
    ||| c == '\u{2028}'
    ||| c == '\u{2029}'
    ||| c == '\u{202f}'
    ||| c == '\u{205f}'
    ||| c == '\u{3000}'
}

pub open spec fn trim_start_ws(s: Seq<char>) -> Seq<char>
    decreases s.len(),
{
    if s.len() > 0 && is_white_space(s[0]) {
        trim_start_ws(s.drop_first())
    } else {
        s
    }
}

pub open spec fn trim_end_ws(s: Seq<char>) -> Seq<char>
    decreases s.len(),
{
    if s.len() > 0 && is_white_space(s.last()) {
        trim_end_ws(s.drop_last())
    } else {
        s
    }
}

/// `s` without leading and trailing whitespace.
pub open spec fn trim_ws(s: Seq<char>) -> Seq<char> {
    trim_end_ws(trim_start_ws(s))
}

/// Calls `str::trim`, which std documents as removing leading and trailing
/// characters with the Unicode `White_Space` property. The contract claims
/// exactly that.
#[verifier::external_body]
pub(crate) fn trim_whitespace<'a>(s: &'a str) -> (r: &'a str)
    ensures
        r@ == trim_ws(s@),
{
    s.trim()
}

// ── Repetition ───────────────────────────────────────────────────────────────

/// `count` copies of `unit`, one after the other.
pub open spec fn repeat_seq(unit: Seq<char>, count: nat) -> Seq<char>
    decreases count,
{
    if count == 0 {
        Seq::empty()
    } else {
        repeat_seq(unit, (count - 1) as nat) + unit
    }
}

/// `unit.repeat(count)`.
pub fn repeat_str(unit: &str, count: usize) -> (r: String)
    ensures
        r@ == repeat_seq(unit@, count as nat),
{
    let mut r = String::new();
    let mut i: usize = 0;
    while i < count
        invariant
            i <= count,
            r@ == repeat_seq(unit@, i as nat),
        decreases count - i,
    {
        r.append(unit);
        i = i + 1;
    }
    r
}

/// Text without whitespace at either end is unchanged by trimming.
pub proof fn lemma_trim_unchanged(s: Seq<char>)
    requires
        s.len() > 0,
        !is_white_space(s[0]),
        !is_white_space(s.last()),
    ensures
        trim_ws(s) == s,
{
}

/// Writing a number in decimal and parsing the trimmed text gives the
/// number back.
pub proof fn lemma_parse_decimal(n: u32)
    ensures
        parse_u32_spec(trim_ws(decimal(n as nat))) == Some(n),
{
    let d = decimal(n as nat);
    lemma_decimal_reads_back(n as nat);
    assert(is_digit(d[0]) && is_digit(d.last()));
    lemma_trim_unchanged(d);
    assert(unsigned_body(d) == d);
}

} // verus!
