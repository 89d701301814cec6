//! Decimal integers: reading them as `str::parse` does for Rust's integer
//! types, and writing them in canonical form.

use crate::text::push_char;
use vstd::prelude::*;

verus! {

pub open spec fn is_digit(c: char) -> bool {
    '0' <= c && c <= '9'
}

pub open spec fn digit_value(c: char) -> int {
    (c as int) - ('0' as int)
}

pub open spec fn all_digits(s: Seq<char>) -> bool {
    forall|i: int| 0 <= i < s.len() ==> is_digit(#[trigger] s[i])
}

/// The number that a string of decimal digits denotes.
pub open spec fn decimal_value(s: Seq<char>) -> int
    decreases s.len(),
{
    if s.len() == 0 {
        0
    } else {
        decimal_value(s.drop_last()) * 10 + digit_value(s.last())
    }
}

/// What `str::parse` gives for an integer type whose values are `lo..=hi`
/// (`signed` when the type has negative values): an optional `+` (or `-` for
/// a signed type), then one digit or more, the value in range.
pub open spec fn parse_int_spec(s: Seq<char>, signed: bool, lo: int, hi: int) -> Option<int> {
    let neg = signed && s.len() > 0 && s[0] == '-';
    let digits = if s.len() > 0 && (s[0] == '+' || neg) {
        s.drop_first()
    } else {
        s
    };
    let v = if neg {
        -decimal_value(digits)
    } else {
        decimal_value(digits)
    };
    if digits.len() > 0 && all_digits(digits) && lo <= v <= hi {
        Some(v)
    } else {
        None
    }
}

pub proof fn lemma_decimal_value_nonneg(s: Seq<char>)
    requires
        all_digits(s),
    ensures
        decimal_value(s) >= 0,
    decreases s.len(),
{
    if s.len() > 0 {
        lemma_decimal_value_nonneg(s.drop_last());
    }
}

/// Reads a decimal integer that must lie in `lo..=hi`.
#[verifier::loop_isolation(false)]
pub fn parse_int(s: &Vec<char>, signed: bool, lo: i128, hi: i128) -> (r: Option<i128>)
    requires
        -0x1_0000_0000_0000_0000 <= lo <= hi <= 0x1_0000_0000_0000_0000,
    ensures
        match parse_int_spec(s@, signed, lo as int, hi as int) {
            Some(v) => r == Some(v as i128),
            None => r is None,
        },
{
    let neg = signed && s.len() > 0 && s[0] == '-';
    let start: usize = if s.len() > 0 && (s[0] == '+' || neg) {
        1
    } else {
        0
    };
    let ghost digits = s@.skip(start as int);
    assert(digits =~= if s@.len() > 0 && (s@[0] == '+' || neg) {
        s@.drop_first()
    } else {
        s@
    });
    if start >= s.len() {
        return None;
    }
    let mut v: i128 = 0;
    let mut i: usize = start;
    while i < s.len()
        invariant
            start <= i <= s.len(),
            digits == s@.skip(start as int),
            0 <= v <= 0x1_0000_0000_0000_0000,
            v as int == decimal_value(digits.take(i - start)),
            all_digits(digits.take(i - start)),
        decreases s.len() - i,
    {
        let c = s[i];
        assert(digits.take(i + 1 - start).drop_last() =~= digits.take(i - start));
        assert(digits[i - start] == c);
        if c < '0' || c > '9' {
            assert(!is_digit(digits[i - start]));
            return None;
        }
        let d = (c as u32 - '0' as u32) as i128;
        v = v * 10 + d;
        i = i + 1;
        assert(all_digits(digits.take(i - start)));
        if v > 0x1_0000_0000_0000_0000 {
            // every further digit only makes the value larger
            proof { lemma_value_grows(digits, (i - start) as int); }
            return None;
        }
    }
    assert(digits.take(i - start) =~= digits);
    let r: i128 = if neg {
        -v
    } else {
        v
    };
    if r < lo || r > hi {
        None
    } else {
        Some(r)
    }
}

/// A string of digits denotes at least what any prefix of it denotes.
pub proof fn lemma_value_grows(s: Seq<char>, n: int)
    requires
        0 <= n <= s.len(),
    ensures
        all_digits(s) ==> decimal_value(s.take(n)) <= decimal_value(s),
    decreases s.len() - n,
{
    if n < s.len() && all_digits(s) {
        lemma_value_grows(s, n + 1);
        assert(s.take(n + 1).drop_last() =~= s.take(n));
        assert(all_digits(s.take(n)));
        lemma_decimal_value_nonneg(s.take(n));
        assert(is_digit(s[n]));
    } else if n == s.len() {
        assert(s.take(n) =~= s);
    }
}

pub open spec fn digit_char(d: int) -> char {
    ((d + '0' as int) as u32) as char
}

/// The canonical decimal form of `n`: no sign, no leading zero.
pub open spec fn decimal_chars(n: nat) -> Seq<char>
    decreases n,
{
    if n < 10 {
        seq![digit_char(n as int)]
    } else {
        decimal_chars(n / 10).push(digit_char((n % 10) as int))
    }
}

/// The canonical decimal form of `i`, with `-` in front when negative.
pub open spec fn int_chars(i: int) -> Seq<char> {
    if i < 0 {
        seq!['-'] + decimal_chars((-i) as nat)
    } else {
        decimal_chars(i as nat)
    }
}

fn digit_of(d: u64) -> (c: char)
    requires
        d < 10,
    ensures
        c == digit_char(d as int),
{
    if d == 0 { '0' }
    else if d == 1 { '1' }
    else if d == 2 { '2' }
    else if d == 3 { '3' }
    else if d == 4 { '4' }
    else if d == 5 { '5' }
    else if d == 6 { '6' }
    else if d == 7 { '7' }
    else if d == 8 { '8' }
    else { '9' }
}

/// Appends the decimal form of `n`.
pub fn push_decimal(out: &mut String, n: u64)
    ensures
        final(out)@ == old(out)@ + decimal_chars(n as nat),
    decreases n,
{
    if n >= 10 {
        push_decimal(out, n / 10);
    }
    let c = digit_of(n % 10);
    push_char(out, c);
    assert(final(out)@ =~= old(out)@ + decimal_chars(n as nat));
}

/// Appends the decimal form of `v`, signed.
pub fn push_int(out: &mut String, v: i64)
    ensures
        final(out)@ == old(out)@ + int_chars(v as int),
{
    if v < 0 {
        push_char(out, '-');
        let m: u64 = (-(v as i128)) as u64;
        push_decimal(out, m);
        assert(final(out)@ =~= old(out)@ + int_chars(v as int));
    } else {
        push_decimal(out, v as u64);
    }
}

} // verus!

verus! {

pub proof fn lemma_digit_char(d: int)
    requires
        0 <= d < 10,
    ensures
        is_digit(digit_char(d)),
        digit_value(digit_char(d)) == d,
{
    assert(((d + '0' as int) as u32) as char as int == d + '0' as int);
}

/// The canonical form of a number is a non-empty string of digits that
/// denotes it.
pub proof fn lemma_decimal_chars(n: nat)
    ensures
        decimal_chars(n).len() > 0,
        all_digits(decimal_chars(n)),
        decimal_value(decimal_chars(n)) == n,
    decreases n,
{
    let s = decimal_chars(n);
    if n >= 10 {
        lemma_decimal_chars(n / 10);
        lemma_digit_char((n % 10) as int);
        assert(s.drop_last() =~= decimal_chars(n / 10));
        assert(s.last() == digit_char((n % 10) as int));
        assert((n / 10) * 10 + n % 10 == n) by (nonlinear_arith);
        assert(decimal_value(s) == decimal_value(s.drop_last()) * 10 + digit_value(s.last()));
        assert forall|i: int| 0 <= i < s.len() implies is_digit(#[trigger] s[i]) by {
            if i < s.len() - 1 {
                assert(s[i] == decimal_chars(n / 10)[i]);
            }
        }
    } else {
        lemma_digit_char(n as int);
        assert(s.drop_last() =~= seq![]);
        assert(decimal_value(s.drop_last()) == 0);
        assert(decimal_value(s) == decimal_value(s.drop_last()) * 10 + digit_value(s.last()));
    }
}

/// Reading the canonical form of `i` back gives `i`, for any integer type
/// that holds `i`.
pub proof fn lemma_parse_int_chars(i: int, signed: bool, lo: int, hi: int)
    requires
        lo <= i <= hi,
        i < 0 ==> signed,
    ensures
        parse_int_spec(int_chars(i), signed, lo, hi) == Some(i),
{
    if i < 0 {
        lemma_decimal_chars((-i) as nat);
        let s = int_chars(i);
        assert(s.drop_first() =~= decimal_chars((-i) as nat));
    } else {
        lemma_decimal_chars(i as nat);
        let s = decimal_chars(i as nat);
        assert(is_digit(s[0]));
    }
}

/// The canonical form of a number holds digits and perhaps a leading `-`.
pub open spec fn int_char(c: char) -> bool {
    is_digit(c) || c == '-'
}

pub proof fn lemma_int_chars_shape(i: int)
    ensures
        int_chars(i).len() > 0,
        forall|j: int| 0 <= j < int_chars(i).len() ==> int_char(#[trigger] int_chars(i)[j]),
{
    if i < 0 {
        lemma_decimal_chars((-i) as nat);
        let s = int_chars(i);
        assert forall|j: int| 0 <= j < s.len() implies int_char(#[trigger] s[j]) by {
            if j > 0 {
                assert(s[j] == decimal_chars((-i) as nat)[j - 1]);
            }
        }
    } else {
        lemma_decimal_chars(i as nat);
    }
}

} // verus!
