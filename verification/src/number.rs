//! Unsigned decimal numbers in text.

use vstd::prelude::*;

verus! {

/// `c` is one of the decimal digits `0` to `9`.
pub open spec fn is_digit(c: char) -> bool {
    '0' <= c <= '9'
}

/// The number that the digit `c` stands for.
pub open spec fn digit_value(c: char) -> nat {
    (c as u32 - '0' as u32) as nat
}

/// Every character of `s` is a decimal digit.
pub open spec fn all_digits(s: Seq<char>) -> bool {
    forall|i: int| 0 <= i < s.len() ==> is_digit(#[trigger] s[i])
}

/// The number written by the digits `s`, most significant first.
pub open spec fn decimal_value(s: Seq<char>) -> nat
    decreases s.len(),
{
    if s.len() == 0 {
        0
    } else {
        decimal_value(s.drop_last()) * 10 + digit_value(s.last())
    }
}

/// The digits of a number in text: the text itself, without one leading `+`.
pub open spec fn digits_of(s: Seq<char>) -> Seq<char> {
    if s.len() > 0 && s[0] == '+' {
        s.subrange(1, s.len() as int)
    } else {
        s
    }
}

/// The 32-bit unsigned number that `s` writes: an optional `+`, then one or
/// more decimal digits whose value fits. `None` for any other text.
pub open spec fn unsigned_decimal(s: Seq<char>) -> Option<u32> {
    let digits = digits_of(s);
    if digits.len() > 0 && all_digits(digits) && decimal_value(digits) <= u32::MAX {
        Some(decimal_value(digits) as u32)
    } else {
        None
    }
}

/// A number is at least the number written by any prefix of its digits.
pub proof fn lemma_decimal_value_prefix(s: Seq<char>, k: int)
    requires
        0 <= k <= s.len(),
    ensures
        decimal_value(s.take(k)) <= decimal_value(s),
    decreases s.len() - k,
{
    if k == s.len() {
        assert(s.take(k) =~= s);
    } else {
        lemma_decimal_value_prefix(s, k + 1);
        assert(s.take(k + 1).drop_last() =~= s.take(k));
        assert(decimal_value(s.take(k + 1)) >= decimal_value(s.take(k)) * 10);
    }
}

/// Reads a 32-bit unsigned decimal number.
pub fn parse_u32(s: &[char]) -> (r: Option<u32>)
    ensures
        r == unsigned_decimal(s@),
{
    let n = s.len();
    let first: usize = if n > 0 && s[0] == '+' {
        1
    } else {
        0
    };
    if first == n {
        return None;
    }
    let ghost digits = digits_of(s@);
    let mut value: u64 = 0;
    let mut i: usize = first;
    while i < n
        invariant
            n == s@.len(),
            first <= i <= n,
            digits == s@.subrange(first as int, n as int),
            digits == digits_of(s@),
            all_digits(digits.take(i - first)),
            value == decimal_value(digits.take(i - first)),
            value <= u32::MAX,
        decreases n - i,
    {
        let c = s[i];
        let ghost seen = digits.take(i - first + 1);
        assert(seen.drop_last() =~= digits.take(i - first));
        assert(seen.last() == c);
        if c < '0' || c > '9' {
            assert(!is_digit(digits[i - first]));
            return None;
        }
        let d: u64 = (c as u32 - '0' as u32) as u64;
        value = value * 10 + d;
        if value > 0xffff_ffff {
            proof {
                lemma_decimal_value_prefix(digits, i - first + 1);
            }
            return None;
        }
        assert forall|k: int| 0 <= k < seen.len() implies is_digit(#[trigger] seen[k]) by {
            if k < seen.len() - 1 {
                assert(seen[k] == digits.take(i - first)[k]);
            }
        }
        i += 1;
    }
    assert(digits.take(n - first) =~= digits);
    Some(value as u32)
}

} // verus!
