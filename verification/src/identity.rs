//! Champion identity: the catalog names a champion by a decimal string, the
//! live sources by a 32-bit integer. This module turns the first into the
//! second.
//!
//! The accepted form is an optional `+` or `-`, then one or more of the ASCII
//! digits `0` to `9`, and nothing else; the number has to fit in an `i32`.

use vstd::prelude::*;
use vstd::string::*;
use vstd::utf8::is_ascii_chars;

verus! {

/// One of the ten ASCII digits.
pub open spec fn is_decimal_digit(c: char) -> bool {
    '0' <= c && c <= '9'
}

/// The number a digit stands for.
pub open spec fn digit_value(c: char) -> int {
    c as int - 48
}

/// Every character of `s` is an ASCII digit.
pub open spec fn all_decimal_digits(s: Seq<char>) -> bool {
    forall|i: int| 0 <= i < s.len() ==> is_decimal_digit(#[trigger] s[i])
}

/// The number that a run of digits denotes in base ten; 0 for the empty run.
pub open spec fn decimal_value(s: Seq<char>) -> int
    decreases s.len(),
{
    if s.len() == 0 {
        0
    } else {
        10 * decimal_value(s.drop_last()) + digit_value(s.last())
    }
}

/// The digits of a key: what follows its sign, or all of it where it has none.
pub open spec fn digits_of(s: Seq<char>) -> Seq<char> {
    if s.len() > 0 && (s[0] == '-' || s[0] == '+') {
        s.skip(1)
    } else {
        s
    }
}

/// The integer that `s` denotes, of any size, or `None` where `s` is not an
/// optional sign followed by at least one digit.
pub open spec fn signed_decimal(s: Seq<char>) -> Option<int> {
    let digits = digits_of(s);
    if digits.len() == 0 || !all_decimal_digits(digits) {
        None
    } else if s[0] == '-' {
        Some(-decimal_value(digits))
    } else {
        Some(decimal_value(digits))
    }
}

/// The identity that a catalog key resolves to: the integer it denotes, where
/// it denotes one that an `i32` can hold.
pub open spec fn resolved_id(key: Seq<char>) -> Option<i32> {
    match signed_decimal(key) {
        Some(v) => if i32::MIN <= v <= i32::MAX {
            Some(v as i32)
        } else {
            None
        },
        None => None,
    }
}

/// A run of digits denotes no less than any of its prefixes.
pub proof fn lemma_decimal_value_grows(s: Seq<char>, k: int)
    requires
        all_decimal_digits(s),
        0 <= k <= s.len(),
    ensures
        0 <= decimal_value(s.take(k)) <= decimal_value(s),
    decreases s.len() - k,
{
    if k == s.len() {
        assert(s.take(k) =~= s);
        lemma_decimal_value_nonnegative(s);
    } else {
        lemma_decimal_value_grows(s, k + 1);
        let longer = s.take(k + 1);
        assert(longer.drop_last() =~= s.take(k));
        assert(longer.last() == s[k]);
        assert(is_decimal_digit(s[k]));
        lemma_decimal_value_nonnegative(s.take(k));
    }
}

/// A run of digits denotes a number that is not negative.
pub proof fn lemma_decimal_value_nonnegative(s: Seq<char>)
    requires
        all_decimal_digits(s),
    ensures
        0 <= decimal_value(s),
    decreases s.len(),
{
    if s.len() > 0 {
        assert(is_decimal_digit(s.last()));
        lemma_decimal_value_nonnegative(s.drop_last());
    }
}

/// A key with a character outside ASCII resolves to nothing.
proof fn lemma_beyond_ascii_unresolved(key: Seq<char>)
    requires
        !is_ascii_chars(key),
    ensures
        resolved_id(key) is None,
{
    let i = choose|i: int| 0 <= i < key.len() && !('\0' <= #[trigger] key[i] <= '\u{7f}');
    let digits = digits_of(key);
    if digits.len() == key.len() {
        assert(digits == key);
        assert(!is_decimal_digit(digits[i]));
    } else {
        assert(i != 0);
        assert(digits[i - 1] == key[i]);
        assert(!is_decimal_digit(digits[i - 1]));
    }
}

/// Resolves a catalog key to the integer identity by which the live sources
/// know the champion. The answer is `None` exactly for a key that is not a
/// decimal integer within the range of `i32`.
pub fn resolve_id(key: &str) -> (id: Option<i32>)
    ensures
        id == resolved_id(key@),
{
    if !key.is_ascii() {
        proof {
            lemma_beyond_ascii_unresolved(key@);
        }
        return None;
    }
    broadcast use is_ascii_spec_bytes;

    let bytes = key.as_bytes();
    let n: usize = bytes.len();
    assert(n == key@.len());
    assert(forall|j: int| 0 <= j < n ==> bytes@[j] == (#[trigger] key@[j]) as u8);
    if n == 0 {
        return None;
    }
    let negative = bytes[0] == 45u8;
    let signed = negative || bytes[0] == 43u8;
    let start: usize = if signed {
        1
    } else {
        0
    };
    let ghost digits = digits_of(key@);
    assert(digits =~= key@.skip(start as int));
    if start == n {
        return None;
    }
    let mut acc: i64 = 0;
    let mut i: usize = start;
    while i < n
        invariant
            start <= i <= n,
            n == key@.len(),
            n == bytes@.len(),
            is_ascii_chars(key@),
            digits == digits_of(key@),
            digits == key@.skip(start as int),
            forall|j: int| 0 <= j < n ==> bytes@[j] == (#[trigger] key@[j]) as u8,
            all_decimal_digits(digits.take(i - start)),
            acc == decimal_value(digits.take(i - start)),
            0 <= acc <= 2147483648,
        decreases n - i,
    {
        let b: u8 = bytes[i];
        let ghost c = key@[i as int];
        assert(digits[i - start] == c);
        if b < 48u8 || b > 57u8 {
            assert(!is_decimal_digit(c));
            return None;
        }
        assert(is_decimal_digit(c));
        let ghost shorter = digits.take(i - start);
        let ghost longer = digits.take(i - start + 1);
        assert(longer.drop_last() =~= shorter);
        assert(longer.last() == c);
        assert(all_decimal_digits(longer)) by {
            assert forall|j: int| 0 <= j < longer.len() implies is_decimal_digit(
                #[trigger] longer[j],
            ) by {
                if j < shorter.len() {
                    assert(longer[j] == shorter[j]);
                }
            }
        }
        let d: i64 = (b - 48u8) as i64;
        acc = acc * 10 + d;
        assert(acc == decimal_value(longer));
        if acc > 2147483648 {
            proof {
                if all_decimal_digits(digits) {
                    lemma_decimal_value_grows(digits, i - start + 1);
                }
            }
            return None;
        }
        i = i + 1;
    }
    assert(digits.take(n - start) =~= digits);
    if negative {
        Some((-acc) as i32)
    } else if acc <= 2147483647 {
        Some(acc as i32)
    } else {
        None
    }
}

} // verus!
