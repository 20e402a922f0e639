//! Unsigned decimal numbers as they appear on a command line: an optional
//! `+`, then one or more ASCII digits, nothing else.

use vstd::prelude::*;
use vstd::std_specs::iter::IteratorSpec;

verus! {

/// Whether `c` is one of the ten ASCII digits.
pub open spec fn is_digit(c: char) -> bool {
    '0' <= c <= '9'
}

/// The number a digit stands for.
pub open spec fn digit_value(c: char) -> nat
    recommends
        is_digit(c),
{
    (c as int - '0' as int) as nat
}

/// Whether every character of `s` is an ASCII digit.
pub open spec fn all_digits(s: Seq<char>) -> bool {
    forall|i: int| 0 <= i < s.len() ==> is_digit(#[trigger] s[i])
}

/// The number that a run of digits denotes, most significant digit first.
/// The empty run denotes zero.
pub open spec fn digits_value(s: Seq<char>) -> nat
    decreases s.len(),
{
    if s.len() == 0 {
        0
    } else {
        10 * digits_value(s.drop_last()) + digit_value(s.last())
    }
}

/// The text that is left once an optional leading `+` is taken away.
pub open spec fn unsigned_digits(s: Seq<char>) -> Seq<char> {
    if s.len() > 0 && s[0] == '+' {
        s.subrange(1, s.len() as int)
    } else {
        s
    }
}

/// The number that `s` denotes, if it is a well-formed unsigned decimal
/// number no larger than `max`.
pub open spec fn parse_unsigned_spec(s: Seq<char>, max: u64) -> Option<u64> {
    let digits = unsigned_digits(s);
    if digits.len() > 0 && all_digits(digits) && digits_value(digits) <= max {
        Some(digits_value(digits) as u64)
    } else {
        None
    }
}

/// A run of digits denotes at least as much as any of its prefixes.
pub proof fn lemma_digits_value_prefix(s: Seq<char>, n: int)
    requires
        0 <= n <= s.len(),
    ensures
        digits_value(s.take(n)) <= digits_value(s),
    decreases s.len(),
{
    if n == s.len() {
        assert(s.take(n) =~= s);
    } else {
        assert(s.drop_last().take(n) =~= s.take(n));
        lemma_digits_value_prefix(s.drop_last(), n);
    }
}

/// Reads an unsigned decimal number no larger than `max`, in one pass over
/// the characters.
///
/// Leading zeros are accepted; a sign other than `+`, blanks, separators
/// and digits outside ASCII are not.
pub fn parse_unsigned(s: &str, max: u64) -> (parsed: Option<u64>)
    ensures
        parsed == parse_unsigned_spec(s@, max),
{
    broadcast use vstd::string::group_string_axioms;

    let mut rest = s.chars();
    let mut value: u64 = 0;
    let mut signed: bool = false;
    let mut any_digit: bool = false;
    let ghost digits = unsigned_digits(s@);
    let ghost mut seen: int = 0;
    let ghost mut count: int = 0;
    loop
        invariant
            rest.obeys_prophetic_iter_laws(),
            rest.remaining() == s@.skip(seen),
            digits == unsigned_digits(s@),
            0 <= count <= digits.len(),
            seen == count + if signed { 1int } else { 0int },
            seen <= s@.len(),
            signed ==> s@.len() > 0 && s@[0] == '+',
            !signed && seen > 0 ==> s@[0] != '+',
            any_digit == (count > 0),
            all_digits(digits.take(count)),
            value == digits_value(digits.take(count)),
            value <= max,
        decreases s@.len() - seen,
    {
        let c: char = match rest.next() {
            Some(c) => c,
            None => {
                proof {
                    assert(digits.take(count) =~= digits);
                }
                return if any_digit { Some(value) } else { None };
            },
        };
        proof {
            assert(c == s@[seen]);
            assert(s@.skip(seen).drop_first() =~= s@.skip(seen + 1));
        }
        if c == '+' && !signed && !any_digit {
            signed = true;
            proof {
                seen = seen + 1;
                assert(digits.take(0) =~= Seq::<char>::empty());
            }
        } else {
            let ghost longer = digits.take(count + 1);
            proof {
                assert(longer.last() == c);
                assert(longer.drop_last() =~= digits.take(count));
            }
            if !(c >= '0' && c <= '9') {
                proof {
                    assert(!is_digit(digits[count]));
                }
                return None;
            }
            let d: u64 = (c as u32 - '0' as u32) as u64;
            assert(d == digit_value(c));
            if d > max || value > (max - d) / 10 {
                proof {
                    assert(digits_value(longer) == 10 * value + d);
                    lemma_digits_value_prefix(digits, count + 1);
                }
                return None;
            }
            value = value * 10 + d;
            any_digit = true;
            proof {
                assert forall|k: int| 0 <= k < longer.len() implies is_digit(
                    #[trigger] longer[k],
                ) by {
                    if k < count {
                        assert(longer[k] == digits.take(count)[k]);
                    }
                }
                count = count + 1;
                seen = seen + 1;
            }
        }
    }
}

} // verus!
