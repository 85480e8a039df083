//! Amounts as callers write them: decimal text, read into the smallest
//! currency unit.

use vstd::prelude::*;
use vstd::string::StrSliceExecFns;

use crate::error::LedgerError;

verus! {

/// `c` is one of the ten ASCII digits.
pub open spec fn is_digit(c: char) -> bool {
    '0' <= c && c <= '9'
}

/// The number that the ASCII digit `c` stands for.
pub open spec fn digit_value(c: char) -> nat
    recommends
        is_digit(c),
{
    (c as int - '0' as int) as nat
}

/// Every character of `text` is an ASCII digit.
pub open spec fn all_digits(text: Seq<char>) -> bool {
    forall|i: int| 0 <= i < text.len() ==> is_digit(#[trigger] text[i])
}

/// The number that a sequence of digits denotes in base ten, most significant
/// digit first. The empty sequence denotes zero.
pub open spec fn digits_value(digits: Seq<char>) -> nat
    decreases digits.len(),
{
    if digits.len() == 0 {
        0
    } else {
        digits_value(digits.drop_last()) * 10 + digit_value(digits.last())
    }
}

/// `text` without the one `+` that may lead it.
pub open spec fn unsigned_part(text: Seq<char>) -> Seq<char> {
    if text.len() > 0 && text[0] == '+' {
        text.subrange(1, text.len() as int)
    } else {
        text
    }
}

/// What `text` means as an amount: an optional `+`, then one or more ASCII
/// digits whose value fits 64 bits. Anything else, a sign `-` included, is no
/// amount.
pub open spec fn amount_value(text: Seq<char>) -> Option<u64> {
    let digits = unsigned_part(text);
    if digits.len() > 0 && all_digits(digits) && digits_value(digits) <= u64::MAX {
        Some(digits_value(digits) as u64)
    } else {
        None
    }
}

/// A longer digit sequence never denotes less than one of its prefixes.
pub proof fn lemma_digits_value_grows(digits: Seq<char>, k: int)
    requires
        0 <= k <= digits.len(),
    ensures
        digits_value(digits.subrange(0, k)) <= digits_value(digits),
    decreases digits.len() - k,
{
    if k == digits.len() {
        assert(digits.subrange(0, k) =~= digits);
    } else {
        lemma_digits_value_grows(digits, k + 1);
        let longer = digits.subrange(0, k + 1);
        assert(longer.drop_last() =~= digits.subrange(0, k));
        assert(digits_value(longer) == digits_value(longer.drop_last()) * 10 + digit_value(
            longer.last(),
        ));
    }
}

/// The value of one ASCII digit, or `None` for any other character.
fn digit_of(c: char) -> (value: Option<u8>)
    ensures
        value is Some <==> is_digit(c),
        value matches Some(d) ==> d == digit_value(c) && d <= 9,
{
    match c {
        '0' => Some(0),
        '1' => Some(1),
        '2' => Some(2),
        '3' => Some(3),
        '4' => Some(4),
        '5' => Some(5),
        '6' => Some(6),
        '7' => Some(7),
        '8' => Some(8),
        '9' => Some(9),
        _ => None,
    }
}

/// Reads an amount from decimal text.
///
/// Returns the amount exactly when `text` is an optional `+` followed by one
/// or more ASCII digits that denote a number of at most `u64::MAX`, and
/// `InvalidAmount` for every other text.
pub fn parse_amount(text: &str) -> (result: Result<u64, LedgerError>)
    ensures
        result == match amount_value(text@) {
            Some(value) => Ok::<u64, LedgerError>(value),
            None => Err::<u64, LedgerError>(LedgerError::InvalidAmount),
        },
{
    let length: usize = text.unicode_len();
    if length == 0 {
        return Err(LedgerError::InvalidAmount);
    }
    let start: usize = if text.get_char(0) == '+' {
        1
    } else {
        0
    };
    if start == length {
        return Err(LedgerError::InvalidAmount);
    }
    let ghost digits = unsigned_part(text@);
    let mut total: u64 = 0;
    let mut at: usize = start;
    while at < length
        invariant
            start <= at <= length,
            length == text@.len(),
            digits == text@.subrange(start as int, length as int),
            digits == unsigned_part(text@),
            all_digits(digits.subrange(0, at - start)),
            total == digits_value(digits.subrange(0, at - start)),
        decreases length - at,
    {
        let ghost seen = digits.subrange(0, at - start);
        let ghost next = digits.subrange(0, at - start + 1);
        let c: char = text.get_char(at);
        proof {
            // `c` is the last of the digits up to here; without it they are
            // the digits read before.
            assert(next.drop_last() =~= seen);
            assert(next.last() == c);
        }
        match digit_of(c) {
            None => {
                return Err(LedgerError::InvalidAmount);
            },
            Some(d) => {
                proof {
                    lemma_digits_value_grows(digits, at - start + 1);
                }
                if total > (u64::MAX - d as u64) / 10 {
                    return Err(LedgerError::InvalidAmount);
                }
                total = total * 10 + d as u64;
                proof {
                    // The digits read so far are those read before and `c`.
                    assert forall|i: int| 0 <= i < next.len() implies is_digit(
                        #[trigger] next[i],
                    ) by {
                        if i < seen.len() {
                            assert(next[i] == seen[i]);
                        }
                    }
                }
            },
        }
        at = at + 1;
    }
    proof {
        assert(digits.subrange(0, at - start) =~= digits);
    }
    Ok(total)
}

} // verus!
