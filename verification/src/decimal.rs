//! Unsigned decimal numbers written in ASCII digits.

use crate::error::ExtractError;
use vstd::prelude::*;

verus! {

/// Whether `c` is one of `0` to `9`.
pub open spec fn is_digit(c: char) -> bool {
    '0' <= c && c <= '9'
}

/// The number that the digit `c` stands for.
pub open spec fn digit_value(c: char) -> nat {
    (c as nat - '0' as nat) as nat
}

/// Whether `text` is one digit or more and nothing else.
pub open spec fn is_number(text: Seq<char>) -> bool {
    &&& text.len() > 0
    &&& forall|i: int| 0 <= i < text.len() ==> is_digit(#[trigger] text[i])
}

/// The number that a run of digits denotes, most significant digit first.
pub open spec fn decimal_value(digits: Seq<char>) -> nat
    decreases digits.len(),
{
    if digits.len() == 0 {
        0
    } else {
        decimal_value(digits.drop_last()) * 10 + digit_value(digits.last())
    }
}

/// What reading `text` as a number of at most `max` gives.
pub open spec fn number_in(text: Seq<char>, max: u64) -> Result<u64, ExtractError> {
    if !is_number(text) {
        Err(ExtractError::InvalidDigit)
    } else if decimal_value(text) > max {
        Err(ExtractError::NumericOverflow)
    } else {
        Ok(decimal_value(text) as u64)
    }
}

/// Reads `text` as a decimal number of at most `max`. The text has to be
/// digits throughout; a sign, a blank or an empty text is refused as
/// `InvalidDigit`, digits that denote more than `max` as `NumericOverflow`.
pub fn parse_number(text: &str, max: u64) -> (r: Result<u64, ExtractError>)
    ensures
        r == number_in(text@, max),
{
    let mut value: u64 = 0;
    let mut fits: bool = true;
    let mut seen: bool = false;
    for c in it: text.chars()
        invariant
            it.seq() == text@,
            seen == (it.index() > 0),
            forall|i: int| 0 <= i < it.index() ==> is_digit(#[trigger] text@[i]),
            fits ==> value == decimal_value(text@.take(it.index() as int)) && value <= max,
            !fits ==> decimal_value(text@.take(it.index() as int)) > max,
    {
        if c < '0' || c > '9' {
            return Err(ExtractError::InvalidDigit);
        }
        let digit: u64 = (c as u32 - '0' as u32) as u64;
        proof {
            let before = text@.take(it.index() as int);
            let after = text@.take(it.index() + 1);
            assert(after.drop_last() =~= before);
        }
        if fits {
            let next: u128 = value as u128 * 10 + digit as u128;
            if next > max as u128 {
                fits = false;
            } else {
                value = next as u64;
            }
        }
        seen = true;
    }
    proof {
        assert(text@.take(text@.len() as int) =~= text@);
    }
    if !seen {
        Err(ExtractError::InvalidDigit)
    } else if fits {
        Ok(value)
    } else {
        Err(ExtractError::NumericOverflow)
    }
}

} // verus!
