//! Reading a run of decimal digits as a number.

use vstd::prelude::*;
use crate::chars::{char_is_digit, is_digit};
use crate::lexing::digits_value;

verus! {

/// Whether every character of `text` is an ASCII decimal digit.
pub open spec fn all_digits(text: Seq<char>) -> bool {
    forall|i: int| 0 <= i < text.len() ==> is_digit(#[trigger] text[i])
}

/// The number that `text` denotes, if `text` consists of decimal digits and
/// the number fits in an `i32`.
pub open spec fn number_of(text: Seq<char>) -> Option<i32> {
    if all_digits(text) && digits_value(text) <= i32::MAX {
        Some(digits_value(text) as i32)
    } else {
        None
    }
}

/// A digit sequence denotes at least what any of its prefixes denotes.
pub proof fn lemma_digits_value_grows(text: Seq<char>, n: int)
    requires
        all_digits(text),
        0 <= n <= text.len(),
    ensures
        digits_value(text.take(n)) <= digits_value(text),
    decreases text.len() - n,
{
    if n < text.len() {
        let longer = text.take(n + 1);
        assert(longer.drop_last() =~= text.take(n));
        lemma_digits_value_grows(text, n + 1);
    } else {
        assert(text.take(n) =~= text);
    }
}

/// The value of the decimal digit `c`.
fn digit_of(c: char) -> (d: i32)
    requires
        is_digit(c),
    ensures
        d == c as int - '0' as int,
        0 <= d <= 9,
{
    (c as u32 - '0' as u32) as i32
}

/// Reads `chars[from..to]` as a decimal number.
pub fn digits_to_number(chars: &Vec<char>, from: usize, to: usize) -> (number: Option<i32>)
    requires
        from <= to <= chars.len(),
    ensures
        number == number_of(chars@.subrange(from as int, to as int)),
{
    let ghost text = chars@.subrange(from as int, to as int);
    let mut value: i32 = 0;
    let mut i: usize = from;
    while i < to
        invariant
            from <= i <= to <= chars.len(),
            text == chars@.subrange(from as int, to as int),
            all_digits(text.take(i - from)),
            value == digits_value(text.take(i - from)),
        decreases to - i,
    {
        let c = chars[i];
        let ghost shorter = text.take(i - from);
        let ghost longer = text.take(i - from + 1);
        proof {
            assert(longer.drop_last() =~= shorter);
            assert(longer.last() == c);
        }
        if !char_is_digit(c) {
            return None;
        }
        let d = digit_of(c);
        if value > (i32::MAX - d) / 10 {
            proof {
                if all_digits(text) {
                    lemma_digits_value_grows(text, i - from + 1);
                }
            }
            return None;
        }
        value = value * 10 + d;
        i += 1;
    }
    proof {
        assert(text.take(to - from) =~= text);
    }
    Some(value)
}

} // verus!
