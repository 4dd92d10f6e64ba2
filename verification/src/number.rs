//! Decimal numbers: reading an integer literal.

use vstd::prelude::*;
use crate::grammar::{all_digits, decimal_value, integer_of};
use crate::text::chars_of;

verus! {

/// The number denoted by the first digits of a text is no more than the
/// number denoted by more of them.
pub proof fn lemma_decimal_value_grows(digits: Seq<char>, shorter: int)
    requires
        0 <= shorter <= digits.len(),
        all_digits(digits),
    ensures
        decimal_value(digits.take(shorter)) <= decimal_value(digits),
    decreases digits.len(),
{
    if shorter == digits.len() {
        assert(digits.take(shorter) =~= digits);
    } else {
        let front = digits.drop_last();
        assert(all_digits(front)) by {
            assert forall|i: int| 0 <= i < front.len() implies '0' <= #[trigger] front[i]
                && front[i] <= '9' by {
                assert(front[i] == digits[i]);
            }
        }
        lemma_decimal_value_grows(front, shorter);
        assert(front.take(shorter) =~= digits.take(shorter));
        assert('0' <= digits[digits.len() - 1]);
    }
}

/// The value of an integer literal, if it has one.
pub fn integer_value(text: &String) -> (value: Option<i32>)
    ensures
        value == integer_of(text@),
{
    let digits = chars_of(text.as_str());
    if digits.len() == 0 {
        return None;
    }
    let mut total: i32 = 0;
    let mut i: usize = 0;
    while i < digits.len()
        invariant
            i <= digits.len(),
            digits@ == text@,
            all_digits(digits@.take(i as int)),
            total == decimal_value(digits@.take(i as int)),
        decreases digits.len() - i,
    {
        let c = digits[i];
        if !(c >= '0' && c <= '9') {
            assert(!all_digits(digits@)) by {
                assert(digits@[i as int] == c);
            }
            return None;
        }
        let digit: i32 = (c as u32 - '0' as u32) as i32;
        let ghost longer = digits@.take(i + 1);
        proof {
            assert(longer.drop_last() =~= digits@.take(i as int));
            assert(longer.last() == c);
            assert(all_digits(longer)) by {
                assert forall|k: int| 0 <= k < longer.len() implies '0' <= #[trigger] longer[k]
                    && longer[k] <= '9' by {
                    if k < i {
                        assert(digits@.take(i as int)[k] == longer[k]);
                    }
                }
            }
            assert(decimal_value(longer) == 10 * total + digit);
        }
        if total > (i32::MAX - digit) / 10 {
            proof {
                assert(decimal_value(longer) > i32::MAX);
                if all_digits(digits@) {
                    lemma_decimal_value_grows(digits@, i + 1);
                }
            }
            return None;
        }
        total = 10 * total + digit;
        i += 1;
    }
    assert(digits@.take(digits.len() as int) =~= digits@);
    Some(total)
}

} // verus!
