//! Numbers in decimal digits.

use crate::text::decimal_bytes;
use vstd::prelude::*;

verus! {

/// Whether every byte is a decimal digit.
pub open spec fn all_digits(digits: Seq<u8>) -> bool {
    forall|i: int| 0 <= i < digits.len() ==> 48 <= #[trigger] digits[i] <= 57
}

/// The number that decimal digits stand for.
pub open spec fn digits_value(digits: Seq<u8>) -> nat
    decreases digits.len(),
{
    if digits.len() == 0 {
        0
    } else {
        10 * digits_value(digits.drop_last()) + (digits.last() - 48) as nat
    }
}

/// The digits of a number behind a plus sign that may be there.
pub open spec fn unsigned_digits(word: Seq<u8>) -> Seq<u8> {
    if word.len() > 0 && word[0] == 43 {
        word.skip(1)
    } else {
        word
    }
}

/// The number that a word stands for, if it is one up to a limit.
pub open spec fn number_of(word: Seq<u8>, limit: nat) -> Option<nat> {
    let digits = unsigned_digits(word);
    if digits.len() > 0 && all_digits(digits) && digits_value(digits) <= limit {
        Some(digits_value(digits))
    } else {
        None
    }
}

/// The digits of a number stand for it.
pub proof fn lemma_decimal_value(n: nat)
    ensures
        decimal_bytes(n).len() > 0,
        all_digits(decimal_bytes(n)),
        digits_value(decimal_bytes(n)) == n,
    decreases n,
{
    let digits = decimal_bytes(n);
    if n < 10 {
        assert(digits.drop_last() =~= Seq::<u8>::empty());
        assert(digits_value(Seq::<u8>::empty()) == 0);
        assert(digits.last() == 48 + n);
    } else {
        lemma_decimal_value(n / 10);
        assert(digits.drop_last() =~= decimal_bytes(n / 10));
        assert(digits.last() == 48 + n % 10);
    }
}

proof fn lemma_value_grows(digits: Seq<u8>, n: int)
    requires
        0 <= n <= digits.len(),
    ensures
        digits_value(digits.take(n)) <= digits_value(digits),
    decreases digits.len() - n,
{
    if n < digits.len() {
        lemma_value_grows(digits, n + 1);
        assert(digits.take(n + 1).drop_last() =~= digits.take(n));
    } else {
        assert(digits.take(n) =~= digits);
    }
}

/// The number that a word stands for, if it is one up to a limit.
pub fn parse_number(word: &[u8], limit: u64) -> (number: Option<u64>)
    ensures
        match number_of(word@, limit as nat) {
            Some(value) => number is Some && number->0 == value,
            None => number is None,
        },
{
    let start: usize = if word.len() > 0 && word[0] == 43 {
        1
    } else {
        0
    };
    let ghost digits = unsigned_digits(word@);
    assert(digits =~= word@.skip(start as int));
    if word.len() == start {
        return None;
    }
    let mut value: u64 = 0;
    let mut i: usize = start;
    assert(digits.take(0) =~= Seq::<u8>::empty());
    while i < word.len()
        invariant
            start <= i <= word@.len(),
            start < word@.len(),
            digits == unsigned_digits(word@),
            digits == word@.skip(start as int),
            value <= limit,
            value == digits_value(digits.take(i - start)),
            forall|k: int| 0 <= k < i - start ==> 48 <= #[trigger] digits[k] <= 57,
        decreases word@.len() - i,
    {
        let digit: u8 = word[i];
        assert(digits[i - start] == digit);
        if digit < 48 || digit > 57 {
            return None;
        }
        let next: u128 = 10 * value as u128 + (digit - 48) as u128;
        proof {
            assert(digits.take(i - start + 1).drop_last() =~= digits.take(i - start));
            lemma_value_grows(digits, i - start + 1);
        }
        if next > limit as u128 {
            return None;
        }
        value = next as u64;
        i = i + 1;
    }
    assert(digits.take(i - start) =~= digits);
    Some(value)
}

} // verus!
