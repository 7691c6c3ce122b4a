//! How characters and lengths are spelt in a file.

use super::outline::{char_hex, hex16, hex_digit, utf16_hex};
use super::stream::four_places;
use super::text_layer::{entry_group, entry_groups, is_white, trimmed};
use crate::number::digits_value;
use crate::text::decimal_bytes;
use vstd::prelude::*;

verus! {

/// The value of a digit in base 16.
pub open spec fn digit_value(digit: u8) -> int {
    if digit >= 65 {
        digit - 55
    } else {
        digit - 48
    }
}

/// The number that four digits in base 16 stand for, from a place on.
pub open spec fn hex_value(digits: Seq<u8>, at: int) -> int {
    4096 * digit_value(digits[at]) + 256 * digit_value(digits[at + 1]) + 16 * digit_value(
        digits[at + 2],
    ) + digit_value(digits[at + 3])
}

/// Digits in base 16 are those from 0 to 9 and the letters from A to F, and stand for their
/// values.
pub proof fn lemma_digit_read_back(value: int)
    requires
        0 <= value < 16,
    ensures
        digit_value(hex_digit(value)) == value,
        48 <= hex_digit(value) <= 57 || 65 <= hex_digit(value) <= 70,
{
}

/// A character is spelt as the one number that it has, or as two where that takes more than
/// sixteen bits: then ten bits of what exceeds sixteen bits stand in the first, behind the start
/// of the one range of such numbers, and ten in the second, behind the start of the other.
pub proof fn lemma_character_read_back(character: char)
    ensures
        ({
            let (digits, code) = (char_hex(character), character as int);
            &&& code < 0x10000 ==> digits.len() == 4 && hex_value(digits, 0) == code
            &&& code >= 0x10000 ==> {
                let (high, low) = (hex_value(digits, 0), hex_value(digits, 4));
                &&& digits.len() == 8
                &&& 0xd800 <= high < 0xdc00 <= low < 0xe000
                &&& 0x10000 + 0x400 * (high - 0xd800) + (low - 0xdc00) == code
            }
        }),
{
    let code = character as int;
    if code < 0x10000 {
        lemma_number_read_back(code);
    } else {
        lemma_number_read_back(0xd800 + (code - 0x10000) / 0x400);
        lemma_number_read_back(0xdc00 + (code - 0x10000) % 0x400);
    }
}

proof fn lemma_number_read_back(value: int)
    requires
        0 <= value < 0x10000,
    ensures
        hex16(value).len() == 4,
        hex_value(hex16(value), 0) == value,
{
    lemma_digit_read_back((value / 4096) % 16);
    lemma_digit_read_back((value / 256) % 16);
    lemma_digit_read_back((value / 16) % 16);
    lemma_digit_read_back(value % 16);
    let digits = hex16(value);
    assert(digits[0] == hex_digit((value / 4096) % 16) && digits[1] == hex_digit((value / 256)
        % 16));
    assert(digits[2] == hex_digit((value / 16) % 16) && digits[3] == hex_digit(value % 16));
    lemma_hex_digits(value);
}

proof fn lemma_hex_digits(value: int)
    requires
        0 <= value < 0x10000,
    ensures
        value == 4096 * ((value / 4096) % 16) + 256 * ((value / 256) % 16) + 16 * ((value / 16)
            % 16) + value % 16,
{
    let (a, b, c) = (value / 16, value / 256, value / 4096);
    assert(a / 16 == b && b / 16 == c && c % 16 == c);
    assert(value == 16 * a + value % 16);
    assert(a == 16 * b + a % 16);
    assert(b == 16 * c + b % 16);
}

/// Characters are spelt one behind the other.
pub proof fn lemma_text_spelt(text: Seq<char>, character: char)
    ensures
        utf16_hex(Seq::empty()) == Seq::<u8>::empty(),
        utf16_hex(text.push(character)) == utf16_hex(text) + char_hex(character),
{
    assert(text.push(character).drop_last() =~= text);
}

/// The entries of a character map stand in their order in groups of a hundred, as long as there
/// are a hundred, and the last group holds the rest.
pub proof fn lemma_groups_of_entries(entries: Seq<(u8, char)>, from: int)
    requires
        0 <= from <= entries.len(),
    ensures
        from == entries.len() ==> entry_groups(entries, from) == Seq::<u8>::empty(),
        entries.len() - from >= 100 ==> entry_groups(entries, from) == entry_group(
            entries,
            from,
            100,
        ) + entry_groups(entries, from + 100),
        0 < entries.len() - from < 100 ==> entry_groups(entries, from) == entry_group(
            entries,
            from,
            entries.len() - from,
        ),
{
    if 0 < entries.len() - from < 100 {
        let rest = entry_groups(entries, entries.len() as int);
        assert(rest == Seq::<u8>::empty());
        assert(entry_groups(entries, from) =~= entry_group(entries, from, entries.len() - from));
    }
}

/// A text is cut of the white space at its end, and of nothing else.
pub proof fn lemma_trimmed(text: Seq<char>)
    ensures
        trimmed(text).len() <= text.len(),
        trimmed(text) == text.take(trimmed(text).len() as int),
        trimmed(text).len() > 0 ==> !is_white(trimmed(text).last()),
        forall|i: int| trimmed(text).len() <= i < text.len() ==> is_white(#[trigger] text[i]),
    decreases text.len(),
{
    if text.len() > 0 && is_white(text.last()) {
        lemma_trimmed(text.drop_last());
        let cut = trimmed(text);
        assert(text.drop_last().take(cut.len() as int) =~= text.take(cut.len() as int));
        assert forall|i: int| cut.len() <= i < text.len() implies is_white(#[trigger] text[i]) by {
            if i < text.len() - 1 {
                assert(text.drop_last()[i] == text[i]);
            }
        }
    } else {
        assert(text.take(text.len() as int) =~= text);
    }
}

/// A number of ten-thousandths is spelt with a point before its last four digits.
pub proof fn lemma_places_read_back(value: nat)
    ensures
        ({
            let spelt = four_places(value);
            let whole = decimal_bytes(value / 10000).len() as int;
            &&& spelt.len() == whole + 5
            &&& spelt[whole] == 46
            &&& 10000 * digits_value(spelt.take(whole)) + 1000 * (spelt[whole + 1] - 48) + 100 * (
            spelt[whole + 2] - 48) + 10 * (spelt[whole + 3] - 48) + (spelt[whole + 4] - 48) == value
        }),
{
    let spelt = four_places(value);
    let whole = decimal_bytes(value / 10000).len() as int;
    crate::number::lemma_decimal_value(value / 10000);
    assert(spelt.take(whole) =~= decimal_bytes(value / 10000));
    lemma_four_digits(value);
    let digits = seq![
        46u8,
        (48 + (value / 1000) % 10) as u8,
        (48 + (value / 100) % 10) as u8,
        (48 + (value / 10) % 10) as u8,
        (48 + value % 10) as u8,
    ];
    assert(spelt == decimal_bytes(value / 10000) + digits);
    assert(spelt[whole + 1] == digits[1] && spelt[whole + 2] == digits[2]);
    assert(spelt[whole + 3] == digits[3] && spelt[whole + 4] == digits[4]);
}

proof fn lemma_four_digits(value: nat)
    ensures
        value == 10000 * (value / 10000) + 1000 * ((value / 1000) % 10) + 100 * ((value / 100)
            % 10) + 10 * ((value / 10) % 10) + value % 10,
        0 <= (value / 1000) % 10 < 10,
        0 <= (value / 100) % 10 < 10,
        0 <= (value / 10) % 10 < 10,
        0 <= value % 10 < 10,
{
    let (a, b, c, d) = (value / 10, value / 100, value / 1000, value / 10000);
    assert(a / 10 == b && b / 10 == c && c / 10 == d);
    assert(value == 10 * a + value % 10);
    assert(a == 10 * b + a % 10);
    assert(b == 10 * c + b % 10);
    assert(c == 10 * d + c % 10);
}

} // verus!
