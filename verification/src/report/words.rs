//! Words and numbers, as reports are made of.

use crate::text::{decimal, push_decimal, text_of};
use vstd::prelude::*;

verus! {

/// A number behind its label.
pub open spec fn field(label: Seq<char>, value: int) -> Seq<char> {
    label + decimal(value as nat)
}

/// Appends a number behind its label.
pub fn push_field(text: &mut String, label: &str, value: u64)
    ensures
        final(text)@ == old(text)@ + field(label@, value as int),
{
    text.append(label);
    push_decimal(text, value);
    assert(text@ =~= old(text)@ + field(label@, value as int));
}

/// A truth value in words.
pub open spec fn truth(value: bool) -> Seq<char> {
    if value {
        "true"@
    } else {
        "false"@
    }
}

/// A truth value in words.
pub fn truth_text(value: bool) -> (text: &'static str)
    ensures
        text@ == truth(value),
{
    if value {
        "true"
    } else {
        "false"
    }
}

/// A truth value behind its label.
pub open spec fn flag(label: Seq<char>, value: bool) -> Seq<char> {
    label + truth(value)
}

/// Appends a truth value behind its label.
pub fn push_flag(text: &mut String, label: &str, value: bool)
    ensures
        final(text)@ == old(text)@ + flag(label@, value),
{
    text.append(label);
    text.append(truth_text(value));
    assert(text@ =~= old(text)@ + flag(label@, value));
}

/// A text filled up with spaces.
pub open spec fn padded(text: Seq<char>, width: int) -> Seq<char> {
    text + Seq::new(
        if text.len() < width {
            (width - text.len()) as nat
        } else {
            0
        },
        |i: int| ' ',
    )
}

/// Appends a text filled up with spaces.
pub fn push_padded(text: &mut String, piece: &str, width: usize)
    ensures
        final(text)@ == old(text)@ + padded(piece@, width as int),
{
    let ghost before = text@;
    text.append(piece);
    let mut len: usize = piece.unicode_len();
    let ghost first = len as int;
    while len < width
        invariant
            first == piece@.len(),
            first <= len,
            len <= width || len == first,
            text@ == before + piece@ + Seq::new((len - first) as nat, |i: int| ' '),
        decreases width - len,
    {
        let ghost spaces = Seq::new((len - first) as nat, |i: int| ' ');
        text.push(' ');
        len = len + 1;
        assert(spaces.push(' ') =~= Seq::new((len - first) as nat, |i: int| ' '));
        assert(text@ =~= before + piece@ + Seq::new((len - first) as nat, |i: int| ' '));
    }
    assert(text@ =~= before + padded(piece@, width as int));
}

/// Appends a number filled up with spaces.
pub fn push_padded_number(text: &mut String, value: u64, width: usize)
    ensures
        final(text)@ == old(text)@ + padded(decimal(value as nat), width as int),
{
    let mut digits: String = text_of("");
    push_decimal(&mut digits, value);
    proof {
        reveal_strlit("");
        assert(digits@ =~= decimal(value as nat));
    }
    push_padded(text, digits.as_str(), width);
}

/// A number with its sign.
pub open spec fn signed_text(value: int) -> Seq<char> {
    if value < 0 {
        "-"@ + decimal((-value) as nat)
    } else {
        decimal(value as nat)
    }
}

/// Appends a number with its sign.
pub fn push_signed(text: &mut String, value: i32)
    ensures
        final(text)@ == old(text)@ + signed_text(value as int),
{
    if value < 0 {
        text.append("-");
        push_decimal(text, (-(value as i64)) as u64);
        assert(text@ =~= old(text)@ + signed_text(value as int));
    } else {
        push_decimal(text, value as u64);
    }
}

/// A number with its sign behind its label.
pub open spec fn signed_field(label: Seq<char>, value: int) -> Seq<char> {
    label + signed_text(value)
}

/// Appends a number with its sign behind its label.
pub fn push_signed_field(text: &mut String, label: &str, value: i32)
    ensures
        final(text)@ == old(text)@ + signed_field(label@, value as int),
{
    text.append(label);
    push_signed(text, value);
    assert(text@ =~= old(text)@ + signed_field(label@, value as int));
}

/// A text behind so many spaces that it is of the given width.
pub open spec fn indented(text: Seq<char>, width: int) -> Seq<char> {
    Seq::new(
        if text.len() < width {
            (width - text.len()) as nat
        } else {
            0
        },
        |i: int| ' ',
    ) + text
}

/// Appends a number with its sign behind so many spaces that it is of the given width.
pub fn push_indented(text: &mut String, value: i32, width: usize)
    ensures
        final(text)@ == old(text)@ + indented(signed_text(value as int), width as int),
{
    let ghost before = text@;
    let mut digits: String = text_of("");
    push_signed(&mut digits, value);
    proof {
        reveal_strlit("");
        assert(digits@ =~= signed_text(value as int));
    }
    let first: usize = digits.as_str().unicode_len();
    let mut len: usize = first;
    assert(text@ =~= before + Seq::new(0, |i: int| ' '));
    while len < width
        invariant
            first <= len,
            len <= width || len == first,
            text@ == before + Seq::new((len - first) as nat, |i: int| ' '),
        decreases width - len,
    {
        let ghost spaces = Seq::new((len - first) as nat, |i: int| ' ');
        text.push(' ');
        len = len + 1;
        assert(spaces.push(' ') =~= Seq::new((len - first) as nat, |i: int| ' '));
        assert(text@ =~= before + Seq::new((len - first) as nat, |i: int| ' '));
    }
    text.append(digits.as_str());
    assert(text@ =~= before + indented(signed_text(value as int), width as int));
}

/// The digit that stands for a number below sixteen.
pub open spec fn hex_digit(value: int) -> char {
    if value < 10 {
        (48 + value) as char
    } else {
        (87 + value) as char
    }
}

/// So many digits of a number to the base of sixteen.
pub open spec fn hex(value: int, digits: int) -> Seq<char>
    decreases digits,
{
    if digits <= 0 {
        Seq::empty()
    } else {
        hex(value / 16, digits - 1).push(hex_digit(value % 16))
    }
}

/// Appends so many digits of a number to the base of sixteen.
pub fn push_hex(text: &mut String, value: u64, digits: u8)
    ensures
        final(text)@ == old(text)@ + hex(value as int, digits as int),
    decreases digits,
{
    if digits > 0 {
        push_hex(text, value / 16, digits - 1);
        let digit: u8 = (value % 16) as u8;
        text.push(
            if digit < 10 {
                (48 + digit) as char
            } else {
                (87 + digit) as char
            },
        );
    }
    assert(text@ =~= old(text)@ + hex(value as int, digits as int));
}

/// The first numbers of a list, with commas between them.
pub open spec fn numbers(values: Seq<usize>, count: int) -> Seq<char>
    decreases count,
{
    if count <= 0 {
        Seq::empty()
    } else if count == 1 {
        decimal(values[0] as nat)
    } else {
        numbers(values, count - 1) + ", "@ + decimal(values[count - 1] as nat)
    }
}

/// A list of numbers.
pub open spec fn number_list(values: Seq<usize>) -> Seq<char> {
    "["@ + numbers(values, values.len() as int) + "]"@
}

/// Appends a list of numbers.
pub fn push_number_list(text: &mut String, values: &Vec<usize>)
    ensures
        final(text)@ == old(text)@ + number_list(values@),
{
    let ghost before = text@;
    text.append("[");
    let mut i: usize = 0;
    assert(text@ =~= before + "["@ + numbers(values@, 0));
    while i < values.len()
        invariant
            i <= values@.len(),
            text@ == before + "["@ + numbers(values@, i as int),
        decreases values@.len() - i,
    {
        if i > 0 {
            text.append(", ");
        }
        push_decimal(text, values[i] as u64);
        i = i + 1;
        assert(text@ =~= before + "["@ + numbers(values@, i as int));
    }
    text.append("]");
    assert(text@ =~= before + number_list(values@));
}

} // verus!
