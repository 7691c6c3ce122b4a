//! Decimal numbers and literal text in strings and in byte buffers.

use vstd::prelude::*;

verus! {

/// The decimal digit of a number below ten.
pub open spec fn digit(d: nat) -> char {
    (48 + d) as char
}

/// A number in decimal digits.
pub open spec fn decimal(n: nat) -> Seq<char>
    decreases n,
{
    if n < 10 {
        seq![digit(n)]
    } else {
        decimal(n / 10).push(digit(n % 10))
    }
}

/// A text in UTF-8.
pub open spec fn utf8(text: Seq<char>) -> Seq<u8> {
    vstd::utf8::encode_utf8(text)
}

/// A number in decimal digits, as ASCII bytes.
pub open spec fn decimal_bytes(n: nat) -> Seq<u8>
    decreases n,
{
    if n < 10 {
        seq![(48 + n) as u8]
    } else {
        decimal_bytes(n / 10).push((48 + n % 10) as u8)
    }
}

pub(crate) proof fn lemma_decimal_digits(n: nat)
    ensures
        decimal(n).len() == decimal_bytes(n).len(),
        forall|i: int|
            0 <= i < decimal(n).len() ==> 48 <= #[trigger] decimal(n)[i] as int <= 57
                && decimal_bytes(n)[i] == decimal(n)[i] as u8,
    decreases n,
{
    if n >= 10 {
        lemma_decimal_digits(n / 10);
    }
}

/// The digits of a number as bytes are the digits as text, in UTF-8.
pub proof fn lemma_decimal_bytes(n: nat)
    ensures
        decimal_bytes(n) == utf8(decimal(n)),
        vstd::utf8::valid_utf8(decimal_bytes(n)),
{
    lemma_decimal_digits(n);
    let chars = decimal(n);
    assert(vstd::utf8::is_ascii_chars(chars)) by {
        assert forall|i: int| 0 <= i < chars.len() implies #[trigger] chars[i] as nat <= 127 by {
            assert(48 <= chars[i] as int <= 57);
        }
    }
    vstd::utf8::is_ascii_chars_encode_utf8(chars);
    assert(decimal_bytes(n) =~= utf8(chars));
    vstd::utf8::encode_utf8_valid_utf8(chars);
}

fn digit_text(d: u64) -> (text: &'static str)
    requires
        d < 10,
    ensures
        text@ == seq![digit(d as nat)],
{
    proof {
        reveal_strlit("0");
        reveal_strlit("1");
        reveal_strlit("2");
        reveal_strlit("3");
        reveal_strlit("4");
        reveal_strlit("5");
        reveal_strlit("6");
        reveal_strlit("7");
        reveal_strlit("8");
        reveal_strlit("9");
    }
    let text: &'static str = match d {
        0 => "0",
        1 => "1",
        2 => "2",
        3 => "3",
        4 => "4",
        5 => "5",
        6 => "6",
        7 => "7",
        8 => "8",
        _ => "9",
    };
    assert(text@ =~= seq![digit(d as nat)]);
    text
}

/// Appends a number in decimal digits.
pub fn push_decimal(text: &mut String, n: u64)
    ensures
        final(text)@ == old(text)@ + decimal(n as nat),
    decreases n,
{
    if n >= 10 {
        push_decimal(text, n / 10);
    }
    text.append(digit_text(n % 10));
    assert(text@ =~= old(text)@ + decimal(n as nat));
}

/// A string that starts as a literal.
pub fn text_of(literal: &str) -> (text: String)
    ensures
        text@ == literal@,
{
    literal.to_owned()
}

/// Appends a number in decimal digits.
pub fn push_decimal_bytes(bytes: &mut Vec<u8>, n: u64)
    ensures
        final(bytes)@ == old(bytes)@ + decimal_bytes(n as nat),
    decreases n,
{
    if n >= 10 {
        push_decimal_bytes(bytes, n / 10);
    }
    bytes.push(48 + (n % 10) as u8);
    assert(bytes@ =~= old(bytes)@ + decimal_bytes(n as nat));
}

/// Appends the bytes of a string.
pub fn push_text(bytes: &mut Vec<u8>, text: &str)
    ensures
        final(bytes)@ == old(bytes)@ + utf8(text@),
{
    push_bytes(bytes, text.as_bytes());
}

/// Appends the bytes of a slice.
pub fn push_bytes(bytes: &mut Vec<u8>, tail: &[u8])
    ensures
        final(bytes)@ == old(bytes)@ + tail@,
{
    bytes.extend_from_slice(tail);
    assert(bytes@ =~= old(bytes)@ + tail@);
}

/// Specifies `std::string::String::push`: the character becomes the last of the string.
pub assume_specification[ String::push ](text: &mut String, character: char)
    ensures
        final(text)@ == old(text)@.push(character),
;

/// What `std` says of bytes that are not UTF-8: where the first wrong byte is, and how
/// many are wrong.
pub uninterp spec fn utf8_error_text(bytes: Seq<u8>) -> Seq<char>;

/// Calls `std::str::from_utf8`: bytes that are valid UTF-8 are handed back as text, and of
/// others the error is turned into its text, which is named and not described.
#[verifier::external_body]
pub(crate) fn text_from_utf8(bytes: &[u8]) -> (text: Result<&str, String>)
    ensures
        text is Ok <==> vstd::utf8::valid_utf8(bytes@),
        text is Ok ==> utf8(text->Ok_0@) == bytes@ && text->Ok_0@ == vstd::utf8::decode_utf8(
            bytes@,
        ),
        text is Err ==> text->Err_0@ == utf8_error_text(bytes@),
{
    match std::str::from_utf8(bytes) {
        Ok(text) => Ok(text),
        Err(error) => Err(error.to_string()),
    }
}

/// The characters of a text.
pub fn chars_of(text: &str) -> (characters: Vec<char>)
    ensures
        characters@ == text@,
{
    broadcast use vstd::string::axiom_spec_iter;

    let mut characters: Vec<char> = Vec::new();
    for character in it: text.chars()
        invariant
            it.seq() == text@,
            characters@ == it.seq().take(it.index() as int),
    {
        characters.push(character);
        assert(characters@ =~= it.seq().take(it.index() + 1));
    }
    assert(characters@ =~= text@);
    characters
}

/// Whether two texts are the same.
pub fn same_text(left: &str, right: &str) -> (same: bool)
    ensures
        same == (left@ == right@),
{
    let left_bytes: &[u8] = left.as_bytes();
    let right_bytes: &[u8] = right.as_bytes();
    proof {
        vstd::utf8::encode_utf8_decode_utf8(left@);
        vstd::utf8::encode_utf8_decode_utf8(right@);
    }
    same_bytes(left_bytes, right_bytes)
}

/// Whether two byte strings are the same.
pub fn same_bytes(left: &[u8], right: &[u8]) -> (same: bool)
    ensures
        same == (left@ == right@),
{
    if left.len() != right.len() {
        return false;
    }
    let mut i: usize = 0;
    while i < left.len()
        invariant
            i <= left@.len(),
            left@.len() == right@.len(),
            forall|k: int| 0 <= k < i ==> left@[k] == right@[k],
        decreases left@.len() - i,
    {
        if left[i] != right[i] {
            return false;
        }
        i = i + 1;
    }
    assert(left@ =~= right@);
    true
}

/// A text as `std` quotes it: in double quotes, with escapes.
pub uninterp spec fn debug_text(text: Seq<char>) -> Seq<char>;

/// Formats a text by `std`'s `Debug`: the result is named and not described.
#[verifier::external_body]
pub(crate) fn quoted(text: &str) -> (quoted: String)
    ensures
        quoted@ == debug_text(text@),
{
    format!("{text:?}")
}

} // verus!
