//! Streams of a PDF file: their coding, and lengths in points.

use crate::bitonal::byte_count;
use crate::pdf::ccitt::{group4_bytes, group4_encode};
use crate::text::{decimal_bytes, push_bytes, push_decimal_bytes, push_text, utf8};
use std::io::Write;
use vstd::arithmetic::div_mod::lemma_fundamental_div_mod;
use vstd::arithmetic::power2::{
    lemma2_to64, lemma2_to64_rest, lemma_pow2_pos, lemma_pow2_strictly_increases,
    lemma_pow2_unfold, pow2,
};
use vstd::prelude::*;

verus! {

/// How many bytes from a place on are equal to the one there, up to 128.
pub open spec fn repeat_len(bytes: Seq<u8>, start: int, len: int) -> int
    decreases 128 - len,
{
    if start + len < bytes.len() && len < 128 && bytes[start + len] == bytes[start] {
        repeat_len(bytes, start, len + 1)
    } else {
        len
    }
}

/// Where bytes that do not repeat end: before a repetition, or after 128.
pub open spec fn literal_end(bytes: Seq<u8>, start: int, at: int) -> int
    decreases bytes.len() - at,
{
    if at >= bytes.len() || repeat_len(bytes, at, 1) >= 2 || at - start == 128 {
        at
    } else {
        literal_end(bytes, start, at + 1)
    }
}

/// The run-length code of the bytes from a place on.
pub open spec fn run_length_from(bytes: Seq<u8>, at: int) -> Seq<u8>
    decreases bytes.len() - at,
{
    if at < 0 || at >= bytes.len() {
        seq![128u8]
    } else {
        let repeat = repeat_len(bytes, at, 1);
        let end = literal_end(bytes, at, at + 1);
        proof {
            lemma_repeat_len_range(bytes, at, 1);
            lemma_literal_end_range(bytes, at, at + 1);
        }
        if repeat >= 2 {
            seq![(257 - repeat) as u8, bytes[at]] + run_length_from(bytes, at + repeat)
        } else {
            seq![(end - at - 1) as u8] + bytes.subrange(at, end) + run_length_from(bytes, end)
        }
    }
}

/// The run-length code of bytes.
pub open spec fn run_length_bytes(bytes: Seq<u8>) -> Seq<u8> {
    run_length_from(bytes, 0)
}

/// What a run-length code stands for, from a place on; a code that is cut short ends.
pub open spec fn run_length_decoded(code: Seq<u8>, at: int) -> Seq<u8>
    decreases code.len() - at,
{
    if at < 0 || at >= code.len() || code[at] == 128 {
        Seq::empty()
    } else if code[at] < 128 {
        if at + 2 + code[at] > code.len() {
            Seq::empty()
        } else {
            code.subrange(at + 1, at + 2 + code[at]) + run_length_decoded(code, at + 2 + code[at])
        }
    } else if at + 1 >= code.len() {
        Seq::empty()
    } else {
        Seq::new((257 - code[at]) as nat, |i: int| code[at + 1]) + run_length_decoded(
            code,
            at + 2,
        )
    }
}

/// A repetition is in the bytes, and no longer than 128.
pub proof fn lemma_repeat_len_range(bytes: Seq<u8>, start: int, len: int)
    requires
        0 <= start < bytes.len(),
        1 <= len <= 128,
        start + len <= bytes.len(),
        forall|i: int| start <= i < start + len ==> bytes[i] == bytes[start],
    ensures
        len <= repeat_len(bytes, start, len) <= 128,
        start + repeat_len(bytes, start, len) <= bytes.len(),
        forall|i: int|
            start <= i < start + repeat_len(bytes, start, len) ==> bytes[i] == bytes[start],
    decreases 128 - len,
{
    if start + len < bytes.len() && len < 128 && bytes[start + len] == bytes[start] {
        lemma_repeat_len_range(bytes, start, len + 1);
    }
}

/// Bytes that do not repeat are no more than 128.
pub proof fn lemma_literal_end_range(bytes: Seq<u8>, start: int, at: int)
    requires
        0 <= start < at <= bytes.len(),
        at - start <= 128,
    ensures
        at <= literal_end(bytes, start, at) <= bytes.len(),
        literal_end(bytes, start, at) - start <= 128,
    decreases bytes.len() - at,
{
    if at < bytes.len() && repeat_len(bytes, at, 1) < 2 && at - start != 128 {
        lemma_literal_end_range(bytes, start, at + 1);
    }
}

proof fn lemma_decoded_behind(prefix: Seq<u8>, code: Seq<u8>, at: int)
    requires
        0 <= at,
    ensures
        run_length_decoded(prefix + code, prefix.len() + at) == run_length_decoded(code, at),
    decreases code.len() - at,
{
    let whole = prefix + code;
    let place = prefix.len() + at;
    if at < code.len() && code[at] != 128 {
        assert(whole[place] == code[at]);
        let next = at + 2 + code[at];
        if code[at] < 128 && next <= code.len() {
            lemma_decoded_behind(prefix, code, next);
            assert(whole.subrange(place + 1, prefix.len() + next) =~= code.subrange(
                at + 1,
                next,
            ));
        } else if code[at] > 128 && at + 1 < code.len() {
            lemma_decoded_behind(prefix, code, at + 2);
            assert(whole[place + 1] == code[at + 1]);
            assert(Seq::new((257 - code[at]) as nat, |i: int| whole[place + 1]) =~= Seq::new(
                (257 - code[at]) as nat,
                |i: int| code[at + 1],
            ));
        }
    }
}

proof fn lemma_run_length_from(bytes: Seq<u8>, at: int)
    requires
        0 <= at <= bytes.len(),
    ensures
        run_length_decoded(run_length_from(bytes, at), 0) == bytes.skip(at),
    decreases bytes.len() - at,
{
    let code = run_length_from(bytes, at);
    if at == bytes.len() {
        assert(run_length_decoded(code, 0) =~= bytes.skip(at));
    } else {
        let repeat = repeat_len(bytes, at, 1);
        let end = literal_end(bytes, at, at + 1);
        lemma_repeat_len_range(bytes, at, 1);
        lemma_literal_end_range(bytes, at, at + 1);
        if repeat >= 2 {
            let head = seq![(257 - repeat) as u8, bytes[at]];
            let rest = run_length_from(bytes, at + repeat);
            lemma_run_length_from(bytes, at + repeat);
            lemma_decoded_behind(head, rest, 0);
            assert(code =~= head + rest);
            assert(code[0] == (257 - repeat) as u8 && code[1] == bytes[at]);
            let run = Seq::new(repeat as nat, |i: int| bytes[at]);
            assert(Seq::new((257 - code[0]) as nat, |i: int| code[0int + 1]) =~= run);
            assert(run_length_decoded(code, 0) == run + run_length_decoded(code, 2));
            assert(run + bytes.skip(at + repeat) =~= bytes.skip(at));
        } else {
            let head = seq![(end - at - 1) as u8] + bytes.subrange(at, end);
            let rest = run_length_from(bytes, end);
            lemma_run_length_from(bytes, end);
            lemma_decoded_behind(head, rest, 0);
            assert(code =~= head + rest);
            assert(code[0] == (end - at - 1) as u8);
            assert(code.subrange(1, 2 + code[0]) =~= bytes.subrange(at, end));
            assert(run_length_decoded(code, 0) == bytes.subrange(at, end) + run_length_decoded(
                code,
                head.len() as int,
            ));
            assert(bytes.subrange(at, end) + bytes.skip(end) =~= bytes.skip(at));
        }
    }
}

/// A run-length code stands for the bytes that it was made of.
pub proof fn lemma_run_length_read_back(bytes: Seq<u8>)
    ensures
        run_length_decoded(run_length_bytes(bytes), 0) == bytes,
{
    lemma_run_length_from(bytes, 0);
    assert(bytes.skip(0) =~= bytes);
}

/// How many bytes from a place on are equal to the one there, up to 128.
fn repeated_run_len(bytes: &[u8], start: usize) -> (len: usize)
    requires
        start < bytes@.len(),
    ensures
        len == repeat_len(bytes@, start as int, 1),
        1 <= len <= 128,
        start + len <= bytes@.len(),
{
    let value: u8 = bytes[start];
    let mut len: usize = 1;
    assert(bytes@.len() == bytes.len());
    while start + len < bytes.len() && len < 128 && bytes[start + len] == value
        invariant
            1 <= len <= 128,
            start + len <= bytes@.len(),
            bytes@.len() <= usize::MAX,
            value == bytes@[start as int],
            repeat_len(bytes@, start as int, 1) == repeat_len(bytes@, start as int, len as int),
        decreases 128 - len,
    {
        len = len + 1;
    }
    len
}

/// Codes bytes by the lengths of their runs.
pub fn pdf_run_length_encode(bytes: &[u8]) -> (encoded: Vec<u8>)
    ensures
        encoded@ == run_length_bytes(bytes@),
{
    let mut encoded: Vec<u8> = Vec::new();
    let mut index: usize = 0;
    assert(encoded@ + run_length_from(bytes@, 0) =~= run_length_bytes(bytes@));
    while index < bytes.len()
        invariant
            index <= bytes@.len(),
            encoded@ + run_length_from(bytes@, index as int) == run_length_bytes(bytes@),
        decreases bytes@.len() - index,
    {
        let ghost before = encoded@;
        let ghost at = index as int;
        let repeat_len: usize = repeated_run_len(bytes, index);
        if repeat_len >= 2 {
            encoded.push((257 - repeat_len) as u8);
            encoded.push(bytes[index]);
            index = index + repeat_len;
            assert(encoded@ + run_length_from(bytes@, index as int) =~= before + (seq![
                (257 - repeat_len) as u8,
                bytes@[at],
            ] + run_length_from(bytes@, index as int)));
        } else {
            let literal_start: usize = index;
            index = index + 1;
            while index < bytes.len() && index - literal_start != 128 && repeated_run_len(
                bytes,
                index,
            ) < 2
                invariant
                    literal_start < index <= bytes@.len(),
                    index - literal_start <= 128,
                    literal_end(bytes@, literal_start as int, literal_start + 1) == literal_end(
                        bytes@,
                        literal_start as int,
                        index as int,
                    ),
                decreases bytes@.len() - index,
            {
                index = index + 1;
            }
            encoded.push((index - literal_start - 1) as u8);
            push_bytes(
                &mut encoded,
                vstd::slice::slice_subrange(bytes, literal_start, index),
            );
            assert(encoded@ + run_length_from(bytes@, index as int) =~= before + (seq![
                (index - at - 1) as u8,
            ] + bytes@.subrange(at, index as int) + run_length_from(bytes@, index as int)));
        }
    }
    encoded.push(128);
    assert(encoded@ =~= run_length_bytes(bytes@));
    encoded
}

/// Bytes as `flate2` compresses them in the zlib format at its default level.
pub uninterp spec fn zlib_bytes(bytes: Seq<u8>) -> Seq<u8>;

/// Compresses bytes by `flate2::write::ZlibEncoder` at the default level, into memory, where
/// writing does not fail. The result is named and not described.
#[verifier::external_body]
fn pdf_flate_encode(bytes: &[u8]) -> (encoded: Vec<u8>)
    ensures
        encoded@ == zlib_bytes(bytes@),
{
    let mut encoder = flate2::write::ZlibEncoder::new(Vec::new(), flate2::Compression::default());
    encoder.write_all(bytes).expect("memory takes what is written");
    encoder.finish().expect("memory takes what is written")
}

/// A stream object: a dictionary with the length of the stream, and the stream.
pub open spec fn stream_bytes(dictionary: Seq<u8>, stream: Seq<u8>) -> Seq<u8> {
    utf8("<< "@) + (if dictionary.len() > 0 {
        dictionary + utf8(" "@)
    } else {
        Seq::empty()
    }) + utf8("/Length "@) + decimal_bytes(stream.len()) + utf8(" >>\nstream\n"@) + stream + utf8(
        "\nendstream"@,
    )
}

/// The stream object of an image: as it is, as a run-length code or compressed, whichever
/// is shortest.
pub open spec fn image_stream_bytes(dictionary: Seq<u8>, bytes: Seq<u8>, flate: Seq<u8>) -> Seq<
    u8,
> {
    let runs = run_length_bytes(bytes);
    if flate.len() < bytes.len() && flate.len() < runs.len() {
        stream_bytes(dictionary + utf8(" /Filter /FlateDecode"@), flate)
    } else if runs.len() < bytes.len() {
        stream_bytes(dictionary + utf8(" /Filter /RunLengthDecode"@), runs)
    } else {
        stream_bytes(dictionary, bytes)
    }
}

/// The stream object of a bitonal image, in CCITT Group 4.
pub open spec fn bitonal_stream_bytes(
    dictionary: Seq<u8>,
    width: int,
    height: int,
    bytes: Seq<u8>,
) -> Seq<u8> {
    stream_bytes(
        dictionary + utf8(" /Filter /CCITTFaxDecode /DecodeParms << /K -1 /Columns "@)
            + decimal_bytes(width as nat) + utf8(" /Rows "@) + decimal_bytes(height as nat) + utf8(
            " /BlackIs1 true >>"@,
        ),
        group4_bytes(bytes, width, height),
    )
}

/// Writes a stream object.
pub fn stream_object(dictionary: &[u8], stream: &[u8]) -> (object: Vec<u8>)
    ensures
        object@ == stream_bytes(dictionary@, stream@),
{
    let mut object: Vec<u8> = Vec::new();
    push_text(&mut object, "<< ");
    if dictionary.len() > 0 {
        push_bytes(&mut object, dictionary);
        push_text(&mut object, " ");
    }
    push_text(&mut object, "/Length ");
    push_decimal_bytes(&mut object, stream.len() as u64);
    push_text(&mut object, " >>\nstream\n");
    push_bytes(&mut object, stream);
    push_text(&mut object, "\nendstream");
    assert(object@ =~= stream_bytes(dictionary@, stream@));
    object
}

/// Writes the stream object of an image, given what compression makes of it.
pub fn image_stream_with_flate(dictionary: &[u8], bytes: &[u8], flate: &[u8]) -> (object: Vec<u8>)
    ensures
        object@ == image_stream_bytes(dictionary@, bytes@, flate@),
{
    let runs: Vec<u8> = pdf_run_length_encode(bytes);
    let mut longer: Vec<u8> = Vec::new();
    push_bytes(&mut longer, dictionary);
    assert(longer@ =~= dictionary@);
    if flate.len() < bytes.len() && flate.len() < runs.len() {
        push_text(&mut longer, " /Filter /FlateDecode");
        stream_object(longer.as_slice(), flate)
    } else if runs.len() < bytes.len() {
        push_text(&mut longer, " /Filter /RunLengthDecode");
        stream_object(longer.as_slice(), runs.as_slice())
    } else {
        stream_object(dictionary, bytes)
    }
}

/// Writes the stream object of an image.
pub fn image_stream_object(dictionary: &[u8], bytes: &[u8]) -> (object: Vec<u8>)
    ensures
        object@ == image_stream_bytes(dictionary@, bytes@, zlib_bytes(bytes@)),
{
    let flate: Vec<u8> = pdf_flate_encode(bytes);
    image_stream_with_flate(dictionary, bytes, flate.as_slice())
}

/// Writes the stream object of a bitonal image.
pub fn ccitt_group4_image_stream_object(
    dictionary: &[u8],
    width: u32,
    height: u32,
    bytes: &[u8],
) -> (object: Vec<u8>)
    requires
        byte_count(width as nat) * height <= bytes@.len(),
        width < usize::MAX,
    ensures
        object@ == bitonal_stream_bytes(dictionary@, width as int, height as int, bytes@),
{
    let encoded: Vec<u8> = group4_encode(width, height, bytes);
    let mut longer: Vec<u8> = Vec::new();
    push_bytes(&mut longer, dictionary);
    push_text(&mut longer, " /Filter /CCITTFaxDecode /DecodeParms << /K -1 /Columns ");
    push_decimal_bytes(&mut longer, width as u64);
    push_text(&mut longer, " /Rows ");
    push_decimal_bytes(&mut longer, height as u64);
    push_text(&mut longer, " /BlackIs1 true >>");
    assert(Seq::<u8>::empty() + dictionary@ =~= dictionary@);
    stream_object(longer.as_slice(), encoded.as_slice())
}

/// A quotient rounded to the nearest number, and of two as near to the even one.
pub open spec fn nearest(value: nat, divisor: nat) -> nat {
    let quotient = value / divisor;
    let rest = value % divisor;
    if 2 * rest < divisor || (2 * rest == divisor && quotient % 2 == 0) {
        quotient
    } else {
        quotient + 1
    }
}

/// By how many doublings from the given one on a quotient comes to have 53 binary digits.
pub open spec fn doublings(value: nat, divisor: nat, from: nat) -> nat
    decreases 64 - from,
{
    if from >= 64 || value * pow2(from) >= divisor * pow2(52) {
        from
    } else {
        doublings(value, divisor, from + 1)
    }
}

/// A length in ten-thousandths of a point, of which there are 72 to the inch: the quotient
/// rounded first to 53 binary digits, and then to four decimal places.
pub open spec fn points(pixels: nat, dpi: nat) -> nat {
    let divisor = if dpi >= 1 {
        dpi
    } else {
        1
    };
    let doubled = doublings(72 * pixels, divisor, 0);
    if pixels == 0 {
        0
    } else {
        nearest(nearest(72 * pixels * pow2(doubled), divisor) * 10000, pow2(doubled))
    }
}

/// A number of ten-thousandths with four decimal places.
pub open spec fn four_places(value: nat) -> Seq<u8> {
    decimal_bytes(value / 10000) + seq![
        46u8,
        (48 + (value / 1000) % 10) as u8,
        (48 + (value / 100) % 10) as u8,
        (48 + (value / 10) % 10) as u8,
        (48 + value % 10) as u8,
    ]
}

/// A length in points.
pub open spec fn points_text(pixels: nat, dpi: nat) -> Seq<u8> {
    four_places(points(pixels, dpi))
}

/// A length in points, which may be negative.
pub open spec fn signed_points_text(pixels: int, dpi: nat) -> Seq<u8> {
    if pixels < 0 {
        seq![45u8] + points_text((-pixels) as nat, dpi)
    } else {
        points_text(pixels as nat, dpi)
    }
}

/// A quotient rounded to the nearest number, and of two as near to the even one.
fn nearest_quotient(value: u128, divisor: u128) -> (quotient: u128)
    requires
        0 < divisor <= 0x1_0000_0000_0000_0000,
    ensures
        quotient == nearest(value as nat, divisor as nat),
        quotient <= value + 1,
{
    let quotient: u128 = value / divisor;
    let rest: u128 = value % divisor;
    proof {
        lemma_fundamental_div_mod(value as int, divisor as int);
    }
    assert(quotient <= value) by (nonlinear_arith)
        requires
            quotient == value as int / divisor as int,
            divisor >= 1,
            value >= 0,
    ;
    if 2 * rest < divisor || (2 * rest == divisor && quotient % 2 == 0) {
        quotient
    } else {
        assert(quotient < value) by (nonlinear_arith)
            requires
                value as int == divisor as int * quotient as int + rest as int,
                rest >= 1,
                divisor >= 1,
                quotient >= 0,
        ;
        quotient + 1
    }
}

/// A length in ten-thousandths of a point.
fn ten_thousandths(pixels: u32, dpi: u16) -> (value: u64)
    ensures
        value == points(pixels as nat, dpi as nat),
{
    if pixels == 0 {
        return 0;
    }
    let divisor: u128 = if dpi >= 1 {
        dpi as u128
    } else {
        1
    };
    let start: u128 = 72 * pixels as u128;
    let target: u128 = divisor * 0x10_0000_0000_0000;
    let mut value: u128 = start;
    let mut power: u128 = 1;
    let mut doubled: u32 = 0;
    proof {
        lemma2_to64();
        lemma2_to64_rest();
    }
    while doubled < 64 && value < target
        invariant
            doubled <= 64,
            0 < start <= 0x100_0000_0000,
            1 <= divisor <= 0xffff,
            target == divisor * 0x10_0000_0000_0000,
            pow2(52) == 0x10_0000_0000_0000,
            pow2(64) == 0x1_0000_0000_0000_0000,
            power == pow2(doubled as nat),
            value == start * power,
            doublings(start as nat, divisor as nat, 0) == doublings(
                start as nat,
                divisor as nat,
                doubled as nat,
            ),
        decreases 64 - doubled,
    {
        proof {
            lemma_pow2_unfold((doubled + 1) as nat);
            lemma_pow2_strictly_increases(doubled as nat, 64);
            assert(start * (2 * power) == 2 * (start * power)) by (nonlinear_arith);
            assert(2 * (start * power) <= 2 * (0x100_0000_0000 * 0x1_0000_0000_0000_0000))
                by (nonlinear_arith)
                requires
                    0 <= start <= 0x100_0000_0000,
                    0 <= power <= 0x1_0000_0000_0000_0000,
            ;
        }
        value = 2 * value;
        power = 2 * power;
        doubled = doubled + 1;
    }
    proof {
        if doubled < 64 {
            lemma_pow2_strictly_increases(doubled as nat, 64);
        }
        lemma_pow2_pos(doubled as nat);
        assert(start * power <= 0x100_0000_0000 * 0x1_0000_0000_0000_0000) by (nonlinear_arith)
            requires
                0 <= start <= 0x100_0000_0000,
                0 <= power <= 0x1_0000_0000_0000_0000,
        ;
    }
    let digits: u128 = nearest_quotient(value, divisor);
    let rounded: u128 = nearest_quotient(digits * 10000, power);
    proof {
        let quotient = digits as int * 10000 / power as int;
        assert(quotient <= start * 10000 + 10000) by (nonlinear_arith)
            requires
                quotient == digits as int * 10000 / power as int,
                0 <= digits <= start * power + 1,
                1 <= power,
                0 <= start,
        ;
    }
    rounded as u64
}

/// Writes a number of ten-thousandths with four decimal places.
fn push_four_places(target: &mut Vec<u8>, value: u64)
    ensures
        final(target)@ == old(target)@ + four_places(value as nat),
{
    push_decimal_bytes(target, value / 10000);
    target.push(46);
    target.push((48 + (value / 1000) % 10) as u8);
    target.push((48 + (value / 100) % 10) as u8);
    target.push((48 + (value / 10) % 10) as u8);
    target.push((48 + value % 10) as u8);
    assert(target@ =~= old(target)@ + four_places(value as nat));
}

/// A length in points.
pub fn points_from_pixels(pixels: u32, dpi: u16) -> (text: Vec<u8>)
    ensures
        text@ == points_text(pixels as nat, dpi as nat),
{
    let mut text: Vec<u8> = Vec::new();
    push_four_places(&mut text, ten_thousandths(pixels, dpi));
    assert(text@ =~= points_text(pixels as nat, dpi as nat));
    text
}

/// A length in points, which may be negative.
pub fn points_from_signed_pixels(pixels: i32, dpi: u16) -> (text: Vec<u8>)
    ensures
        text@ == signed_points_text(pixels as int, dpi as nat),
{
    let mut text: Vec<u8> = Vec::new();
    if pixels < 0 {
        text.push(45);
        push_four_places(&mut text, ten_thousandths((-(pixels as i64)) as u32, dpi));
    } else {
        push_four_places(&mut text, ten_thousandths(pixels as u32, dpi));
    }
    assert(text@ =~= signed_points_text(pixels as int, dpi as nat));
    text
}

} // verus!
