//! How large pages, images and texts are in a file, and where they stand.

use super::image::{size_dictionary, ImageModel};
use super::outline::{reference, text_string};
use super::stream::{
    doublings, image_stream_bytes, nearest, points, points_text, run_length_bytes,
    signed_points_text, stream_bytes,
};
use super::text_layer::{encoded, literal_string, span_content, SpanModel};
use super::writer::{image_content, page_object};
use crate::text::{decimal_bytes, utf8};
use vstd::arithmetic::div_mod::lemma_fundamental_div_mod;
use vstd::arithmetic::power2::{
    lemma2_to64, lemma_pow2_adds, lemma_pow2_pos, lemma_pow2_strictly_increases, pow2,
};
use vstd::prelude::*;

verus! {

/// A rounded quotient is off by no more than half, and of two as near it is the even one.
pub proof fn lemma_nearest(value: nat, divisor: nat)
    requires
        divisor > 0,
    ensures
        -(divisor as int) <= 2 * (nearest(value, divisor) * divisor - value) <= divisor,
        2 * (nearest(value, divisor) * divisor - value) == divisor || 2 * (nearest(value, divisor)
            * divisor - value) == -divisor ==> nearest(value, divisor) % 2 == 0,
{
    lemma_fundamental_div_mod(value as int, divisor as int);
    let quotient = value / divisor;
    let rest = value % divisor;
    assert(value == divisor * quotient + rest);
    assert((quotient + 1) * divisor == divisor * quotient + divisor) by (nonlinear_arith);
    assert(quotient * divisor == divisor * quotient) by (nonlinear_arith);
}

proof fn lemma_doublings_many(value: nat, divisor: nat, from: nat)
    requires
        divisor > 0,
        value <= divisor * 0x20_0000_0000,
        from <= 64,
    ensures
        doublings(value, divisor, from) >= 15,
        doublings(value, divisor, from) >= from,
    decreases 64 - from,
{
    lemma2_to64();
    if from < 15 {
        lemma_pow2_strictly_increases(from, 15);
        assert(pow2(from) <= 0x4000) by {
            if from < 14 {
                lemma_pow2_strictly_increases(from, 14);
            }
        }
        let power = pow2(from);
        assert(value * power <= divisor * 0x20_0000_0000 * 0x4000) by (nonlinear_arith)
            requires
                value <= divisor * 0x20_0000_0000,
                power <= 0x4000,
                value >= 0,
                power >= 0,
                divisor > 0,
        ;
        lemma_doublings_far();
        assert(value * pow2(from) < divisor * pow2(52));
        lemma_doublings_many(value, divisor, from + 1);
    } else if from < 64 && value * pow2(from) < divisor * pow2(52) {
        lemma_doublings_many(value, divisor, from + 1);
    }
}

proof fn lemma_doublings_far()
    ensures
        pow2(52) == 0x10_0000_0000_0000,
{
    lemma2_to64();
    lemma_pow2_adds(32, 20);
}

proof fn lemma_twice_rounded(value: nat, divisor: nat, power: nat, first: nat, second: nat)
    requires
        divisor > 0,
        power >= 20000,
        -(divisor as int) <= 2 * (first * divisor - value * power) <= divisor,
        -(power as int) <= 2 * (second * power - first * 10000) <= power,
    ensures
        -3 * divisor <= 4 * (second * divisor - value * 10000) <= 3 * divisor,
{
    let off = second * divisor - value * 10000;
    // power * off == divisor * (second * power - first * 10000)
    //     + 10000 * (first * divisor - value * power)
    let a = second * power - first * 10000;
    let b = first * divisor - value * power;
    assert(power * off == divisor * a + 10000 * b) by (nonlinear_arith)
        requires
            off == second * divisor - value * 10000,
            a == second * power - first * 10000,
            b == first * divisor - value * power,
    ;
    assert(2 * (divisor * a) <= divisor * power && -(divisor * power) <= 2 * (divisor * a))
        by (nonlinear_arith)
        requires
            divisor > 0,
            -(power as int) <= 2 * a <= power,
    ;
    assert(divisor * power >= 20000 * divisor) by (nonlinear_arith)
        requires
            power >= 20000,
            divisor > 0,
    ;
    assert(4 * (power * off) <= 3 * (divisor * power));
    assert(-3 * (divisor * power) <= 4 * (power * off));
    assert(4 * off <= 3 * divisor) by (nonlinear_arith)
        requires
            4 * (power * off) <= 3 * (divisor * power),
            power >= 20000,
    ;
    assert(-3 * divisor <= 4 * off) by (nonlinear_arith)
        requires
            -3 * (divisor * power) <= 4 * (power * off),
            power >= 20000,
    ;
}

/// A length of so many pixels, of which so many are an inch, is told in points, of which 72
/// are an inch: the number of ten-thousandths of a point is off by no more than three
/// quarters. This is stated of lengths of no more than some billion inches.
pub proof fn lemma_length_in_points(pixels: nat, dpi: nat)
    requires
        dpi > 0,
        72 * pixels <= dpi * 0x20_0000_0000,
    ensures
        -3 * dpi <= 4 * (points(pixels, dpi) * dpi - 720000 * pixels) <= 3 * dpi,
{
    if pixels > 0 {
        let doubled = doublings(72 * pixels, dpi, 0);
        let power = pow2(doubled);
        lemma_doublings_many(72 * pixels, dpi, 0);
        lemma2_to64();
        assert(pow2(15) == 32768);
        if doubled > 15 {
            lemma_pow2_strictly_increases(15, doubled);
        }
        lemma_pow2_pos(doubled);
        let first = nearest(72 * pixels * power, dpi);
        lemma_nearest(72 * pixels * power, dpi);
        lemma_nearest(first * 10000, power);
        lemma_twice_rounded(72 * pixels, dpi, power, first, points(pixels, dpi));
    } else {
        assert(points(pixels, dpi) * dpi == 0) by (nonlinear_arith)
            requires
                points(pixels, dpi) == 0,
        ;
    }
}

/// Without a resolution a pixel is an inch; no pixels are no points.
pub proof fn lemma_length_without_resolution(pixels: nat, dpi: nat)
    ensures
        points(pixels, 0) == points(pixels, 1),
        points(0, dpi) == 0,
{
}

/// A length below zero is that above it, with a sign.
pub proof fn lemma_length_below_zero(pixels: nat, dpi: nat)
    requires
        pixels > 0,
    ensures
        signed_points_text(-(pixels as int), dpi) == seq![45u8] + signed_points_text(
            pixels as int,
            dpi,
        ),
        signed_points_text(pixels as int, dpi) == points_text(pixels, dpi),
{
}

proof fn lemma_joined_behind(
    head: Seq<u8>,
    a: Seq<u8>,
    b: Seq<u8>,
    c: Seq<u8>,
    d: Seq<u8>,
    e: Seq<u8>,
    f: Seq<u8>,
)
    ensures
        head + a + b + c + d + e + f == head + (a + b + c + d + e + f),
{
    assert(head + a + b + c + d + e + f =~= head + (a + b + c + d + e + f));
}

proof fn lemma_two_behind(head: Seq<u8>, a: Seq<u8>, b: Seq<u8>, c: Seq<u8>)
    ensures
        head + a + b + c == head + (a + b + c),
{
    assert(head + a + b + c =~= head + (a + b + c));
}

proof fn lemma_prefix_grows(prefix: Seq<u8>, bytes: Seq<u8>, more: Seq<u8>)
    requires
        prefix.is_prefix_of(bytes),
    ensures
        prefix.is_prefix_of(bytes + more),
{
    assert((bytes + more).take(prefix.len() as int) =~= bytes.take(prefix.len() as int));
}

proof fn lemma_page_box(page_count: int, text: bool, index: int, image: ImageModel)
    ensures
        (utf8("<< /Type /Page"@) + reference(" /Parent "@, 2) + utf8(" /MediaBox [0 0 "@)
            + points_text(image.width() as nat, image.dpi() as nat) + utf8(" "@) + points_text(
            image.height() as nat,
            image.dpi() as nat,
        )).is_prefix_of(page_object(page_count, text, index, image)),
{
    reveal(page_object);
    let boxed = utf8("<< /Type /Page"@) + reference(" /Parent "@, 2) + utf8(" /MediaBox [0 0 "@)
        + points_text(image.width() as nat, image.dpi() as nat) + utf8(" "@) + points_text(
        image.height() as nat,
        image.dpi() as nat,
    );
    assert(boxed.take(boxed.len() as int) =~= boxed);
    let resources = utf8("] /Resources << /XObject << /Im"@);
    let name = decimal_bytes((index + 1) as nat);
    let object = reference(" "@, 3 + 2 * page_count + index);
    let font = if text {
        reference(" /Font << /Ftxt "@, 3 + 3 * page_count) + utf8(" >>"@)
    } else {
        Seq::<u8>::empty()
    };
    let content = reference(" >> /Contents "@, 3 + page_count + index);
    lemma_prefix_grows(boxed, boxed, resources);
    lemma_prefix_grows(boxed, boxed + resources, name);
    lemma_prefix_grows(boxed, boxed + resources + name, object);
    lemma_prefix_grows(boxed, boxed + resources + name + object, utf8(" >>"@));
    lemma_prefix_grows(boxed, boxed + resources + name + object + utf8(" >>"@), font);
    lemma_prefix_grows(boxed, boxed + resources + name + object + utf8(" >>"@) + font, content);
    lemma_prefix_grows(
        boxed,
        boxed + resources + name + object + utf8(" >>"@) + font + content,
        utf8(" >>"@),
    );
}

/// The box of a page begins at its corner and is as wide and as high as the image, in
/// points; the image is stretched to the same width and height. White fills the same box
/// behind an image in black on white.
pub proof fn lemma_image_fills_page(page_count: int, text: bool, index: int, image: ImageModel)
    ensures
        ({
            let width = points_text(image.width() as nat, image.dpi() as nat);
            let height = points_text(image.height() as nat, image.dpi() as nat);
            let stretched = width + utf8(" 0 0 "@) + height + utf8(" 0 0 cm\n/Im"@) + decimal_bytes(
                (index + 1) as nat,
            ) + utf8(" Do\nQ\n"@);
            let opened = utf8("<< /Type /Page"@) + reference(" /Parent "@, 2) + utf8(
                " /MediaBox [0 0 "@,
            );
            &&& (opened + width + utf8(" "@) + height).is_prefix_of(
                page_object(page_count, text, index, image),
            )
            &&& !(image is BitonalMask) ==> image_content(index, image) == utf8("q\n"@) + stretched
            &&& image is BitonalMask ==> image_content(index, image) == utf8("q\n"@) + (utf8(
                "1 g\n0 0 "@,
            ) + width + utf8(" "@) + height + utf8(" re f\n0 g\n"@)) + stretched
        }),
{
    lemma_page_box(page_count, text, index, image);
    reveal(image_content);
    let width = points_text(image.width() as nat, image.dpi() as nat);
    let height = points_text(image.height() as nat, image.dpi() as nat);
    let behind = if image is BitonalMask {
        utf8("1 g\n0 0 "@) + width + utf8(" "@) + height + utf8(" re f\n0 g\n"@)
    } else {
        Seq::<u8>::empty()
    };
    lemma_joined_behind(
        utf8("q\n"@) + behind,
        width,
        utf8(" 0 0 "@),
        height,
        utf8(" 0 0 cm\n/Im"@),
        decimal_bytes((index + 1) as nat),
        utf8(" Do\nQ\n"@),
    );
    assert(utf8("q\n"@) + Seq::<u8>::empty() =~= utf8("q\n"@));
}

/// A piece of text is drawn as high as it stands on the page, at least one pixel, upright and
/// unslanted, with its left end and its foot at its place.
pub proof fn lemma_text_is_drawn_at_its_place(
    span: SpanModel,
    dpi: nat,
    characters: Seq<char>,
    height: int,
)
    requires
        height == span.height || span.height < 1 && height == 1,
        height >= 1,
    ensures
        ({
            let size = signed_points_text(height, dpi);
            let named = utf8("/Span << /ActualText "@) + text_string(span.text) + utf8(" >> BDC\n"@);
            let shown = literal_string(encoded(characters, span.text));
            let matrix = size + utf8(" 0 0 "@) + size + utf8(" "@) + signed_points_text(span.x, dpi)
                + utf8(" "@) + signed_points_text(span.y, dpi) + utf8(" Tm\n"@);
            span_content(span, dpi, characters) == named + matrix + shown + utf8(" Tj\nEMC\n"@)
        }),
{
    let size = signed_points_text(height, dpi);
    let named = utf8("/Span << /ActualText "@) + text_string(span.text) + utf8(" >> BDC\n"@);
    let left = signed_points_text(span.x, dpi);
    let foot = signed_points_text(span.y, dpi);
    lemma_joined_behind(named, size, utf8(" 0 0 "@), size, utf8(" "@), left, utf8(" "@));
    lemma_two_behind(
        named,
        size + utf8(" 0 0 "@) + size + utf8(" "@) + left + utf8(" "@),
        foot,
        utf8(" Tm\n"@),
    );
}

/// An image's dictionary tells first its width and then its height.
pub proof fn lemma_image_size_told(width: nat, height: nat)
    ensures
        (utf8("/Type /XObject /Subtype /Image /Width "@) + decimal_bytes(width)).is_prefix_of(
            size_dictionary(width, height),
        ),
        (utf8(" /Height "@) + decimal_bytes(height)).is_suffix_of(size_dictionary(width, height)),
{
    let told = size_dictionary(width, height);
    let end = utf8(" /Height "@) + decimal_bytes(height);
    assert(told.skip(told.len() - end.len()) =~= end);
}

/// An image is stored in the shortest of three ways, with the filter that undoes it: as it
/// is, by the lengths of its runs, or compressed.
pub proof fn lemma_shortest_stored(dictionary: Seq<u8>, bytes: Seq<u8>, flate: Seq<u8>)
    ensures
        ({
            let runs = run_length_bytes(bytes);
            let object = image_stream_bytes(dictionary, bytes, flate);
            ||| object == stream_bytes(dictionary, bytes) && bytes.len() <= runs.len()
                && bytes.len() <= flate.len()
            ||| object == stream_bytes(dictionary + utf8(" /Filter /RunLengthDecode"@), runs)
                && runs.len() < bytes.len() && runs.len() <= flate.len()
            ||| object == stream_bytes(dictionary + utf8(" /Filter /FlateDecode"@), flate)
                && flate.len() < bytes.len() && flate.len() < runs.len()
        }),
{
}

/// A stream follows its length.
pub proof fn lemma_stream_length_told(dictionary: Seq<u8>, stream: Seq<u8>)
    ensures
        (utf8("/Length "@) + decimal_bytes(stream.len()) + utf8(" >>\nstream\n"@) + stream + utf8(
            "\nendstream"@,
        )).is_suffix_of(stream_bytes(dictionary, stream)),
        (utf8("<< "@) + dictionary).is_prefix_of(stream_bytes(dictionary, stream)),
{
    let object = stream_bytes(dictionary, stream);
    let end = utf8("/Length "@) + decimal_bytes(stream.len()) + utf8(" >>\nstream\n"@) + stream
        + utf8("\nendstream"@);
    assert(object.skip(object.len() - end.len()) =~= end);
    assert(object.take((utf8("<< "@) + dictionary).len() as int) =~= utf8("<< "@) + dictionary);
}

} // verus!
