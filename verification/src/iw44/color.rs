//! Samples of wavelet planes as colours.

use super::{Iw44ReconstructionPlane, Iw44RgbImage};
use crate::bitonal::lemma_pixel_index;
use vstd::arithmetic::div_mod::lemma_fundamental_div_mod_converse;
use vstd::prelude::*;

verus! {

/// A number kept between two others.
pub open spec fn clamp(value: int, low: int, high: int) -> int {
    if value < low {
        low
    } else if value > high {
        high
    } else {
        value
    }
}

/// A sample brought to eight bits.
pub open spec fn normalized(sample: i16) -> int {
    clamp((sample + 32) / 64, -128, 127)
}

/// The shade of a sample of luminance alone.
pub open spec fn gray_of(sample: i16) -> u8 {
    clamp(127 - normalized(sample), 0, 255) as u8
}

/// Red, green and blue of a luminance and two chrominances.
pub open spec fn rgb_of(y: int, cb: int, cr: int) -> Seq<u8> {
    let t2 = cr + cr / 2;
    let t3 = y + 128 - cb / 4;
    seq![
        clamp(y + 128 + t2, 0, 255) as u8,
        clamp(t3 - t2 / 2, 0, 255) as u8,
        clamp(t3 + 2 * cb, 0, 255) as u8,
    ]
}

/// The pixels of a luminance plane, whose rows run from the bottom up, as grays.
pub open spec fn gray_pixels(samples: Seq<i16>, width: int, height: int) -> Seq<u8> {
    Seq::new(
        (3 * (width * height)) as nat,
        |i: int| gray_of(samples[(height - 1 - (i / 3) / width) * width + (i / 3) % width]),
    )
}

/// The smaller of two numbers.
pub open spec fn at_most(value: int, limit: int) -> int {
    if value <= limit {
        value
    } else {
        limit
    }
}

/// The chrominance sample that goes with a row and column of luminance.
pub open spec fn chroma_index(
    row: int,
    col: int,
    width: int,
    height: int,
    chroma_half: bool,
) -> int {
    at_most(if chroma_half { row / 2 } else { row }, height - 1) * width + at_most(
        if chroma_half { col / 2 } else { col },
        width - 1,
    )
}

/// Red, green and blue of a pixel of a colour image.
pub open spec fn color_pixel(
    y: Seq<i16>,
    width: int,
    cb: Seq<i16>,
    cr: Seq<i16>,
    chroma_width: int,
    chroma_height: int,
    chroma_half: bool,
    row: int,
    col: int,
) -> Seq<u8> {
    let chroma = chroma_index(row, col, chroma_width, chroma_height, chroma_half);
    rgb_of(
        normalized(y[row * width + col]),
        normalized(cb[chroma]),
        normalized(cr[chroma]),
    )
}

/// The pixels of a colour image, whose planes' rows run from the bottom up.
pub open spec fn color_pixels(
    y: Seq<i16>,
    width: int,
    height: int,
    cb: Seq<i16>,
    cr: Seq<i16>,
    chroma_width: int,
    chroma_height: int,
    chroma_half: bool,
) -> Seq<u8> {
    Seq::new(
        (3 * (width * height)) as nat,
        |i: int|
            color_pixel(
                y,
                width,
                cb,
                cr,
                chroma_width,
                chroma_height,
                chroma_half,
                height - 1 - (i / 3) / width,
                (i / 3) % width,
            )[i % 3],
    )
}

/// A sample brought to eight bits.
pub fn normalize_iw44_sample(value: i16) -> (sample: i32)
    ensures
        sample == normalized(value),
        -128 <= sample <= 127,
{
    let scaled: i32 = (value as i32 + 32 + 0x1_0000) / 64 - 0x400;
    if scaled < -128 {
        -128
    } else if scaled > 127 {
        127
    } else {
        scaled
    }
}

/// A number kept within eight bits.
pub fn clamp_u8(value: i32) -> (clamped: u8)
    ensures
        clamped == clamp(value as int, 0, 255),
{
    if value < 0 {
        0
    } else if value > 255 {
        255
    } else {
        value as u8
    }
}

/// A quotient rounded down.
fn floor_div(value: i32, divisor: i32) -> (quotient: i32)
    requires
        divisor == 2 || divisor == 4,
        -0x4000_0000 <= value <= 0x3fff_ffff,
    ensures
        quotient == value as int / divisor as int,
{
    if divisor == 2 {
        ((value as i64 + 0x8000_0000) / 2 - 0x4000_0000) as i32
    } else {
        ((value as i64 + 0x8000_0000) / 4 - 0x2000_0000) as i32
    }
}

/// Red, green and blue of a luminance and two chrominances.
pub fn ycbcr_pixel_to_rgb(y: i32, cb: i32, cr: i32) -> (rgb: [u8; 3])
    requires
        -0x0800_0000 <= y <= 0x0800_0000,
        -0x0800_0000 <= cb <= 0x0800_0000,
        -0x0800_0000 <= cr <= 0x0800_0000,
    ensures
        rgb@ == rgb_of(y as int, cb as int, cr as int),
{
    let t2: i32 = cr + floor_div(cr, 2);
    let t3: i32 = y + 128 - floor_div(cb, 4);
    let rgb: [u8; 3] = [
        clamp_u8(y + 128 + t2),
        clamp_u8(t3 - floor_div(t2, 2)),
        clamp_u8(t3 + 2 * cb),
    ];
    assert(rgb@ =~= rgb_of(y as int, cb as int, cr as int));
    rgb
}

/// The number of the pixel and of the component that follow those of whole rows and
/// pixels.
proof fn lemma_component(width: int, row: int, col: int, k: int)
    requires
        0 <= row,
        0 <= col < width,
        0 <= k < 3,
    ensures
        ({
            let i = 3 * (row * width + col) + k;
            &&& i / 3 == row * width + col
            &&& i % 3 == k
            &&& (i / 3) / width == row
            &&& (i / 3) % width == col
        }),
{
    lemma_fundamental_div_mod_converse(row * width + col, width, row, col);
}

/// A luminance plane as an image in grays.
pub fn grayscale_to_rgb(y: &Iw44ReconstructionPlane) -> (image: Iw44RgbImage)
    requires
        y.samples@.len() == y.width * y.height,
    ensures
        image.width == y.width,
        image.height == y.height,
        image.pixels@ == gray_pixels(y.samples@, y.width as int, y.height as int),
{
    let mut pixels: Vec<u8> = Vec::new();
    let ghost expected = gray_pixels(y.samples@, y.width as int, y.height as int);
    let mut row: usize = 0;
    assert(0 <= y.width * y.height) by (nonlinear_arith);
    assert(0 * y.width == 0) by (nonlinear_arith);
    while row < y.height
        invariant
            y.samples@.len() == y.width * y.height,
            expected == gray_pixels(y.samples@, y.width as int, y.height as int),
            row <= y.height,
            pixels@.len() == 3 * (row * y.width),
            row * y.width <= y.width * y.height,
            forall|i: int| 0 <= i < pixels@.len() ==> pixels@[i] == expected[i],
        decreases y.height - row,
    {
        let source_row: usize = y.height - 1 - row;
        let mut col: usize = 0;
        while col < y.width
            invariant
                y.samples@.len() == y.width * y.height,
                expected == gray_pixels(y.samples@, y.width as int, y.height as int),
                row < y.height,
                source_row == y.height - 1 - row,
                col <= y.width,
                pixels@.len() == 3 * (row * y.width + col),
                forall|i: int| 0 <= i < pixels@.len() ==> pixels@[i] == expected[i],
            decreases y.width - col,
        {
            proof {
                let w = y.width as int;
                lemma_pixel_index(w, y.height as int, col as int, source_row as int);
                lemma_pixel_index(w, y.height as int, col as int, row as int);
                lemma_component(w, row as int, col as int, 0);
                lemma_component(w, row as int, col as int, 1);
                lemma_component(w, row as int, col as int, 2);
                assert(y.samples@.len() == y.samples.len());
            }
            let value: u8 = clamp_u8(
                127 - normalize_iw44_sample(y.samples[source_row * y.width + col]),
            );
            pixels.push(value);
            pixels.push(value);
            pixels.push(value);
            col = col + 1;
        }
        proof {
            assert((row + 1) * y.width == row * y.width + y.width) by (nonlinear_arith);
            assert((row + 1) * y.width <= y.width * y.height) by (nonlinear_arith)
                requires
                    row + 1 <= y.height,
            ;
        }
        row = row + 1;
    }
    assert(y.height * y.width == y.width * y.height) by (nonlinear_arith);
    assert(pixels@ =~= expected);
    Iw44RgbImage { width: y.width, height: y.height, pixels }
}

/// A luminance plane and two chrominance planes as an image.
pub fn ycbcr_to_rgb(
    y: &Iw44ReconstructionPlane,
    cb: &Iw44ReconstructionPlane,
    cr: &Iw44ReconstructionPlane,
    chroma_half: bool,
) -> (image: Iw44RgbImage)
    requires
        y.samples@.len() == y.width * y.height,
        cb.samples@.len() == cb.width * cb.height,
        cr.samples@.len() == cb.width * cb.height,
        cb.width > 0,
        cb.height > 0,
    ensures
        image.width == y.width,
        image.height == y.height,
        image.pixels@ == color_pixels(
            y.samples@,
            y.width as int,
            y.height as int,
            cb.samples@,
            cr.samples@,
            cb.width as int,
            cb.height as int,
            chroma_half,
        ),
{
    let mut pixels: Vec<u8> = Vec::new();
    let ghost expected = color_pixels(
        y.samples@,
        y.width as int,
        y.height as int,
        cb.samples@,
        cr.samples@,
        cb.width as int,
        cb.height as int,
        chroma_half,
    );
    let mut row: usize = 0;
    assert(0 <= y.width * y.height) by (nonlinear_arith);
    assert(0 * y.width == 0) by (nonlinear_arith);
    while row < y.height
        invariant
            y.samples@.len() == y.width * y.height,
            cb.samples@.len() == cb.width * cb.height,
            cr.samples@.len() == cb.width * cb.height,
            cb.width > 0,
            cb.height > 0,
            expected == color_pixels(
                y.samples@,
                y.width as int,
                y.height as int,
                cb.samples@,
                cr.samples@,
                cb.width as int,
                cb.height as int,
                chroma_half,
            ),
            row <= y.height,
            pixels@.len() == 3 * (row * y.width),
            row * y.width <= y.width * y.height,
            forall|i: int| 0 <= i < pixels@.len() ==> pixels@[i] == expected[i],
        decreases y.height - row,
    {
        let source_row: usize = y.height - 1 - row;
        let mut col: usize = 0;
        while col < y.width
            invariant
                y.samples@.len() == y.width * y.height,
                cb.samples@.len() == cb.width * cb.height,
                cr.samples@.len() == cb.width * cb.height,
                cb.width > 0,
                cb.height > 0,
                expected == color_pixels(
                    y.samples@,
                    y.width as int,
                    y.height as int,
                    cb.samples@,
                    cr.samples@,
                    cb.width as int,
                    cb.height as int,
                    chroma_half,
                ),
                row < y.height,
                source_row == y.height - 1 - row,
                col <= y.width,
                pixels@.len() == 3 * (row * y.width + col),
                forall|i: int| 0 <= i < pixels@.len() ==> pixels@[i] == expected[i],
            decreases y.width - col,
        {
            let rgb: [u8; 3] = color_at(y, cb, cr, chroma_half, source_row, col);
            proof {
                let w = y.width as int;
                lemma_pixel_index(w, y.height as int, col as int, row as int);
                lemma_component(w, row as int, col as int, 0);
                lemma_component(w, row as int, col as int, 1);
                lemma_component(w, row as int, col as int, 2);
            }
            pixels.push(rgb[0]);
            pixels.push(rgb[1]);
            pixels.push(rgb[2]);
            col = col + 1;
        }
        proof {
            assert((row + 1) * y.width == row * y.width + y.width) by (nonlinear_arith);
            assert((row + 1) * y.width <= y.width * y.height) by (nonlinear_arith)
                requires
                    row + 1 <= y.height,
            ;
        }
        row = row + 1;
    }
    assert(y.height * y.width == y.width * y.height) by (nonlinear_arith);
    assert(pixels@ =~= expected);
    Iw44RgbImage { width: y.width, height: y.height, pixels }
}

/// Red, green and blue of a pixel of a colour image.
fn color_at(
    y: &Iw44ReconstructionPlane,
    cb: &Iw44ReconstructionPlane,
    cr: &Iw44ReconstructionPlane,
    chroma_half: bool,
    row: usize,
    col: usize,
) -> (rgb: [u8; 3])
    requires
        y.samples@.len() == y.width * y.height,
        cb.samples@.len() == cb.width * cb.height,
        cr.samples@.len() == cb.width * cb.height,
        cb.width > 0,
        cb.height > 0,
        row < y.height,
        col < y.width,
    ensures
        rgb@ == color_pixel(
            y.samples@,
            y.width as int,
            cb.samples@,
            cr.samples@,
            cb.width as int,
            cb.height as int,
            chroma_half,
            row as int,
            col as int,
        ),
{
    let half_row: usize = if chroma_half {
        row / 2
    } else {
        row
    };
    let half_col: usize = if chroma_half {
        col / 2
    } else {
        col
    };
    let chroma_row: usize = if half_row <= cb.height - 1 {
        half_row
    } else {
        cb.height - 1
    };
    let chroma_col: usize = if half_col <= cb.width - 1 {
        half_col
    } else {
        cb.width - 1
    };
    proof {
        lemma_pixel_index(y.width as int, y.height as int, col as int, row as int);
        lemma_pixel_index(cb.width as int, cb.height as int, chroma_col as int, chroma_row as int);
        assert(y.samples@.len() == y.samples.len());
        assert(cb.samples@.len() == cb.samples.len());
    }
    let chroma: usize = chroma_row * cb.width + chroma_col;
    ycbcr_pixel_to_rgb(
        normalize_iw44_sample(y.samples[row * y.width + col]),
        normalize_iw44_sample(cb.samples[chroma]),
        normalize_iw44_sample(cr.samples[chroma]),
    )
}

} // verus!
