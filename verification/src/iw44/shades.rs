//! What samples say of shades and colours, and where they show.

use super::blocks::cropped;
use super::color::{color_pixels, gray_of, gray_pixels, normalized, rgb_of};
use super::header::{
    ceil_div, chunk_header, lemma_ceil_div, lemma_mapping_covers_page, mapping_of,
    Iw44ImageHeader,
};
use crate::bitonal::lemma_pixel_index;
use vstd::arithmetic::div_mod::lemma_fundamental_div_mod_converse;
use vstd::prelude::*;

verus! {

/// A sample is a number of eight bits in sixty-fourths: it is rounded to the nearest, and one
/// beyond the range of eight bits to the end of it. The order of samples is kept.
pub proof fn lemma_sample_rounded(sample: i16, other: i16)
    ensures
        -128 <= normalized(sample) <= 127,
        -8192 <= sample <= 8159 ==> -32 <= 64 * normalized(sample) - sample <= 32,
        sample >= 8096 ==> normalized(sample) == 127,
        sample <= -8161 ==> normalized(sample) == -128,
        sample <= other ==> normalized(sample) <= normalized(other),
{
}

/// A larger sample of luminance alone is darker: the smallest is white and the largest black.
pub proof fn lemma_larger_is_darker(sample: i16, other: i16)
    ensures
        sample <= other ==> gray_of(sample) >= gray_of(other),
        sample <= -8161 ==> gray_of(sample) == 255,
        sample >= 8096 ==> gray_of(sample) == 0,
        -8192 <= sample <= 8159 ==> -32 <= 64 * (127 - gray_of(sample)) - sample <= 32,
{
}

/// Without chrominance a colour is gray, as bright as its luminance above -128.
pub proof fn lemma_gray_without_chrominance(y: int)
    requires
        -128 <= y <= 127,
    ensures
        rgb_of(y, 0, 0) == seq![(y + 128) as u8, (y + 128) as u8, (y + 128) as u8],
{
    assert(rgb_of(y, 0, 0) =~= seq![(y + 128) as u8, (y + 128) as u8, (y + 128) as u8]);
}

/// More luminance makes no component darker. The first chrominance makes blue brighter and green
/// darker and leaves red; the second makes red brighter and green darker and leaves blue.
pub proof fn lemma_chrominance_tints(y: int, cb: int, cr: int, more: int)
    requires
        more >= 0,
    ensures
        rgb_of(y, cb, cr).len() == 3,
        rgb_of(y + more, cb, cr)[0] >= rgb_of(y, cb, cr)[0],
        rgb_of(y + more, cb, cr)[1] >= rgb_of(y, cb, cr)[1],
        rgb_of(y + more, cb, cr)[2] >= rgb_of(y, cb, cr)[2],
        rgb_of(y, cb + more, cr)[0] == rgb_of(y, cb, cr)[0],
        rgb_of(y, cb + more, cr)[1] <= rgb_of(y, cb, cr)[1],
        rgb_of(y, cb + more, cr)[2] >= rgb_of(y, cb, cr)[2],
        rgb_of(y, cb, cr + more)[0] >= rgb_of(y, cb, cr)[0],
        rgb_of(y, cb, cr + more)[1] <= rgb_of(y, cb, cr)[1],
        rgb_of(y, cb, cr + more)[2] == rgb_of(y, cb, cr)[2],
{
}

/// How strong the tints are, where no component leaves its range: red goes by three halves of
/// the second chrominance, blue by seven quarters of the first, and green against a quarter of
/// the first and three quarters of the second.
pub proof fn lemma_strength_of_tints(y: int, cb: int, cr: int)
    ensures
        ({
            let rgb = rgb_of(y, cb, cr);
            &&& 0 < rgb[0] < 255 ==> 3 * cr - 1 <= 2 * (rgb[0] - y - 128) <= 3 * cr
            &&& 0 < rgb[1] < 255 ==> 0 <= 4 * (rgb[1] - y - 128) + cb + 3 * cr <= 6
            &&& 0 < rgb[2] < 255 ==> 0 <= 4 * (rgb[2] - y - 128) - 7 * cb <= 3
        }),
{
}

proof fn lemma_place(width: int, height: int, x: int, row: int, channel: int)
    requires
        0 <= x < width,
        0 <= row < height,
        0 <= channel < 3,
    ensures
        ({
            let i = 3 * (row * width + x) + channel;
            &&& 0 <= i < 3 * (width * height)
            &&& i % 3 == channel
            &&& (i / 3) / width == row
            &&& (i / 3) % width == x
        }),
{
    lemma_pixel_index(width, height, x, row);
    lemma_fundamental_div_mod_converse(row * width + x, width, row, x);
}

/// The rows of a plane run from the bottom up and those of an image from the top down: the
/// pixel in a row so far from the top shows the sample in the row as far from the end, in the
/// same column, and all three of its components are equal.
pub proof fn lemma_gray_image_upright(
    samples: Seq<i16>,
    width: int,
    height: int,
    x: int,
    row: int,
    channel: int,
)
    requires
        0 <= x < width,
        0 <= row < height,
        0 <= channel < 3,
    ensures
        gray_pixels(samples, width, height).len() == 3 * (width * height),
        gray_pixels(samples, width, height)[3 * (row * width + x) + channel] == gray_of(
            samples[(height - 1 - row) * width + x],
        ),
{
    lemma_place(width, height, x, row, channel);
}

/// The same of a colour image, whose chrominance planes have a sample for each pixel, or one for
/// each two by two pixels.
pub proof fn lemma_color_image_upright(
    y: Seq<i16>,
    width: int,
    height: int,
    cb: Seq<i16>,
    cr: Seq<i16>,
    chroma_half: bool,
    x: int,
    row: int,
    channel: int,
)
    requires
        0 <= x < width,
        0 <= row < height,
        0 <= channel < 3,
    ensures
        ({
            let chroma_width = if chroma_half {
                (width + 1) / 2
            } else {
                width
            };
            let chroma_height = if chroma_half {
                (height + 1) / 2
            } else {
                height
            };
            let pixels = color_pixels(
                y,
                width,
                height,
                cb,
                cr,
                chroma_width,
                chroma_height,
                chroma_half,
            );
            let up = height - 1 - row;
            let chroma = if chroma_half {
                (up / 2) * chroma_width + x / 2
            } else {
                up * width + x
            };
            &&& pixels.len() == 3 * (width * height)
            &&& pixels[3 * (row * width + x) + channel] == rgb_of(
                normalized(y[up * width + x]),
                normalized(cb[chroma]),
                normalized(cr[chroma]),
            )[channel]
        }),
{
    lemma_place(width, height, x, row, channel);
}

/// The first chunk of an image says what was written into it: the number of its slices, whether
/// the image is gray, its version, its width and its height with the high bytes first, and, from
/// minor version 2 on, the delay of the chrominance and whether that has its full size.
pub proof fn lemma_first_header_read_back(
    bytes: Seq<u8>,
    slices: u8,
    gray: bool,
    version: int,
    minor: u8,
    width: int,
    height: int,
    full: bool,
    delay: int,
)
    requires
        bytes.len() >= 9,
        bytes[0] == 0,
        bytes[1] == slices,
        0 <= version < 128,
        bytes[2] == version + (if gray { 128int } else { 0 }),
        bytes[3] == minor,
        1 <= width <= 0xffff,
        1 <= height <= 0xffff,
        bytes[4] == width / 256,
        bytes[5] == width % 256,
        bytes[6] == height / 256,
        bytes[7] == height % 256,
        0 <= delay < 128,
        bytes[8] == delay + (if full { 128int } else { 0 }),
        bytes.len() <= usize::MAX,
    ensures
        chunk_header(bytes) is Ok,
        ({
            let header = chunk_header(bytes)->Ok_0;
            let image = header.image->Some_0;
            &&& header.serial == 0
            &&& header.slices == slices
            &&& header.payload_start == 9
            &&& header.payload_start + header.payload_len == bytes.len()
            &&& header.image is Some
            &&& image.width == width
            &&& image.height == height
            &&& image.grayscale == gray
            &&& image.major_version == bytes[2]
            &&& image.minor_version == minor
            &&& image.delay == if minor >= 2 {
                delay
            } else {
                0
            }
            &&& image.chroma_half <==> !gray && minor >= 2 && !full
        }),
{
}

/// The factor by which a layer is scaled is the smallest that covers the page: with one less the
/// layer would be narrower or lower than the page.
pub proof fn lemma_mapping_is_smallest(image: Iw44ImageHeader, page_width: u32, page_height: u32)
    requires
        image.width > 0,
        image.height > 0,
        page_width > 0,
        page_height > 0,
    ensures
        ({
            let mapping = mapping_of(image, page_width, page_height);
            &&& mapping.page_width == page_width
            &&& mapping.page_height == page_height
            &&& mapping.layer_width == image.width
            &&& mapping.layer_height == image.height
            &&& mapping.subsample > 1 ==> image.width * (mapping.subsample - 1) < page_width
                || image.height * (mapping.subsample - 1) < page_height
            &&& image.width * mapping.subsample <= u32::MAX ==> mapping.scaled_width
                == image.width * mapping.subsample
            &&& image.height * mapping.subsample <= u32::MAX ==> mapping.scaled_height
                == image.height * mapping.subsample
        }),
{
    let (w, h) = (image.width as int, image.height as int);
    lemma_ceil_div(page_width as int, w);
    lemma_ceil_div(page_height as int, h);
    lemma_mapping_covers_page(image, page_width, page_height);
    let (across, down) = (ceil_div(page_width as int, w), ceil_div(page_height as int, h));
    assert((across - 1) * w == w * (across - 1)) by (nonlinear_arith);
    assert((down - 1) * h == h * (down - 1)) by (nonlinear_arith);
    assert(w * (across - 1) < page_width);
    assert(h * (down - 1) < page_height);
}

/// Of padded samples those of the image are kept: each stays in its row and its column.
pub proof fn lemma_padding_cut_off(
    padded: Seq<i16>,
    width: int,
    height: int,
    stride: int,
    row: int,
    col: int,
)
    requires
        0 <= row < height,
        0 <= col < width,
    ensures
        cropped(padded, width, height, stride).len() == width * height,
        0 <= row * width + col < width * height,
        cropped(padded, width, height, stride)[row * width + col] == padded[row * stride + col],
{
    lemma_pixel_index(width, height, col, row);
    lemma_fundamental_div_mod_converse(
        row * width + col,
        width,
        row,
        col,
    );
}

} // verus!
