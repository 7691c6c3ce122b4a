//! Layers, scaled to lie on a page.

use crate::bitonal::lemma_pixel_index;
use crate::iw44::color::clamp;
use crate::iw44::header::Iw44PageMapping;
use crate::iw44::Iw44RgbImage;
use vstd::prelude::*;

verus! {

/// An image by its values.
#[verifier::ext_equal]
pub struct Image {
    pub width: int,
    pub height: int,
    pub pixels: Seq<u8>,
}

/// An image by its values.
pub open spec fn image_of(image: Iw44RgbImage) -> Image {
    Image { width: image.width as int, height: image.height as int, pixels: image.pixels@ }
}

/// Whether a layer with the given mapping lies on a page of the given size.
pub open spec fn layer_matches(
    image: Image,
    mapping: Iw44PageMapping,
    page_width: int,
    page_height: int,
) -> bool {
    &&& mapping.page_width == page_width
    &&& mapping.page_height == page_height
    &&& mapping.layer_width == image.width
    &&& mapping.layer_height == image.height
    &&& mapping.subsample != 0
    &&& image.width > 0
    &&& image.height > 0
    &&& image.pixels.len() == 3 * (image.width * image.height)
}

/// A component of a pixel of an image; outside it, of the nearest pixel.
pub open spec fn native_channel(image: Image, x: int, y: int, channel: int) -> u8 {
    image.pixels[3 * (clamp(y, 0, image.height - 1) * image.width + clamp(x, 0, image.width - 1))
        + channel]
}

/// The pixel of a layer that covers a pixel of the page, along one axis.
pub open spec fn source_coordinate(
    page_coordinate: int,
    overscan: int,
    subsample: int,
    limit: int,
) -> int {
    clamp((page_coordinate + overscan) / subsample, 0, limit - 1)
}

/// The place in a layer, in sixteenths of a pixel, of the middle of a pixel of the page.
pub open spec fn scaler_coordinate(input_size: int, subsample: int, output: int) -> int {
    let numer = if subsample >= 1 {
        subsample
    } else {
        1
    };
    let coordinate = (16 + numer) / (2 * numer) - 8 + (numer / 2 + 16 * output) / numer;
    let limit = 16 * (input_size - 1);
    if coordinate <= limit {
        coordinate
    } else {
        limit
    }
}

/// The same for a row, counted from the top, where places count from the bottom.
pub open spec fn top_down_coordinate(
    input_size: int,
    mapping: Iw44PageMapping,
    row: int,
) -> int {
    let bottom_up = if mapping.page_height - 1 - row >= 0 {
        mapping.page_height - 1 - row
    } else {
        0
    };
    16 * (input_size - 1) - scaler_coordinate(input_size, mapping.subsample as int, bottom_up)
}

/// The value so many sixteenths of the way from one to another, rounded.
pub open spec fn interpolated(first: int, second: int, sixteenths: int) -> int {
    first + ((second - first) * sixteenths + 8) / 16
}

/// A component of the layer at a place between its pixels.
pub open spec fn scaled_channel(
    image: Image,
    mapping: Iw44PageMapping,
    x: int,
    y: int,
    channel: int,
) -> u8 {
    let across = scaler_coordinate(image.width, mapping.subsample as int, x);
    let down = top_down_coordinate(image.height, mapping, y);
    let left = across / 16;
    let top = down / 16;
    interpolated(
        interpolated(
            native_channel(image, left, top, channel) as int,
            native_channel(image, left, top + 1, channel) as int,
            down % 16,
        ),
        interpolated(
            native_channel(image, left + 1, top, channel) as int,
            native_channel(image, left + 1, top + 1, channel) as int,
            down % 16,
        ),
        across % 16,
    ) as u8
}

/// A component of a layer where it covers a pixel of the page: as it is, if the layer is
/// as fine as the page, and else interpolated.
pub open spec fn layer_channel(
    image: Image,
    mapping: Iw44PageMapping,
    x: int,
    y: int,
    channel: int,
) -> u8 {
    if mapping.subsample == 1 {
        native_channel(
            image,
            source_coordinate(
                x,
                mapping.horizontal_overscan as int,
                mapping.subsample as int,
                image.width,
            ),
            source_coordinate(
                y,
                mapping.vertical_overscan as int,
                mapping.subsample as int,
                image.height,
            ),
            channel,
        )
    } else {
        scaled_channel(image, mapping, x, y, channel)
    }
}

/// A component of a layer where it covers a pixel of the page, without interpolation.
pub open spec fn masked_channel(
    image: Image,
    mapping: Iw44PageMapping,
    x: int,
    y: int,
    channel: int,
) -> u8 {
    native_channel(
        image,
        source_coordinate(x, 0, mapping.subsample as int, image.width),
        source_coordinate(
            y,
            mapping.vertical_overscan as int,
            mapping.subsample as int,
            image.height,
        ),
        channel,
    )
}

/// Interpolation stays between the two values.
pub proof fn lemma_interpolated_between(first: int, second: int, sixteenths: int)
    requires
        0 <= sixteenths <= 15,
    ensures
        first <= second ==> first <= interpolated(first, second, sixteenths) <= second,
        second <= first ==> second <= interpolated(first, second, sixteenths) <= first,
{
    let delta = second - first;
    if delta >= 0 {
        assert(0 <= delta * sixteenths <= 15 * delta) by (nonlinear_arith)
            requires
                0 <= sixteenths <= 15,
                delta >= 0,
        ;
    } else {
        assert(15 * delta <= delta * sixteenths <= 0) by (nonlinear_arith)
            requires
                0 <= sixteenths <= 15,
                delta <= 0,
        ;
    }
}

/// A layer all in one shade paints that shade, however it is scaled.
pub proof fn lemma_uniform_layer(
    image: Image,
    mapping: Iw44PageMapping,
    shade: u8,
    channel: int,
    x: int,
    y: int,
)
    requires
        image.width > 0,
        image.height > 0,
        image.pixels.len() == 3 * (image.width * image.height),
        0 <= channel < 3,
        forall|i: int|
            0 <= i < image.pixels.len() && i % 3 == channel ==> #[trigger] image.pixels[i]
                == shade,
    ensures
        layer_channel(image, mapping, x, y, channel) == shade,
        masked_channel(image, mapping, x, y, channel) == shade,
{
    assert forall|u: int, v: int| #[trigger] native_channel(image, u, v, channel) == shade by {
        let a = clamp(u, 0, image.width - 1);
        let b = clamp(v, 0, image.height - 1);
        lemma_pixel_index(image.width, image.height, a, b);
        assert((3 * (b * image.width + a) + channel) % 3 == channel);
    }
    assert forall|s: int| interpolated(shade as int, shade as int, s) == shade by {
        assert((shade - shade) * s == 0) by (nonlinear_arith);
    }
}

/// Whether a layer with the given mapping lies on a page of the given size.
pub fn iw44_rgb_layer_matches_page(
    image: &Iw44RgbImage,
    mapping: &Iw44PageMapping,
    page_width: u32,
    page_height: u32,
) -> (matches: bool)
    ensures
        matches == layer_matches(
            image_of(*image),
            *mapping,
            page_width as int,
            page_height as int,
        ),
{
    if mapping.page_width != page_width || mapping.page_height != page_height
        || mapping.layer_width as usize != image.width || mapping.layer_height as usize
        != image.height || mapping.subsample == 0 || image.width == 0 || image.height == 0 {
        return false;
    }
    assert(image.pixels@.len() == image.pixels.len());
    assert(0 <= image.width * image.height) by (nonlinear_arith)
        requires
            0 <= image.width,
            0 <= image.height,
    ;
    match image.width.checked_mul(image.height) {
        None => false,
        Some(count) => match count.checked_mul(3) {
            None => false,
            Some(bytes) => image.pixels.len() == bytes,
        },
    }
}

/// The pixel of a layer that covers a pixel of the page, along one axis.
pub fn iw44_source_coordinate(
    page_coordinate: u32,
    overscan: u32,
    subsample: u32,
    limit: usize,
) -> (source: usize)
    requires
        subsample > 0,
        limit > 0,
    ensures
        source == source_coordinate(
            page_coordinate as int,
            overscan as int,
            subsample as int,
            limit as int,
        ),
        source < limit,
{
    let sum: u64 = page_coordinate as u64 + overscan as u64;
    let source: u64 = sum / subsample as u64;
    assert(0 <= source <= sum) by (nonlinear_arith)
        requires
            subsample > 0,
            source == sum as int / subsample as int,
            0 <= sum,
    ;
    let last: u64 = (limit - 1) as u64;
    if source <= last {
        source as usize
    } else {
        limit - 1
    }
}

/// The three components of a pixel of an image.
pub fn iw44_native_pixel(image: &Iw44RgbImage, x: usize, y: usize) -> (pixel: [u8; 3])
    requires
        x < image.width,
        y < image.height,
        image.pixels@.len() == 3 * (image.width * image.height),
    ensures
        forall|k: int|
            0 <= k < 3 ==> #[trigger] pixel[k] == native_channel(
                image_of(*image),
                x as int,
                y as int,
                k,
            ),
{
    proof {
        lemma_pixel_index(image.width as int, image.height as int, x as int, y as int);
        assert(image.pixels@.len() == image.pixels.len());
    }
    let offset: usize = (y * image.width + x) * 3;
    [image.pixels[offset], image.pixels[offset + 1], image.pixels[offset + 2]]
}

/// A component of a pixel of an image; outside it, of the nearest pixel.
fn iw44_native_channel_at(image: &Iw44RgbImage, x: i64, y: i64, channel: usize) -> (value: u8)
    requires
        image.width > 0,
        image.height > 0,
        channel < 3,
        image.pixels@.len() == 3 * (image.width * image.height),
    ensures
        value == native_channel(image_of(*image), x as int, y as int, channel as int),
{
    let x: usize = nearest(x, image.width);
    let y: usize = nearest(y, image.height);
    proof {
        lemma_pixel_index(image.width as int, image.height as int, x as int, y as int);
        assert(image.pixels@.len() == image.pixels.len());
    }
    image.pixels[(y * image.width + x) * 3 + channel]
}

/// The nearest index below a limit.
fn nearest(index: i64, limit: usize) -> (kept: usize)
    requires
        limit > 0,
    ensures
        kept == clamp(index as int, 0, limit - 1),
        kept < limit,
{
    if index < 0 {
        0
    } else if index as u64 > (limit - 1) as u64 {
        limit - 1
    } else {
        index as usize
    }
}

/// The place in a layer, in sixteenths of a pixel, of the middle of a pixel of the page.
fn iw44_scaler_coordinate(input_size: u32, subsample: u32, output_coordinate: u32) -> (place: i64)
    requires
        input_size > 0,
        subsample > 0,
    ensures
        place == scaler_coordinate(
            input_size as int,
            subsample as int,
            output_coordinate as int,
        ),
        -8 <= place <= 16 * (input_size - 1) || place == 16 * (input_size - 1),
        -0x10_0000_0000 <= place <= 0x10_0000_0000,
{
    let numer: i64 = subsample as i64;
    let middle: i64 = (16 + numer) / (2 * numer) - 8;
    let moved: i64 = (numer / 2 + output_coordinate as i64 * 16) / numer;
    proof {
        let n = numer as int;
        let top = 16 + n;
        let sum = n / 2 + 16 * output_coordinate;
        assert(0 <= top / (2 * n) <= 8) by (nonlinear_arith)
            requires
                n >= 1,
                top == 16 + n,
        ;
        assert(0 <= sum / n <= sum) by (nonlinear_arith)
            requires
                n >= 1,
                sum >= 0,
        ;
    }
    let coordinate: i64 = middle + moved;
    let limit: i64 = (input_size as i64 - 1) * 16;
    if coordinate <= limit {
        coordinate
    } else {
        limit
    }
}

/// The same for a row, counted from the top, where places count from the bottom.
fn iw44_top_down_scaler_coordinate(input_size: u32, mapping: &Iw44PageMapping, row: u32) -> (place:
    i64)
    requires
        input_size > 0,
        mapping.subsample > 0,
    ensures
        place == top_down_coordinate(input_size as int, *mapping, row as int),
        -0x20_0000_0000 <= place <= 0x20_0000_0000,
{
    let bottom_up: u32 = mapping.page_height.saturating_sub(1).saturating_sub(row);
    let from_bottom: i64 = iw44_scaler_coordinate(input_size, mapping.subsample, bottom_up);
    (input_size as i64 - 1) * 16 - from_bottom
}

/// Splits a place into the pixel before it and the sixteenths beyond that.
fn iw44_scaler_index_and_fraction(place: i64) -> (parts: (i64, i64))
    requires
        -0x20_0000_0000 <= place <= 0x20_0000_0000,
    ensures
        parts.0 == place as int / 16,
        parts.1 == place as int % 16,
        0 <= parts.1 <= 15,
        -0x20_0000_0000 <= parts.0 <= 0x20_0000_0000,
{
    if place >= 0 {
        (place / 16, place % 16)
    } else {
        let below: i64 = (-place - 1) / 16 + 1;
        (-below, place + 16 * below)
    }
}

/// The value so many sixteenths of the way from one to another, rounded.
fn iw44_interpolate_fixed(first: u8, second: u8, fraction: i64) -> (value: u8)
    requires
        0 <= fraction <= 15,
    ensures
        value == interpolated(first as int, second as int, fraction as int),
{
    let delta: i64 = second as i64 - first as i64;
    proof {
        lemma_interpolated_between(first as int, second as int, fraction as int);
        assert(-3825 <= delta * fraction <= 3825) by (nonlinear_arith)
            requires
                -255 <= delta <= 255,
                0 <= fraction <= 15,
        ;
    }
    // The shift keeps the sum of the two positive, so that division rounds down.
    let rounded: i64 = (delta * fraction + 8 + 4096) / 16 - 256;
    (first as i64 + rounded) as u8
}

/// The three components of a layer at a place between its pixels.
fn iw44_scaled_pixel(image: &Iw44RgbImage, mapping: &Iw44PageMapping, x: u32, y: u32) -> (pixel: [u8;
    3])
    requires
        layer_matches(
            image_of(*image),
            *mapping,
            mapping.page_width as int,
            mapping.page_height as int,
        ),
    ensures
        forall|k: int|
            0 <= k < 3 ==> #[trigger] pixel[k] == scaled_channel(
                image_of(*image),
                *mapping,
                x as int,
                y as int,
                k,
            ),
{
    let across: i64 = iw44_scaler_coordinate(mapping.layer_width, mapping.subsample, x);
    let down: i64 = iw44_top_down_scaler_coordinate(mapping.layer_height, mapping, y);
    let (left_x, x_fraction) = iw44_scaler_index_and_fraction(across);
    let (top_y, y_fraction) = iw44_scaler_index_and_fraction(down);
    let mut pixel: [u8; 3] = [0, 0, 0];
    let mut channel: usize = 0;
    while channel < 3
        invariant
            channel <= 3,
            image.width > 0,
            image.height > 0,
            image.pixels@.len() == 3 * (image.width * image.height),
            mapping.layer_width == image.width,
            mapping.layer_height == image.height,
            across == scaler_coordinate(image.width as int, mapping.subsample as int, x as int),
            down == top_down_coordinate(image.height as int, *mapping, y as int),
            left_x == across as int / 16,
            x_fraction == across as int % 16,
            top_y == down as int / 16,
            y_fraction == down as int % 16,
            -0x20_0000_0000 <= left_x <= 0x20_0000_0000,
            -0x20_0000_0000 <= top_y <= 0x20_0000_0000,
            forall|k: int|
                0 <= k < channel ==> #[trigger] pixel[k] == scaled_channel(
                    image_of(*image),
                    *mapping,
                    x as int,
                    y as int,
                    k,
                ),
        decreases 3 - channel,
    {
        let left: u8 = iw44_interpolate_fixed(
            iw44_native_channel_at(image, left_x, top_y, channel),
            iw44_native_channel_at(image, left_x, top_y + 1, channel),
            y_fraction,
        );
        let right: u8 = iw44_interpolate_fixed(
            iw44_native_channel_at(image, left_x + 1, top_y, channel),
            iw44_native_channel_at(image, left_x + 1, top_y + 1, channel),
            y_fraction,
        );
        pixel[channel] = iw44_interpolate_fixed(left, right, x_fraction);
        channel = channel + 1;
    }
    pixel
}

/// The three components of a layer where it covers a pixel of the page.
pub fn iw44_background_pixel(
    image: &Iw44RgbImage,
    mapping: &Iw44PageMapping,
    x: u32,
    y: u32,
) -> (pixel: [u8; 3])
    requires
        layer_matches(
            image_of(*image),
            *mapping,
            mapping.page_width as int,
            mapping.page_height as int,
        ),
    ensures
        forall|k: int|
            0 <= k < 3 ==> #[trigger] pixel[k] == layer_channel(
                image_of(*image),
                *mapping,
                x as int,
                y as int,
                k,
            ),
{
    if mapping.subsample == 1 {
        let source_y: usize = iw44_source_coordinate(
            y,
            mapping.vertical_overscan,
            mapping.subsample,
            image.height,
        );
        let source_x: usize = iw44_source_coordinate(
            x,
            mapping.horizontal_overscan,
            mapping.subsample,
            image.width,
        );
        return iw44_native_pixel(image, source_x, source_y);
    }
    iw44_scaled_pixel(image, mapping, x, y)
}

} // verus!
