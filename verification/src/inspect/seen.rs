//! What an inspection says of a pixel, beside what the image shows there.

use super::coefficients::{block_entries, bucket_band, entry_of, plane_coefficients};
use super::reconstruction::{aggregate_of, alternate_of, band_overrides};
use super::sample::{
    inspected_coordinate, luma_at, neighborhood_of, plane_sample, samples_rgb,
};
use crate::bitonal::lemma_pixel_index;
use crate::iw44::blocks::{blocks_along, lemma_zigzag_of_place, zigzag_index};
use crate::iw44::decoder::{image_pixels, DecoderModel};
use crate::iw44::header::Iw44PageMapping;
use crate::iw44::shades::{lemma_color_image_upright, lemma_gray_image_upright};
use crate::iw44::slice::{first_bucket, last_bucket, PlaneModel};
use crate::iw44::{Iw44Plane, Iw44ReconstructionExtent, Iw44ReconstructionOrder};
use vstd::arithmetic::div_mod::{lemma_fundamental_div_mod, lemma_fundamental_div_mod_converse};
use vstd::prelude::*;

verus! {

/// The band that is told of a bucket is that whose slices code the bucket.
pub proof fn lemma_band_told(bucket: int)
    requires
        0 <= bucket < 64,
    ensures
        0 <= bucket_band(bucket) <= 9,
        first_bucket(bucket_band(bucket)) <= bucket <= last_bucket(bucket_band(bucket)),
{
}

/// The pixel of a layer that is inspected covers the pixel of the page, where half of the
/// overscan, rounded down, lies before the page.
pub proof fn lemma_inspected_covers(page: int, overscan: int, subsample: int, extent: int)
    requires
        0 <= page,
        0 <= overscan,
        page + overscan / 2 <= u32::MAX,
        subsample >= 1,
        page + overscan / 2 < subsample * extent,
    ensures
        ({
            let source = inspected_coordinate(page, overscan, subsample, extent);
            &&& 0 <= source < extent
            &&& subsample * source <= page + overscan / 2 < subsample * source + subsample
        }),
{
    let sum = page + overscan / 2;
    lemma_fundamental_div_mod(sum, subsample);
    let q = sum / subsample;
    assert(0 <= q < extent) by (nonlinear_arith)
        requires
            sum < subsample * extent,
            subsample * q + sum % subsample == sum,
            0 <= sum % subsample < subsample,
            sum >= 0,
            subsample >= 1,
    ;
}

/// The colour that is told of a pixel of a gray image is that which the image shows there.
pub proof fn lemma_gray_told(model: DecoderModel, x: int, y: int, channel: int)
    requires
        model.image is Some,
        model.image->Some_0.grayscale,
        0 <= x < model.y.width,
        0 <= y < model.y.height,
        0 <= channel < 3,
    ensures
        image_pixels(model) is Ok,
        samples_rgb(plane_sample(model.y, Iw44Plane::Y, x, y, false), None, None)[channel]
            == image_pixels(model)->Ok_0[3 * (y * model.y.width + x) + channel],
{
    lemma_gray_image_upright(
        super::sample::visible_samples(model.y),
        model.y.width,
        model.y.height,
        x,
        y,
        channel,
    );
}

/// The same of an image in colour whose chrominance has its full size.
pub proof fn lemma_color_told(model: DecoderModel, x: int, y: int, channel: int)
    requires
        model.image is Some,
        !model.image->Some_0.grayscale,
        !model.image->Some_0.chroma_half,
        model.cb is Some,
        model.cr is Some,
        model.cb->Some_0.width == model.y.width,
        model.cb->Some_0.height == model.y.height,
        model.cr->Some_0.width == model.y.width,
        model.cr->Some_0.height == model.y.height,
        0 <= x < model.y.width,
        0 <= y < model.y.height,
        0 <= channel < 3,
    ensures
        image_pixels(model) is Ok,
        samples_rgb(
            plane_sample(model.y, Iw44Plane::Y, x, y, false),
            Some(plane_sample(model.cb->Some_0, Iw44Plane::Cb, x, y, false)),
            Some(plane_sample(model.cr->Some_0, Iw44Plane::Cr, x, y, false)),
        )[channel] == image_pixels(model)->Ok_0[3 * (y * model.y.width + x) + channel],
{
    lemma_color_image_upright(
        super::sample::visible_samples(model.y),
        model.y.width,
        model.y.height,
        super::sample::visible_samples(model.cb->Some_0),
        super::sample::visible_samples(model.cr->Some_0),
        false,
        x,
        y,
        channel,
    );
}

/// The value that is told of a coefficient in a place of a plane is that which its block holds
/// under the number that is told of it.
pub proof fn lemma_value_told(plane: PlaneModel, column: int, row: int, x: int, y: int)
    requires
        0 <= column,
        0 <= row,
        32 * column <= x < 32 * column + 32,
        32 * row <= y < 32 * row + 32,
        x < plane.width,
        y < plane.height,
        plane.width <= 0xffff,
        plane.height <= 0xffff,
    ensures
        ({
            let value = plane_coefficients(plane)[y * plane.width + x];
            let entry = entry_of(32 * column, 32 * row, x, y, value);
            let block = row * blocks_along(plane.width) + column;
            &&& entry.x == x && entry.y == y
            &&& entry.index < 1024
            &&& entry.value == plane.values[1024 * block + entry.index]
            &&& entry.index == 16 * entry.bucket + entry.bucket_offset
            &&& entry.bucket_offset < 16
            &&& entry.local_x == x - 32 * column && entry.local_y == y - 32 * row
        }),
{
    reveal(entry_of);
    lemma_pixel_index(plane.width, plane.height, x, y);
    lemma_fundamental_div_mod_converse(y * plane.width + x, plane.width, y, x);
    assert(x / 32 == column && y / 32 == row);
    assert(x % 32 == x - 32 * column && y % 32 == y - 32 * row);
    lemma_zigzag_of_place(x - 32 * column, y - 32 * row);
    let index = zigzag_index(x - 32 * column, y - 32 * row);
    assert(index == 16 * (index / 16) + index % 16);
}

/// Every coefficient of a block that is not 0 is listed, with its place, and no other is.
pub proof fn lemma_block_listed(
    plane: PlaneModel,
    block_x: int,
    block_y: int,
    width: int,
    count: int,
    at: int,
)
    requires
        width >= 1,
        0 <= at < count,
    ensures
        ({
            let entries = block_entries(plane, block_x, block_y, width, count);
            let (x, y) = (block_x + at % width, block_y + at / width);
            let value = plane_coefficients(plane)[y * plane.width + x];
            &&& value != 0 ==> entries.contains(entry_of(block_x, block_y, x, y, value))
            &&& forall|i: int| 0 <= i < entries.len() ==> (#[trigger] entries[i]).value != 0
        }),
    decreases count,
{
    let before = block_entries(plane, block_x, block_y, width, count - 1);
    let (x, y) = (block_x + (count - 1) % width, block_y + (count - 1) / width);
    let value = plane_coefficients(plane)[y * plane.width + x];
    let last = entry_of(block_x, block_y, x, y, value);
    let entries = block_entries(plane, block_x, block_y, width, count);
    lemma_none_zero(plane, block_x, block_y, width, count);
    if at == count - 1 {
        if value != 0 {
            assert(entries[before.len() as int] == last);
        }
    } else {
        lemma_block_listed(plane, block_x, block_y, width, count - 1, at);
        let (u, v) = (block_x + at % width, block_y + at / width);
        let other = plane_coefficients(plane)[v * plane.width + u];
        if other != 0 {
            let entry = entry_of(block_x, block_y, u, v, other);
            let i = choose|i: int| 0 <= i < before.len() && before[i] == entry;
            assert(entries[i] == entry);
        }
    }
}

proof fn lemma_none_zero(plane: PlaneModel, block_x: int, block_y: int, width: int, count: int)
    ensures
        forall|i: int|
            0 <= i < block_entries(plane, block_x, block_y, width, count).len() ==> (
            #[trigger] block_entries(plane, block_x, block_y, width, count)[i]).value != 0,
    decreases count,
{
    if count > 0 {
        reveal(entry_of);
        lemma_none_zero(plane, block_x, block_y, width, count - 1);
        let before = block_entries(plane, block_x, block_y, width, count - 1);
        let entries = block_entries(plane, block_x, block_y, width, count);
        assert forall|i: int| 0 <= i < entries.len() implies (#[trigger] entries[i]).value != 0 by {
            if i < before.len() {
                assert(entries[i] == before[i]);
            }
        }
    }
}

/// The samples round a pixel are those of all pixels of the page within the distance, above and
/// below and to both sides, row by row from the top; the pixel itself is among them.
pub proof fn lemma_neighborhood(
    model: DecoderModel,
    mapping: Iw44PageMapping,
    x: int,
    y: int,
    radius: int,
    right: int,
    down: int,
)
    requires
        0 <= radius,
        0 <= x < mapping.page_width,
        0 <= y < mapping.page_height,
        -radius <= right <= radius,
        -radius <= down <= radius,
        0 <= x + right < mapping.page_width,
        0 <= y + down < mapping.page_height,
    ensures
        ({
            let found = neighborhood_of(model, mapping, x, y, radius);
            let (row, column) = (y + down - found.page_min_y, x + right - found.page_min_x);
            &&& 0 <= row < found.samples.len()
            &&& 0 <= column < found.samples[row].len()
            &&& found.samples[row][column] == luma_at(model, mapping, x + right, y + down)
            &&& found.samples.len() <= 2 * radius + 1
            &&& found.samples[row].len() <= 2 * radius + 1
            &&& found.page_min_x <= x && found.page_min_y <= y
        }),
{
}

/// Where a band is left out, exactly the coefficients of the block that its slices code are set
/// to 0.
pub proof fn lemma_band_left_out(block: usize, band: int, count: int, coefficient: int)
    requires
        0 <= count <= 1024,
        0 <= coefficient < count,
        0 <= band <= 9,
    ensures
        ({
            let overrides = band_overrides(block, band, count);
            let bucket = coefficient / 16;
            overrides.contains((block, coefficient as usize, 0i16)) <==> first_bucket(band)
                <= bucket <= last_bucket(band)
        }),
    decreases count,
{
    let before = band_overrides(block, band, count - 1);
    let overrides = band_overrides(block, band, count);
    let wanted = (block, coefficient as usize, 0i16);
    let last = (block, (count - 1) as usize, 0i16);
    lemma_overrides_below(block, band, count - 1);
    assert(0 <= coefficient / 16 < 64);
    if coefficient < count - 1 {
        lemma_band_left_out(block, band, count - 1, coefficient);
        if before.contains(wanted) {
            let i = choose|i: int| 0 <= i < before.len() && before[i] == wanted;
            assert(overrides[i] == wanted);
        }
        if overrides.contains(wanted) {
            let i = choose|i: int| 0 <= i < overrides.len() && overrides[i] == wanted;
            assert(i < before.len() ==> before[i] == wanted);
        }
    } else {
        if bucket_band((count - 1) / 16) == band {
            assert(overrides[before.len() as int] == wanted);
        } else if overrides.contains(wanted) {
            let i = choose|i: int| 0 <= i < overrides.len() && overrides[i] == wanted;
            assert(before[i].1 < count - 1);
        }
    }
}

proof fn lemma_overrides_below(block: usize, band: int, count: int)
    requires
        count <= 1024,
    ensures
        forall|i: int|
            0 <= i < band_overrides(block, band, count).len() ==> (#[trigger] band_overrides(
                block,
                band,
                count,
            )[i]).1 < count,
    decreases count,
{
    if count > 0 {
        lemma_overrides_below(block, band, count - 1);
        let before = band_overrides(block, band, count - 1);
        let overrides = band_overrides(block, band, count);
        assert forall|i: int| 0 <= i < overrides.len() implies (#[trigger] overrides[i]).1
            < count by {
            if i < before.len() {
                assert(overrides[i] == before[i]);
            }
        }
    }
}

/// The effect of coefficients on a sample is by how much the sample exceeds what it is without
/// them; it is told of the sample itself and of the sample in eight bits. So it is with the
/// effect of another order or extent of the transform.
pub proof fn lemma_effect_is_the_difference(
    model: DecoderModel,
    which: Iw44Plane,
    overrides: Seq<(usize, usize, i16)>,
    count: usize,
    sample: super::sample::Iw44PlaneSample,
    label: Seq<char>,
    order: Iw44ReconstructionOrder,
    extent: Iw44ReconstructionExtent,
)
    requires
        -128 <= sample.normalized <= 127,
    ensures
        aggregate_of(model, which, overrides, count, sample, label) matches Ok(effect) ==> {
            &&& effect.original_raw == sample.raw
            &&& effect.zeroed_raw + effect.raw_delta == sample.raw
            &&& effect.original_normalized == sample.normalized
            &&& effect.zeroed_normalized + effect.normalized_delta == sample.normalized
            &&& -32 <= 64 * effect.zeroed_normalized - effect.zeroed_raw <= 32
                || effect.zeroed_normalized == -128 || effect.zeroed_normalized == 127
            &&& effect.coefficient_count == count
            &&& effect.sample_x == sample.x && effect.sample_y == sample.y
        },
        alternate_of(model, which, order, extent, sample) matches Ok(effect) ==> {
            &&& effect.original_raw == sample.raw
            &&& effect.alternate_raw + effect.raw_delta == sample.raw
            &&& effect.original_normalized == sample.normalized
            &&& effect.alternate_normalized + effect.normalized_delta == sample.normalized
        },
{
    reveal(aggregate_of);
}

} // verus!
