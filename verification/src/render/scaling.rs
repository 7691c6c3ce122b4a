//! What scaling keeps of a layer: its corners, its edges and the order of its shades.

use super::layer::{
    interpolated, layer_channel, layer_matches, lemma_interpolated_between, masked_channel,
    native_channel, scaled_channel, scaler_coordinate, source_coordinate, top_down_coordinate,
    Image,
};
use crate::iw44::color::clamp;
use crate::iw44::header::Iw44PageMapping;
use vstd::arithmetic::div_mod::{
    lemma_div_is_ordered, lemma_fundamental_div_mod, lemma_fundamental_div_mod_converse,
};
use vstd::prelude::*;

verus! {

/// A component of the pixel in a column and a row of an image, both counted from the upper
/// left corner.
pub open spec fn pixel_of(image: Image, column: int, row: int, channel: int) -> u8 {
    image.pixels[3 * (row * image.width + column) + channel]
}

/// A layer that covers a page exactly: nothing of it lies off the page.
pub open spec fn covers_exactly(image: Image, mapping: Iw44PageMapping) -> bool {
    &&& layer_matches(image, mapping, mapping.page_width as int, mapping.page_height as int)
    &&& mapping.page_width == mapping.subsample * image.width
    &&& mapping.page_height == mapping.subsample * image.height
    &&& mapping.horizontal_overscan == 0
    &&& mapping.vertical_overscan == 0
}

/// The place of the middle of a page's pixel in the layer, in sixteenths of a layer's pixel
/// from the middle of the layer's first one, is off by no more than one sixteenth: the middle
/// of page pixel `output` lies `(2 * output + 1) / (2 * subsample)` layer pixels from the edge.
/// Behind the middle of the last pixel of the layer there are no places.
pub proof fn lemma_scaler_is_near(input_size: int, subsample: int, output: int)
    requires
        subsample >= 1,
        input_size >= 1,
        output >= 0,
    ensures
        ({
            let place = scaler_coordinate(input_size, subsample, output);
            let exact = 16 * output + 8 - 8 * subsample;
            &&& place <= 16 * (input_size - 1)
            &&& subsample * place <= exact + subsample
            &&& place < 16 * (input_size - 1) ==> exact - subsample <= subsample * place
        }),
{
    lemma_scaler_bounds(subsample, output);
    let free = (16 + subsample) / (2 * subsample) - 8 + (subsample / 2 + 16 * output) / subsample;
    let limit = 16 * (input_size - 1);
    if free > limit {
        assert(subsample * limit <= subsample * free) by (nonlinear_arith)
            requires
                limit <= free,
                subsample >= 1,
        ;
    }
}

proof fn lemma_scaler_bounds(n: int, output: int)
    requires
        n >= 1,
    ensures
        ({
            let free = (16 + n) / (2 * n) - 8 + (n / 2 + 16 * output) / n;
            16 * output + 8 - 8 * n - n <= n * free <= 16 * output + 8 - 8 * n + n
        }),
{
    let a = (16 + n) / (2 * n);
    let b = (n / 2 + 16 * output) / n;
    lemma_fundamental_div_mod(16 + n, 2 * n);
    lemma_fundamental_div_mod(n / 2 + 16 * output, n);
    assert((2 * n) * a == 2 * (n * a)) by (nonlinear_arith);
    let free = a - 8 + b;
    assert(n * free == n * a - 8 * n + n * b) by (nonlinear_arith)
        requires
            free == a - 8 + b,
    ;
}

/// Scaling keeps the order of columns, and steps by one pixel of the layer wherever the page
/// steps by as many as the layer is coarser.
pub proof fn lemma_columns_in_order(input_size: int, subsample: int, first: int, second: int)
    requires
        subsample >= 1,
        input_size >= 1,
        0 <= first <= second,
    ensures
        scaler_coordinate(input_size, subsample, first) <= scaler_coordinate(
            input_size,
            subsample,
            second,
        ),
        second == first + subsample && scaler_coordinate(input_size, subsample, second) < 16 * (
        input_size - 1) ==> scaler_coordinate(input_size, subsample, second)
            == scaler_coordinate(input_size, subsample, first) + 16,
{
    lemma_div_is_ordered(subsample / 2 + 16 * first, subsample / 2 + 16 * second, subsample);
    if second == first + subsample {
        let x = subsample / 2 + 16 * first;
        lemma_fundamental_div_mod(x, subsample);
        assert(subsample * (x / subsample + 16) == subsample * (x / subsample) + 16 * subsample)
            by (nonlinear_arith);
        lemma_fundamental_div_mod_converse(
            x + 16 * subsample,
            subsample,
            x / subsample + 16,
            x % subsample,
        );
    }
}

/// Scaling keeps the order of rows: of two rows of a page, the upper one is placed at or above
/// the lower one.
pub proof fn lemma_rows_in_order(
    input_size: int,
    mapping: Iw44PageMapping,
    first: int,
    second: int,
)
    requires
        mapping.subsample >= 1,
        input_size >= 1,
        0 <= first <= second < mapping.page_height,
    ensures
        0 <= top_down_coordinate(input_size, mapping, first),
        top_down_coordinate(input_size, mapping, first) <= top_down_coordinate(
            input_size,
            mapping,
            second,
        ),
{
    lemma_columns_in_order(
        input_size,
        mapping.subsample as int,
        mapping.page_height - 1 - second,
        mapping.page_height - 1 - first,
    );
}

/// The first page pixel along an axis is placed at or before the first pixel of the layer, and
/// the last at the last one.
pub proof fn lemma_ends(input_size: int, subsample: int)
    requires
        subsample >= 1,
        input_size >= 1,
    ensures
        -8 <= scaler_coordinate(input_size, subsample, 0) <= 0,
        subsample == 1 ==> scaler_coordinate(input_size, subsample, 0) == 0,
        scaler_coordinate(input_size, subsample, subsample * input_size - 1) == 16 * (input_size
            - 1),
        subsample * input_size >= 1,
{
    let n = subsample;
    let output = n * input_size - 1;
    assert(n * input_size >= n) by (nonlinear_arith)
        requires
            n >= 1,
            input_size >= 1,
    ;
    lemma_scaler_bounds(n, 0);
    lemma_scaler_bounds(n, output);
    let a = (16 + n) / (2 * n);
    assert((n / 2) / n == 0) by {
        lemma_fundamental_div_mod_converse(n / 2, n, 0, n / 2);
    }
    if n == 1 {
        assert(16 * output == n * (16 * output)) by (nonlinear_arith)
            requires
                n == 1,
        ;
        lemma_fundamental_div_mod_converse(16 * output, 1, 16 * output, 0);
        assert(a == 8);
    } else {
        lemma_fundamental_div_mod(16 + n, 2 * n);
        assert(0 <= a <= 8) by (nonlinear_arith)
            requires
                (2 * n) * a + (16 + n) % (2 * n) == 16 + n,
                0 <= (16 + n) % (2 * n) < 2 * n,
                n >= 2,
        ;
        let free = a - 8 + (n / 2 + 16 * output) / n;
        assert(n * input_size == n * (input_size - 1) + n) by (nonlinear_arith);
        let limit = 16 * (input_size - 1);
        assert(n * limit == 16 * (n * (input_size - 1))) by (nonlinear_arith)
            requires
                limit == 16 * (input_size - 1),
        ;
        assert(free >= limit) by (nonlinear_arith)
            requires
                n * free >= n * limit,
                n >= 2,
        ;
    }
}

/// The top row of a page falls on the top row of a layer that covers the page exactly, and the
/// bottom row on the bottom row.
pub proof fn lemma_edge_rows(image: Image, mapping: Iw44PageMapping)
    requires
        covers_exactly(image, mapping),
    ensures
        top_down_coordinate(image.height, mapping, 0) == 0,
        top_down_coordinate(image.height, mapping, mapping.page_height - 1) / 16 == image.height
            - 1,
{
    lemma_ends(image.height, mapping.subsample as int);
}

/// The corners of a page show the corners of a layer that covers it exactly, the upper left one
/// the upper left one and so on; both where the layer is interpolated and where it is not.
pub proof fn lemma_corners(image: Image, mapping: Iw44PageMapping, channel: int)
    requires
        covers_exactly(image, mapping),
        0 <= channel < 3,
    ensures
        ({
            let (right, bottom) = (mapping.page_width - 1, mapping.page_height - 1);
            let (last_column, last_row) = (image.width - 1, image.height - 1);
            &&& layer_channel(image, mapping, 0, 0, channel) == pixel_of(image, 0, 0, channel)
            &&& layer_channel(image, mapping, right, 0, channel) == pixel_of(
                image,
                last_column,
                0,
                channel,
            )
            &&& layer_channel(image, mapping, 0, bottom, channel) == pixel_of(
                image,
                0,
                last_row,
                channel,
            )
            &&& layer_channel(image, mapping, right, bottom, channel) == pixel_of(
                image,
                last_column,
                last_row,
                channel,
            )
            &&& masked_channel(image, mapping, 0, 0, channel) == pixel_of(image, 0, 0, channel)
            &&& masked_channel(image, mapping, right, 0, channel) == pixel_of(
                image,
                last_column,
                0,
                channel,
            )
            &&& masked_channel(image, mapping, 0, bottom, channel) == pixel_of(
                image,
                0,
                last_row,
                channel,
            )
            &&& masked_channel(image, mapping, right, bottom, channel) == pixel_of(
                image,
                last_column,
                last_row,
                channel,
            )
        }),
{
    let n = mapping.subsample as int;
    lemma_ends(image.width, n);
    lemma_ends(image.height, n);
    lemma_last_source(n, image.width);
    lemma_last_source(n, image.height);
    lemma_fundamental_div_mod_converse(0, n, 0, 0);
    assert forall|value: int, other: int| #[trigger] interpolated(value, other, 0) == value by {
        assert((other - value) * 0 == 0) by (nonlinear_arith);
    }
    assert forall|value: int, part: int| #[trigger] interpolated(value, value, part) == value by {
        assert((value - value) * part == 0) by (nonlinear_arith);
    }
}

proof fn lemma_last_source(subsample: int, size: int)
    requires
        subsample >= 1,
        size >= 1,
    ensures
        (subsample * size - 1) / subsample == size - 1,
{
    assert((size - 1) * subsample == subsample * size - subsample) by (nonlinear_arith);
    lemma_fundamental_div_mod_converse(
        subsample * size - 1,
        subsample,
        size - 1,
        subsample - 1,
    );
}

/// A pixel of a page that is painted without interpolation is painted from the pixel of the
/// layer that covers it: that which takes as many page pixels as the layer is coarser, the
/// first of them at the overscan.
pub proof fn lemma_source_covers(page_coordinate: int, overscan: int, subsample: int, limit: int)
    requires
        subsample >= 1,
        0 <= page_coordinate,
        0 <= overscan,
        page_coordinate + overscan < subsample * limit,
    ensures
        ({
            let source = source_coordinate(page_coordinate, overscan, subsample, limit);
            &&& 0 <= source < limit
            &&& subsample * source <= page_coordinate + overscan < subsample * source + subsample
        }),
{
    let sum = page_coordinate + overscan;
    lemma_fundamental_div_mod(sum, subsample);
    let q = sum / subsample;
    assert(0 <= q < limit) by (nonlinear_arith)
        requires
            sum < subsample * limit,
            subsample * q + sum % subsample == sum,
            0 <= sum % subsample < subsample,
            sum >= 0,
            subsample >= 1,
    ;
}

/// Interpolation starts at the first value, goes up where the values go up, goes with both
/// values, and is off the straight line by no more than a half.
pub proof fn lemma_interpolated(first: int, second: int, sixteenths: int)
    requires
        0 <= sixteenths <= 15,
    ensures
        interpolated(first, second, 0) == first,
        is_shade_between(first, second, sixteenths, interpolated(first, second, sixteenths)),
        forall|more: int|
            sixteenths <= more <= 15 && first <= second ==> interpolated(first, second, sixteenths)
                <= #[trigger] interpolated(first, second, more),
        forall|other: int, another: int|
            first <= other && second <= another ==> interpolated(first, second, sixteenths)
                <= #[trigger] interpolated(other, another, sixteenths),
{
    assert((second - first) * 0 == 0) by (nonlinear_arith);
    assert((16 - sixteenths) * first + sixteenths * second == 16 * first + (second - first)
        * sixteenths) by (nonlinear_arith);
    assert forall|more: int| sixteenths <= more <= 15 && first <= second implies interpolated(
        first,
        second,
        sixteenths,
    ) <= #[trigger] interpolated(first, second, more) by {
        assert((second - first) * sixteenths <= (second - first) * more) by (nonlinear_arith)
            requires
                sixteenths <= more,
                first <= second,
        ;
    }
    assert forall|other: int, another: int|
        first <= other && second <= another implies interpolated(first, second, sixteenths)
        <= #[trigger] interpolated(other, another, sixteenths) by {
        assert(16 * first + (second - first) * sixteenths <= 16 * other + (another - other)
            * sixteenths) by (nonlinear_arith)
            requires
                first <= other,
                second <= another,
                0 <= sixteenths <= 15,
        ;
    }
}

/// Whether a layer gets no darker from its top to its bottom.
pub open spec fn brightens_down(image: Image, channel: int) -> bool {
    forall|x: int, upper: int, lower: int|
        0 <= x < image.width && 0 <= upper <= lower < image.height ==> #[trigger] pixel_of(
            image,
            x,
            upper,
            channel,
        ) <= #[trigger] pixel_of(image, x, lower, channel)
}

/// Whether a layer gets no darker from its left to its right.
pub open spec fn brightens_right(image: Image, channel: int) -> bool {
    forall|y: int, left: int, right: int|
        0 <= y < image.height && 0 <= left <= right < image.width ==> #[trigger] pixel_of(
            image,
            left,
            y,
            channel,
        ) <= #[trigger] pixel_of(image, right, y, channel)
}

/// The shade of a layer between two rows of a column.
spec fn between_rows(image: Image, column: int, down: int, channel: int) -> int {
    interpolated(
        native_channel(image, column, down / 16, channel) as int,
        native_channel(image, column, down / 16 + 1, channel) as int,
        down % 16,
    )
}

proof fn lemma_between_rows_in_order(
    image: Image,
    column: int,
    first: int,
    second: int,
    channel: int,
)
    requires
        image.width > 0,
        image.height > 0,
        brightens_down(image, channel),
        first <= second,
    ensures
        between_rows(image, column, first, channel) <= between_rows(image, column, second, channel),
{
    lemma_unscaled_down(image, channel);
    let (a, b) = (first / 16, second / 16);
    let (a0, a1) = (
        native_channel(image, column, a, channel) as int,
        native_channel(image, column, a + 1, channel) as int,
    );
    let (b0, b1) = (
        native_channel(image, column, b, channel) as int,
        native_channel(image, column, b + 1, channel) as int,
    );
    lemma_interpolated_between(a0, a1, first % 16);
    lemma_interpolated_between(b0, b1, second % 16);
    if a == b {
        lemma_interpolated(a0, a1, first % 16);
    } else {
        assert(a + 1 <= b);
    }
}

proof fn lemma_between_rows_range(image: Image, column: int, down: int, channel: int)
    ensures
        0 <= between_rows(image, column, down, channel) <= 255,
{
    lemma_interpolated_between(
        native_channel(image, column, down / 16, channel) as int,
        native_channel(image, column, down / 16 + 1, channel) as int,
        down % 16,
    );
}

proof fn lemma_scaled_range(
    image: Image,
    mapping: Iw44PageMapping,
    x: int,
    y: int,
    channel: int,
)
    ensures
        ({
            let across = scaler_coordinate(image.width, mapping.subsample as int, x);
            let down = top_down_coordinate(image.height, mapping, y);
            scaled_channel(image, mapping, x, y, channel) == interpolated(
                between_rows(image, across / 16, down, channel),
                between_rows(image, across / 16 + 1, down, channel),
                across % 16,
            )
        }),
{
    let across = scaler_coordinate(image.width, mapping.subsample as int, x);
    let down = top_down_coordinate(image.height, mapping, y);
    lemma_between_rows_range(image, across / 16, down, channel);
    lemma_between_rows_range(image, across / 16 + 1, down, channel);
    lemma_interpolated_between(
        between_rows(image, across / 16, down, channel),
        between_rows(image, across / 16 + 1, down, channel),
        across % 16,
    );
}

/// A layer is interpolated down its columns first and then across them, and rounded to the
/// nearest each time: with the shades of the two columns next to a place, each nearest to that
/// between its two rows, the shade of the place is nearest to that between them.
pub proof fn lemma_scaled_across_columns(
    image: Image,
    mapping: Iw44PageMapping,
    x: int,
    y: int,
    channel: int,
    left: int,
    right: int,
)
    requires
        ({
            let across = scaler_coordinate(image.width, mapping.subsample as int, x);
            let down = top_down_coordinate(image.height, mapping, y);
            let (column, row) = (across / 16, down / 16);
            &&& is_shade_between(
                native_channel(image, column, row, channel) as int,
                native_channel(image, column, row + 1, channel) as int,
                down % 16,
                left,
            )
            &&& is_shade_between(
                native_channel(image, column + 1, row, channel) as int,
                native_channel(image, column + 1, row + 1, channel) as int,
                down % 16,
                right,
            )
        }),
    ensures
        is_shade_between(
            left,
            right,
            scaler_coordinate(image.width, mapping.subsample as int, x) % 16,
            scaled_channel(image, mapping, x, y, channel) as int,
        ),
{
    let across = scaler_coordinate(image.width, mapping.subsample as int, x);
    let down = top_down_coordinate(image.height, mapping, y);
    lemma_scaled_range(image, mapping, x, y, channel);
    lemma_interpolated(
        native_channel(image, across / 16, down / 16, channel) as int,
        native_channel(image, across / 16, down / 16 + 1, channel) as int,
        down % 16,
    );
    lemma_interpolated(
        native_channel(image, across / 16 + 1, down / 16, channel) as int,
        native_channel(image, across / 16 + 1, down / 16 + 1, channel) as int,
        down % 16,
    );
    assert(left == between_rows(image, across / 16, down, channel));
    assert(right == between_rows(image, across / 16 + 1, down, channel));
    lemma_interpolated(left, right, across % 16);
}

/// Whether a whole number is nearest to the shade so many sixteenths of the way from one shade to
/// another; of two as near, the larger one.
pub open spec fn is_shade_between(first: int, second: int, sixteenths: int, shade: int) -> bool {
    -8 < 16 * shade - ((16 - sixteenths) * first + sixteenths * second) <= 8
}

/// A layer that gets no darker from its top to its bottom makes a page that gets no darker from
/// its top to its bottom.
pub proof fn lemma_brightens_down(
    image: Image,
    mapping: Iw44PageMapping,
    channel: int,
    x: int,
    upper: int,
    lower: int,
)
    requires
        layer_matches(image, mapping, mapping.page_width as int, mapping.page_height as int),
        brightens_down(image, channel),
        0 <= channel < 3,
        0 <= x < mapping.page_width,
        0 <= upper <= lower < mapping.page_height,
    ensures
        layer_channel(image, mapping, x, upper, channel) <= layer_channel(
            image,
            mapping,
            x,
            lower,
            channel,
        ),
        masked_channel(image, mapping, x, upper, channel) <= masked_channel(
            image,
            mapping,
            x,
            lower,
            channel,
        ),
{
    let n = mapping.subsample as int;
    lemma_div_is_ordered(
        upper + mapping.vertical_overscan,
        lower + mapping.vertical_overscan,
        n,
    );
    lemma_unscaled_down(image, channel);
    let across = scaler_coordinate(image.width, n, x);
    let (high, low) = (
        top_down_coordinate(image.height, mapping, upper),
        top_down_coordinate(image.height, mapping, lower),
    );
    lemma_rows_in_order(image.height, mapping, upper, lower);
    lemma_between_rows_in_order(image, across / 16, high, low, channel);
    lemma_between_rows_in_order(image, across / 16 + 1, high, low, channel);
    lemma_interpolated(
        between_rows(image, across / 16, high, channel),
        between_rows(image, across / 16 + 1, high, channel),
        across % 16,
    );
    lemma_scaled_range(image, mapping, x, upper, channel);
    lemma_scaled_range(image, mapping, x, lower, channel);
}

proof fn lemma_columns_of_row(image: Image, first: int, second: int, down: int, channel: int)
    requires
        image.width > 0,
        image.height > 0,
        brightens_right(image, channel),
        first <= second,
    ensures
        between_rows(image, first, down, channel) <= between_rows(image, second, down, channel),
{
    let (left, right) = (clamp(first, 0, image.width - 1), clamp(second, 0, image.width - 1));
    let (up, low) = (
        clamp(down / 16, 0, image.height - 1),
        clamp(down / 16 + 1, 0, image.height - 1),
    );
    assert(pixel_of(image, left, up, channel) <= pixel_of(image, right, up, channel));
    assert(pixel_of(image, left, low, channel) <= pixel_of(image, right, low, channel));
    lemma_interpolated(
        native_channel(image, first, down / 16, channel) as int,
        native_channel(image, first, down / 16 + 1, channel) as int,
        down % 16,
    );
}

/// A layer that gets no darker from its left to its right makes a page that gets no darker from
/// its left to its right.
pub proof fn lemma_brightens_right(
    image: Image,
    mapping: Iw44PageMapping,
    channel: int,
    y: int,
    left: int,
    right: int,
)
    requires
        layer_matches(image, mapping, mapping.page_width as int, mapping.page_height as int),
        brightens_right(image, channel),
        0 <= channel < 3,
        0 <= y < mapping.page_height,
        0 <= left <= right < mapping.page_width,
    ensures
        layer_channel(image, mapping, left, y, channel) <= layer_channel(
            image,
            mapping,
            right,
            y,
            channel,
        ),
        masked_channel(image, mapping, left, y, channel) <= masked_channel(
            image,
            mapping,
            right,
            y,
            channel,
        ),
{
    let n = mapping.subsample as int;
    lemma_div_is_ordered(
        left + mapping.horizontal_overscan,
        right + mapping.horizontal_overscan,
        n,
    );
    lemma_div_is_ordered(left, right, n);
    lemma_unscaled_right(image, channel);
    lemma_columns_in_order(image.width, n, left, right);
    let (a, b) = (
        scaler_coordinate(image.width, n, left),
        scaler_coordinate(image.width, n, right),
    );
    let down = top_down_coordinate(image.height, mapping, y);
    lemma_scaled_range(image, mapping, left, y, channel);
    lemma_scaled_range(image, mapping, right, y, channel);
    let (a0, a1) = (
        between_rows(image, a / 16, down, channel),
        between_rows(image, a / 16 + 1, down, channel),
    );
    let (b0, b1) = (
        between_rows(image, b / 16, down, channel),
        between_rows(image, b / 16 + 1, down, channel),
    );
    lemma_columns_of_row(image, a / 16, a / 16 + 1, down, channel);
    lemma_columns_of_row(image, b / 16, b / 16 + 1, down, channel);
    lemma_interpolated_between(a0, a1, a % 16);
    lemma_interpolated_between(b0, b1, b % 16);
    if a / 16 == b / 16 {
        lemma_interpolated(a0, a1, a % 16);
    } else {
        lemma_columns_of_row(image, a / 16 + 1, b / 16, down, channel);
    }
}

proof fn lemma_unscaled_down(image: Image, channel: int)
    requires
        image.width > 0,
        image.height > 0,
        brightens_down(image, channel),
    ensures
        forall|column: int, upper: int, lower: int|
            upper <= lower ==> #[trigger] native_channel(image, column, upper, channel)
                <= #[trigger] native_channel(image, column, lower, channel),
{
    assert forall|column: int, upper: int, lower: int| upper <= lower implies #[trigger] native_channel(
        image,
        column,
        upper,
        channel,
    ) <= #[trigger] native_channel(image, column, lower, channel) by {
        let x = clamp(column, 0, image.width - 1);
        assert(pixel_of(image, x, clamp(upper, 0, image.height - 1), channel) <= pixel_of(
            image,
            x,
            clamp(lower, 0, image.height - 1),
            channel,
        ));
    }
}

proof fn lemma_unscaled_right(image: Image, channel: int)
    requires
        image.width > 0,
        image.height > 0,
        brightens_right(image, channel),
    ensures
        forall|row: int, a: int, b: int|
            a <= b ==> #[trigger] native_channel(image, a, row, channel)
                <= #[trigger] native_channel(image, b, row, channel),
{
    assert forall|row: int, a: int, b: int| a <= b implies #[trigger] native_channel(
        image,
        a,
        row,
        channel,
    ) <= #[trigger] native_channel(image, b, row, channel) by {
        let v = clamp(row, 0, image.height - 1);
        assert(pixel_of(image, clamp(a, 0, image.width - 1), v, channel) <= pixel_of(
            image,
            clamp(b, 0, image.width - 1),
            v,
            channel,
        ));
    }
}

} // verus!
