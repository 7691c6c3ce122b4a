//! How the coefficients of a plane, its numbers and its samples hang together.

use super::blocks::{
    blocks_along, coefficient_index, cropped, lemma_zigzag_of_place, magnitude, magnitude_sum,
    nonzero_count, reconstruction, row_major, zigzag_index,
};
use super::decoder::{
    overridden, override_shows, overrides_fit, plane_of, plane_samples, planes_of,
    reconstruction_shows, summary_of, DecoderModel,
};
use super::shape::{plane_shaped, shaped};
use super::slice::{plane_blocks, PlaneModel};
use super::wavelet::{
    cell, column_line, inverse_transform, prediction, row_line, sample_count, takes_part, unlift,
    unlift_columns, unlift_even, unlift_level, unlift_levels, unlift_odd, unlift_rows,
};
use super::{
    Iw44Plane, Iw44ReconstructionExtent, Iw44ReconstructionOrder, Iw44ReconstructionPlane,
};
use vstd::prelude::*;

verus! {

/// The sum of the first weights of a list.
pub open spec fn total(weights: Seq<int>, count: int) -> int
    decreases count,
{
    if count <= 0 {
        0
    } else {
        total(weights, count - 1) + weights[count - 1]
    }
}

/// The sum of the weights at the first places of a list.
pub open spec fn picked(weights: Seq<int>, places: Seq<int>, count: int) -> int
    decreases count,
{
    if count <= 0 {
        0
    } else {
        picked(weights, places, count - 1) + weights[places[count - 1]]
    }
}

proof fn lemma_total_without(weights: Seq<int>, at: int, count: int)
    requires
        0 <= at < weights.len(),
        0 <= count <= weights.len(),
    ensures
        total(weights, count) == total(weights.update(at, 0), count) + if at < count {
            weights[at]
        } else {
            0
        },
    decreases count,
{
    if count > 0 {
        lemma_total_without(weights, at, count - 1);
    }
}

proof fn lemma_picked_same(one: Seq<int>, two: Seq<int>, places: Seq<int>, count: int)
    requires
        count <= places.len(),
        forall|k: int| 0 <= k < count ==> one[#[trigger] places[k]] == two[places[k]],
    ensures
        picked(one, places, count) == picked(two, places, count),
    decreases count,
{
    if count > 0 {
        lemma_picked_same(one, two, places, count - 1);
        assert(one[places[count - 1]] == two[places[count - 1]]);
    }
}

proof fn lemma_total_not_negative(weights: Seq<int>, count: int)
    requires
        count <= weights.len(),
        forall|i: int| 0 <= i < weights.len() ==> 0 <= #[trigger] weights[i],
    ensures
        0 <= total(weights, count),
    decreases count,
{
    if count > 0 {
        lemma_total_not_negative(weights, count - 1);
    }
}

/// Weights at different places do not come to more than all weights.
proof fn lemma_picked(weights: Seq<int>, places: Seq<int>, count: int)
    requires
        0 <= count <= places.len(),
        forall|i: int| 0 <= i < weights.len() ==> 0 <= #[trigger] weights[i],
        forall|k: int| 0 <= k < count ==> 0 <= #[trigger] places[k] < weights.len(),
        forall|j: int, k: int| 0 <= j < k < count ==> #[trigger] places[j] != #[trigger] places[k],
    ensures
        picked(weights, places, count) <= total(weights, weights.len() as int),
    decreases count,
{
    if count == 0 {
        lemma_total_not_negative(weights, weights.len() as int);
    } else {
        let at = places[count - 1];
        let less = weights.update(at, 0);
        lemma_total_without(weights, at, weights.len() as int);
        lemma_picked(less, places, count - 1);
        lemma_picked_same(weights, less, places, count - 1);
    }
}

/// Where the coefficients of a plane are kept, row by row.
pub open spec fn kept_places(columns: int, width: int, height: int) -> Seq<int> {
    Seq::new((width * height) as nat, |p: int| coefficient_index(columns, p / width, p % width))
}

proof fn lemma_block_place(columns: int, rows: int, row: int, col: int)
    requires
        0 <= row < 32 * rows,
        0 <= col < 32 * columns,
    ensures
        0 <= coefficient_index(columns, row, col) < 1024 * (columns * rows),
        coefficient_index(columns, row, col) / 1024 == (row / 32) * columns + col / 32,
        coefficient_index(columns, row, col) % 1024 == zigzag_index(col % 32, row % 32),
{
    lemma_zigzag_of_place(col % 32, row % 32);
    let block = (row / 32) * columns + col / 32;
    assert(0 <= block < columns * rows) by (nonlinear_arith)
        requires
            block == (row / 32) * columns + col / 32,
            0 <= row / 32 < rows,
            0 <= col / 32 < columns,
    ;
}

/// Different places of a plane have different coefficients.
pub proof fn lemma_places_differ(columns: int, rows: int, row: int, col: int, y: int, x: int)
    requires
        0 <= row < 32 * rows,
        0 <= col < 32 * columns,
        0 <= y < 32 * rows,
        0 <= x < 32 * columns,
        coefficient_index(columns, row, col) == coefficient_index(columns, y, x),
    ensures
        row == y,
        col == x,
{
    lemma_block_place(columns, rows, row, col);
    lemma_block_place(columns, rows, y, x);
    lemma_zigzag_of_place(col % 32, row % 32);
    lemma_zigzag_of_place(x % 32, y % 32);
    crate::bitonal::lemma_pixel_index_unique(columns, col / 32, row / 32, x / 32, y / 32);
}

proof fn lemma_row_and_column(p: int, width: int, height: int)
    requires
        0 < width,
        0 <= p < width * height,
    ensures
        0 <= p / width < height,
        0 <= p % width < width,
        p == (p / width) * width + p % width,
{
    assert(0 <= p / width < height && 0 <= p % width < width && p == (p / width) * width + p
        % width) by (nonlinear_arith)
        requires
            0 < width,
            0 <= p < width * height,
    ;
}

proof fn lemma_kept_places(width: int, height: int)
    requires
        0 <= width,
        0 <= height,
    ensures
        ({
            let columns = blocks_along(width);
            let places = kept_places(columns, width, height);
            &&& forall|k: int|
                0 <= k < places.len() ==> 0 <= #[trigger] places[k] < 1024 * (columns
                    * blocks_along(height))
            &&& forall|j: int, k: int|
                0 <= j < k < places.len() ==> #[trigger] places[j] != #[trigger] places[k]
        }),
{
    let columns = blocks_along(width);
    let rows = blocks_along(height);
    let places = kept_places(columns, width, height);
    assert(0 <= width * height) by (nonlinear_arith)
        requires
            0 <= width,
            0 <= height,
    ;
    if width == 0 {
        assert(width * height == 0) by (nonlinear_arith)
            requires
                width == 0,
        ;
    } else {
        assert forall|k: int| 0 <= k < places.len() implies 0 <= #[trigger] places[k] < 1024 * (
        columns * rows) by {
            lemma_row_and_column(k, width, height);
            lemma_block_place(columns, rows, k / width, k % width);
        }
        assert forall|j: int, k: int| 0 <= j < k < places.len() implies #[trigger] places[j]
            != #[trigger] places[k] by {
            lemma_row_and_column(j, width, height);
            lemma_row_and_column(k, width, height);
            if places[j] == places[k] {
                lemma_places_differ(columns, rows, j / width, j % width, k / width, k % width);
            }
        }
    }
}

/// A weight of 1 for every coefficient that is not 0.
pub open spec fn nonzero_weights(values: Seq<i16>) -> Seq<int> {
    Seq::new(
        values.len(),
        |i: int|
            if values[i] != 0 {
                1int
            } else {
                0int
            },
    )
}

/// The magnitudes of coefficients.
pub open spec fn magnitudes(values: Seq<i16>) -> Seq<int> {
    Seq::new(values.len(), |i: int| magnitude(values[i]))
}

proof fn lemma_totals(values: Seq<i16>, count: int)
    requires
        0 <= count <= values.len(),
    ensures
        nonzero_count(values, count) == total(nonzero_weights(values), count),
        magnitude_sum(values, count) == total(magnitudes(values), count),
        0 <= nonzero_count(values, count) <= count,
        0 <= magnitude_sum(values, count) <= 0x8000 * count,
    decreases count,
{
    if count > 0 {
        lemma_totals(values, count - 1);
    }
}

proof fn lemma_picked_counts(values: Seq<i16>, width: int, height: int, count: int)
    requires
        0 <= width,
        0 <= height,
        0 <= count <= width * height,
        values.len() == 1024 * (blocks_along(width) * blocks_along(height)),
    ensures
        ({
            let columns = blocks_along(width);
            let places = kept_places(columns, width, height);
            let rows = row_major(values, columns, width, height);
            &&& nonzero_count(rows, count) == picked(nonzero_weights(values), places, count)
            &&& magnitude_sum(rows, count) == picked(magnitudes(values), places, count)
        }),
    decreases count,
{
    if count > 0 {
        lemma_picked_counts(values, width, height, count - 1);
        lemma_kept_places(width, height);
        let places = kept_places(blocks_along(width), width, height);
        assert(0 <= places[count - 1] < values.len());
    }
}

/// Of the coefficients that are listed of a plane no more are other than 0, and their
/// magnitudes come to no more, than its numbers say.
pub proof fn lemma_listed_within_numbers(
    which: Iw44Plane,
    plane: PlaneModel,
    width: int,
    height: int,
    slices: int,
)
    requires
        plane_shaped(plane, width, height, slices),
        0 <= width <= 0xffff,
        0 <= height <= 0xffff,
        plane.values.len() <= usize::MAX,
    ensures
        ({
            let listed = row_major(plane.values, blocks_along(width), width, height);
            let numbers = summary_of(which, plane);
            &&& listed.len() == width * height
            &&& nonzero_count(listed, listed.len() as int) <= numbers.non_zero_coefficients
            &&& magnitude_sum(listed, listed.len() as int) <= numbers.coefficient_abs_sum
        }),
{
    let values = plane.values;
    let columns = blocks_along(width);
    let rows = blocks_along(height);
    let places = kept_places(columns, width, height);
    assert(0 <= width * height) by (nonlinear_arith)
        requires
            0 <= width,
            0 <= height,
    ;
    assert(columns * rows <= 2048 * 2048) by (nonlinear_arith)
        requires
            0 <= columns <= 2048,
            0 <= rows <= 2048,
    ;
    lemma_kept_places(width, height);
    lemma_picked_counts(values, width, height, width * height);
    lemma_picked(nonzero_weights(values), places, width * height);
    lemma_picked(magnitudes(values), places, width * height);
    lemma_totals(values, values.len() as int);
}

/// Whether all samples are 0.
pub open spec fn all_zero(samples: Seq<i16>) -> bool {
    forall|i: int| 0 <= i < samples.len() ==> #[trigger] samples[i] == 0
}

proof fn lemma_zero_line(line: Seq<i16>)
    requires
        all_zero(line),
    ensures
        all_zero(unlift(line)),
        unlift(line).len() == line.len(),
{
    let even = unlift_even(line);
    assert forall|i: int| 0 <= i < even.len() implies #[trigger] even[i] == 0 by {
        assert(line[i] == 0);
        assert(prediction(line, i) == 0);
    }
    let odd = unlift_odd(even);
    assert forall|i: int| 0 <= i < odd.len() implies #[trigger] odd[i] == 0 by {
        assert(even[i] == 0);
        assert(prediction(even, i) == 0);
    }
}

/// The cells of rows of a stride lie among its samples.
proof fn lemma_cell(rows: int, stride: int, row: int, col: int)
    requires
        0 <= row < rows,
        0 <= col < stride,
    ensures
        0 <= row * stride + col < rows * stride,
{
    assert(0 <= row * stride + col < rows * stride) by (nonlinear_arith)
        requires
            0 <= row < rows,
            0 <= col < stride,
    ;
}

proof fn lemma_step_place(extent: int, step: int, i: int)
    requires
        0 < step,
        0 <= i < sample_count(extent, step),
    ensures
        0 <= i * step < extent,
{
    assert(0 <= i * step < extent) by (nonlinear_arith)
        requires
            0 < step,
            0 <= i,
            i < (extent + step - 1) / step,
    ;
}

proof fn lemma_step_index(extent: int, step: int, place: int)
    requires
        0 < step,
        0 <= place < extent,
        place % step == 0,
    ensures
        0 <= place / step < sample_count(extent, step),
{
    assert(0 <= place / step < (extent + step - 1) / step) by (nonlinear_arith)
        requires
            0 < step,
            0 <= place < extent,
            place % step == 0,
    ;
}

proof fn lemma_zero_lines(
    plane: Seq<i16>,
    width: int,
    height: int,
    rows: int,
    stride: int,
    step: int,
)
    requires
        all_zero(plane),
        plane.len() == rows * stride,
        0 <= width <= stride,
        0 <= height <= rows,
        0 < step,
    ensures
        all_zero(unlift_columns(plane, width, height, stride, step)),
        all_zero(unlift_rows(plane, width, height, stride, step)),
        unlift_columns(plane, width, height, stride, step).len() == plane.len(),
        unlift_rows(plane, width, height, stride, step).len() == plane.len(),
{
    let columns = unlift_columns(plane, width, height, stride, step);
    let lines = unlift_rows(plane, width, height, stride, step);
    assert forall|p: int| 0 <= p < plane.len() implies #[trigger] columns[p] == 0 && lines[p]
        == 0 by {
        assert(0 < stride) by (nonlinear_arith)
            requires
                0 <= stride,
                0 <= p < rows * stride,
        ;
        assert(stride * rows == rows * stride) by (nonlinear_arith);
        lemma_row_and_column(p, stride, rows);
        let row = p / stride;
        let col = p % stride;
        assert(cell(plane, stride, row, col) == plane[p]);
        if takes_part(width, height, step, row, col) {
            let down = column_line(plane, height, stride, step, col);
            let across = row_line(plane, width, stride, step, row);
            assert forall|i: int| 0 <= i < down.len() implies #[trigger] down[i] == 0 by {
                lemma_step_place(height, step, i);
                lemma_cell(rows, stride, i * step, col);
            }
            assert forall|i: int| 0 <= i < across.len() implies #[trigger] across[i] == 0 by {
                lemma_step_place(width, step, i);
                lemma_cell(rows, stride, row, i * step);
            }
            lemma_zero_line(down);
            lemma_zero_line(across);
            lemma_step_index(height, step, row);
            lemma_step_index(width, step, col);
            assert(unlift(down)[row / step] == 0);
            assert(unlift(across)[col / step] == 0);
        }
    }
    assert forall|p: int| 0 <= p < lines.len() implies #[trigger] lines[p] == 0 by {
        assert(columns[p] == 0);
    }
}

proof fn lemma_zero_levels(
    plane: Seq<i16>,
    width: int,
    height: int,
    rows: int,
    stride: int,
    step: int,
    order: Iw44ReconstructionOrder,
)
    requires
        all_zero(plane),
        plane.len() == rows * stride,
        0 <= width <= stride,
        0 <= height <= rows,
    ensures
        all_zero(unlift_levels(plane, width, height, stride, step, order)),
        unlift_levels(plane, width, height, stride, step, order).len() == plane.len(),
    decreases step,
{
    if step > 0 {
        lemma_zero_lines(plane, width, height, rows, stride, step);
        lemma_zero_lines(
            unlift_columns(plane, width, height, stride, step),
            width,
            height,
            rows,
            stride,
            step,
        );
        lemma_zero_lines(
            unlift_rows(plane, width, height, stride, step),
            width,
            height,
            rows,
            stride,
            step,
        );
        lemma_zero_levels(
            unlift_level(plane, width, height, stride, step, order),
            width,
            height,
            rows,
            stride,
            step / 2,
            order,
        );
    }
}

/// A plane of zeros gives samples of zeros, whatever the order and the extent.
pub proof fn lemma_zeros_give_zeros(
    plane: PlaneModel,
    width: int,
    height: int,
    slices: int,
    order: Iw44ReconstructionOrder,
    extent: Iw44ReconstructionExtent,
)
    requires
        plane_shaped(plane, width, height, slices),
        0 <= width,
        0 <= height,
        all_zero(plane.values),
    ensures
        all_zero(plane_samples(plane, order, extent)),
        plane_samples(plane, order, extent).len() == width * height,
{
    reveal(reconstruction);
    let columns = blocks_along(width);
    let stride = 32 * columns;
    let rows = 32 * blocks_along(height);
    let padded = row_major(plane.values, columns, stride, rows);
    assert(0 <= width * height) by (nonlinear_arith)
        requires
            0 <= width,
            0 <= height,
    ;
    assert(0 <= stride * rows && stride * rows == rows * stride) by (nonlinear_arith)
        requires
            0 <= stride,
            0 <= rows,
    ;
    assert forall|p: int| 0 <= p < padded.len() implies #[trigger] padded[p] == 0 by {
        assert(0 < stride) by (nonlinear_arith)
            requires
                0 <= stride,
                0 <= p < stride * rows,
        ;
        lemma_row_and_column(p, stride, rows);
        lemma_block_place(columns, blocks_along(height), p / stride, p % stride);
    }
    reveal(inverse_transform);
    lemma_zero_levels(padded, width, height, rows, stride, 16, order);
    lemma_zero_levels(padded, stride, rows, rows, stride, 16, order);
    let samples = match extent {
        Iw44ReconstructionExtent::Visible => inverse_transform(
            padded,
            width,
            height,
            stride,
            order,
        ),
        Iw44ReconstructionExtent::Padded => inverse_transform(padded, stride, rows, stride, order),
    };
    assert(all_zero(samples) && samples.len() == rows * stride);
    let shown = cropped(samples, width, height, stride);
    assert forall|p: int| 0 <= p < shown.len() implies #[trigger] shown[p] == 0 by {
        assert(0 < width) by (nonlinear_arith)
            requires
                0 <= width,
                0 <= p < width * height,
        ;
        lemma_row_and_column(p, width, height);
        lemma_cell(rows, stride, p / width, p % width);
        assert(samples[(p / width) * stride + p % width] == 0);
    }
}

/// Where the extents of a plane are multiples of those of a block, the samples are the same
/// over both extents.
pub proof fn lemma_extents_agree(plane: PlaneModel, order: Iw44ReconstructionOrder)
    requires
        plane.width % 32 == 0,
        plane.height % 32 == 0,
    ensures
        plane_samples(plane, order, Iw44ReconstructionExtent::Visible) == plane_samples(
            plane,
            order,
            Iw44ReconstructionExtent::Padded,
        ),
{
    reveal(reconstruction);
    let (width, height) = (plane.width, plane.height);
    assert(32 * blocks_along(width) == width);
    assert(32 * blocks_along(height) == height);
    let padded = row_major(plane.values, blocks_along(width), width, height);
    let samples = inverse_transform(padded, width, height, width, order);
    assert(plane_samples(plane, order, Iw44ReconstructionExtent::Visible) == cropped(
        samples,
        width,
        height,
        width,
    ));
    assert(plane_samples(plane, order, Iw44ReconstructionExtent::Padded) == cropped(
        samples,
        width,
        height,
        width,
    ));
}

/// The value with which a coefficient is replaced is the last that is given for it; what is
/// not replaced stays.
pub proof fn lemma_last_override_counts(
    values: Seq<i16>,
    overrides: Seq<(usize, usize, i16)>,
    count: int,
    place: int,
)
    requires
        0 <= count <= overrides.len(),
        0 <= place < values.len(),
        forall|i: int|
            0 <= i < count ==> 1024 * (#[trigger] overrides[i]).0 + overrides[i].1 < values.len(),
    ensures
        overridden(values, overrides, count).len() == values.len(),
        (forall|i: int|
            0 <= i < count ==> 1024 * (#[trigger] overrides[i]).0 + overrides[i].1 != place)
            ==> overridden(values, overrides, count)[place] == values[place],
        forall|k: int|
            0 <= k < count && 1024 * (#[trigger] overrides[k]).0 + overrides[k].1 == place && (
            forall|i: int|
                k < i < count ==> 1024 * (#[trigger] overrides[i]).0 + overrides[i].1 != place)
                ==> overridden(values, overrides, count)[place] == overrides[k].2,
    decreases count,
{
    if count > 0 {
        lemma_last_override_counts(values, overrides, count - 1, place);
        let last = overrides[count - 1];
        let at = 1024 * last.0 + last.1;
        assert(overridden(values, overrides, count)[place] == if at == place {
            last.2
        } else {
            overridden(values, overrides, count - 1)[place]
        });
    }
}

/// The samples of a plane with no coefficient replaced are those that are given of all
/// planes.
pub proof fn lemma_no_override(
    model: DecoderModel,
    plane: Iw44Plane,
    shown: Option<Iw44ReconstructionPlane>,
)
    requires
        shaped(model),
        model.image is Some,
        override_shows(shown, plane_of(model, plane), plane, Seq::empty()),
        shown is Some,
    ensures
        exists|i: int|
            0 <= i < planes_of(model).len() && (#[trigger] planes_of(model)[i]).0 == plane
                && reconstruction_shows(
                shown->0,
                plane,
                planes_of(model)[i].1,
                Iw44ReconstructionOrder::ColumnsThenRows,
                Iw44ReconstructionExtent::Visible,
            ),
{
    let i: int = match plane {
        Iw44Plane::Y => 0,
        Iw44Plane::Cb => 1,
        Iw44Plane::Cr => 2,
    };
    assert(planes_of(model)[i].0 == plane);
    assert(plane_of(model, plane) == Some(planes_of(model)[i].1));
}

/// Samples with coefficients replaced are refused of an image exactly if the plane is a
/// chrominance plane of an image in gray, or some coefficient to be replaced is not there.
pub proof fn lemma_override_refused(
    model: DecoderModel,
    plane: Iw44Plane,
    overrides: Seq<(usize, usize, i16)>,
    shown: Option<Iw44ReconstructionPlane>,
)
    requires
        shaped(model),
        model.image is Some,
        override_shows(shown, plane_of(model, plane), plane, overrides),
    ensures
        shown is None <==> (plane != Iw44Plane::Y && model.image->0.grayscale) || exists|i: int|
            0 <= i < overrides.len() && ((#[trigger] overrides[i]).0 >= plane_blocks(
                plane_of(model, plane)->0,
            ) || overrides[i].1 >= 1024),
{
    if plane_of(model, plane) is Some && !overrides_fit(plane_of(model, plane)->0, overrides) {
        let i = choose|i: int|
            0 <= i < overrides.len() && !((#[trigger] overrides[i]).0 < plane_blocks(
                plane_of(model, plane)->0,
            ) && overrides[i].1 < 1024);
        assert(overrides[i].0 >= plane_blocks(plane_of(model, plane)->0) || overrides[i].1
            >= 1024);
    }
}

} // verus!
