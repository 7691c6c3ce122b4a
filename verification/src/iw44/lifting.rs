//! The wavelet transform of planes of samples, and that its inverse undoes it.

use super::wavelet::{
    column_line, inverse_transform, line_at, prediction, row_line, sample_count, takes_part, unlift,
    unlift_columns, unlift_even, unlift_level, unlift_levels, unlift_odd, unlift_rows, unlifted_odd,
    wrap16,
};
use super::Iw44ReconstructionOrder;
use crate::bitonal::lemma_pixel_index;
use vstd::arithmetic::div_mod::{
    lemma_fundamental_div_mod, lemma_fundamental_div_mod_converse,
};
use vstd::prelude::*;

verus! {

/// What the neighbours of a sample at an odd place predict of it: four of them, two near
/// the ends of the line, or one at its end.
pub open spec fn odd_prediction(line: Seq<i16>, i: int) -> int {
    if 3 <= i && i + 3 < line.len() {
        (prediction(line, i) + 8) / 16
    } else if i + 1 < line.len() {
        (line[i - 1] + line[i + 1] + 1) / 2
    } else {
        line[i - 1] as int
    }
}

/// The samples at odd places without what their neighbours predict.
pub open spec fn lift_odd(line: Seq<i16>) -> Seq<i16> {
    Seq::new(
        line.len(),
        |i: int|
            if i % 2 == 1 {
                wrap16(line[i] - odd_prediction(line, i))
            } else {
                line[i]
            },
    )
}

/// The samples at even places with a share of their neighbours.
pub open spec fn lift_even(line: Seq<i16>) -> Seq<i16> {
    Seq::new(
        line.len(),
        |i: int|
            if i % 2 == 0 {
                wrap16(line[i] + (prediction(line, i) + 16) / 32)
            } else {
                line[i]
            },
    )
}

/// The transform of a line.
pub open spec fn lift(line: Seq<i16>) -> Seq<i16> {
    lift_even(lift_odd(line))
}

proof fn lemma_wrapped_sum(value: i16, other: int)
    ensures
        wrap16(wrap16(value + other) - other) == value,
        wrap16(wrap16(value - other) + other) == value,
{
    let up = value + other + 0x8000;
    let down = value - other + 0x8000;
    assert(wrap16(value + other) == up % 0x10000 - 0x8000);
    assert(wrap16(value - other) == down % 0x10000 - 0x8000);
    assert((up % 0x10000 - other) % 0x10000 == value + 0x8000);
    assert((down % 0x10000 + other) % 0x10000 == value + 0x8000);
}

/// Lines that agree at the even places predict the same at an odd one.
proof fn lemma_same_odd_prediction(left: Seq<i16>, right: Seq<i16>, i: int)
    requires
        left.len() == right.len(),
        0 <= i < left.len(),
        i % 2 == 1,
        forall|k: int| 0 <= k < left.len() && k % 2 == 0 ==> #[trigger] left[k] == right[k],
    ensures
        odd_prediction(left, i) == odd_prediction(right, i),
{
    assert(line_at(left, i - 1) == line_at(right, i - 1));
    assert(line_at(left, i + 1) == line_at(right, i + 1));
    assert(line_at(left, i - 3) == line_at(right, i - 3));
    assert(line_at(left, i + 3) == line_at(right, i + 3));
}

/// Lines that agree at the odd places predict the same at an even one.
proof fn lemma_same_even_prediction(left: Seq<i16>, right: Seq<i16>, i: int)
    requires
        left.len() == right.len(),
        0 <= i < left.len(),
        i % 2 == 0,
        forall|k: int| 0 <= k < left.len() && k % 2 == 1 ==> #[trigger] left[k] == right[k],
    ensures
        prediction(left, i) == prediction(right, i),
{
    assert(line_at(left, i - 1) == line_at(right, i - 1));
    assert(line_at(left, i + 1) == line_at(right, i + 1));
    assert(line_at(left, i - 3) == line_at(right, i - 3));
    assert(line_at(left, i + 3) == line_at(right, i + 3));
}

proof fn lemma_even_read_back(line: Seq<i16>)
    ensures
        unlift_even(lift_even(line)) == line,
{
    let lifted = lift_even(line);
    assert forall|i: int| 0 <= i < line.len() implies #[trigger] unlift_even(lifted)[i]
        == line[i] by {
        if i % 2 == 0 {
            lemma_same_even_prediction(lifted, line, i);
            lemma_wrapped_sum(line[i], (prediction(line, i) + 16) / 32);
        }
    }
    assert(unlift_even(lifted) =~= line);
}

proof fn lemma_odd_read_back(line: Seq<i16>)
    ensures
        unlift_odd(lift_odd(line)) == line,
{
    let lifted = lift_odd(line);
    assert forall|i: int| 0 <= i < line.len() implies #[trigger] unlift_odd(lifted)[i]
        == line[i] by {
        if i % 2 == 1 {
            lemma_same_odd_prediction(lifted, line, i);
            lemma_wrapped_sum(line[i], odd_prediction(line, i));
            assert(unlifted_odd(lifted, i) == wrap16(lifted[i] + odd_prediction(lifted, i)));
        }
    }
    assert(unlift_odd(lifted) =~= line);
}

/// The inverse transform of a line undoes the transform.
pub proof fn lemma_line_read_back(line: Seq<i16>)
    ensures
        unlift(lift(line)) == line,
{
    lemma_even_read_back(lift_odd(line));
    lemma_odd_read_back(line);
}

/// The plane with its columns, at every `step`, transformed forward.
pub open spec fn lift_columns(
    plane: Seq<i16>,
    width: int,
    height: int,
    stride: int,
    step: int,
) -> Seq<i16> {
    Seq::new(
        plane.len(),
        |p: int|
            if takes_part(width, height, step, p / stride, p % stride) {
                lift(column_line(plane, height, stride, step, p % stride))[(p / stride) / step]
            } else {
                plane[p]
            },
    )
}

/// The plane with its rows, at every `step`, transformed forward.
pub open spec fn lift_rows(
    plane: Seq<i16>,
    width: int,
    height: int,
    stride: int,
    step: int,
) -> Seq<i16> {
    Seq::new(
        plane.len(),
        |p: int|
            if takes_part(width, height, step, p / stride, p % stride) {
                lift(row_line(plane, width, stride, step, p / stride))[(p % stride) / step]
            } else {
                plane[p]
            },
    )
}

/// A plane holds the rows and columns that are transformed.
pub open spec fn plane_holds(plane: Seq<i16>, width: int, height: int, stride: int) -> bool {
    &&& 0 < width <= stride
    &&& 0 < height
    &&& height * stride <= plane.len()
}

/// The place of a sample that takes part in a transform.
proof fn lemma_sample_place(width: int, height: int, stride: int, step: int, row: int, col: int)
    requires
        0 < width <= stride,
        0 < step,
        0 <= row < height,
        0 <= col < width,
    ensures
        (row * stride + col) / stride == row,
        (row * stride + col) % stride == col,
        0 <= row * stride + col < height * stride,
{
    lemma_fundamental_div_mod_converse(row * stride + col, stride, row, col);
    lemma_pixel_index(stride, height, col, row);
}

/// The samples of a line lie on it.
proof fn lemma_sample_on_line(extent: int, step: int, i: int)
    requires
        0 < extent,
        0 < step,
        0 <= i < sample_count(extent, step),
    ensures
        0 <= i * step < extent,
        (i * step) % step == 0,
        (i * step) / step == i,
{
    let count = sample_count(extent, step);
    lemma_fundamental_div_mod(extent + step - 1, step);
    assert(i * step < extent) by (nonlinear_arith)
        requires
            i + 1 <= count,
            0 < step,
            step * count <= extent + step - 1,
    ;
    assert(0 <= i * step) by (nonlinear_arith)
        requires
            0 <= i,
            0 < step,
    ;
    lemma_fundamental_div_mod_converse(i * step, step, i, 0);
}

/// A place that is a multiple of the step is one of the samples of its line.
proof fn lemma_place_on_line(extent: int, step: int, place: int)
    requires
        0 <= place < extent,
        0 < step,
        place % step == 0,
    ensures
        0 <= place / step < sample_count(extent, step),
        (place / step) * step == place,
{
    lemma_fundamental_div_mod(place, step);
    let i = place / step;
    assert(0 <= i) by (nonlinear_arith)
        requires
            0 <= place,
            0 < step,
            place == step * i,
    ;
    let count = sample_count(extent, step);
    lemma_fundamental_div_mod(extent + step - 1, step);
    assert(i < count) by (nonlinear_arith)
        requires
            step * i < extent,
            extent + step - 1 < step * count + step,
            0 < step,
    ;
    assert(i * step == step * i) by (nonlinear_arith);
}

/// The inverse transform of columns undoes the transform.
proof fn lemma_columns_read_back(
    plane: Seq<i16>,
    width: int,
    height: int,
    stride: int,
    step: int,
)
    requires
        plane_holds(plane, width, height, stride),
        0 < step,
    ensures
        unlift_columns(
            lift_columns(plane, width, height, stride, step),
            width,
            height,
            stride,
            step,
        ) == plane,
{
    let lifted = lift_columns(plane, width, height, stride, step);
    let back = unlift_columns(lifted, width, height, stride, step);
    assert forall|p: int| 0 <= p < plane.len() implies #[trigger] back[p] == plane[p] by {
        let row = p / stride;
        let col = p % stride;
        lemma_fundamental_div_mod(p, stride);
        assert(row * stride == stride * row) by (nonlinear_arith);
        assert(0 <= row) by (nonlinear_arith)
            requires
                0 <= p,
                0 < stride,
                p == stride * row + col,
                0 <= col < stride,
        ;
        if takes_part(width, height, step, row, col) {
            let line = column_line(plane, height, stride, step, col);
            let other = column_line(lifted, height, stride, step, col);
            assert forall|i: int| 0 <= i < line.len() implies #[trigger] other[i] == lift(
                line,
            )[i] by {
                lemma_sample_on_line(height, step, i);
                lemma_sample_place(width, height, stride, step, i * step, col);
            }
            assert(other =~= lift(line));
            lemma_line_read_back(line);
            lemma_place_on_line(height, step, row);
        }
    }
    assert(back =~= plane);
}

/// The inverse transform of rows undoes the transform.
proof fn lemma_rows_read_back(
    plane: Seq<i16>,
    width: int,
    height: int,
    stride: int,
    step: int,
)
    requires
        plane_holds(plane, width, height, stride),
        0 < step,
    ensures
        unlift_rows(
            lift_rows(plane, width, height, stride, step),
            width,
            height,
            stride,
            step,
        ) == plane,
{
    let lifted = lift_rows(plane, width, height, stride, step);
    let back = unlift_rows(lifted, width, height, stride, step);
    assert forall|p: int| 0 <= p < plane.len() implies #[trigger] back[p] == plane[p] by {
        let row = p / stride;
        let col = p % stride;
        lemma_fundamental_div_mod(p, stride);
        assert(row * stride == stride * row) by (nonlinear_arith);
        assert(0 <= row) by (nonlinear_arith)
            requires
                0 <= p,
                0 < stride,
                p == stride * row + col,
                0 <= col < stride,
        ;
        if takes_part(width, height, step, row, col) {
            let line = row_line(plane, width, stride, step, row);
            let other = row_line(lifted, width, stride, step, row);
            assert forall|i: int| 0 <= i < line.len() implies #[trigger] other[i] == lift(
                line,
            )[i] by {
                lemma_sample_on_line(width, step, i);
                lemma_sample_place(width, height, stride, step, row, i * step);
            }
            assert(other =~= lift(line));
            lemma_line_read_back(line);
            lemma_place_on_line(width, step, col);
        }
    }
    assert(back =~= plane);
}

/// One level of the transform.
pub open spec fn lift_level(
    plane: Seq<i16>,
    width: int,
    height: int,
    stride: int,
    step: int,
    order: Iw44ReconstructionOrder,
) -> Seq<i16> {
    match order {
        Iw44ReconstructionOrder::ColumnsThenRows => lift_columns(
            lift_rows(plane, width, height, stride, step),
            width,
            height,
            stride,
            step,
        ),
        Iw44ReconstructionOrder::RowsThenColumns => lift_rows(
            lift_columns(plane, width, height, stride, step),
            width,
            height,
            stride,
            step,
        ),
    }
}

/// The levels of the transform from 1 up to `step`.
pub open spec fn lift_levels(
    plane: Seq<i16>,
    width: int,
    height: int,
    stride: int,
    step: int,
    order: Iw44ReconstructionOrder,
) -> Seq<i16>
    decreases step,
{
    if step <= 0 {
        plane
    } else {
        lift_level(
            lift_levels(plane, width, height, stride, step / 2, order),
            width,
            height,
            stride,
            step,
            order,
        )
    }
}

proof fn lemma_levels_keep_len(
    plane: Seq<i16>,
    width: int,
    height: int,
    stride: int,
    step: int,
    order: Iw44ReconstructionOrder,
)
    ensures
        lift_levels(plane, width, height, stride, step, order).len() == plane.len(),
    decreases step,
{
    if step > 0 {
        lemma_levels_keep_len(plane, width, height, stride, step / 2, order);
    }
}

proof fn lemma_levels_read_back(
    plane: Seq<i16>,
    width: int,
    height: int,
    stride: int,
    step: int,
    order: Iw44ReconstructionOrder,
)
    requires
        plane_holds(plane, width, height, stride),
    ensures
        unlift_levels(
            lift_levels(plane, width, height, stride, step, order),
            width,
            height,
            stride,
            step,
            order,
        ) == plane,
    decreases step,
{
    if step > 0 {
        let inner = lift_levels(plane, width, height, stride, step / 2, order);
        lemma_levels_keep_len(plane, width, height, stride, step / 2, order);
        match order {
            Iw44ReconstructionOrder::ColumnsThenRows => {
                let rows = lift_rows(inner, width, height, stride, step);
                lemma_columns_read_back(rows, width, height, stride, step);
                lemma_rows_read_back(inner, width, height, stride, step);
            },
            Iw44ReconstructionOrder::RowsThenColumns => {
                let columns = lift_columns(inner, width, height, stride, step);
                lemma_rows_read_back(columns, width, height, stride, step);
                lemma_columns_read_back(inner, width, height, stride, step);
            },
        }
        assert(unlift_level(
            lift_level(inner, width, height, stride, step, order),
            width,
            height,
            stride,
            step,
            order,
        ) == inner);
        lemma_levels_read_back(plane, width, height, stride, step / 2, order);
    }
}

/// The transform of a plane.
pub open spec fn forward_transform(
    plane: Seq<i16>,
    width: int,
    height: int,
    stride: int,
    order: Iw44ReconstructionOrder,
) -> Seq<i16> {
    lift_levels(plane, width, height, stride, 16, order)
}

/// The inverse transform of a plane undoes the transform, whatever the samples are, in
/// either order of rows and columns.
pub proof fn lemma_plane_read_back(
    plane: Seq<i16>,
    width: int,
    height: int,
    stride: int,
    order: Iw44ReconstructionOrder,
)
    requires
        plane_holds(plane, width, height, stride),
    ensures
        inverse_transform(
            forward_transform(plane, width, height, stride, order),
            width,
            height,
            stride,
            order,
        ) == plane,
{
    reveal(inverse_transform);
    lemma_levels_read_back(plane, width, height, stride, 16, order);
}

} // verus!
