//! The inverse wavelet transform of planes of coefficients.

use super::Iw44ReconstructionOrder;
use crate::bitonal::{lemma_pixel_index, lemma_pixel_index_unique};
use vstd::prelude::*;

verus! {

/// A number reduced to sixteen bits, as two's complement reads them.
pub open spec fn wrap16(value: int) -> i16 {
    ((value + 0x8000) % 0x10000 - 0x8000) as i16
}

/// A number reduced to sixteen bits, as two's complement reads them.
pub fn iw44_coefficient(value: i32) -> (wrapped: i16)
    ensures
        wrapped == wrap16(value as int),
{
    let shifted: i64 = value as i64 + 0x1_0000_8000;
    (shifted % 0x10000 - 0x8000) as i16
}

/// A sample of a line; 0 off the line.
pub open spec fn line_at(line: Seq<i16>, i: int) -> int {
    if 0 <= i < line.len() {
        line[i] as int
    } else {
        0
    }
}

/// What the neighbours of a sample predict of it, scaled by sixteen.
pub open spec fn prediction(line: Seq<i16>, i: int) -> int {
    9 * (line_at(line, i - 1) + line_at(line, i + 1)) - (line_at(line, i - 3) + line_at(
        line,
        i + 3,
    ))
}

/// The samples at even places without what was lifted into them.
pub open spec fn unlift_even(line: Seq<i16>) -> Seq<i16> {
    Seq::new(
        line.len(),
        |i: int|
            if i % 2 == 0 {
                wrap16(line[i] - (prediction(line, i) + 16) / 32)
            } else {
                line[i]
            },
    )
}

/// The sample at an odd place with what its neighbours predict: four of them, two
/// near the ends of the line, or one at its end.
pub open spec fn unlifted_odd(line: Seq<i16>, i: int) -> i16 {
    if 3 <= i && i + 3 < line.len() {
        wrap16(line[i] + (prediction(line, i) + 8) / 16)
    } else if i + 1 < line.len() {
        wrap16(line[i] + (line[i - 1] + line[i + 1] + 1) / 2)
    } else {
        wrap16(line[i] + line[i - 1])
    }
}

/// The samples at odd places with what was lifted out of them.
pub open spec fn unlift_odd(line: Seq<i16>) -> Seq<i16> {
    Seq::new(
        line.len(),
        |i: int|
            if i % 2 == 1 {
                unlifted_odd(line, i)
            } else {
                line[i]
            },
    )
}

/// The inverse transform of a line.
pub open spec fn unlift(line: Seq<i16>) -> Seq<i16> {
    unlift_odd(unlift_even(line))
}

/// The number of samples of a line of `extent` at every `step`.
pub open spec fn sample_count(extent: int, step: int) -> int {
    (extent + step - 1) / step
}

/// The sample of a plane at a row and a column.
pub open spec fn cell(plane: Seq<i16>, stride: int, row: int, col: int) -> i16 {
    plane[row * stride + col]
}

/// The samples of a column at every `step`.
pub open spec fn column_line(
    plane: Seq<i16>,
    height: int,
    stride: int,
    step: int,
    col: int,
) -> Seq<i16> {
    Seq::new(sample_count(height, step) as nat, |i: int| cell(plane, stride, i * step, col))
}

/// The samples of a row at every `step`.
pub open spec fn row_line(
    plane: Seq<i16>,
    width: int,
    stride: int,
    step: int,
    row: int,
) -> Seq<i16> {
    Seq::new(sample_count(width, step) as nat, |i: int| cell(plane, stride, row, i * step))
}

/// Whether a sample takes part in a transform at this step.
pub open spec fn takes_part(width: int, height: int, step: int, row: int, col: int) -> bool {
    row < height && col < width && row % step == 0 && col % step == 0
}

/// A sample of the plane whose columns, at every `step`, were transformed.
pub open spec fn column_sample(
    plane: Seq<i16>,
    width: int,
    height: int,
    stride: int,
    step: int,
    row: int,
    col: int,
) -> i16 {
    if takes_part(width, height, step, row, col) {
        unlift(column_line(plane, height, stride, step, col))[row / step]
    } else {
        cell(plane, stride, row, col)
    }
}

/// A sample of the plane whose rows, at every `step`, were transformed.
pub open spec fn row_sample(
    plane: Seq<i16>,
    width: int,
    height: int,
    stride: int,
    step: int,
    row: int,
    col: int,
) -> i16 {
    if takes_part(width, height, step, row, col) {
        unlift(row_line(plane, width, stride, step, row))[col / step]
    } else {
        cell(plane, stride, row, col)
    }
}

/// The plane with its columns, at every `step`, transformed.
pub open spec fn unlift_columns(
    plane: Seq<i16>,
    width: int,
    height: int,
    stride: int,
    step: int,
) -> Seq<i16> {
    Seq::new(
        plane.len(),
        |p: int| column_sample(plane, width, height, stride, step, p / stride, p % stride),
    )
}

/// The plane with its rows, at every `step`, transformed.
pub open spec fn unlift_rows(
    plane: Seq<i16>,
    width: int,
    height: int,
    stride: int,
    step: int,
) -> Seq<i16> {
    Seq::new(
        plane.len(),
        |p: int| row_sample(plane, width, height, stride, step, p / stride, p % stride),
    )
}

/// One level of the inverse transform.
pub open spec fn unlift_level(
    plane: Seq<i16>,
    width: int,
    height: int,
    stride: int,
    step: int,
    order: Iw44ReconstructionOrder,
) -> Seq<i16> {
    match order {
        Iw44ReconstructionOrder::ColumnsThenRows => unlift_rows(
            unlift_columns(plane, width, height, stride, step),
            width,
            height,
            stride,
            step,
        ),
        Iw44ReconstructionOrder::RowsThenColumns => unlift_columns(
            unlift_rows(plane, width, height, stride, step),
            width,
            height,
            stride,
            step,
        ),
    }
}

/// The levels of the inverse transform from `step` down to 1.
pub open spec fn unlift_levels(
    plane: Seq<i16>,
    width: int,
    height: int,
    stride: int,
    step: int,
    order: Iw44ReconstructionOrder,
) -> Seq<i16>
    decreases step,
{
    if step <= 0 {
        plane
    } else {
        unlift_levels(
            unlift_level(plane, width, height, stride, step, order),
            width,
            height,
            stride,
            step / 2,
            order,
        )
    }
}

/// The inverse transform of a plane.
#[verifier::opaque]
pub open spec fn inverse_transform(
    plane: Seq<i16>,
    width: int,
    height: int,
    stride: int,
    order: Iw44ReconstructionOrder,
) -> Seq<i16> {
    unlift_levels(plane, width, height, stride, 16, order)
}

/// A quotient by a positive divisor, rounded down.
fn floor_div(value: i32, divisor: i32) -> (quotient: i32)
    requires
        divisor == 2 || divisor == 16 || divisor == 32,
    ensures
        quotient == value as int / divisor as int,
{
    if divisor == 2 {
        ((value as i64 + 0x1_0000_0000) / 2 - 0x8000_0000) as i32
    } else if divisor == 16 {
        ((value as i64 + 0x1_0000_0000) / 16 - 0x1000_0000) as i32
    } else {
        ((value as i64 + 0x1_0000_0000) / 32 - 0x800_0000) as i32
    }
}

/// The sample a number of places before a place; 0 off the line.
fn sample_before(line: &Vec<i16>, i: usize, distance: usize) -> (value: i32)
    requires
        i < line@.len(),
    ensures
        value == line_at(line@, i - distance),
        -0x8000 <= value <= 0x7fff,
{
    if i >= distance {
        line[i - distance] as i32
    } else {
        0
    }
}

/// The sample a number of places after a place; 0 off the line.
fn sample_after(line: &Vec<i16>, i: usize, distance: usize) -> (value: i32)
    requires
        i < line@.len(),
    ensures
        value == line_at(line@, i + distance),
        -0x8000 <= value <= 0x7fff,
{
    if distance < line.len() - i {
        line[i + distance] as i32
    } else {
        0
    }
}

/// What the neighbours of a sample predict of it, scaled by sixteen.
fn predict(line: &Vec<i16>, i: usize) -> (value: i32)
    requires
        i < line@.len(),
    ensures
        value == prediction(line@, i as int),
        -0xa_0000 <= value <= 0xa_0000,
{
    let adjacent: i32 = sample_before(line, i, 1) + sample_after(line, i, 1);
    let distant: i32 = sample_before(line, i, 3) + sample_after(line, i, 3);
    9 * adjacent - distant
}

/// Takes out of the samples at even places what was lifted into them.
fn unlift_even_samples(line: &mut Vec<i16>)
    ensures
        final(line)@ == unlift_even(old(line)@),
{
    let ghost start = line@;
    let len: usize = line.len();
    let mut i: usize = 0;
    while i < len
        invariant
            line@.len() == len,
            start.len() == len,
            i <= len,
            forall|k: int|
                0 <= k < len ==> #[trigger] line@[k] == if k < i {
                    unlift_even(start)[k]
                } else {
                    start[k]
                },
        decreases len - i,
    {
        if i % 2 == 0 {
            proof {
                lemma_prediction_same(line@, start, i as int);
            }
            let value: i32 = line[i] as i32 - floor_div(predict(line, i) + 16, 32);
            line[i] = iw44_coefficient(value);
        }
        i = i + 1;
    }
    assert(line@ =~= unlift_even(start));
}

/// A prediction depends only on the samples at places of the other parity.
proof fn lemma_prediction_same(line: Seq<i16>, other: Seq<i16>, i: int)
    requires
        line.len() == other.len(),
        forall|k: int| 0 <= k < line.len() && k % 2 != i % 2 ==> #[trigger] line[k] == other[k],
    ensures
        prediction(line, i) == prediction(other, i),
{
    assert(line_at(line, i - 1) == line_at(other, i - 1));
    assert(line_at(line, i + 1) == line_at(other, i + 1));
    assert(line_at(line, i - 3) == line_at(other, i - 3));
    assert(line_at(line, i + 3) == line_at(other, i + 3));
}

/// Puts back into the samples at odd places what was lifted out of them.
fn unlift_odd_samples(line: &mut Vec<i16>)
    ensures
        final(line)@ == unlift_odd(old(line)@),
{
    let ghost start = line@;
    let len: usize = line.len();
    let mut i: usize = 0;
    while i < len
        invariant
            line@.len() == len,
            start.len() == len,
            i <= len,
            forall|k: int|
                0 <= k < len ==> #[trigger] line@[k] == if k < i {
                    unlift_odd(start)[k]
                } else {
                    start[k]
                },
        decreases len - i,
    {
        if i % 2 == 1 {
            proof {
                lemma_prediction_same(line@, start, i as int);
                assert(line@[i - 1] == start[i - 1]);
                if i + 1 < len {
                    assert(line@[i + 1] == start[i + 1]);
                }
            }
            let value: i32 = if i >= 3 && 3 < len - i {
                line[i] as i32 + floor_div(predict(line, i) + 8, 16)
            } else if 1 < len - i {
                line[i] as i32 + floor_div(line[i - 1] as i32 + line[i + 1] as i32 + 1, 2)
            } else {
                line[i] as i32 + line[i - 1] as i32
            };
            line[i] = iw44_coefficient(value);
        }
        i = i + 1;
    }
    assert(line@ =~= unlift_odd(start));
}

/// Transforms a line back.
pub fn inverse_wavelet_line(line: &mut Vec<i16>)
    ensures
        final(line)@ == unlift(old(line)@),
{
    unlift_even_samples(line);
    unlift_odd_samples(line);
}

/// Replacing one sample leaves the others as they were.
proof fn lemma_cell_update(
    plane: Seq<i16>,
    stride: int,
    rows: int,
    row: int,
    col: int,
    value: i16,
)
    requires
        plane.len() == rows * stride,
        0 <= row < rows,
        0 <= col < stride,
    ensures
        0 <= row * stride + col < plane.len(),
        forall|r: int, c: int|
            0 <= r < rows && 0 <= c < stride ==> #[trigger] cell(
                plane.update(row * stride + col, value),
                stride,
                r,
                c,
            ) == if r == row && c == col {
                value
            } else {
                cell(plane, stride, r, c)
            },
{
    assert(stride * rows == rows * stride) by (nonlinear_arith);
    lemma_pixel_index(stride, rows, col, row);
    assert forall|r: int, c: int| 0 <= r < rows && 0 <= c < stride implies #[trigger] cell(
        plane.update(row * stride + col, value),
        stride,
        r,
        c,
    ) == if r == row && c == col {
        value
    } else {
        cell(plane, stride, r, c)
    } by {
        lemma_pixel_index(stride, rows, c, r);
        if r * stride + c == row * stride + col {
            lemma_pixel_index_unique(stride, c, r, col, row);
        }
    }
}

/// The place of a sample gives its row and its column.
proof fn lemma_cell_place(stride: int, rows: int, p: int)
    requires
        0 < stride,
        0 <= p < rows * stride,
    ensures
        0 <= p / stride < rows,
        0 <= p % stride < stride,
        p == (p / stride) * stride + p % stride,
{
    vstd::arithmetic::div_mod::lemma_fundamental_div_mod(p, stride);
    assert(p == (p / stride) * stride + p % stride) by (nonlinear_arith)
        requires
            p == stride * (p / stride) + p % stride,
    ;
    assert(0 <= p / stride < rows) by (nonlinear_arith)
        requires
            0 <= p < rows * stride,
            p == (p / stride) * stride + p % stride,
            0 <= p % stride < stride,
    ;
}

/// A multiple of a step lies within an extent exactly if its number is that of a
/// sample.
proof fn lemma_sample_count(extent: int, step: int, i: int)
    requires
        0 <= extent,
        0 < step,
        0 <= i,
    ensures
        i < sample_count(extent, step) <==> i * step < extent,
        (i * step) % step == 0,
        (i * step) / step == i,
        0 <= i * step,
{
    let count = sample_count(extent, step);
    vstd::arithmetic::div_mod::lemma_fundamental_div_mod(extent + step - 1, step);
    vstd::arithmetic::div_mod::lemma_mod_multiples_basic(i, step);
    vstd::arithmetic::div_mod::lemma_div_multiples_vanish(i, step);
    let r = (extent + step - 1) % step;
    assert(i < count <==> i * step < extent) by (nonlinear_arith)
        requires
            extent + step - 1 == step * count + r,
            0 <= r < step,
            0 < step,
    ;
    assert(0 <= i * step) by (nonlinear_arith)
        requires
            0 <= i,
            0 < step,
    ;
    assert(step * i == i * step) by (nonlinear_arith);
}

/// A row that is a multiple of a step is that of a sample.
proof fn lemma_sample_row(extent: int, step: int, row: int)
    requires
        0 <= row < extent,
        0 < step,
        row % step == 0,
    ensures
        0 <= row / step < sample_count(extent, step),
        (row / step) * step == row,
{
    vstd::arithmetic::div_mod::lemma_fundamental_div_mod(row, step);
    assert((row / step) * step == row) by (nonlinear_arith)
        requires
            row == step * (row / step) + row % step,
            row % step == 0,
    ;
    vstd::arithmetic::div_mod::lemma_div_pos_is_pos(row, step);
    lemma_sample_count(extent, step, row / step);
}

/// Transforms the columns of a plane back, at every `step`.
fn inverse_wavelet_columns(
    plane: &mut Vec<i16>,
    width: usize,
    height: usize,
    stride: usize,
    rows: usize,
    step: usize,
)
    requires
        old(plane)@.len() == rows * stride,
        width <= stride <= 0x1_0000,
        height <= rows <= 0x1_0000,
        1 <= step <= 16,
    ensures
        final(plane)@ == unlift_columns(
            old(plane)@,
            width as int,
            height as int,
            stride as int,
            step as int,
        ),
{
    let ghost start = plane@;
    let ghost (w, h, st, rs, sp) = (
        width as int,
        height as int,
        stride as int,
        rows as int,
        step as int,
    );
    let mut col: usize = 0;
    while col < width
        invariant
            plane@.len() == rows * stride,
            start.len() == rows * stride,
            width <= stride <= 0x1_0000,
            height <= rows <= 0x1_0000,
            1 <= step <= 16,
            col <= width,
            (w, h, st, rs, sp) == (
                width as int,
                height as int,
                stride as int,
                rows as int,
                step as int,
            ),
            forall|r: int, c: int|
                0 <= r < rs && 0 <= c < st ==> #[trigger] cell(plane@, st, r, c) == if c < col {
                    column_sample(start, w, h, st, sp, r, c)
                } else {
                    cell(start, st, r, c)
                },
        decreases width - col,
    {
        if col % step == 0 {
            let ghost before = plane@;
            transform_column(plane, height, stride, rows, step, col);
            proof {
                assert forall|i: int| 0 <= i < sample_count(h, sp) implies #[trigger] column_line(
                    before,
                    h,
                    st,
                    sp,
                    col as int,
                )[i] == column_line(start, h, st, sp, col as int)[i] by {
                    lemma_sample_count(h, sp, i);
                    assert(cell(before, st, i * sp, col as int) == cell(
                        start,
                        st,
                        i * sp,
                        col as int,
                    ));
                }
                assert(column_line(before, h, st, sp, col as int) =~= column_line(
                    start,
                    h,
                    st,
                    sp,
                    col as int,
                ));
            }
        }
        col = col + 1;
    }
    assert forall|p: int| 0 <= p < start.len() implies plane@[p] == unlift_columns(
        start,
        w,
        h,
        st,
        sp,
    )[p] by {
        if st == 0 {
            assert(rs * st == 0) by (nonlinear_arith)
                requires
                    st == 0,
            ;
        }
        lemma_cell_place(st, rs, p);
        assert(cell(plane@, st, p / st, p % st) == plane@[p]);
    }
    assert(plane@ =~= unlift_columns(start, w, h, st, sp));
}

/// Transforms one column of a plane back, at every `step`.
fn transform_column(
    plane: &mut Vec<i16>,
    height: usize,
    stride: usize,
    rows: usize,
    step: usize,
    col: usize,
)
    requires
        old(plane)@.len() == rows * stride,
        col < stride <= 0x1_0000,
        height <= rows <= 0x1_0000,
        1 <= step <= 16,
    ensures
        final(plane)@.len() == old(plane)@.len(),
        forall|r: int, c: int|
            0 <= r < rows && 0 <= c < stride ==> #[trigger] cell(
                final(plane)@,
                stride as int,
                r,
                c,
            ) == if c == col && r < height && r % (step as int) == 0 {
                unlift(
                    column_line(
                        old(plane)@,
                        height as int,
                        stride as int,
                        step as int,
                        col as int,
                    ),
                )[r / (step as int)]
            } else {
                cell(old(plane)@, stride as int, r, c)
            },
{
    let ghost start = plane@;
    let ghost (h, st, rs, sp) = (height as int, stride as int, rows as int, step as int);
    let ghost expected = column_line(start, h, st, sp, col as int);
    let mut line: Vec<i16> = Vec::new();
    let mut row: usize = 0;
    assert(0 * sp == 0) by (nonlinear_arith);
    while row < height
        invariant
            plane@ == start,
            plane@.len() == rows * stride,
            col < stride <= 0x1_0000,
            height <= rows <= 0x1_0000,
            1 <= step <= 16,
            (h, st, rs, sp) == (height as int, stride as int, rows as int, step as int),
            expected == column_line(start, h, st, sp, col as int),
            row == line@.len() * step,
            row < height + step,
            line@.len() <= expected.len(),
            forall|i: int| 0 <= i < line@.len() ==> line@[i] == expected[i],
        decreases height + step - row,
    {
        proof {
            lemma_sample_count(h, sp, line@.len() as int);
            lemma_cell_update(plane@, st, rs, row as int, col as int, 0);
            assert((line@.len() + 1) * sp == line@.len() * sp + sp) by (nonlinear_arith);
            assert(row * stride <= 0x1_0000 * 0x1_0000) by (nonlinear_arith)
                requires
                    row <= 0x1_0000,
                    stride <= 0x1_0000,
            ;
            assert(plane@.len() == plane.len());
        }
        line.push(plane[row * stride + col]);
        row = row + step;
    }
    proof {
        lemma_sample_count(h, sp, line@.len() as int);
    }
    assert(line@ =~= expected);
    inverse_wavelet_line(&mut line);
    let mut index: usize = 0;
    let mut target: usize = 0;
    while index < line.len()
        invariant
            plane@.len() == rows * stride,
            start.len() == rows * stride,
            col < stride <= 0x1_0000,
            height <= rows <= 0x1_0000,
            1 <= step <= 16,
            (h, st, rs, sp) == (height as int, stride as int, rows as int, step as int),
            line@ == unlift(expected),
            expected.len() == sample_count(h, sp),
            index <= line@.len(),
            target == index * step,
            forall|r: int, c: int|
                0 <= r < rs && 0 <= c < st ==> #[trigger] cell(plane@, st, r, c) == if c == col && r
                    < target && r < h && r % sp == 0 {
                    line@[r / sp]
                } else {
                    cell(start, st, r, c)
                },
        decreases line@.len() - index,
    {
        proof {
            lemma_sample_count(h, sp, index as int);
            lemma_cell_update(plane@, st, rs, target as int, col as int, line@[index as int]);
            assert((index + 1) * sp == index * sp + sp) by (nonlinear_arith);
            assert(target * stride <= 0x1_0000 * 0x1_0000) by (nonlinear_arith)
                requires
                    target <= 0x1_0000,
                    stride <= 0x1_0000,
            ;
            assert(plane@.len() == plane.len());
            assert forall|r: int|
                target <= r < target + sp && r < h && #[trigger] (r % sp) == 0 implies r
                == target by {
                lemma_sample_row(h, sp, r);
                assert(r / sp == index) by (nonlinear_arith)
                    requires
                        (r / sp) * sp == r,
                        index * sp <= r < index * sp + sp,
                        0 < sp,
                ;
            }
        }
        plane[target * stride + col] = line[index];
        index = index + 1;
        target = target + step;
    }
    proof {
        lemma_sample_count(h, sp, index as int);
        assert(target >= h);
    }
}

/// Transforms the rows of a plane back, at every `step`.
fn inverse_wavelet_rows(
    plane: &mut Vec<i16>,
    width: usize,
    height: usize,
    stride: usize,
    rows: usize,
    step: usize,
)
    requires
        old(plane)@.len() == rows * stride,
        width <= stride <= 0x1_0000,
        height <= rows <= 0x1_0000,
        1 <= step <= 16,
    ensures
        final(plane)@ == unlift_rows(
            old(plane)@,
            width as int,
            height as int,
            stride as int,
            step as int,
        ),
{
    let ghost start = plane@;
    let ghost (w, h, st, rs, sp) = (
        width as int,
        height as int,
        stride as int,
        rows as int,
        step as int,
    );
    let mut row: usize = 0;
    while row < height
        invariant
            plane@.len() == rows * stride,
            start.len() == rows * stride,
            width <= stride <= 0x1_0000,
            height <= rows <= 0x1_0000,
            1 <= step <= 16,
            row <= height,
            (w, h, st, rs, sp) == (
                width as int,
                height as int,
                stride as int,
                rows as int,
                step as int,
            ),
            forall|r: int, c: int|
                0 <= r < rs && 0 <= c < st ==> #[trigger] cell(plane@, st, r, c) == if r < row {
                    row_sample(start, w, h, st, sp, r, c)
                } else {
                    cell(start, st, r, c)
                },
        decreases height - row,
    {
        if row % step == 0 {
            let ghost before = plane@;
            transform_row(plane, width, stride, rows, step, row);
            proof {
                assert forall|i: int| 0 <= i < sample_count(w, sp) implies #[trigger] row_line(
                    before,
                    w,
                    st,
                    sp,
                    row as int,
                )[i] == row_line(start, w, st, sp, row as int)[i] by {
                    lemma_sample_count(w, sp, i);
                    assert(cell(before, st, row as int, i * sp) == cell(
                        start,
                        st,
                        row as int,
                        i * sp,
                    ));
                }
                assert(row_line(before, w, st, sp, row as int) =~= row_line(
                    start,
                    w,
                    st,
                    sp,
                    row as int,
                ));
            }
        }
        row = row + 1;
    }
    assert forall|p: int| 0 <= p < start.len() implies plane@[p] == unlift_rows(
        start,
        w,
        h,
        st,
        sp,
    )[p] by {
        if st == 0 {
            assert(rs * st == 0) by (nonlinear_arith)
                requires
                    st == 0,
            ;
        }
        lemma_cell_place(st, rs, p);
        assert(cell(plane@, st, p / st, p % st) == plane@[p]);
    }
    assert(plane@ =~= unlift_rows(start, w, h, st, sp));
}

/// Transforms one row of a plane back, at every `step`.
fn transform_row(
    plane: &mut Vec<i16>,
    width: usize,
    stride: usize,
    rows: usize,
    step: usize,
    row: usize,
)
    requires
        old(plane)@.len() == rows * stride,
        width <= stride <= 0x1_0000,
        row < rows <= 0x1_0000,
        1 <= step <= 16,
    ensures
        final(plane)@.len() == old(plane)@.len(),
        forall|r: int, c: int|
            0 <= r < rows && 0 <= c < stride ==> #[trigger] cell(
                final(plane)@,
                stride as int,
                r,
                c,
            ) == if r == row && c < width && c % (step as int) == 0 {
                unlift(
                    row_line(old(plane)@, width as int, stride as int, step as int, row as int),
                )[c / (step as int)]
            } else {
                cell(old(plane)@, stride as int, r, c)
            },
{
    let ghost start = plane@;
    let ghost (w, st, rs, sp) = (width as int, stride as int, rows as int, step as int);
    let ghost expected = row_line(start, w, st, sp, row as int);
    let mut line: Vec<i16> = Vec::new();
    let mut col: usize = 0;
    assert(0 * sp == 0) by (nonlinear_arith);
    while col < width
        invariant
            plane@ == start,
            plane@.len() == rows * stride,
            width <= stride <= 0x1_0000,
            row < rows <= 0x1_0000,
            1 <= step <= 16,
            (w, st, rs, sp) == (width as int, stride as int, rows as int, step as int),
            expected == row_line(start, w, st, sp, row as int),
            col == line@.len() * step,
            col < width + step,
            line@.len() <= expected.len(),
            forall|i: int| 0 <= i < line@.len() ==> line@[i] == expected[i],
        decreases width + step - col,
    {
        proof {
            lemma_sample_count(w, sp, line@.len() as int);
            lemma_cell_update(plane@, st, rs, row as int, col as int, 0);
            assert((line@.len() + 1) * sp == line@.len() * sp + sp) by (nonlinear_arith);
            assert(row * stride <= 0x1_0000 * 0x1_0000) by (nonlinear_arith)
                requires
                    row <= 0x1_0000,
                    stride <= 0x1_0000,
            ;
            assert(plane@.len() == plane.len());
        }
        line.push(plane[row * stride + col]);
        col = col + step;
    }
    proof {
        lemma_sample_count(w, sp, line@.len() as int);
    }
    assert(line@ =~= expected);
    inverse_wavelet_line(&mut line);
    let mut index: usize = 0;
    let mut target: usize = 0;
    while index < line.len()
        invariant
            plane@.len() == rows * stride,
            start.len() == rows * stride,
            width <= stride <= 0x1_0000,
            row < rows <= 0x1_0000,
            1 <= step <= 16,
            (w, st, rs, sp) == (width as int, stride as int, rows as int, step as int),
            line@ == unlift(expected),
            expected.len() == sample_count(w, sp),
            index <= line@.len(),
            target == index * step,
            forall|r: int, c: int|
                0 <= r < rs && 0 <= c < st ==> #[trigger] cell(plane@, st, r, c) == if r == row && c
                    < target && c < w && c % sp == 0 {
                    line@[c / sp]
                } else {
                    cell(start, st, r, c)
                },
        decreases line@.len() - index,
    {
        proof {
            lemma_sample_count(w, sp, index as int);
            lemma_cell_update(plane@, st, rs, row as int, target as int, line@[index as int]);
            assert((index + 1) * sp == index * sp + sp) by (nonlinear_arith);
            assert(row * stride <= 0x1_0000 * 0x1_0000) by (nonlinear_arith)
                requires
                    row <= 0x1_0000,
                    stride <= 0x1_0000,
            ;
            assert(plane@.len() == plane.len());
            assert forall|c: int|
                target <= c < target + sp && c < w && #[trigger] (c % sp) == 0 implies c
                == target by {
                lemma_sample_row(w, sp, c);
                assert(c / sp == index) by (nonlinear_arith)
                    requires
                        (c / sp) * sp == c,
                        index * sp <= c < index * sp + sp,
                        0 < sp,
                ;
            }
        }
        plane[row * stride + target] = line[index];
        index = index + 1;
        target = target + step;
    }
    proof {
        lemma_sample_count(w, sp, index as int);
        assert(target >= w);
    }
}

/// Transforms a plane back, level by level.
pub fn inverse_wavelet_transform_with_order(
    plane: &mut Vec<i16>,
    width: usize,
    height: usize,
    stride: usize,
    rows: usize,
    order: Iw44ReconstructionOrder,
)
    requires
        old(plane)@.len() == rows * stride,
        width <= stride <= 0x1_0000,
        height <= rows <= 0x1_0000,
    ensures
        final(plane)@ == inverse_transform(
            old(plane)@,
            width as int,
            height as int,
            stride as int,
            order,
        ),
        final(plane)@.len() == old(plane)@.len(),
{
    proof {
        reveal(inverse_transform);
    }
    let mut step: usize = 16;
    while step > 0
        invariant
            plane@.len() == rows * stride,
            width <= stride <= 0x1_0000,
            height <= rows <= 0x1_0000,
            step <= 16,
            unlift_levels(
                plane@,
                width as int,
                height as int,
                stride as int,
                step as int,
                order,
            ) == inverse_transform(
                old(plane)@,
                width as int,
                height as int,
                stride as int,
                order,
            ),
        decreases step,
    {
        match order {
            Iw44ReconstructionOrder::ColumnsThenRows => {
                inverse_wavelet_columns(plane, width, height, stride, rows, step);
                inverse_wavelet_rows(plane, width, height, stride, rows, step);
            },
            Iw44ReconstructionOrder::RowsThenColumns => {
                inverse_wavelet_rows(plane, width, height, stride, rows, step);
                inverse_wavelet_columns(plane, width, height, stride, rows, step);
            },
        }
        step = step / 2;
    }
}

} // verus!
