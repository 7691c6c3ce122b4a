//! Blocks of wavelet coefficients and the planes they make up.

use super::wavelet::{cell, inverse_transform, inverse_wavelet_transform_with_order};
use super::{Iw44ReconstructionExtent, Iw44ReconstructionOrder};
use crate::bitonal::lemma_pixel_index;
use vstd::arithmetic::div_mod::lemma_fundamental_div_mod_converse;
use vstd::prelude::*;

verus! {

/// The number of coefficients of a block.
pub const IW44_COEFFICIENTS_PER_BLOCK: usize = 1024;

/// The number of buckets of a block.
pub const IW44_BUCKETS_PER_BLOCK: usize = 64;

/// The number of coefficients of a bucket.
pub const IW44_COEFFICIENTS_PER_BUCKET: usize = 16;

/// The coefficient of a block that belongs to a column and a row of it: the bits of
/// both, lowest last, taken in turns.
pub open spec fn zigzag_index(col: int, row: int) -> int {
    (col / 16) % 2 + 2 * ((row / 16) % 2) + 4 * ((col / 8) % 2) + 8 * ((row / 8) % 2) + 16 * ((col
        / 4) % 2) + 32 * ((row / 4) % 2) + 64 * ((col / 2) % 2) + 128 * ((row / 2) % 2) + 256 * (col
        % 2) + 512 * (row % 2)
}

/// The row of a block to which a coefficient belongs.
pub open spec fn zigzag_row(index: int) -> int {
    16 * ((index / 2) % 2) + 8 * ((index / 8) % 2) + 4 * ((index / 32) % 2) + 2 * ((index / 128)
        % 2) + (index / 512) % 2
}

/// The column of a block to which a coefficient belongs.
pub open spec fn zigzag_col(index: int) -> int {
    16 * (index % 2) + 8 * ((index / 4) % 2) + 4 * ((index / 16) % 2) + 2 * ((index / 64) % 2) + (
    index / 256) % 2
}

/// The ten bits of a sum of distinct powers of two.
proof fn lemma_ten_bits(x: Seq<int>, index: int)
    requires
        x.len() == 10,
        forall|i: int| 0 <= i < 10 ==> 0 <= #[trigger] x[i] <= 1,
        index == x[0] + 2 * x[1] + 4 * x[2] + 8 * x[3] + 16 * x[4] + 32 * x[5] + 64 * x[6] + 128
            * x[7] + 256 * x[8] + 512 * x[9],
    ensures
        0 <= index < 1024,
        index % 2 == x[0],
        (index / 2) % 2 == x[1],
        (index / 4) % 2 == x[2],
        (index / 8) % 2 == x[3],
        (index / 16) % 2 == x[4],
        (index / 32) % 2 == x[5],
        (index / 64) % 2 == x[6],
        (index / 128) % 2 == x[7],
        (index / 256) % 2 == x[8],
        (index / 512) % 2 == x[9],
{
    let q9 = x[9];
    let q8 = x[8] + 2 * q9;
    let q7 = x[7] + 2 * q8;
    let q6 = x[6] + 2 * q7;
    let q5 = x[5] + 2 * q6;
    let q4 = x[4] + 2 * q5;
    let q3 = x[3] + 2 * q4;
    let q2 = x[2] + 2 * q3;
    let q1 = x[1] + 2 * q2;
    assert(index == x[0] + 2 * q1);
    assert(index / 2 == q1);
    assert(index / 4 == q1 / 2 && q1 / 2 == q2);
    assert(index / 8 == q2 / 2 && q2 / 2 == q3);
    assert(index / 16 == q3 / 2 && q3 / 2 == q4);
    assert(index / 32 == q4 / 2 && q4 / 2 == q5);
    assert(index / 64 == q5 / 2 && q5 / 2 == q6);
    assert(index / 128 == q6 / 2 && q6 / 2 == q7);
    assert(index / 256 == q7 / 2 && q7 / 2 == q8);
    assert(index / 512 == q8 / 2 && q8 / 2 == q9);
}

/// The five bits of a number below thirty-two.
proof fn lemma_five_bits(n: int)
    requires
        0 <= n < 32,
    ensures
        n == 16 * ((n / 16) % 2) + 8 * ((n / 8) % 2) + 4 * ((n / 4) % 2) + 2 * ((n / 2) % 2) + n
            % 2,
{
    assert(n / 4 == (n / 2) / 2);
    assert(n / 8 == (n / 4) / 2);
    assert(n / 16 == (n / 8) / 2);
}

/// The ten bits of a number below 1024.
proof fn lemma_split_ten_bits(n: int)
    requires
        0 <= n < 1024,
    ensures
        n == n % 2 + 2 * ((n / 2) % 2) + 4 * ((n / 4) % 2) + 8 * ((n / 8) % 2) + 16 * ((n / 16) % 2)
            + 32 * ((n / 32) % 2) + 64 * ((n / 64) % 2) + 128 * ((n / 128) % 2) + 256 * ((n / 256)
            % 2) + 512 * ((n / 512) % 2),
{
    assert(n / 4 == (n / 2) / 2);
    assert(n / 8 == (n / 4) / 2);
    assert(n / 16 == (n / 8) / 2);
    assert(n / 32 == (n / 16) / 2);
    assert(n / 64 == (n / 32) / 2);
    assert(n / 128 == (n / 64) / 2);
    assert(n / 256 == (n / 128) / 2);
    assert(n / 512 == (n / 256) / 2);
}

/// The five bits of a sum of distinct powers of two.
proof fn lemma_join_five_bits(a: int, b: int, c: int, d: int, e: int)
    requires
        0 <= a <= 1,
        0 <= b <= 1,
        0 <= c <= 1,
        0 <= d <= 1,
        0 <= e <= 1,
    ensures
        ({
            let n = 16 * a + 8 * b + 4 * c + 2 * d + e;
            &&& 0 <= n < 32
            &&& (n / 16) % 2 == a
            &&& (n / 8) % 2 == b
            &&& (n / 4) % 2 == c
            &&& (n / 2) % 2 == d
            &&& n % 2 == e
        }),
{
}

/// The place of the coefficient that is put together of the bits of a column and a row.
proof fn lemma_place_of_bits(x: Seq<int>, index: int)
    requires
        x.len() == 10,
        forall|i: int| 0 <= i < 10 ==> 0 <= #[trigger] x[i] <= 1,
        index == x[0] + 2 * x[1] + 4 * x[2] + 8 * x[3] + 16 * x[4] + 32 * x[5] + 64 * x[6] + 128
            * x[7] + 256 * x[8] + 512 * x[9],
    ensures
        0 <= index < 1024,
        zigzag_col(index) == 16 * x[0] + 8 * x[2] + 4 * x[4] + 2 * x[6] + x[8],
        zigzag_row(index) == 16 * x[1] + 8 * x[3] + 4 * x[5] + 2 * x[7] + x[9],
{
    lemma_ten_bits(x, index);
}

/// Every place of a block has its coefficient, and the coefficient that place.
#[verifier::spinoff_prover]
pub proof fn lemma_zigzag_of_place(col: int, row: int)
    requires
        0 <= col < 32,
        0 <= row < 32,
    ensures
        0 <= zigzag_index(col, row) < 1024,
        zigzag_col(zigzag_index(col, row)) == col,
        zigzag_row(zigzag_index(col, row)) == row,
{
    let bits = seq![
        (col / 16) % 2,
        (row / 16) % 2,
        (col / 8) % 2,
        (row / 8) % 2,
        (col / 4) % 2,
        (row / 4) % 2,
        (col / 2) % 2,
        (row / 2) % 2,
        col % 2,
        row % 2,
    ];
    let index = zigzag_index(col, row);
    assert(0 <= index < 1024 && zigzag_col(index) == 16 * bits[0] + 8 * bits[2] + 4 * bits[4] + 2
        * bits[6] + bits[8] && zigzag_row(index) == 16 * bits[1] + 8 * bits[3] + 4 * bits[5] + 2
        * bits[7] + bits[9]) by {
        lemma_place_of_bits(bits, index);
    }
    assert(zigzag_col(index) == col) by {
        lemma_five_bits(col);
    }
    assert(zigzag_row(index) == row) by {
        lemma_five_bits(row);
    }
}

/// Every coefficient has its place in a block, and the place that coefficient.
pub proof fn lemma_zigzag_of_coefficient(index: int)
    requires
        0 <= index < 1024,
    ensures
        0 <= zigzag_col(index) < 32,
        0 <= zigzag_row(index) < 32,
        zigzag_index(zigzag_col(index), zigzag_row(index)) == index,
{
    lemma_split_ten_bits(index);
    lemma_join_five_bits(
        index % 2,
        (index / 4) % 2,
        (index / 16) % 2,
        (index / 64) % 2,
        (index / 256) % 2,
    );
    lemma_join_five_bits(
        (index / 2) % 2,
        (index / 8) % 2,
        (index / 32) % 2,
        (index / 128) % 2,
        (index / 512) % 2,
    );
}

/// The row of a block to which a coefficient belongs.
pub fn iw44_zigzag_row(index: usize) -> (row: usize)
    ensures
        row == zigzag_row(index as int),
        row < 32,
{
    16 * ((index / 2) % 2) + 8 * ((index / 8) % 2) + 4 * ((index / 32) % 2) + 2 * ((index / 128)
        % 2) + (index / 512) % 2
}

/// The column of a block to which a coefficient belongs.
pub fn iw44_zigzag_col(index: usize) -> (col: usize)
    ensures
        col == zigzag_col(index as int),
        col < 32,
{
    16 * (index % 2) + 8 * ((index / 4) % 2) + 4 * ((index / 16) % 2) + 2 * ((index / 64) % 2) + (
    index / 256) % 2
}

/// The coefficient of a block that belongs to a place of it.
pub fn iw44_inverse_zigzag_index(local_x: usize, local_y: usize) -> (index: usize)
    ensures
        index == zigzag_index(local_x as int, local_y as int),
        index < 1024,
{
    (local_x / 16) % 2 + 2 * ((local_y / 16) % 2) + 4 * ((local_x / 8) % 2) + 8 * ((local_y / 8)
        % 2) + 16 * ((local_x / 4) % 2) + 32 * ((local_y / 4) % 2) + 64 * ((local_x / 2) % 2) + 128
        * ((local_y / 2) % 2) + 256 * (local_x % 2) + 512 * (local_y % 2)
}

/// The number of blocks along an extent.
pub open spec fn blocks_along(extent: int) -> int {
    (extent + 31) / 32
}

/// Where the coefficient of a place of a plane is kept.
pub open spec fn coefficient_index(columns: int, row: int, col: int) -> int {
    1024 * ((row / 32) * columns + col / 32) + zigzag_index(col % 32, row % 32)
}

/// Coefficients laid out row by row.
pub open spec fn row_major(values: Seq<i16>, columns: int, width: int, height: int) -> Seq<i16> {
    Seq::new(
        (width * height) as nat,
        |p: int| values[coefficient_index(columns, p / width, p % width)],
    )
}

/// The visible part of a padded plane.
pub open spec fn cropped(padded: Seq<i16>, width: int, height: int, stride: int) -> Seq<i16> {
    Seq::new((width * height) as nat, |p: int| cell(padded, stride, p / width, p % width))
}

/// The samples that coefficients stand for.
#[verifier::opaque]
pub open spec fn reconstruction(
    values: Seq<i16>,
    width: int,
    height: int,
    order: Iw44ReconstructionOrder,
    extent: Iw44ReconstructionExtent,
) -> Seq<i16> {
    let columns = blocks_along(width);
    let stride = 32 * columns;
    let rows = 32 * blocks_along(height);
    let padded = row_major(values, columns, stride, rows);
    let samples = match extent {
        Iw44ReconstructionExtent::Visible => inverse_transform(
            padded,
            width,
            height,
            stride,
            order,
        ),
        Iw44ReconstructionExtent::Padded => inverse_transform(padded, stride, rows, stride, order),
    };
    cropped(samples, width, height, stride)
}

/// The magnitude of a coefficient.
pub open spec fn magnitude(value: i16) -> int {
    if value < 0 {
        -value
    } else {
        value as int
    }
}

/// How many of the first `count` coefficients are not 0.
pub open spec fn nonzero_count(values: Seq<i16>, count: int) -> int
    decreases count,
{
    if count <= 0 {
        0
    } else {
        nonzero_count(values, count - 1) + if values[count - 1] != 0 { 1int } else { 0int }
    }
}

/// The largest magnitude among the first `count` coefficients.
pub open spec fn max_magnitude(values: Seq<i16>, count: int) -> int
    decreases count,
{
    if count <= 0 {
        0
    } else {
        let rest = max_magnitude(values, count - 1);
        if magnitude(values[count - 1]) > rest {
            magnitude(values[count - 1])
        } else {
            rest
        }
    }
}

/// The sum of the magnitudes of the first `count` coefficients.
pub open spec fn magnitude_sum(values: Seq<i16>, count: int) -> int
    decreases count,
{
    if count <= 0 {
        0
    } else {
        magnitude_sum(values, count - 1) + magnitude(values[count - 1])
    }
}

/// One more pass over a range of buckets of every block.
pub open spec fn marked(passes: Seq<u32>, first: int, last: int) -> Seq<u32> {
    Seq::new(
        passes.len(),
        |i: int|
            if first <= i % 64 <= last {
                (passes[i] + 1) as u32
            } else {
                passes[i]
            },
    )
}

/// The magnitude of a coefficient.
pub fn magnitude_of(value: i16) -> (size: u16)
    ensures
        size == magnitude(value),
{
    if value < 0 {
        (-(value as i32)) as u16
    } else {
        value as u16
    }
}

/// The coefficients of a plane, block by block.
#[derive(Debug, Clone, Eq, PartialEq)]
pub struct Iw44CoefficientBuffer {
    pub width: usize,
    pub height: usize,
    pub block_columns: usize,
    pub block_rows: usize,
    pub values: Vec<i16>,
    pub passes: Vec<u32>,
}

/// Whether a `usize` counts the coefficients of a plane.
pub open spec fn plane_fits(width: int, height: int) -> bool {
    1024 * (blocks_along(width) * blocks_along(height)) <= usize::MAX
}

impl Iw44CoefficientBuffer {
    /// The blocks cover the plane.
    pub open spec fn wf(&self) -> bool {
        &&& self.width <= 0xffff
        &&& self.height <= 0xffff
        &&& self.block_columns == blocks_along(self.width as int)
        &&& self.block_rows == blocks_along(self.height as int)
        &&& self.values@.len() == 1024 * (self.block_columns * self.block_rows)
        &&& self.passes@.len() == 64 * (self.block_columns * self.block_rows)
        &&& plane_fits(self.width as int, self.height as int)
    }

    /// A plane of no extent.
    pub fn empty() -> (buffer: Self)
        ensures
            buffer.wf(),
            buffer.width == 0,
            buffer.height == 0,
            buffer.values@ == Seq::<i16>::empty(),
            buffer.passes@ == Seq::<u32>::empty(),
    {
        Iw44CoefficientBuffer {
            width: 0,
            height: 0,
            block_columns: 0,
            block_rows: 0,
            values: Vec::new(),
            passes: Vec::new(),
        }
    }

    /// A plane of zeros.
    pub fn new(width: usize, height: usize) -> (buffer: Self)
        requires
            width <= 0xffff,
            height <= 0xffff,
            plane_fits(width as int, height as int),
        ensures
            buffer.wf(),
            buffer.width == width,
            buffer.height == height,
            buffer.values@ == Seq::new(
                (1024 * (blocks_along(width as int) * blocks_along(height as int))) as nat,
                |i: int| 0i16,
            ),
            buffer.passes@ == Seq::new(
                (64 * (blocks_along(width as int) * blocks_along(height as int))) as nat,
                |i: int| 0u32,
            ),
    {
        let block_columns: usize = (width + 31) / 32;
        let block_rows: usize = (height + 31) / 32;
        assert(block_columns * block_rows <= 2048 * 2048) by (nonlinear_arith)
            requires
                block_columns <= 2048,
                block_rows <= 2048,
        ;
        let block_count: usize = block_columns * block_rows;
        let values: Vec<i16> = vec![0; IW44_COEFFICIENTS_PER_BLOCK * block_count];
        let passes: Vec<u32> = vec![0; IW44_BUCKETS_PER_BLOCK * block_count];
        let buffer = Iw44CoefficientBuffer {
            width,
            height,
            block_columns,
            block_rows,
            values,
            passes,
        };
        assert(buffer.values@ =~= Seq::new(
            (1024 * (blocks_along(width as int) * blocks_along(height as int))) as nat,
            |i: int| 0i16,
        ));
        assert(buffer.passes@ =~= Seq::new(
            (64 * (blocks_along(width as int) * blocks_along(height as int))) as nat,
            |i: int| 0u32,
        ));
        buffer
    }

    /// A copy.
    pub fn duplicate(&self) -> (copy: Self)
        requires
            self.wf(),
        ensures
            copy.wf(),
            copy.width == self.width,
            copy.height == self.height,
            copy.values@ == self.values@,
            copy.passes@ == self.passes@,
    {
        let mut values: Vec<i16> = Vec::new();
        let mut i: usize = 0;
        while i < self.values.len()
            invariant
                i <= self.values@.len(),
                values@ == self.values@.take(i as int),
            decreases self.values@.len() - i,
        {
            values.push(self.values[i]);
            i = i + 1;
            assert(values@ =~= self.values@.take(i as int));
        }
        assert(values@ =~= self.values@);
        let mut passes: Vec<u32> = Vec::new();
        let mut j: usize = 0;
        while j < self.passes.len()
            invariant
                j <= self.passes@.len(),
                passes@ == self.passes@.take(j as int),
            decreases self.passes@.len() - j,
        {
            passes.push(self.passes[j]);
            j = j + 1;
            assert(passes@ =~= self.passes@.take(j as int));
        }
        assert(passes@ =~= self.passes@);
        Iw44CoefficientBuffer {
            width: self.width,
            height: self.height,
            block_columns: self.block_columns,
            block_rows: self.block_rows,
            values,
            passes,
        }
    }

    /// The number of blocks.
    pub fn block_count(&self) -> (count: usize)
        requires
            self.wf(),
        ensures
            count == self.block_columns * self.block_rows,
            1024 * count == self.values@.len(),
            64 * count == self.passes@.len(),
            count <= 0x40_0000,
    {
        assert(self.block_columns * self.block_rows <= 2048 * 2048) by (nonlinear_arith)
            requires
                self.block_columns <= 2048,
                self.block_rows <= 2048,
        ;
        self.block_columns * self.block_rows
    }

    /// A coefficient of a block.
    pub fn coefficient(&self, block: usize, coefficient: usize) -> (value: i16)
        requires
            self.wf(),
            block < self.block_columns * self.block_rows,
            coefficient < 1024,
        ensures
            value == self.values@[1024 * block + coefficient],
    {
        proof {
            assert(self.values@.len() == self.values.len());
        }
        self.values[IW44_COEFFICIENTS_PER_BLOCK * block + coefficient]
    }

    /// Sets a coefficient of a block.
    pub fn set_coefficient(&mut self, block: usize, coefficient: usize, value: i16)
        requires
            old(self).wf(),
            block < old(self).block_columns * old(self).block_rows,
            coefficient < 1024,
        ensures
            final(self).wf(),
            final(self).width == old(self).width,
            final(self).height == old(self).height,
            final(self).passes@ == old(self).passes@,
            final(self).values@ == old(self).values@.update(1024 * block + coefficient, value),
    {
        proof {
            assert(self.values@.len() == self.values.len());
        }
        self.values[IW44_COEFFICIENTS_PER_BLOCK * block + coefficient] = value;
    }

    /// The number of coefficients other than 0, their largest magnitude, and the sum
    /// of their magnitudes.
    pub fn summary(&self) -> (totals: (usize, u16, u64))
        requires
            self.wf(),
        ensures
            totals.0 == nonzero_count(self.values@, self.values@.len() as int),
            totals.1 == max_magnitude(self.values@, self.values@.len() as int),
            totals.2 == magnitude_sum(self.values@, self.values@.len() as int),
    {
        let count: usize = self.block_count();
        let mut nonzero: usize = 0;
        let mut largest: u16 = 0;
        let mut sum: u64 = 0;
        let mut i: usize = 0;
        while i < self.values.len()
            invariant
                i <= self.values@.len(),
                self.values@.len() == 1024 * count,
                count <= 0x40_0000,
                nonzero == nonzero_count(self.values@, i as int),
                nonzero <= i,
                largest == max_magnitude(self.values@, i as int),
                sum == magnitude_sum(self.values@, i as int),
                sum <= 0x8000 * i,
            decreases self.values@.len() - i,
        {
            let size: u16 = magnitude_of(self.values[i]);
            if size != 0 {
                nonzero = nonzero + 1;
                if size > largest {
                    largest = size;
                }
                sum = sum + size as u64;
            }
            i = i + 1;
        }
        (nonzero, largest, sum)
    }

    /// The coefficients laid out row by row.
    fn gather(&self, width: usize, height: usize) -> (plane: Vec<i16>)
        requires
            self.wf(),
            width <= 32 * self.block_columns,
            height <= 32 * self.block_rows,
        ensures
            plane@ == row_major(
                self.values@,
                self.block_columns as int,
                width as int,
                height as int,
            ),
    {
        let columns: usize = self.block_columns;
        let mut plane: Vec<i16> = Vec::new();
        let mut row: usize = 0;
        assert(0 <= width * height) by (nonlinear_arith);
        assert(0 * width == 0) by (nonlinear_arith);
        while row < height
            invariant
                self.wf(),
                columns == self.block_columns,
                width <= 32 * columns,
                height <= 32 * self.block_rows,
                row <= height,
                plane@.len() == row * width,
                forall|p: int|
                    0 <= p < plane@.len() ==> plane@[p] == self.values@[coefficient_index(
                        columns as int,
                        p / (width as int),
                        p % (width as int),
                    )],
            decreases height - row,
        {
            let mut col: usize = 0;
            while col < width
                invariant
                    self.wf(),
                    columns == self.block_columns,
                    width <= 32 * columns,
                    height <= 32 * self.block_rows,
                    row < height,
                    col <= width,
                    plane@.len() == row * width + col,
                    forall|p: int|
                        0 <= p < plane@.len() ==> plane@[p] == self.values@[coefficient_index(
                            columns as int,
                            p / (width as int),
                            p % (width as int),
                        )],
                decreases width - col,
            {
                proof {
                    lemma_fundamental_div_mod_converse(
                        row * width + col,
                        width as int,
                        row as int,
                        col as int,
                    );
                    lemma_zigzag_of_place(col as int % 32, row as int % 32);
                    lemma_pixel_index(
                        columns as int,
                        self.block_rows as int,
                        col as int / 32,
                        row as int / 32,
                    );
                    assert((row / 32) * columns <= 2048 * 2048) by (nonlinear_arith)
                        requires
                            row / 32 <= 2048,
                            columns <= 2048,
                    ;
                    assert(self.values@.len() == self.values.len());
                }
                let block: usize = (row / 32) * columns + col / 32;
                let index: usize = IW44_COEFFICIENTS_PER_BLOCK * block + iw44_inverse_zigzag_index(
                    col % 32,
                    row % 32,
                );
                plane.push(self.values[index]);
                col = col + 1;
            }
            assert((row + 1) * width == row * width + width) by (nonlinear_arith);
            row = row + 1;
        }
        assert(height * width == width * height) by (nonlinear_arith);
        assert(plane@ =~= row_major(
            self.values@,
            self.block_columns as int,
            width as int,
            height as int,
        ));
        plane
    }

    /// The coefficients of the visible part, row by row.
    pub fn to_row_major_plane(&self) -> (plane: Vec<i16>)
        requires
            self.wf(),
        ensures
            plane@ == row_major(
                self.values@,
                blocks_along(self.width as int),
                self.width as int,
                self.height as int,
            ),
            plane@.len() == self.width * self.height,
    {
        assert(0 <= self.width * self.height) by (nonlinear_arith);
        self.gather(self.width, self.height)
    }

    /// The coefficients of all blocks, row by row.
    pub fn to_padded_row_major_plane(&self) -> (plane: Vec<i16>)
        requires
            self.wf(),
        ensures
            plane@ == row_major(
                self.values@,
                self.block_columns as int,
                32 * self.block_columns,
                32 * self.block_rows,
            ),
    {
        self.gather(32 * self.block_columns, 32 * self.block_rows)
    }

    /// The samples that the coefficients stand for.
    pub fn reconstruct_with_options(
        &self,
        order: Iw44ReconstructionOrder,
        extent: Iw44ReconstructionExtent,
    ) -> (samples: Vec<i16>)
        requires
            self.wf(),
        ensures
            samples@ == reconstruction(
                self.values@,
                self.width as int,
                self.height as int,
                order,
                extent,
            ),
            samples@.len() == self.width * self.height,
    {
        proof {
            reveal(reconstruction);
            assert(0 <= self.width * self.height) by (nonlinear_arith);
        }
        let stride: usize = 32 * self.block_columns;
        let rows: usize = 32 * self.block_rows;
        let mut padded: Vec<i16> = self.to_padded_row_major_plane();
        assert(stride * rows == rows * stride && 0 <= stride * rows) by (nonlinear_arith);
        match extent {
            Iw44ReconstructionExtent::Visible => {
                inverse_wavelet_transform_with_order(
                    &mut padded,
                    self.width,
                    self.height,
                    stride,
                    rows,
                    order,
                );
            },
            Iw44ReconstructionExtent::Padded => {
                inverse_wavelet_transform_with_order(
                    &mut padded,
                    stride,
                    rows,
                    stride,
                    rows,
                    order,
                );
            },
        }
        crop_plane(&padded, self.width, self.height, stride, rows)
    }

    /// Counts one more pass over a range of buckets of every block, unless the slice is
    /// null; gives the number of buckets passed over.
    pub fn mark_bucket_range(&mut self, first_bucket: u8, last_bucket: u8, is_null: bool) -> (count:
        usize)
        requires
            old(self).wf(),
            first_bucket <= last_bucket < 64,
            forall|i: int| 0 <= i < old(self).passes@.len() ==> old(self).passes@[i] < u32::MAX,
        ensures
            final(self).wf(),
            final(self).width == old(self).width,
            final(self).height == old(self).height,
            final(self).values@ == old(self).values@,
            final(self).passes@ == if is_null {
                old(self).passes@
            } else {
                marked(old(self).passes@, first_bucket as int, last_bucket as int)
            },
            count == if is_null {
                0
            } else {
                (old(self).block_columns * old(self).block_rows) * (last_bucket - first_bucket + 1)
            },
    {
        if is_null {
            return 0;
        }
        let blocks: usize = self.block_count();
        let ghost start = self.passes@;
        let mut i: usize = 0;
        while i < self.passes.len()
            invariant
                self.wf(),
                self.width == old(self).width,
                self.height == old(self).height,
                self.values@ == old(self).values@,
                self.passes@.len() == start.len(),
                i <= start.len(),
                forall|k: int| 0 <= k < start.len() ==> start[k] < u32::MAX,
                forall|k: int|
                    0 <= k < start.len() ==> self.passes@[k] == if k < i {
                        marked(start, first_bucket as int, last_bucket as int)[k]
                    } else {
                        start[k]
                    },
            decreases start.len() - i,
        {
            let bucket: usize = i % IW44_BUCKETS_PER_BLOCK;
            if first_bucket as usize <= bucket && bucket <= last_bucket as usize {
                self.passes[i] = self.passes[i] + 1;
            }
            i = i + 1;
        }
        assert(self.passes@ =~= marked(start, first_bucket as int, last_bucket as int));
        assert(blocks * (last_bucket - first_bucket + 1) <= 0x40_0000 * 64) by (nonlinear_arith)
            requires
                blocks <= 0x40_0000,
                1 <= last_bucket - first_bucket + 1 <= 64,
        ;
        blocks * (last_bucket as usize - first_bucket as usize + 1)
    }

    /// The number of passes over a bucket.
    pub fn bucket_passes(&self, block: usize, bucket: usize) -> (passes: u32)
        requires
            self.wf(),
            block < self.block_columns * self.block_rows,
            bucket < 64,
        ensures
            passes == self.passes@[64 * block + bucket],
    {
        proof {
            assert(self.passes@.len() == self.passes.len());
        }
        self.passes[IW44_BUCKETS_PER_BLOCK * block + bucket]
    }
}

/// The visible part of a padded plane.
fn crop_plane(padded: &Vec<i16>, width: usize, height: usize, stride: usize, rows: usize) -> (plane:
    Vec<i16>)
    requires
        padded@.len() == rows * stride,
        width <= stride <= 0x1_0000,
        height <= rows <= 0x1_0000,
    ensures
        plane@ == cropped(padded@, width as int, height as int, stride as int),
{
    let mut plane: Vec<i16> = Vec::new();
    let mut row: usize = 0;
    assert(0 <= width * height) by (nonlinear_arith);
    assert(0 * width == 0) by (nonlinear_arith);
    while row < height
        invariant
            padded@.len() == rows * stride,
            width <= stride <= 0x1_0000,
            height <= rows <= 0x1_0000,
            row <= height,
            plane@.len() == row * width,
            forall|p: int|
                0 <= p < plane@.len() ==> plane@[p] == cell(
                    padded@,
                    stride as int,
                    p / (width as int),
                    p % (width as int),
                ),
        decreases height - row,
    {
        let mut col: usize = 0;
        while col < width
            invariant
                padded@.len() == rows * stride,
                width <= stride <= 0x1_0000,
                height <= rows <= 0x1_0000,
                row < height,
                col <= width,
                plane@.len() == row * width + col,
                forall|p: int|
                    0 <= p < plane@.len() ==> plane@[p] == cell(
                        padded@,
                        stride as int,
                        p / (width as int),
                        p % (width as int),
                    ),
            decreases width - col,
        {
            proof {
                lemma_fundamental_div_mod_converse(
                    row * width + col,
                    width as int,
                    row as int,
                    col as int,
                );
                lemma_pixel_index(stride as int, rows as int, col as int, row as int);
                assert(stride * rows == rows * stride) by (nonlinear_arith);
                assert(padded@.len() == padded.len());
            }
            plane.push(padded[row * stride + col]);
            col = col + 1;
        }
        assert((row + 1) * width == row * width + width) by (nonlinear_arith);
        row = row + 1;
    }
    assert(height * width == width * height) by (nonlinear_arith);
    assert(plane@ =~= cropped(padded@, width as int, height as int, stride as int));
    plane
}

} // verus!
