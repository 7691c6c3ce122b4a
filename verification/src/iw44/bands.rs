//! What a slice does to each coefficient of a plane.

use super::blocks::{magnitude, row_major, zigzag_col, zigzag_row};
use super::closing::{lemma_activated, lemma_refined_by_bit};
use super::slice::{
    activated, block_flags, bucket_context, bucket_count, bucket_has, codes, decode_plane_slice,
    first_bucket, is_null_slice, largest_step, last_bucket, pass_active, pass_block, pass_blocks,
    pass_buckets, pass_new_bucket, pass_new_buckets, pass_one_block, pass_one_bucket, plane_blocks,
    refined, reported_step, step_of, unknown_count, Pass, PlaneModel, SliceInfo, Steps,
    IW44_FLAG_ACTIVE, IW44_FLAG_UNKNOWN,
};
use super::{Iw44CoefficientEvent, Iw44CoefficientTraceTarget, Iw44Plane};
use crate::zp::ZpState;
use vstd::prelude::*;

verus! {

/// The bands part the buckets of a block among them, in order: the first starts with the first
/// bucket, the last ends with the last, and each begins right behind the one before it. The
/// first has one bucket, the next three have one each, then three have four times as many each,
/// and the last three four times as many again.
pub proof fn lemma_bands_part_buckets(band: int)
    requires
        0 <= band <= 9,
    ensures
        first_bucket(0) == 0,
        last_bucket(9) == 63,
        first_bucket(band) <= last_bucket(band),
        band < 9 ==> first_bucket(band + 1) == last_bucket(band) + 1,
        1 <= band <= 6 ==> bucket_count(band + 3) == 4 * bucket_count(band),
        0 <= band <= 3 ==> bucket_count(band) == 1,
{
}

/// A coefficient of a block lies in the half of the block that its last two bits choose, the
/// last one between left and right and the one before it between upper and lower; and within
/// that half where its parent lies in the whole block, twice as near.
pub proof fn lemma_children_lie_in_quarters(coefficient: int)
    requires
        0 <= coefficient < 1024,
    ensures
        zigzag_col(0) == 0 && zigzag_row(0) == 0,
        zigzag_col(coefficient) == 16 * (coefficient % 2) + zigzag_col(coefficient / 4) / 2,
        zigzag_row(coefficient) == 16 * ((coefficient / 2) % 2) + zigzag_row(coefficient / 4) / 2,
{
}

/// The blocks of a plane lie row by row: the first coefficient of each is at its upper left
/// corner, and each row of blocks begins where the plane does.
pub proof fn lemma_blocks_lie_in_rows(values: Seq<i16>, columns: int, rows: int, block: int)
    requires
        columns >= 1,
        rows >= 1,
        0 <= block < columns * rows,
    ensures
        ({
            let (row, column) = (32 * (block / columns), 32 * (block % columns));
            let plane = row_major(values, columns, 32 * columns, 32 * rows);
            &&& 0 <= row * (32 * columns) + column < plane.len()
            &&& plane[row * (32 * columns) + column] == values[1024 * block]
        }),
{
    let (q, r) = (block / columns, block % columns);
    vstd::arithmetic::div_mod::lemma_fundamental_div_mod(block, columns);
    assert(0 <= q < rows) by (nonlinear_arith)
        requires
            columns * q + r == block,
            0 <= r < columns,
            0 <= block < columns * rows,
            columns >= 1,
    ;
    assert(columns * q == q * columns) by (nonlinear_arith);
    crate::bitonal::lemma_pixel_index(32 * columns, 32 * rows, 32 * r, 32 * q);
    vstd::arithmetic::div_mod::lemma_fundamental_div_mod_converse(
        (32 * q) * (32 * columns) + 32 * r,
        32 * columns,
        32 * q,
        32 * r,
    );
}

/// Every bucket belongs to one band and no other.
pub proof fn lemma_band_of_bucket(bucket: int)
    requires
        0 <= bucket < 64,
    ensures
        exists|band: int|
            0 <= band <= 9 && #[trigger] first_bucket(band) <= bucket <= last_bucket(band),
        forall|a: int, b: int|
            0 <= a <= 9 && 0 <= b <= 9 && #[trigger] first_bucket(a) <= bucket <= last_bucket(a)
                && #[trigger] first_bucket(b) <= bucket <= last_bucket(b) ==> a == b,
{
    let band: int = if bucket < 4 {
        bucket
    } else if bucket < 8 {
        4
    } else if bucket < 12 {
        5
    } else if bucket < 16 {
        6
    } else if bucket < 32 {
        7
    } else if bucket < 48 {
        8
    } else {
        9
    };
    assert(first_bucket(band) <= bucket <= last_bucket(band));
}

/// The steps of a band are halved by each of its slices, and by those of no other band; the
/// bands take turns, and behind the last the first is next.
pub proof fn lemma_steps_halved(
    plane: PlaneModel,
    zp: ZpState,
    events: Seq<Iw44CoefficientEvent>,
    which: Iw44Plane,
    slice_index: u32,
    target: Option<Iw44CoefficientTraceTarget>,
    band: int,
)
    requires
        0 <= plane.band <= 9,
        0 <= band <= 9,
        plane.steps.lo.len() == 16,
        plane.steps.hi.len() == 10,
    ensures
        ({
            let after = decode_plane_slice(plane, zp, events, which, slice_index, target).plane;
            &&& band == plane.band && band > 0 ==> after.steps.hi[band] == plane.steps.hi[band] / 2
            &&& band != plane.band ==> after.steps.hi[band] == plane.steps.hi[band]
            &&& forall|i: int|
                0 <= i < 16 ==> #[trigger] after.steps.lo[i] == if plane.band == 0 {
                    plane.steps.lo[i] / 2
                } else {
                    plane.steps.lo[i]
                }
            &&& plane.band < 9 ==> after.band == plane.band + 1
            &&& plane.band == 9 ==> after.band == 0
            &&& after.width == plane.width && after.height == plane.height
        }),
{
    reveal(decode_plane_slice);
}

/// The step that is told of a slice is that of its band; of the first band, which has a step for
/// each coefficient, it is the largest.
pub proof fn lemma_step_told(steps: Steps, band: int, offset: int)
    requires
        0 <= band <= 9,
        0 <= offset < 16,
        steps.lo.len() == 16,
    ensures
        band > 0 ==> reported_step(steps, band) == steps.hi[band],
        band == 0 ==> steps.lo[offset] <= reported_step(steps, band),
        band == 0 ==> steps.lo.contains(reported_step(steps, band)) || reported_step(steps, band)
            == 0,
{
    lemma_largest_step(steps.lo, 16, offset);
}

proof fn lemma_largest_step(steps: Seq<u32>, count: int, offset: int)
    requires
        0 <= count <= steps.len(),
    ensures
        0 <= offset < count ==> steps[offset] <= largest_step(steps, count),
        steps.contains(largest_step(steps, count)) || largest_step(steps, count) == 0,
    decreases count,
{
    if count > 0 {
        lemma_largest_step(steps, count - 1, offset);
        assert(steps.contains(steps[count - 1]));
    }
}

/// A slice that codes something is counted as one more pass over the buckets of its band in every
/// block, and over no other bucket; one that codes nothing is not counted.
pub proof fn lemma_passes_counted(
    plane: PlaneModel,
    zp: ZpState,
    events: Seq<Iw44CoefficientEvent>,
    which: Iw44Plane,
    slice_index: u32,
    target: Option<Iw44CoefficientTraceTarget>,
    block: int,
    bucket: int,
)
    requires
        0 <= plane.band <= 9,
        0 <= block,
        0 <= bucket < 64,
        64 * block + bucket < plane.passes.len(),
        plane.passes[64 * block + bucket] < u32::MAX,
    ensures
        ({
            let outcome = decode_plane_slice(plane, zp, events, which, slice_index, target);
            let (before, after) = (
                plane.passes[64 * block + bucket],
                outcome.plane.passes[64 * block + bucket],
            );
            let passed = first_bucket(plane.band) <= bucket <= last_bucket(plane.band);
            &&& outcome.report.is_null ==> after == before
            &&& !outcome.report.is_null && passed ==> after == before + 1
            &&& !passed ==> after == before
            &&& outcome.report.band == plane.band
            &&& outcome.report.first_bucket == first_bucket(plane.band)
            &&& outcome.report.last_bucket == last_bucket(plane.band)
        }),
{
    reveal(decode_plane_slice);
    assert((64 * block + bucket) % 64 == bucket);
}

/// The contexts in which it is decided whether coefficients of a bucket become active: bands
/// share none; within a band they tell apart whether the block has active coefficients, and how
/// many of the bucket's four parents are active, up to three. The parent of coefficient `c` of a
/// block is coefficient `c / 4`; a bucket of the first band has none.
pub proof fn lemma_bucket_contexts(
    band: int,
    values: Seq<i16>,
    block: int,
    bucket: int,
    active: bool,
    other_band: int,
    other_values: Seq<i16>,
    other_block: int,
    other_bucket: int,
    other_active: bool,
)
    requires
        0 <= band <= 9,
        0 <= other_band <= 9,
    ensures
        ({
            let parents = active_parents(band, values, block, bucket);
            let other_parents = active_parents(other_band, other_values, other_block, other_bucket);
            &&& 0 <= bucket_context(band, values, block, bucket, active) < 80
            &&& bucket_context(band, values, block, bucket, active) == bucket_context(
                other_band,
                other_values,
                other_block,
                other_bucket,
                other_active,
            ) <==> {
                &&& band == other_band
                &&& active == other_active
                &&& parents == other_parents || (parents >= 3 && other_parents >= 3)
            }
        }),
{
}

/// Whether the parent of a coefficient of a block is active.
pub open spec fn parent_active(values: Seq<i16>, block: int, coefficient: int) -> int {
    if values[1024 * block + coefficient / 4] != 0 {
        1
    } else {
        0
    }
}

/// How many parents of the coefficients of a bucket are active.
pub open spec fn active_parents(band: int, values: Seq<i16>, block: int, bucket: int) -> int {
    if band == 0 {
        0
    } else {
        parent_active(values, block, 16 * bucket) + parent_active(values, block, 16 * bucket + 4)
            + parent_active(values, block, 16 * bucket + 8) + parent_active(
            values,
            block,
            16 * bucket + 12,
        )
    }
}

/// Whether a coefficient stays at 0 or becomes active with a step.
spec fn stays_or_starts(before: i16, after: i16, step: int) -> bool {
    after == before || after == activated(step, true) || after == activated(step, false)
}

/// Whether an active coefficient is refined with a step.
spec fn goes_on_by(before: i16, after: i16, step: int) -> bool {
    let coded = magnitude(before) <= 3 * step;
    after == refined(before, step, coded, true) || after == refined(before, step, coded, false)
}

proof fn lemma_buckets_keep_values(
    pass: Pass,
    info: SliceInfo,
    flags: Seq<u8>,
    block: int,
    news: Seq<bool>,
)
    requires
        news.len() <= bucket_count(info.band as int),
    ensures
        pass_buckets(pass, info, flags, block, news).0.values == pass.values,
        pass_buckets(pass, info, flags, block, news).1.len() == bucket_count(info.band as int),
    decreases bucket_count(info.band as int) - news.len(),
{
    let j = news.len() as int;
    if j < bucket_count(info.band as int) {
        let (next, decision) = pass_one_bucket(pass, info, flags, block, j);
        lemma_buckets_keep_values(next, info, flags, block, news.push(decision));
    }
}

proof fn lemma_new_bucket(
    pass: Pass,
    info: SliceInfo,
    steps: Steps,
    flags: Seq<u8>,
    block: int,
    j: int,
    offset: int,
    unknown: int,
    place: int,
)
    requires
        0 <= offset <= 16,
        0 <= 1024 * block + 16 * (first_bucket(info.band as int) + j),
        1024 * block + 16 * (first_bucket(info.band as int) + j) + 16 <= pass.values.len(),
        0 <= place < pass.values.len(),
    ensures
        ({
            let end = pass_new_bucket(pass, info, steps, flags, block, j, offset, unknown);
            let at = place - (1024 * block + 16 * (first_bucket(info.band as int) + j));
            &&& end.values.len() == pass.values.len()
            &&& if offset <= at < 16 && flags[16 * j + at] == IW44_FLAG_UNKNOWN {
                stays_or_starts(
                    pass.values[place],
                    end.values[place],
                    step_of(steps, info.band as int, at),
                )
            } else {
                end.values[place] == pass.values[place]
            }
        }),
    decreases 16 - offset,
{
    if offset < 16 {
        if flags[16 * j + offset] != IW44_FLAG_UNKNOWN {
            lemma_new_bucket(pass, info, steps, flags, block, j, offset + 1, unknown, place);
        } else {
            let (next, left) = super::slice::pass_new_coefficient(
                pass,
                info,
                steps,
                if bucket_has(flags, j, IW44_FLAG_ACTIVE) { 8 } else { 0 },
                block,
                first_bucket(info.band as int) + j,
                offset,
                unknown,
            );
            lemma_new_bucket(next, info, steps, flags, block, j, offset + 1, left, place);
        }
    }
}

proof fn lemma_new_buckets(
    pass: Pass,
    info: SliceInfo,
    steps: Steps,
    flags: Seq<u8>,
    block: int,
    news: Seq<bool>,
    j: int,
    place: int,
)
    requires
        0 <= j <= news.len(),
        0 <= info.band <= 9,
        0 <= block,
        news.len() == bucket_count(info.band as int),
        1024 * block + 1024 <= pass.values.len(),
        0 <= place < pass.values.len(),
    ensures
        ({
            let end = pass_new_buckets(pass, info, steps, flags, block, news, j);
            let at = place - (1024 * block + 16 * first_bucket(info.band as int));
            &&& end.values.len() == pass.values.len()
            &&& if 16 * j <= at < 16 * news.len() && flags[at] == IW44_FLAG_UNKNOWN {
                stays_or_starts(
                    pass.values[place],
                    end.values[place],
                    step_of(steps, info.band as int, at % 16),
                )
            } else {
                end.values[place] == pass.values[place]
            }
        }),
    decreases news.len() - j,
{
    if j < news.len() {
        let next = if news[j] {
            let unknown = unknown_count(flags, j, 16);
            lemma_new_bucket(pass, info, steps, flags, block, j, 0, unknown, place);
            pass_new_bucket(pass, info, steps, flags, block, j, 0, unknown)
        } else {
            pass
        };
        let at = place - (1024 * block + 16 * first_bucket(info.band as int));
        assert(16 * j <= at < 16 * j + 16 ==> at % 16 == at - 16 * j);
        lemma_new_buckets(next, info, steps, flags, block, news, j + 1, place);
    }
}

proof fn lemma_active(
    pass: Pass,
    info: SliceInfo,
    steps: Steps,
    flags: Seq<u8>,
    block: int,
    i: int,
    place: int,
)
    requires
        0 <= i <= flags.len(),
        0 <= info.band <= 9,
        0 <= block,
        flags.len() == 16 * bucket_count(info.band as int),
        1024 * block + 1024 <= pass.values.len(),
        0 <= place < pass.values.len(),
    ensures
        ({
            let end = pass_active(pass, info, steps, flags, block, i);
            let at = place - (1024 * block + 16 * first_bucket(info.band as int));
            &&& end.values.len() == pass.values.len()
            &&& if i <= at < flags.len() && flags[at] == IW44_FLAG_ACTIVE {
                goes_on_by(
                    pass.values[place],
                    end.values[place],
                    step_of(steps, info.band as int, at % 16),
                )
            } else {
                end.values[place] == pass.values[place]
            }
        }),
    decreases flags.len() - i,
{
    if i < flags.len() {
        let next = if flags[i] == IW44_FLAG_ACTIVE {
            super::slice::pass_active_coefficient(
                pass,
                info,
                steps,
                block,
                first_bucket(info.band as int) + i / 16,
                i % 16,
            )
        } else {
            pass
        };
        assert(16 * (first_bucket(info.band as int) + i / 16) + i % 16 == 16 * first_bucket(
            info.band as int,
        ) + i);
        lemma_active(next, info, steps, flags, block, i + 1, place);
    }
}

/// Whether a slice of a band codes the coefficient of a block with the given number.
pub open spec fn slice_codes(steps: Steps, band: int, coefficient: int) -> bool {
    &&& 16 * first_bucket(band) <= coefficient < 16 * last_bucket(band) + 16
    &&& band == 0 ==> codes(steps.lo[coefficient % 16])
}

/// What a slice may do to a coefficient: leave it, if the slice does not code it; keep it at 0
/// or make it active, if it is 0; refine it, if it is active.
spec fn done_by(steps: Steps, band: int, coefficient: int, before: i16, after: i16) -> bool {
    let step = step_of(steps, band, coefficient % 16);
    if !slice_codes(steps, band, coefficient) {
        after == before
    } else if before == 0 {
        stays_or_starts(before, after, step)
    } else {
        goes_on_by(before, after, step)
    }
}

proof fn lemma_one_block(pass: Pass, info: SliceInfo, steps: Steps, block: int, place: int)
    requires
        0 <= info.band <= 9,
        0 <= block,
        1024 * block + 1024 <= pass.values.len(),
        0 <= place < pass.values.len(),
    ensures
        ({
            let end = pass_one_block(pass, info, steps, block);
            &&& end.values.len() == pass.values.len()
            &&& if place / 1024 == block {
                done_by(
                    steps,
                    info.band as int,
                    place % 1024,
                    pass.values[place],
                    end.values[place],
                )
            } else {
                end.values[place] == pass.values[place]
            }
        }),
{
    let band = info.band as int;
    let flags = block_flags(steps, band, pass.values, block);
    let (entered, open) = pass_block(pass, band, flags);
    let at = place - (1024 * block + 16 * first_bucket(band));
    let (chosen, news) = pass_buckets(entered, info, flags, block, Seq::empty());
    lemma_buckets_keep_values(entered, info, flags, block, Seq::empty());
    lemma_new_buckets(chosen, info, steps, flags, block, news, 0, place);
    let grown = if open {
        if news.contains(true) {
            pass_new_buckets(chosen, info, steps, flags, block, news, 0)
        } else {
            chosen
        }
    } else {
        entered
    };
    lemma_active(grown, info, steps, flags, block, 0, place);
    if 0 <= at < flags.len() {
        assert(1024 * block + 16 * (first_bucket(band) + at / 16) + at % 16 == place);
        assert(flags[at] == super::slice::coefficient_flag(
            steps,
            band,
            pass.values,
            block,
            first_bucket(band) + at / 16,
            at % 16,
        ));
        assert(place / 1024 == block);
        assert((place % 1024) % 16 == at % 16);
        if flags[at] == IW44_FLAG_ACTIVE {
            assert(flags.contains(IW44_FLAG_ACTIVE));
        }
    }
}

proof fn lemma_blocks(
    pass: Pass,
    info: SliceInfo,
    steps: Steps,
    block: int,
    count: int,
    place: int,
)
    requires
        0 <= info.band <= 9,
        0 <= block,
        1024 * count <= pass.values.len(),
        0 <= place < pass.values.len(),
    ensures
        ({
            let end = pass_blocks(pass, info, steps, block, count);
            &&& end.values.len() == pass.values.len()
            &&& if block <= place / 1024 < count {
                done_by(
                    steps,
                    info.band as int,
                    place % 1024,
                    pass.values[place],
                    end.values[place],
                )
            } else {
                end.values[place] == pass.values[place]
            }
        }),
    decreases count - block,
{
    if block < count {
        lemma_one_block(pass, info, steps, block, place);
        lemma_blocks(
            pass_one_block(pass, info, steps, block),
            info,
            steps,
            block + 1,
            count,
            place,
        );
    }
}

proof fn lemma_slice_done(
    plane: PlaneModel,
    zp: ZpState,
    events: Seq<Iw44CoefficientEvent>,
    which: Iw44Plane,
    slice_index: u32,
    target: Option<Iw44CoefficientTraceTarget>,
    place: int,
)
    requires
        0 <= plane.band <= 9,
        plane.values.len() == 1024 * plane_blocks(plane),
        0 <= place < plane.values.len(),
    ensures
        ({
            let after = decode_plane_slice(plane, zp, events, which, slice_index, target).plane;
            &&& after.values.len() == plane.values.len()
            &&& is_null_slice(plane.steps, plane.band) ==> after.values == plane.values
            &&& !is_null_slice(plane.steps, plane.band) ==> done_by(
                plane.steps,
                plane.band,
                place % 1024,
                plane.values[place],
                after.values[place],
            )
        }),
{
    reveal(decode_plane_slice);
    let band = plane.band;
    let start = Pass {
        zp,
        bucket: plane.bucket,
        coef: plane.coef,
        activate: plane.activate,
        increase: plane.increase,
        values: plane.values,
        events,
    };
    let info = SliceInfo {
        plane: which,
        slice_index,
        band: band as u8,
        quant: reported_step(plane.steps, band),
        target,
    };
    lemma_blocks(start, info, plane.steps, 0, plane_blocks(plane), place);
}

proof fn lemma_refined_amount(old_value: i16, new_value: i16, step: int)
    requires
        0 < step <= magnitude(old_value),
        magnitude(old_value) + step <= 0x7fff,
        goes_on_by(old_value, new_value, step),
    ensures
        -step <= magnitude(new_value) - magnitude(old_value) <= step,
        magnitude(new_value) >= magnitude(old_value) + step / 2 || magnitude(new_value)
            <= magnitude(old_value) - step / 4,
        new_value != 0 ==> (new_value < 0 <==> old_value < 0),
{
    lemma_refined_by_bit(old_value, step, magnitude(old_value) <= 3 * step);
}

/// What a slice does to a coefficient of a plane. One that lies in a bucket of another band, or
/// whose step codes nothing, stays as it is. One of 0 stays at 0 or becomes active, with a size
/// from its step up to twice its step. One that is active keeps its sign, and its size changes
/// by no more than its step, and by no less than a quarter of it, rounded down.
pub proof fn lemma_slice_on_coefficient(
    plane: PlaneModel,
    zp: ZpState,
    events: Seq<Iw44CoefficientEvent>,
    which: Iw44Plane,
    slice_index: u32,
    target: Option<Iw44CoefficientTraceTarget>,
    block: int,
    coefficient: int,
)
    requires
        0 <= plane.band <= 9,
        plane.values.len() == 1024 * plane_blocks(plane),
        0 <= block < plane_blocks(plane),
        0 <= coefficient < 1024,
    ensures
        ({
            let after = decode_plane_slice(plane, zp, events, which, slice_index, target).plane;
            let place = 1024 * block + coefficient;
            let step = step_of(plane.steps, plane.band, coefficient % 16);
            let (old_value, new_value) = (plane.values[place], after.values[place]);
            let bucket = coefficient / 16;
            let coded = first_bucket(plane.band) <= bucket <= last_bucket(plane.band) && 0 < step
                < 0x8000;
            &&& after.values.len() == plane.values.len()
            &&& !coded ==> new_value == old_value
            &&& coded && old_value == 0 && step <= 0x5000 ==> new_value == 0 || step <= magnitude(
                new_value,
            ) < 2 * step
            &&& coded && step <= magnitude(old_value) && magnitude(old_value) + step <= 0x7fff ==> {
                &&& -step <= magnitude(new_value) - magnitude(old_value) <= step
                &&& magnitude(new_value) >= magnitude(old_value) + step / 2 || magnitude(new_value)
                    <= magnitude(old_value) - step / 4
                &&& new_value != 0 ==> (new_value < 0 <==> old_value < 0)
            }
        }),
{
    let band = plane.band;
    let place = 1024 * block + coefficient;
    let step = step_of(plane.steps, band, coefficient % 16);
    assert(place / 1024 == block && place % 1024 == coefficient);
    assert(place < 1024 * plane_blocks(plane));
    lemma_slice_done(plane, zp, events, which, slice_index, target, place);
    let after = decode_plane_slice(plane, zp, events, which, slice_index, target).plane;
    let (old_value, new_value) = (plane.values[place], after.values[place]);
    let bucket = coefficient / 16;
    if band == 0 {
        assert(0 <= coefficient % 16 < 16);
        assert(codes(plane.steps.lo[coefficient % 16]) ==> !is_null_slice(plane.steps, band));
    }
    let inside = first_bucket(band) <= bucket <= last_bucket(band);
    assert(inside <==> 16 * first_bucket(band) <= coefficient < 16 * last_bucket(band) + 16);
    if inside && 0 < step < 0x8000 {
        assert(slice_codes(plane.steps, band, coefficient));
        assert(!is_null_slice(plane.steps, band));
        if old_value == 0 && step <= 0x5000 {
            lemma_activated(step, true);
            lemma_activated(step, false);
        }
        if step <= magnitude(old_value) && magnitude(old_value) + step <= 0x7fff {
            assert(old_value != 0);
            lemma_refined_amount(old_value, new_value, step);
        }
    }
}

} // verus!
