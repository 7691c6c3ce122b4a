//! How the decoded size of a coefficient closes in on the size that was coded.

use super::blocks::magnitude;
use super::slice::{
    activated, pass_active_coefficient, pass_new_coefficient, refined, step_of, Pass, SliceInfo,
    Steps,
};
use super::wavelet::wrap16;
use crate::zp::{zp_context_bit, zp_iw44_passthrough_bit};
use vstd::prelude::*;

verus! {

/// The size under which a coefficient of the given size is known after a step: if it became
/// active with that step, about eleven eighths of it; later the middle of that interval as
/// long as the step in which the size lies.
pub open spec fn known_size(size: int, step: int) -> int {
    if size < 2 * step {
        step + step / 2 - step / 8
    } else {
        (size / step) * step + step / 2
    }
}

/// The size that is known differs from that which was coded by no more than the step.
pub proof fn lemma_known_size_is_near(size: int, step: int)
    requires
        0 < step <= size,
    ensures
        -step <= known_size(size, step) - size <= step,
{
    vstd::arithmetic::div_mod::lemma_fundamental_div_mod(size, step);
    assert((size / step) * step == step * (size / step)) by (nonlinear_arith);
}

/// A coefficient that becomes active gets its sign, and about eleven eighths of the step: at
/// least the step, and less than twice the step.
pub proof fn lemma_activated(step: int, negative: bool)
    requires
        0 < step,
        3 * step <= 0xffff,
    ensures
        activated(step, negative) < 0 <==> negative,
        step <= magnitude(activated(step, negative)) < 2 * step,
        -8 < 8 * magnitude(activated(step, negative)) - 11 * step < 8,
        magnitude(activated(step, negative)) == magnitude(activated(step, !negative)),
{
    lemma_no_wrap(step + step / 2 - step / 8);
    lemma_no_wrap(-(step + step / 2 - step / 8));
}

/// An active coefficient whose bit is set ends larger than one whose bit is clear, by exactly
/// the step; a set bit never makes it smaller; neither bit changes its sign.
pub proof fn lemma_refined_by_bit(value: i16, step: int, coded: bool)
    requires
        0 < step <= magnitude(value),
        magnitude(value) + step <= 0x7fff,
    ensures
        ({
            let up = refined(value, step, coded, true);
            let down = refined(value, step, coded, false);
            &&& magnitude(up) == magnitude(down) + step
            &&& magnitude(value) <= magnitude(up) <= magnitude(value) + step
            &&& magnitude(down) < magnitude(value)
            &&& up < 0 <==> value < 0
            &&& down != 0 ==> (down < 0 <==> value < 0)
        }),
{
    let more = if coded {
        step / 4
    } else {
        0
    };
    let size = magnitude(value) + more + step / 2;
    lemma_refined_size(value, step, coded, true, size);
    lemma_refined_size(value, step, coded, false, size - step);
}

/// Refinement closes in on the size that was coded. Let a coefficient be known as one of the
/// given size is after twice the step, and its bit say whether that size lies in the upper
/// half of the interval then known. Then it is known as one of that size is after the step,
/// with its sign.
pub proof fn lemma_refinement_closes_in(value: i16, size: int, step: int)
    requires
        0 < step,
        2 * step <= size,
        size + step <= 0x7fff,
        magnitude(value) == known_size(size, 2 * step),
    ensures
        ({
            let bit = (size / step) % 2 == 1;
            let after = refined(value, step, magnitude(value) <= 3 * step, bit);
            &&& magnitude(after) == known_size(size, step)
            &&& after < 0 <==> value < 0
        }),
{
    let (wide, narrow) = ((size / (2 * step)) * (2 * step), (size / step) * step);
    lemma_intervals(size, step);
    let bit = (size / step) % 2 == 1;
    assert(narrow == if bit { wide + step } else { wide });
    assert((2 * step) / 2 == step && (2 * step) / 8 == step / 4);
    let coded = magnitude(value) <= 3 * step;
    if size < 4 * step {
        assert(magnitude(value) == 3 * step - step / 4);
        assert(coded);
    } else {
        assert(magnitude(value) == wide + step);
        assert(!coded);
    }
    lemma_refined_size(value, step, coded, bit, narrow + step / 2);
}

/// The interval of twice a length that holds a number is made of two intervals of that
/// length, and the number lies in the upper one exactly if the count of lengths below it is
/// odd.
proof fn lemma_intervals(size: int, step: int)
    requires
        0 < step,
        2 * step <= size,
    ensures
        ({
            let (wide, narrow) = ((size / (2 * step)) * (2 * step), (size / step) * step);
            &&& narrow == if (size / step) % 2 == 1 { wide + step } else { wide }
            &&& narrow <= size < narrow + step
            &&& size < 4 * step ==> wide == 2 * step
            &&& size >= 4 * step ==> wide >= 4 * step
        }),
{
    let double = 2 * step;
    vstd::arithmetic::div_mod::lemma_fundamental_div_mod(size, double);
    let (q, r) = (size / double, size % double);
    assert(q * double == 2 * (step * q) && double * q == 2 * (step * q)) by (nonlinear_arith)
        requires
            double == 2 * step,
    ;
    if r < step {
        assert(step * (2 * q) == 2 * (step * q) && (2 * q) * step == 2 * (step * q))
            by (nonlinear_arith);
        vstd::arithmetic::div_mod::lemma_fundamental_div_mod_converse(size, step, 2 * q, r);
    } else {
        assert(step * (2 * q + 1) == 2 * (step * q) + step && (2 * q + 1) * step == 2 * (step
            * q) + step) by (nonlinear_arith);
        vstd::arithmetic::div_mod::lemma_fundamental_div_mod_converse(
            size,
            step,
            2 * q + 1,
            r - step,
        );
    }
    let product = step * q;
    assert(q <= 0 ==> product <= 0) by (nonlinear_arith)
        requires
            step > 0,
            product == step * q,
    ;
    assert(q == 1 ==> product == step) by (nonlinear_arith)
        requires
            product == step * q,
    ;
    assert(q >= 2 ==> product >= 2 * step) by (nonlinear_arith)
        requires
            step > 0,
            product == step * q,
    ;
}

proof fn lemma_refined_size(value: i16, step: int, coded: bool, increase: bool, size: int)
    requires
        value != 0,
        0 <= size <= 0x7fff,
        size == magnitude(value) + (if coded { step / 4 } else { 0 }) + (if increase {
            step / 2
        } else {
            -step + step / 2
        }),
    ensures
        magnitude(refined(value, step, coded, increase)) == size,
        size > 0 ==> (refined(value, step, coded, increase) < 0 <==> value < 0),
{
    lemma_no_wrap(size);
    lemma_no_wrap(-size);
}

proof fn lemma_no_wrap(value: int)
    requires
        -0x8000 <= value <= 0x7fff,
    ensures
        wrap16(value) == value,
{
}

/// Where the coder says that a coefficient becomes active, it is then known as one of any
/// size from the step up to twice the step, with the sign of the bit that follows; where the
/// coder does not say so, it stays. No other coefficient changes.
pub proof fn lemma_coefficient_becomes_active(
    pass: Pass,
    info: SliceInfo,
    steps: Steps,
    shift: int,
    block: int,
    bucket: int,
    offset: int,
    unknown: int,
    size: int,
)
    requires
        0 <= 1024 * block + 16 * bucket + offset < pass.values.len(),
        0 <= unknown,
        step_of(steps, info.band as int, offset) <= size < 2 * step_of(
            steps,
            info.band as int,
            offset,
        ),
        size <= 0x4000,
    ensures
        ({
            let place = 1024 * block + 16 * bucket + offset;
            let step = step_of(steps, info.band as int, offset);
            let next = pass_new_coefficient(
                pass,
                info,
                steps,
                shift,
                block,
                bucket,
                offset,
                unknown,
            );
            let open = if unknown > 7 { 7 } else { unknown };
            let (bit, zp, _) = zp_context_bit(pass.zp, pass.activate[shift + open]);
            let (negative, after) = zp_iw44_passthrough_bit(zp);
            &&& next.0.values.len() == pass.values.len()
            &&& forall|p: int|
                0 <= p < pass.values.len() && p != place ==> #[trigger] next.0.values[p]
                    == pass.values[p]
            &&& bit ==> {
                &&& magnitude(next.0.values[place]) == known_size(size, step)
                &&& next.0.values[place] < 0 <==> negative
                &&& next.0.zp == after
                &&& next.1 == 0
            }
            &&& !bit ==> {
                &&& next.0.values == pass.values
                &&& next.0.zp == zp
                &&& next.1 == if unknown > 0 { unknown - 1 } else { 0 }
            }
        }),
{
    lemma_activated(step_of(steps, info.band as int, offset), true);
    lemma_activated(step_of(steps, info.band as int, offset), false);
}

/// Where the bit that the coder gives of an active coefficient says whether a size lies in
/// the upper half of the interval that is known, the slice closes in on that size: in the
/// context of refinement, if the coefficient is known as no more than three steps, and
/// without a context, if it is known as more. No other coefficient changes.
pub proof fn lemma_coefficient_closes_in(
    pass: Pass,
    info: SliceInfo,
    steps: Steps,
    block: int,
    bucket: int,
    offset: int,
    size: int,
)
    requires
        0 <= 1024 * block + 16 * bucket + offset < pass.values.len(),
        0 < step_of(steps, info.band as int, offset),
        2 * step_of(steps, info.band as int, offset) <= size,
        size + step_of(steps, info.band as int, offset) <= 0x7fff,
        magnitude(pass.values[1024 * block + 16 * bucket + offset]) == known_size(
            size,
            2 * step_of(steps, info.band as int, offset),
        ),
        ({
            let step = step_of(steps, info.band as int, offset);
            let value = pass.values[1024 * block + 16 * bucket + offset];
            let bit = if magnitude(value) <= 3 * step {
                zp_context_bit(pass.zp, pass.increase).0
            } else {
                zp_iw44_passthrough_bit(pass.zp).0
            };
            bit == ((size / step) % 2 == 1)
        }),
    ensures
        ({
            let place = 1024 * block + 16 * bucket + offset;
            let step = step_of(steps, info.band as int, offset);
            let next = pass_active_coefficient(pass, info, steps, block, bucket, offset);
            &&& magnitude(next.values[place]) == known_size(size, step)
            &&& next.values[place] < 0 <==> pass.values[place] < 0
            &&& next.values.len() == pass.values.len()
            &&& forall|p: int|
                0 <= p < pass.values.len() && p != place ==> #[trigger] next.values[p]
                    == pass.values[p]
        }),
{
    let place = 1024 * block + 16 * bucket + offset;
    let step = step_of(steps, info.band as int, offset);
    lemma_refinement_closes_in(pass.values[place], size, step);
}

/// The sizes under which a coefficient is known after so many slices of its band, each with
/// half the step of the one before: it becomes active with the first step, and each later bit
/// says whether its size lies in the upper half of the interval then known.
pub open spec fn coded_value(size: int, negative: bool, last_step: int, slices: nat) -> i16
    decreases slices,
{
    if slices == 0 {
        activated(last_step, negative)
    } else {
        let before = coded_value(size, negative, 2 * last_step, (slices - 1) as nat);
        refined(
            before,
            last_step,
            magnitude(before) <= 3 * last_step,
            (size / last_step) % 2 == 1,
        )
    }
}

/// The step with which the first of so many slices goes, if the last goes with the given one.
pub open spec fn first_step(last_step: int, slices: nat) -> int
    decreases slices,
{
    if slices == 0 {
        last_step
    } else {
        first_step(2 * last_step, (slices - 1) as nat)
    }
}

/// A coefficient that is coded by activation and by one bit for each later slice is decoded
/// with its sign, and with a size that differs from its own by no more than the last step; by
/// no more than half of it, once it was refined.
pub proof fn lemma_coded_value_is_near(size: int, negative: bool, last_step: int, slices: nat)
    requires
        0 < last_step,
        first_step(last_step, slices) <= size < 2 * first_step(last_step, slices),
        size <= 0x4000,
    ensures
        ({
            let decoded = coded_value(size, negative, last_step, slices);
            &&& decoded < 0 <==> negative
            &&& magnitude(decoded) == known_size(size, last_step)
            &&& -last_step <= magnitude(decoded) - size <= last_step
            &&& slices > 0 ==> -last_step <= 2 * (magnitude(decoded) - size) <= last_step
        }),
    decreases slices,
{
    lemma_first_step(last_step, slices);
    lemma_known_size_is_near(size, last_step);
    if slices == 0 {
        lemma_activated(last_step, negative);
    } else {
        lemma_coded_value_is_near(size, negative, 2 * last_step, (slices - 1) as nat);
        let before = coded_value(size, negative, 2 * last_step, (slices - 1) as nat);
        lemma_refinement_closes_in(before, size, last_step);
        vstd::arithmetic::div_mod::lemma_fundamental_div_mod(size, last_step);
        assert((size / last_step) * last_step == last_step * (size / last_step))
            by (nonlinear_arith);
    }
}

proof fn lemma_first_step(last_step: int, slices: nat)
    requires
        0 < last_step,
    ensures
        last_step <= first_step(last_step, slices),
        slices > 0 ==> 2 * last_step <= first_step(last_step, slices),
    decreases slices,
{
    if slices > 0 {
        lemma_first_step(2 * last_step, (slices - 1) as nat);
    }
}

} // verus!
