//! The slices in which the coefficients of a plane are coded.

use super::blocks::{
    blocks_along, magnitude, magnitude_of, marked, plane_fits, Iw44CoefficientBuffer,
    IW44_COEFFICIENTS_PER_BUCKET,
};
use super::wavelet::{iw44_coefficient, wrap16};
use super::{
    Iw44Bitstream, Iw44CoefficientEvent, Iw44CoefficientEventKind, Iw44CoefficientTraceTarget,
    Iw44Plane, Iw44PlaneSlice,
};
use crate::zp::{zp_context_bit, zp_iw44_passthrough_bit, ZpState};
use vstd::prelude::*;

verus! {

/// A coefficient that the slice leaves alone.
pub const IW44_FLAG_ZERO: u8 = 1;

/// A coefficient other than 0.
pub const IW44_FLAG_ACTIVE: u8 = 2;

/// A bucket or block in which coefficients may become active.
pub const IW44_FLAG_NEW: u8 = 4;

/// A coefficient of 0 that may become active.
pub const IW44_FLAG_UNKNOWN: u8 = 8;

/// The first steps of the coefficients of band 0.
pub const IW44_QUANT_LO_INIT: [u32; 16] = [
    0x0000_4000,
    0x0000_8000,
    0x0000_8000,
    0x0001_0000,
    0x0001_0000,
    0x0001_0000,
    0x0001_0000,
    0x0001_0000,
    0x0001_0000,
    0x0001_0000,
    0x0001_0000,
    0x0001_0000,
    0x0002_0000,
    0x0002_0000,
    0x0002_0000,
    0x0002_0000,
];

/// The first steps of the other bands.
pub const IW44_QUANT_HI_INIT: [u32; 10] = [
    0,
    0x0002_0000,
    0x0002_0000,
    0x0004_0000,
    0x0004_0000,
    0x0004_0000,
    0x0008_0000,
    0x0004_0000,
    0x0004_0000,
    0x0008_0000,
];

/// The first bucket of a band.
pub open spec fn first_bucket(band: int) -> int {
    if band <= 3 {
        band
    } else if band == 4 {
        4
    } else if band == 5 {
        8
    } else if band == 6 {
        12
    } else if band == 7 {
        16
    } else if band == 8 {
        32
    } else {
        48
    }
}

/// The last bucket of a band.
pub open spec fn last_bucket(band: int) -> int {
    if band <= 3 {
        band
    } else if band == 4 {
        7
    } else if band == 5 {
        11
    } else if band == 6 {
        15
    } else if band == 7 {
        31
    } else if band == 8 {
        47
    } else {
        63
    }
}

/// The number of buckets of a band.
pub open spec fn bucket_count(band: int) -> int {
    last_bucket(band) - first_bucket(band) + 1
}

/// The buckets of a band.
pub fn band_buckets(band: u8) -> (range: (u8, u8))
    requires
        band < 10,
    ensures
        range.0 == first_bucket(band as int),
        range.1 == last_bucket(band as int),
        range.0 <= range.1 < 64,
        range.1 - range.0 < 16,
{
    match band {
        0 => (0, 0),
        1 => (1, 1),
        2 => (2, 2),
        3 => (3, 3),
        4 => (4, 7),
        5 => (8, 11),
        6 => (12, 15),
        7 => (16, 31),
        8 => (32, 47),
        _ => (48, 63),
    }
}

/// The steps by which coefficients are refined: one for each coefficient of band 0,
/// and one for each other band.
#[verifier::ext_equal]
pub struct Steps {
    pub lo: Seq<u32>,
    pub hi: Seq<u32>,
}

/// Whether a step is one that codes something.
pub open spec fn codes(step: u32) -> bool {
    0 < step < 0x8000
}

/// The step of a coefficient of a bucket of a band.
pub open spec fn step_of(steps: Steps, band: int, offset: int) -> int {
    if band == 0 {
        steps.lo[offset] as int
    } else {
        steps.hi[band] as int
    }
}

/// Whether a slice of a band codes nothing.
pub open spec fn is_null_slice(steps: Steps, band: int) -> bool {
    if band == 0 {
        forall|i: int| 0 <= i < 16 ==> !codes(#[trigger] steps.lo[i])
    } else {
        !codes(steps.hi[band])
    }
}

/// The largest of the first `count` steps.
pub open spec fn largest_step(steps: Seq<u32>, count: int) -> u32
    decreases count,
{
    if count <= 0 {
        0
    } else {
        let rest = largest_step(steps, count - 1);
        if steps[count - 1] > rest {
            steps[count - 1]
        } else {
            rest
        }
    }
}

/// The step that is reported of a slice of a band.
pub open spec fn reported_step(steps: Steps, band: int) -> u32 {
    if band == 0 {
        largest_step(steps.lo, 16)
    } else {
        steps.hi[band]
    }
}

/// The steps after a slice of a band.
pub open spec fn halved(steps: Steps, band: int) -> Steps {
    Steps {
        lo: if band == 0 {
            Seq::new(steps.lo.len(), |i: int| steps.lo[i] / 2)
        } else {
            steps.lo
        },
        hi: steps.hi.update(band, steps.hi[band] / 2),
    }
}

/// What is the same for all blocks of a slice.
#[derive(Debug, Clone, Copy)]
pub struct SliceInfo {
    pub plane: Iw44Plane,
    pub slice_index: u32,
    pub band: u8,
    pub quant: u32,
    pub target: Option<Iw44CoefficientTraceTarget>,
}

/// A decoding of a slice under way: the coder, the contexts, the coefficients of all
/// blocks, and the events at the coefficient that is traced.
#[verifier::ext_equal]
pub struct Pass {
    pub zp: ZpState,
    pub bucket: u8,
    pub coef: Seq<u8>,
    pub activate: Seq<u8>,
    pub increase: u8,
    pub values: Seq<i16>,
    pub events: Seq<Iw44CoefficientEvent>,
}

/// The state of a coefficient when decoding of its block starts.
pub open spec fn coefficient_flag(
    steps: Steps,
    band: int,
    values: Seq<i16>,
    block: int,
    bucket: int,
    offset: int,
) -> u8 {
    if band == 0 && !codes(steps.lo[offset]) {
        IW44_FLAG_ZERO
    } else if values[1024 * block + 16 * bucket + offset] == 0 {
        IW44_FLAG_UNKNOWN
    } else {
        IW44_FLAG_ACTIVE
    }
}

/// The states of the coefficients of a block in the buckets of a band.
pub open spec fn block_flags(
    steps: Steps,
    band: int,
    values: Seq<i16>,
    block: int,
) -> Seq<u8> {
    Seq::new(
        (16 * bucket_count(band)) as nat,
        |i: int|
            coefficient_flag(steps, band, values, block, first_bucket(band) + i / 16, i % 16),
    )
}

/// Whether a bucket has a coefficient of the given state.
pub open spec fn bucket_has(flags: Seq<u8>, j: int, flag: u8) -> bool {
    exists|offset: int| 0 <= offset < 16 && #[trigger] flags[16 * j + offset] == flag
}

/// The states of a bucket's coefficients as a sum of flags.
pub open spec fn bucket_state(flags: Seq<u8>, j: int) -> int {
    (if bucket_has(flags, j, IW44_FLAG_ZERO) { 1int } else { 0int }) + (if bucket_has(
        flags,
        j,
        IW44_FLAG_ACTIVE,
    ) { 2int } else { 0int }) + (if bucket_has(flags, j, IW44_FLAG_UNKNOWN) { 8int } else { 0int })
}

/// The states of a block's coefficients as a sum of flags.
pub open spec fn block_state(flags: Seq<u8>) -> int {
    (if flags.contains(IW44_FLAG_ZERO) { 1int } else { 0int }) + (if flags.contains(
        IW44_FLAG_ACTIVE,
    ) { 2int } else { 0int }) + (if flags.contains(IW44_FLAG_UNKNOWN) { 8int } else { 0int })
}

/// How many of the first `count` coefficients of a bucket may become active.
pub open spec fn unknown_count(flags: Seq<u8>, j: int, count: int) -> int
    decreases count,
{
    if count <= 0 {
        0
    } else {
        unknown_count(flags, j, count - 1) + if flags[16 * j + count - 1] == IW44_FLAG_UNKNOWN {
            1int
        } else {
            0int
        }
    }
}

/// Whether a coefficient is the one that is traced.
pub open spec fn traces(info: SliceInfo, block: int, coefficient: int) -> bool {
    match info.target {
        Some(target) => target.plane == info.plane && target.block == block && target.coefficient
            == coefficient,
        None => false,
    }
}

/// Whether the coefficient that is traced lies in a bucket.
pub open spec fn traces_bucket(info: SliceInfo, block: int, bucket: int) -> bool {
    match info.target {
        Some(target) => target.plane == info.plane && target.block == block && target.coefficient
            / 16 == bucket,
        None => false,
    }
}

/// An event at the coefficient that is traced.
pub open spec fn event_at(
    info: SliceInfo,
    quant: int,
    before: i16,
    after: i16,
    kind: Iw44CoefficientEventKind,
) -> Iw44CoefficientEvent {
    let target = info.target->0;
    Iw44CoefficientEvent {
        slice_index: info.slice_index,
        plane: info.plane,
        band: info.band,
        block: target.block,
        coefficient: target.coefficient,
        bucket: target.coefficient / 16,
        bucket_offset: target.coefficient % 16,
        quant: quant as u32,
        before,
        after,
        kind,
    }
}

/// Events, with one more if it is at the coefficient that is traced.
pub open spec fn with_event(
    events: Seq<Iw44CoefficientEvent>,
    traced: bool,
    event: Iw44CoefficientEvent,
) -> Seq<Iw44CoefficientEvent> {
    if traced {
        events.push(event)
    } else {
        events
    }
}

/// Decodes whether coefficients of a block may become active, where its states leave
/// that open.
pub open spec fn pass_block(pass: Pass, band: int, flags: Seq<u8>) -> (Pass, bool) {
    if bucket_count(band) < 16 || flags.contains(IW44_FLAG_ACTIVE) {
        (pass, true)
    } else if flags.contains(IW44_FLAG_UNKNOWN) {
        let (bit, zp, bucket) = zp_context_bit(pass.zp, pass.bucket);
        (Pass { zp, bucket, ..pass }, bit)
    } else {
        (pass, false)
    }
}

/// How many of four coefficients are not 0.
pub open spec fn nonzero_of_four(values: Seq<i16>, place: int) -> int {
    (if values[place] != 0 { 1int } else { 0int }) + (if values[place + 1] != 0 { 1int } else {
        0int
    }) + (if values[place + 2] != 0 { 1int } else { 0int }) + (if values[place + 3] != 0 {
        1int
    } else {
        0int
    })
}

/// The context of a bucket: by its band, by whether its block has active
/// coefficients, and by how many of its four parents are active, at most three.
pub open spec fn bucket_context(
    band: int,
    values: Seq<i16>,
    block: int,
    bucket: int,
    active: bool,
) -> int {
    let parents = if band == 0 {
        0
    } else {
        let count = nonzero_of_four(values, 1024 * block + 4 * bucket);
        if count > 3 {
            3
        } else {
            count
        }
    };
    parents + (if active { 4int } else { 0int }) + 8 * band
}

/// Decodes whether coefficients of a bucket may become active, where its states leave
/// that open.
pub open spec fn pass_one_bucket(
    pass: Pass,
    info: SliceInfo,
    flags: Seq<u8>,
    block: int,
    j: int,
) -> (Pass, bool) {
    if !bucket_has(flags, j, IW44_FLAG_UNKNOWN) {
        (pass, false)
    } else {
        let band = info.band as int;
        let bucket = first_bucket(band) + j;
        let context = bucket_context(
            band,
            pass.values,
            block,
            bucket,
            flags.contains(IW44_FLAG_ACTIVE),
        );
        let (decision, zp, state) = zp_context_bit(pass.zp, pass.coef[context]);
        let value = pass.values[1024 * block + info.target->0.coefficient];
        let next = Pass {
            zp,
            coef: pass.coef.update(context, state),
            events: with_event(
                pass.events,
                traces_bucket(info, block, bucket),
                event_at(
                    info,
                    info.quant as int,
                    value,
                    value,
                    Iw44CoefficientEventKind::BucketDecision {
                        context: context as usize,
                        decision,
                        block_state: (block_state(flags) + 4) as u8,
                        bucket_state: bucket_state(flags, j) as u8,
                    },
                ),
            ),
            ..pass
        };
        (next, decision)
    }
}

/// Decodes in which buckets, from number `j` of the band on, coefficients may become
/// active.
pub open spec fn pass_buckets(
    pass: Pass,
    info: SliceInfo,
    flags: Seq<u8>,
    block: int,
    news: Seq<bool>,
) -> (Pass, Seq<bool>)
    decreases bucket_count(info.band as int) - news.len(),
{
    let j = news.len() as int;
    if j >= bucket_count(info.band as int) {
        (pass, news)
    } else {
        let (next, decision) = pass_one_bucket(pass, info, flags, block, j);
        pass_buckets(next, info, flags, block, news.push(decision))
    }
}

/// The value of a coefficient that has become active.
pub open spec fn activated(step: int, negative: bool) -> i16 {
    let size = step + step / 2 - step / 8;
    wrap16(if negative { -size } else { size })
}

/// Decodes whether a coefficient of 0 becomes active; gives how many in its bucket
/// are then still counted as open.
pub open spec fn pass_new_coefficient(
    pass: Pass,
    info: SliceInfo,
    steps: Steps,
    shift: int,
    block: int,
    bucket: int,
    offset: int,
    unknown: int,
) -> (Pass, int) {
    let context = shift + if unknown > 7 { 7 } else { unknown };
    let coefficient = 16 * bucket + offset;
    let place = 1024 * block + coefficient;
    let before = pass.values[place];
    let (decision, zp, state) = zp_context_bit(pass.zp, pass.activate[context]);
    let decided = Pass {
        zp,
        activate: pass.activate.update(context, state),
        events: with_event(
            pass.events,
            traces(info, block, coefficient),
            event_at(
                info,
                info.quant as int,
                before,
                before,
                Iw44CoefficientEventKind::ActivationDecision {
                    context: context as usize,
                    decision,
                    unknown_count: unknown as usize,
                },
            ),
        ),
        ..pass
    };
    if decision {
        let (negative, signed) = zp_iw44_passthrough_bit(decided.zp);
        let step = step_of(steps, info.band as int, offset);
        let after = activated(step, negative);
        (
            Pass {
                zp: signed,
                values: decided.values.update(place, after),
                events: with_event(
                    decided.events,
                    traces(info, block, coefficient),
                    event_at(
                        info,
                        step,
                        before,
                        after,
                        Iw44CoefficientEventKind::Activated {
                            sign: if negative { -1i32 } else { 1i32 },
                        },
                    ),
                ),
                ..decided
            },
            0,
        )
    } else {
        (decided, if unknown > 0 { unknown - 1 } else { 0 })
    }
}

/// Decodes which coefficients of a bucket, from number `offset` on, become active.
pub open spec fn pass_new_bucket(
    pass: Pass,
    info: SliceInfo,
    steps: Steps,
    flags: Seq<u8>,
    block: int,
    j: int,
    offset: int,
    unknown: int,
) -> Pass
    decreases 16 - offset,
{
    if offset >= 16 {
        pass
    } else if flags[16 * j + offset] != IW44_FLAG_UNKNOWN {
        pass_new_bucket(pass, info, steps, flags, block, j, offset + 1, unknown)
    } else {
        let (next, left) = pass_new_coefficient(
            pass,
            info,
            steps,
            if bucket_has(flags, j, IW44_FLAG_ACTIVE) { 8 } else { 0 },
            block,
            first_bucket(info.band as int) + j,
            offset,
            unknown,
        );
        pass_new_bucket(next, info, steps, flags, block, j, offset + 1, left)
    }
}

/// Decodes which coefficients become active in the buckets, from number `j` of the band
/// on, in which they may.
pub open spec fn pass_new_buckets(
    pass: Pass,
    info: SliceInfo,
    steps: Steps,
    flags: Seq<u8>,
    block: int,
    news: Seq<bool>,
    j: int,
) -> Pass
    decreases news.len() - j,
{
    if j >= news.len() {
        pass
    } else {
        let next = if news[j] {
            pass_new_bucket(
                pass,
                info,
                steps,
                flags,
                block,
                j,
                0,
                unknown_count(flags, j, 16),
            )
        } else {
            pass
        };
        pass_new_buckets(next, info, steps, flags, block, news, j + 1)
    }
}

/// The value of an active coefficient after one more step.
pub open spec fn refined(value: i16, step: int, coded: bool, increase: bool) -> i16 {
    let size = magnitude(value) + (if coded { step / 4 } else { 0 }) + if increase {
        step / 2
    } else {
        -step + step / 2
    };
    wrap16(if value < 0 { -size } else { size })
}

/// Refines an active coefficient.
pub open spec fn pass_active_coefficient(
    pass: Pass,
    info: SliceInfo,
    steps: Steps,
    block: int,
    bucket: int,
    offset: int,
) -> Pass {
    let step = step_of(steps, info.band as int, offset);
    let coefficient = 16 * bucket + offset;
    let place = 1024 * block + coefficient;
    let value = pass.values[place];
    let coded = magnitude(value) <= 3 * step;
    let (increase, decided) = if coded {
        let (bit, zp, state) = zp_context_bit(pass.zp, pass.increase);
        (bit, Pass { zp, increase: state, ..pass })
    } else {
        let (bit, zp) = zp_iw44_passthrough_bit(pass.zp);
        (bit, Pass { zp, ..pass })
    };
    let after = refined(value, step, coded, increase);
    let traced = traces(info, block, coefficient);
    Pass {
        values: decided.values.update(place, after),
        events: with_event(
            with_event(
                decided.events,
                traced,
                event_at(
                    info,
                    step,
                    value,
                    value,
                    Iw44CoefficientEventKind::RefinementDecision {
                        context_coded: coded,
                        decision: increase,
                        magnitude: magnitude(value) as i32,
                    },
                ),
            ),
            traced,
            event_at(info, step, value, after, Iw44CoefficientEventKind::Refined),
        ),
        ..decided
    }
}

/// Refines the active coefficients among those of a block from number `i` of the band
/// on.
pub open spec fn pass_active(
    pass: Pass,
    info: SliceInfo,
    steps: Steps,
    flags: Seq<u8>,
    block: int,
    i: int,
) -> Pass
    decreases flags.len() - i,
{
    if i >= flags.len() {
        pass
    } else if flags[i] != IW44_FLAG_ACTIVE {
        pass_active(pass, info, steps, flags, block, i + 1)
    } else {
        pass_active(
            pass_active_coefficient(
                pass,
                info,
                steps,
                block,
                first_bucket(info.band as int) + i / 16,
                i % 16,
            ),
            info,
            steps,
            flags,
            block,
            i + 1,
        )
    }
}

/// Decodes one block of a slice.
pub open spec fn pass_one_block(pass: Pass, info: SliceInfo, steps: Steps, block: int) -> Pass {
    let band = info.band as int;
    let flags = block_flags(steps, band, pass.values, block);
    let (entered, open) = pass_block(pass, band, flags);
    let grown = if open {
        let (chosen, news) = pass_buckets(entered, info, flags, block, Seq::empty());
        if news.contains(true) {
            pass_new_buckets(chosen, info, steps, flags, block, news, 0)
        } else {
            chosen
        }
    } else {
        entered
    };
    if flags.contains(IW44_FLAG_ACTIVE) {
        pass_active(grown, info, steps, flags, block, 0)
    } else {
        grown
    }
}

/// Decodes the blocks of a slice from number `block` on.
pub open spec fn pass_blocks(
    pass: Pass,
    info: SliceInfo,
    steps: Steps,
    block: int,
    count: int,
) -> Pass
    decreases count - block,
{
    if block >= count {
        pass
    } else {
        pass_blocks(pass_one_block(pass, info, steps, block), info, steps, block + 1, count)
    }
}

/// All that decoding of a plane depends on.
#[verifier::ext_equal]
pub struct PlaneModel {
    pub width: int,
    pub height: int,
    pub band: int,
    pub steps: Steps,
    pub values: Seq<i16>,
    pub passes: Seq<u32>,
    pub bucket: u8,
    pub coef: Seq<u8>,
    pub activate: Seq<u8>,
    pub increase: u8,
}

/// The number of blocks of a plane.
pub open spec fn plane_blocks(plane: PlaneModel) -> int {
    blocks_along(plane.width) * blocks_along(plane.height)
}

/// A plane of zeros before its first slice.
pub open spec fn blank_plane(width: int, height: int) -> PlaneModel {
    PlaneModel {
        width,
        height,
        band: 0,
        steps: Steps { lo: IW44_QUANT_LO_INIT@, hi: IW44_QUANT_HI_INIT@ },
        values: Seq::new(
            (1024 * (blocks_along(width) * blocks_along(height))) as nat,
            |i: int| 0i16,
        ),
        passes: Seq::new(
            (64 * (blocks_along(width) * blocks_along(height))) as nat,
            |i: int| 0u32,
        ),
        bucket: 0,
        coef: Seq::new(80, |i: int| 0u8),
        activate: Seq::new(16, |i: int| 0u8),
        increase: 0,
    }
}

/// The band after a band.
pub open spec fn next_band(band: int) -> int {
    if band == 9 {
        0
    } else {
        band + 1
    }
}

/// A plane and a coder after a slice was decoded, and what is reported of the slice.
#[verifier::ext_equal]
pub struct SliceOutcome {
    pub plane: PlaneModel,
    pub zp: ZpState,
    pub events: Seq<Iw44CoefficientEvent>,
    pub report: Iw44PlaneSlice,
}

/// Decodes a slice of a plane.
#[verifier::opaque]
pub open spec fn decode_plane_slice(
    plane: PlaneModel,
    zp: ZpState,
    events: Seq<Iw44CoefficientEvent>,
    which: Iw44Plane,
    slice_index: u32,
    target: Option<Iw44CoefficientTraceTarget>,
) -> SliceOutcome {
    let band = plane.band;
    let null = is_null_slice(plane.steps, band);
    let quant = reported_step(plane.steps, band);
    let start = Pass {
        zp,
        bucket: plane.bucket,
        coef: plane.coef,
        activate: plane.activate,
        increase: plane.increase,
        values: plane.values,
        events,
    };
    let end = if null {
        start
    } else {
        pass_blocks(
            start,
            SliceInfo { plane: which, slice_index, band: band as u8, quant, target },
            plane.steps,
            0,
            plane_blocks(plane),
        )
    };
    SliceOutcome {
        plane: PlaneModel {
            band: next_band(band),
            steps: halved(plane.steps, band),
            values: end.values,
            passes: if null {
                plane.passes
            } else {
                marked(plane.passes, first_bucket(band), last_bucket(band))
            },
            bucket: end.bucket,
            coef: end.coef,
            activate: end.activate,
            increase: end.increase,
            ..plane
        },
        zp: end.zp,
        events: end.events,
        report: Iw44PlaneSlice {
            plane: which,
            band: band as u8,
            first_bucket: first_bucket(band) as u8,
            last_bucket: last_bucket(band) as u8,
            quant,
            is_null: null,
            block_count: plane_blocks(plane) as usize,
            scheduled_bucket_count: (if null {
                0
            } else {
                plane_blocks(plane) * bucket_count(band)
            }) as usize,
        },
    }
}

/// A plane under decoding.
#[derive(Debug, Clone, Eq, PartialEq)]
pub struct Iw44PlaneState {
    pub current_band: u8,
    pub quant_lo: Vec<u32>,
    pub quant_hi: Vec<u32>,
    pub coefficients: Iw44CoefficientBuffer,
    pub ctx_decode_bucket: u8,
    pub ctx_decode_coef: Vec<u8>,
    pub ctx_activate_coef: Vec<u8>,
    pub ctx_increase_coef: u8,
}

impl View for Iw44PlaneState {
    type V = PlaneModel;

    open spec fn view(&self) -> PlaneModel {
        PlaneModel {
            width: self.coefficients.width as int,
            height: self.coefficients.height as int,
            band: self.current_band as int,
            steps: Steps { lo: self.quant_lo@, hi: self.quant_hi@ },
            values: self.coefficients.values@,
            passes: self.coefficients.passes@,
            bucket: self.ctx_decode_bucket,
            coef: self.ctx_decode_coef@,
            activate: self.ctx_activate_coef@,
            increase: self.ctx_increase_coef,
        }
    }
}

/// Every bucket was passed over at most `limit` times.
pub open spec fn passes_bounded(passes: Seq<u32>, limit: int) -> bool {
    forall|i: int| 0 <= i < passes.len() ==> #[trigger] passes[i] <= limit
}

impl Iw44PlaneState {
    /// All parts of the plane have their sizes.
    pub open spec fn wf(&self) -> bool {
        &&& self.current_band < 10
        &&& self.quant_lo@.len() == 16
        &&& self.quant_hi@.len() == 10
        &&& self.coefficients.wf()
        &&& self.ctx_decode_coef@.len() == 80
        &&& self.ctx_activate_coef@.len() == 16
    }

    /// The plane as part of a decoding under way.
    pub open spec fn pass(
        &self,
        zp: ZpState,
        events: Seq<Iw44CoefficientEvent>,
    ) -> Pass {
        Pass {
            zp,
            bucket: self.ctx_decode_bucket,
            coef: self.ctx_decode_coef@,
            activate: self.ctx_activate_coef@,
            increase: self.ctx_increase_coef,
            values: self.coefficients.values@,
            events,
        }
    }

    /// What no block of a slice changes.
    pub open spec fn same_frame(&self, other: &Self) -> bool {
        &&& self.current_band == other.current_band
        &&& self.quant_lo@ == other.quant_lo@
        &&& self.quant_hi@ == other.quant_hi@
        &&& self.coefficients.width == other.coefficients.width
        &&& self.coefficients.height == other.coefficients.height
        &&& self.coefficients.passes@ == other.coefficients.passes@
    }

    /// A plane of no extent.
    pub fn empty() -> (plane: Self)
        ensures
            plane.wf(),
            plane@ == blank_plane(0, 0),
    {
        let plane = Self::around(Iw44CoefficientBuffer::empty());
        assert(plane@ =~= blank_plane(0, 0));
        plane
    }

    /// A plane of zeros.
    pub fn new(width: usize, height: usize) -> (plane: Self)
        requires
            width <= 0xffff,
            height <= 0xffff,
            plane_fits(width as int, height as int),
        ensures
            plane.wf(),
            plane@ == blank_plane(width as int, height as int),
    {
        let plane = Self::around(Iw44CoefficientBuffer::new(width, height));
        assert(plane@ =~= blank_plane(width as int, height as int));
        plane
    }

    /// A plane before its first slice.
    fn around(coefficients: Iw44CoefficientBuffer) -> (plane: Self)
        requires
            coefficients.wf(),
        ensures
            plane.wf(),
            plane.coefficients == coefficients,
            plane.current_band == 0,
            plane.quant_lo@ == IW44_QUANT_LO_INIT@,
            plane.quant_hi@ == IW44_QUANT_HI_INIT@,
            plane.ctx_decode_bucket == 0,
            plane.ctx_decode_coef@ == Seq::new(80, |i: int| 0u8),
            plane.ctx_activate_coef@ == Seq::new(16, |i: int| 0u8),
            plane.ctx_increase_coef == 0,
    {
        let mut quant_lo: Vec<u32> = Vec::new();
        let mut i: usize = 0;
        while i < 16
            invariant
                i <= 16,
                quant_lo@ == IW44_QUANT_LO_INIT@.take(i as int),
            decreases 16 - i,
        {
            quant_lo.push(IW44_QUANT_LO_INIT[i]);
            i = i + 1;
            assert(quant_lo@ =~= IW44_QUANT_LO_INIT@.take(i as int));
        }
        let mut quant_hi: Vec<u32> = Vec::new();
        let mut j: usize = 0;
        while j < 10
            invariant
                j <= 10,
                quant_hi@ == IW44_QUANT_HI_INIT@.take(j as int),
            decreases 10 - j,
        {
            quant_hi.push(IW44_QUANT_HI_INIT[j]);
            j = j + 1;
            assert(quant_hi@ =~= IW44_QUANT_HI_INIT@.take(j as int));
        }
        assert(quant_lo@ =~= IW44_QUANT_LO_INIT@);
        assert(quant_hi@ =~= IW44_QUANT_HI_INIT@);
        let plane = Iw44PlaneState {
            current_band: 0,
            quant_lo,
            quant_hi,
            coefficients,
            ctx_decode_bucket: 0,
            ctx_decode_coef: vec![0; 80],
            ctx_activate_coef: vec![0; 16],
            ctx_increase_coef: 0,
        };
        assert(plane.ctx_decode_coef@ =~= Seq::new(80, |k: int| 0u8));
        assert(plane.ctx_activate_coef@ =~= Seq::new(16, |k: int| 0u8));
        plane
    }

    /// The step that is reported of a slice of the current band.
    pub fn current_quant(&self) -> (quant: u32)
        requires
            self.wf(),
        ensures
            quant == reported_step(self@.steps, self@.band),
    {
        if self.current_band == 0 {
            let mut largest: u32 = 0;
            let mut i: usize = 0;
            while i < 16
                invariant
                    self.wf(),
                    i <= 16,
                    largest == largest_step(self.quant_lo@, i as int),
                decreases 16 - i,
            {
                if self.quant_lo[i] > largest {
                    largest = self.quant_lo[i];
                }
                i = i + 1;
            }
            largest
        } else {
            self.quant_hi[self.current_band as usize]
        }
    }

    /// Whether a slice of the current band codes nothing.
    fn is_null(&self) -> (null: bool)
        requires
            self.wf(),
        ensures
            null == is_null_slice(self@.steps, self@.band),
    {
        if self.current_band == 0 {
            let mut i: usize = 0;
            while i < 16
                invariant
                    self.wf(),
                    i <= 16,
                    self.current_band == 0,
                    forall|k: int| 0 <= k < i ==> !codes(#[trigger] self.quant_lo@[k]),
                decreases 16 - i,
            {
                let step: u32 = self.quant_lo[i];
                if step > 0 && step < 0x8000 {
                    assert(codes(self@.steps.lo[i as int]));
                    return false;
                }
                i = i + 1;
            }
            true
        } else {
            let step: u32 = self.quant_hi[self.current_band as usize];
            !(step > 0 && step < 0x8000)
        }
    }

    /// The states of the coefficients of a block in the buckets of the current band.
    fn preliminary_flag_computation(&self, block: usize) -> (flags: Vec<u8>)
        requires
            self.wf(),
            block < self.coefficients.block_columns * self.coefficients.block_rows,
        ensures
            flags@ == block_flags(self@.steps, self@.band, self@.values, block as int),
            flags@.len() == 16 * bucket_count(self@.band),
    {
        let (first, last) = band_buckets(self.current_band);
        let count: usize = (last - first + 1) as usize;
        let mut flags: Vec<u8> = Vec::new();
        let mut i: usize = 0;
        while i < IW44_COEFFICIENTS_PER_BUCKET * count
            invariant
                self.wf(),
                block < self.coefficients.block_columns * self.coefficients.block_rows,
                first == first_bucket(self@.band),
                count == bucket_count(self@.band),
                first + count <= 64,
                i <= 16 * count,
                flags@.len() == i,
                forall|k: int|
                    0 <= k < i ==> #[trigger] flags@[k] == coefficient_flag(
                        self@.steps,
                        self@.band,
                        self@.values,
                        block as int,
                        first_bucket(self@.band) + k / 16,
                        k % 16,
                    ),
            decreases 16 * count - i,
        {
            let offset: usize = i % IW44_COEFFICIENTS_PER_BUCKET;
            let bucket: usize = first as usize + i / IW44_COEFFICIENTS_PER_BUCKET;
            let step: u32 = self.quant_lo[offset];
            let flag: u8 = if self.current_band == 0 && !(step > 0 && step < 0x8000) {
                IW44_FLAG_ZERO
            } else if self.coefficients.coefficient(
                block,
                IW44_COEFFICIENTS_PER_BUCKET * bucket + offset,
            ) == 0 {
                IW44_FLAG_UNKNOWN
            } else {
                IW44_FLAG_ACTIVE
            };
            flags.push(flag);
            i = i + 1;
        }
        assert(flags@ =~= block_flags(self@.steps, self@.band, self@.values, block as int));
        flags
    }

    /// Decodes whether coefficients of a block may become active.
    fn block_band_decoding_pass(
        &mut self,
        bitstream: &mut Iw44Bitstream<'_>,
        flags: &Vec<u8>,
        events: &Vec<Iw44CoefficientEvent>,
    ) -> (open: bool)
        requires
            old(self).wf(),
            old(bitstream).wf(),
        ensures
            final(self).wf(),
            final(bitstream).wf(),
            final(self).same_frame(old(self)),
            (final(self).pass(final(bitstream)@, events@), open) == pass_block(
                old(self).pass(old(bitstream)@, events@),
                old(self)@.band,
                flags@,
            ),
    {
        let (first, last) = band_buckets(self.current_band);
        if last - first + 1 < 16 || has_flag(flags, IW44_FLAG_ACTIVE) {
            true
        } else if has_flag(flags, IW44_FLAG_UNKNOWN) {
            bitstream.decode_context_bit(&mut self.ctx_decode_bucket)
        } else {
            false
        }
    }

    /// Decodes in which buckets coefficients may become active.
    fn bucket_decoding_pass(
        &mut self,
        bitstream: &mut Iw44Bitstream<'_>,
        info: SliceInfo,
        flags: &Vec<u8>,
        block: usize,
        events: &mut Vec<Iw44CoefficientEvent>,
    ) -> (news: Vec<bool>)
        requires
            old(self).wf(),
            old(bitstream).wf(),
            info.band == old(self).current_band,
            flags@.len() == 16 * bucket_count(info.band as int),
            block < old(self).coefficients.block_columns * old(self).coefficients.block_rows,
        ensures
            final(self).wf(),
            final(bitstream).wf(),
            final(self).same_frame(old(self)),
            news@.len() == bucket_count(info.band as int),
            (final(self).pass(final(bitstream)@, final(events)@), news@) == pass_buckets(
                old(self).pass(old(bitstream)@, old(events)@),
                info,
                flags@,
                block as int,
                Seq::empty(),
            ),
    {
        let (first, last) = band_buckets(self.current_band);
        let count: usize = (last - first + 1) as usize;
        let active: bool = has_flag(flags, IW44_FLAG_ACTIVE);
        let whole_state: u8 = flags_sum(flags, 0, flags.len()) + IW44_FLAG_NEW;
        let mut news: Vec<bool> = Vec::new();
        proof {
            lemma_block_state(flags@);
        }
        while news.len() < count
            invariant
                self.wf(),
                bitstream.wf(),
                self.same_frame(old(self)),
                info.band == self.current_band,
                first == first_bucket(info.band as int),
                count == bucket_count(info.band as int),
                first + count <= 64,
                flags@.len() == 16 * count,
                active == flags@.contains(IW44_FLAG_ACTIVE),
                whole_state == block_state(flags@) + 4,
                block < self.coefficients.block_columns * self.coefficients.block_rows,
                news@.len() <= count,
                pass_buckets(
                    self.pass(bitstream@, events@),
                    info,
                    flags@,
                    block as int,
                    news@,
                ) == pass_buckets(
                    old(self).pass(old(bitstream)@, old(events)@),
                    info,
                    flags@,
                    block as int,
                    Seq::empty(),
                ),
            decreases count - news@.len(),
        {
            let j: usize = news.len();
            let start: usize = IW44_COEFFICIENTS_PER_BUCKET * j;
            proof {
                lemma_bucket_state(flags@, j as int);
            }
            let state: u8 = flags_sum(flags, start, start + 16);
            if state < IW44_FLAG_UNKNOWN {
                news.push(false);
            } else {
                let bucket: usize = first as usize + j;
                let context: usize = self.bucket_context_of(block, bucket, active);
                let mut context_state: u8 = self.ctx_decode_coef[context];
                let decision: bool = bitstream.decode_context_bit(&mut context_state);
                self.ctx_decode_coef[context] = context_state;
                match info.target {
                    Some(target) => {
                        if is_plane(target.plane, info.plane) && target.block == block
                            && target.coefficient / 16 == bucket {
                            let value: i16 = self.coefficients.coefficient(
                                block,
                                target.coefficient,
                            );
                            events.push(
                                target_event(
                                    info,
                                    target,
                                    info.quant,
                                    value,
                                    value,
                                    Iw44CoefficientEventKind::BucketDecision {
                                        context,
                                        decision,
                                        block_state: whole_state,
                                        bucket_state: state,
                                    },
                                ),
                            );
                        }
                    },
                    None => {},
                }
                news.push(decision);
            }
        }
        news
    }

    /// The context of a bucket.
    fn bucket_context_of(&self, block: usize, bucket: usize, active: bool) -> (context: usize)
        requires
            self.wf(),
            block < self.coefficients.block_columns * self.coefficients.block_rows,
            bucket < 64,
        ensures
            context == bucket_context(
                self@.band,
                self@.values,
                block as int,
                bucket as int,
                active,
            ),
            context < 80,
    {
        let mut parents: usize = 0;
        if self.current_band != 0 {
            if self.coefficients.coefficient(block, 4 * bucket) != 0 {
                parents = parents + 1;
            }
            if self.coefficients.coefficient(block, 4 * bucket + 1) != 0 {
                parents = parents + 1;
            }
            if self.coefficients.coefficient(block, 4 * bucket + 2) != 0 {
                parents = parents + 1;
            }
            if self.coefficients.coefficient(block, 4 * bucket + 3) != 0 {
                parents = parents + 1;
            }
            if parents > 3 {
                parents = 3;
            }
        }
        parents + 8 * self.current_band as usize + if active {
            4
        } else {
            0
        }
    }

    /// The step of a coefficient of a bucket of the current band.
    fn step_at(&self, offset: usize) -> (step: u32)
        requires
            self.wf(),
            offset < 16,
        ensures
            step == step_of(self@.steps, self@.band, offset as int),
    {
        if self.current_band == 0 {
            self.quant_lo[offset]
        } else {
            self.quant_hi[self.current_band as usize]
        }
    }

    /// Decodes which coefficients become active in the buckets in which they may.
    fn newly_active_coefficient_decoding_pass(
        &mut self,
        bitstream: &mut Iw44Bitstream<'_>,
        info: SliceInfo,
        flags: &Vec<u8>,
        block: usize,
        news: &Vec<bool>,
        events: &mut Vec<Iw44CoefficientEvent>,
    )
        requires
            old(self).wf(),
            old(bitstream).wf(),
            info.band == old(self).current_band,
            info.band != 0 ==> codes(old(self)@.steps.hi[info.band as int]),
            flags@.len() == 16 * bucket_count(info.band as int),
            news@.len() == bucket_count(info.band as int),
            block < old(self).coefficients.block_columns * old(self).coefficients.block_rows,
            info.band == 0 ==> forall|i: int|
                0 <= i < 16 && flags@[i] != IW44_FLAG_ZERO ==> codes(
                    #[trigger] old(self)@.steps.lo[i],
                ),
        ensures
            final(self).wf(),
            final(bitstream).wf(),
            final(self).same_frame(old(self)),
            final(self).pass(final(bitstream)@, final(events)@) == pass_new_buckets(
                old(self).pass(old(bitstream)@, old(events)@),
                info,
                old(self)@.steps,
                flags@,
                block as int,
                news@,
                0,
            ),
    {
        let ghost steps = self@.steps;
        let ghost whole = pass_new_buckets(
            self.pass(bitstream@, events@),
            info,
            steps,
            flags@,
            block as int,
            news@,
            0,
        );
        let mut j: usize = 0;
        while j < news.len()
            invariant
                self.wf(),
                bitstream.wf(),
                self.same_frame(old(self)),
                self@.steps == steps,
                info.band == self.current_band,
                info.band != 0 ==> codes(steps.hi[info.band as int]),
                flags@.len() == 16 * bucket_count(info.band as int),
                news@.len() == bucket_count(info.band as int),
                block < self.coefficients.block_columns * self.coefficients.block_rows,
                info.band == 0 ==> forall|i: int|
                    0 <= i < 16 && flags@[i] != IW44_FLAG_ZERO ==> codes(#[trigger] steps.lo[i]),
                j <= news@.len(),
                pass_new_buckets(
                    self.pass(bitstream@, events@),
                    info,
                    steps,
                    flags@,
                    block as int,
                    news@,
                    j as int,
                ) == whole,
            decreases news@.len() - j,
        {
            if news[j] {
                self.decode_new_bucket(bitstream, info, flags, block, j, events);
            }
            j = j + 1;
        }
    }

    /// Decodes which coefficients of a bucket become active.
    fn decode_new_bucket(
        &mut self,
        bitstream: &mut Iw44Bitstream<'_>,
        info: SliceInfo,
        flags: &Vec<u8>,
        block: usize,
        j: usize,
        events: &mut Vec<Iw44CoefficientEvent>,
    )
        requires
            old(self).wf(),
            old(bitstream).wf(),
            info.band == old(self).current_band,
            info.band != 0 ==> codes(old(self)@.steps.hi[info.band as int]),
            flags@.len() == 16 * bucket_count(info.band as int),
            j < bucket_count(info.band as int),
            block < old(self).coefficients.block_columns * old(self).coefficients.block_rows,
            info.band == 0 ==> forall|i: int|
                0 <= i < 16 && flags@[i] != IW44_FLAG_ZERO ==> codes(
                    #[trigger] old(self)@.steps.lo[i],
                ),
        ensures
            final(self).wf(),
            final(bitstream).wf(),
            final(self).same_frame(old(self)),
            final(self).pass(final(bitstream)@, final(events)@) == pass_new_bucket(
                old(self).pass(old(bitstream)@, old(events)@),
                info,
                old(self)@.steps,
                flags@,
                block as int,
                j as int,
                0,
                unknown_count(flags@, j as int, 16),
            ),
    {
        let (first, last) = band_buckets(self.current_band);
        let bucket: usize = first as usize + j;
        let start: usize = IW44_COEFFICIENTS_PER_BUCKET * j;
        let shift: usize = if bucket_has_active(flags, j) {
            8
        } else {
            0
        };
        let mut unknown: usize = count_unknown(flags, j);
        let ghost steps = self@.steps;
        let ghost whole = pass_new_bucket(
            self.pass(bitstream@, events@),
            info,
            steps,
            flags@,
            block as int,
            j as int,
            0,
            unknown as int,
        );
        let mut offset: usize = 0;
        while offset < IW44_COEFFICIENTS_PER_BUCKET
            invariant
                self.wf(),
                bitstream.wf(),
                self.same_frame(old(self)),
                self@.steps == steps,
                info.band == self.current_band,
                info.band != 0 ==> codes(steps.hi[info.band as int]),
                flags@.len() == 16 * bucket_count(info.band as int),
                j < bucket_count(info.band as int),
                start == 16 * j,
                bucket == first_bucket(info.band as int) + j,
                bucket < 64,
                block < self.coefficients.block_columns * self.coefficients.block_rows,
                info.band == 0 ==> forall|i: int|
                    0 <= i < 16 && flags@[i] != IW44_FLAG_ZERO ==> codes(#[trigger] steps.lo[i]),
                shift == if bucket_has(flags@, j as int, IW44_FLAG_ACTIVE) {
                    8int
                } else {
                    0int
                },
                unknown <= 16,
                offset <= 16,
                pass_new_bucket(
                    self.pass(bitstream@, events@),
                    info,
                    steps,
                    flags@,
                    block as int,
                    j as int,
                    offset as int,
                    unknown as int,
                ) == whole,
            decreases 16 - offset,
        {
            if flags[start + offset] == IW44_FLAG_UNKNOWN {
                proof {
                    if info.band == 0 {
                        assert(codes(steps.lo[offset as int]));
                    }
                }
                unknown =
                self.decode_new_coefficient(
                    bitstream,
                    info,
                    shift,
                    block,
                    bucket,
                    offset,
                    unknown,
                    events,
                );
            }
            offset = offset + 1;
        }
    }

    /// Decodes whether a coefficient of 0 becomes active.
    fn decode_new_coefficient(
        &mut self,
        bitstream: &mut Iw44Bitstream<'_>,
        info: SliceInfo,
        shift: usize,
        block: usize,
        bucket: usize,
        offset: usize,
        unknown: usize,
        events: &mut Vec<Iw44CoefficientEvent>,
    ) -> (left: usize)
        requires
            old(self).wf(),
            old(bitstream).wf(),
            info.band == old(self).current_band,
            shift == 0 || shift == 8,
            bucket < 64,
            offset < 16,
            unknown <= 16,
            block < old(self).coefficients.block_columns * old(self).coefficients.block_rows,
            0 < step_of(old(self)@.steps, old(self)@.band, offset as int) < 0x8000,
        ensures
            final(self).wf(),
            final(bitstream).wf(),
            final(self).same_frame(old(self)),
            left <= 16,
            (final(self).pass(final(bitstream)@, final(events)@), left as int)
                == pass_new_coefficient(
                old(self).pass(old(bitstream)@, old(events)@),
                info,
                old(self)@.steps,
                shift as int,
                block as int,
                bucket as int,
                offset as int,
                unknown as int,
            ),
    {
        let context: usize = shift + if unknown > 7 {
            7
        } else {
            unknown
        };
        let coefficient: usize = IW44_COEFFICIENTS_PER_BUCKET * bucket + offset;
        let before: i16 = self.coefficients.coefficient(block, coefficient);
        let traced: bool = trace_target_matches(info, block, coefficient);
        let mut context_state: u8 = self.ctx_activate_coef[context];
        let decision: bool = bitstream.decode_context_bit(&mut context_state);
        self.ctx_activate_coef[context] = context_state;
        push_event(
            events,
            traced,
            info,
            info.quant,
            before,
            before,
            Iw44CoefficientEventKind::ActivationDecision {
                context,
                decision,
                unknown_count: unknown,
            },
        );
        if decision {
            let negative: bool = bitstream.decode_passthrough_bit();
            let step: i32 = self.step_at(offset) as i32;
            let size: i32 = step + step / 2 - step / 8;
            let after: i16 = iw44_coefficient(
                if negative {
                    -size
                } else {
                    size
                },
            );
            self.coefficients.set_coefficient(block, coefficient, after);
            push_event(
                events,
                traced,
                info,
                step as u32,
                before,
                after,
                Iw44CoefficientEventKind::Activated {
                    sign: if negative {
                        -1
                    } else {
                        1
                    },
                },
            );
            0
        } else if unknown > 0 {
            unknown - 1
        } else {
            0
        }
    }

    /// Refines the active coefficients of a block.
    fn previously_active_coefficient_decoding_pass(
        &mut self,
        bitstream: &mut Iw44Bitstream<'_>,
        info: SliceInfo,
        flags: &Vec<u8>,
        block: usize,
        events: &mut Vec<Iw44CoefficientEvent>,
    )
        requires
            old(self).wf(),
            old(bitstream).wf(),
            info.band == old(self).current_band,
            info.band != 0 ==> codes(old(self)@.steps.hi[info.band as int]),
            flags@.len() == 16 * bucket_count(info.band as int),
            block < old(self).coefficients.block_columns * old(self).coefficients.block_rows,
            info.band == 0 ==> forall|i: int|
                0 <= i < 16 && flags@[i] != IW44_FLAG_ZERO ==> codes(
                    #[trigger] old(self)@.steps.lo[i],
                ),
        ensures
            final(self).wf(),
            final(bitstream).wf(),
            final(self).same_frame(old(self)),
            final(self).pass(final(bitstream)@, final(events)@) == pass_active(
                old(self).pass(old(bitstream)@, old(events)@),
                info,
                old(self)@.steps,
                flags@,
                block as int,
                0,
            ),
    {
        let (first, last) = band_buckets(self.current_band);
        let ghost steps = self@.steps;
        let ghost whole = pass_active(
            self.pass(bitstream@, events@),
            info,
            steps,
            flags@,
            block as int,
            0,
        );
        let mut i: usize = 0;
        while i < flags.len()
            invariant
                self.wf(),
                bitstream.wf(),
                self.same_frame(old(self)),
                self@.steps == steps,
                info.band == self.current_band,
                info.band != 0 ==> codes(steps.hi[info.band as int]),
                first == first_bucket(info.band as int),
                flags@.len() == 16 * bucket_count(info.band as int),
                first + bucket_count(info.band as int) <= 64,
                block < self.coefficients.block_columns * self.coefficients.block_rows,
                info.band == 0 ==> forall|k: int|
                    0 <= k < 16 && flags@[k] != IW44_FLAG_ZERO ==> codes(#[trigger] steps.lo[k]),
                i <= flags@.len(),
                pass_active(
                    self.pass(bitstream@, events@),
                    info,
                    steps,
                    flags@,
                    block as int,
                    i as int,
                ) == whole,
            decreases flags@.len() - i,
        {
            if flags[i] == IW44_FLAG_ACTIVE {
                let offset: usize = i % IW44_COEFFICIENTS_PER_BUCKET;
                proof {
                    if info.band == 0 {
                        assert(codes(steps.lo[offset as int]));
                    }
                }
                self.refine_coefficient(
                    bitstream,
                    info,
                    block,
                    first as usize + i / IW44_COEFFICIENTS_PER_BUCKET,
                    offset,
                    events,
                );
            }
            i = i + 1;
        }
    }

    /// Refines an active coefficient.
    fn refine_coefficient(
        &mut self,
        bitstream: &mut Iw44Bitstream<'_>,
        info: SliceInfo,
        block: usize,
        bucket: usize,
        offset: usize,
        events: &mut Vec<Iw44CoefficientEvent>,
    )
        requires
            old(self).wf(),
            old(bitstream).wf(),
            info.band == old(self).current_band,
            bucket < 64,
            offset < 16,
            block < old(self).coefficients.block_columns * old(self).coefficients.block_rows,
            0 < step_of(old(self)@.steps, old(self)@.band, offset as int) < 0x8000,
        ensures
            final(self).wf(),
            final(bitstream).wf(),
            final(self).same_frame(old(self)),
            final(self).pass(final(bitstream)@, final(events)@) == pass_active_coefficient(
                old(self).pass(old(bitstream)@, old(events)@),
                info,
                old(self)@.steps,
                block as int,
                bucket as int,
                offset as int,
            ),
    {
        let step: i32 = self.step_at(offset) as i32;
        let coefficient: usize = IW44_COEFFICIENTS_PER_BUCKET * bucket + offset;
        let value: i16 = self.coefficients.coefficient(block, coefficient);
        let size: i32 = magnitude_of(value) as i32;
        let coded: bool = size <= 3 * step;
        let increase: bool = if coded {
            bitstream.decode_context_bit(&mut self.ctx_increase_coef)
        } else {
            bitstream.decode_passthrough_bit()
        };
        let traced: bool = trace_target_matches(info, block, coefficient);
        push_event(
            events,
            traced,
            info,
            step as u32,
            value,
            value,
            Iw44CoefficientEventKind::RefinementDecision {
                context_coded: coded,
                decision: increase,
                magnitude: size,
            },
        );
        let changed: i32 = size + (if coded {
            step / 4
        } else {
            0
        }) + if increase {
            step / 2
        } else {
            -step + step / 2
        };
        let after: i16 = iw44_coefficient(
            if value < 0 {
                -changed
            } else {
                changed
            },
        );
        self.coefficients.set_coefficient(block, coefficient, after);
        push_event(
            events,
            traced,
            info,
            step as u32,
            value,
            after,
            Iw44CoefficientEventKind::Refined,
        );
    }

    /// Decodes one block of a slice.
    fn decode_block(
        &mut self,
        bitstream: &mut Iw44Bitstream<'_>,
        info: SliceInfo,
        block: usize,
        events: &mut Vec<Iw44CoefficientEvent>,
    )
        requires
            old(self).wf(),
            old(bitstream).wf(),
            info.band == old(self).current_band,
            !is_null_slice(old(self)@.steps, old(self)@.band),
            block < old(self).coefficients.block_columns * old(self).coefficients.block_rows,
        ensures
            final(self).wf(),
            final(bitstream).wf(),
            final(self).same_frame(old(self)),
            final(self).pass(final(bitstream)@, final(events)@) == pass_one_block(
                old(self).pass(old(bitstream)@, old(events)@),
                info,
                old(self)@.steps,
                block as int,
            ),
    {
        let flags: Vec<u8> = self.preliminary_flag_computation(block);
        let open: bool = self.block_band_decoding_pass(bitstream, &flags, events);
        if open {
            let news: Vec<bool> = self.bucket_decoding_pass(
                bitstream,
                info,
                &flags,
                block,
                events,
            );
            if any_true(&news) {
                self.newly_active_coefficient_decoding_pass(
                    bitstream,
                    info,
                    &flags,
                    block,
                    &news,
                    events,
                );
            }
        }
        if has_flag(&flags, IW44_FLAG_ACTIVE) {
            self.previously_active_coefficient_decoding_pass(
                bitstream,
                info,
                &flags,
                block,
                events,
            );
        }
    }

    /// Decodes the blocks of a slice.
    fn decode_slice_body(
        &mut self,
        bitstream: &mut Iw44Bitstream<'_>,
        info: SliceInfo,
        events: &mut Vec<Iw44CoefficientEvent>,
    )
        requires
            old(self).wf(),
            old(bitstream).wf(),
            info.band == old(self).current_band,
            !is_null_slice(old(self)@.steps, old(self)@.band),
        ensures
            final(self).wf(),
            final(bitstream).wf(),
            final(self).same_frame(old(self)),
            final(self).pass(final(bitstream)@, final(events)@) == pass_blocks(
                old(self).pass(old(bitstream)@, old(events)@),
                info,
                old(self)@.steps,
                0,
                plane_blocks(old(self)@),
            ),
    {
        let count: usize = self.coefficients.block_count();
        let ghost steps = self@.steps;
        let ghost whole = pass_blocks(
            self.pass(bitstream@, events@),
            info,
            steps,
            0,
            count as int,
        );
        let mut block: usize = 0;
        while block < count
            invariant
                self.wf(),
                bitstream.wf(),
                self.same_frame(old(self)),
                self@.steps == steps,
                info.band == self.current_band,
                !is_null_slice(steps, info.band as int),
                count == self.coefficients.block_columns * self.coefficients.block_rows,
                block <= count,
                pass_blocks(
                    self.pass(bitstream@, events@),
                    info,
                    steps,
                    block as int,
                    count as int,
                ) == whole,
            decreases count - block,
        {
            self.decode_block(bitstream, info, block, events);
            block = block + 1;
        }
    }

    /// Halves the steps of the band just decoded and goes on to the next band.
    fn finish_slice(&mut self)
        requires
            old(self).wf(),
        ensures
            final(self).wf(),
            final(self).coefficients == old(self).coefficients,
            final(self).ctx_decode_bucket == old(self).ctx_decode_bucket,
            final(self).ctx_decode_coef == old(self).ctx_decode_coef,
            final(self).ctx_activate_coef == old(self).ctx_activate_coef,
            final(self).ctx_increase_coef == old(self).ctx_increase_coef,
            final(self)@.steps == halved(old(self)@.steps, old(self)@.band),
            final(self)@.band == next_band(old(self)@.band),
    {
        let ghost steps = self@.steps;
        let band: usize = self.current_band as usize;
        self.quant_hi[band] = self.quant_hi[band] / 2;
        if band == 0 {
            let mut i: usize = 0;
            while i < 16
                invariant
                    i <= 16,
                    steps.lo.len() == 16,
                    self.quant_lo@.len() == 16,
                    self.quant_hi@ == halved(steps, 0).hi,
                    self.coefficients == old(self).coefficients,
                    self.ctx_decode_bucket == old(self).ctx_decode_bucket,
                    self.ctx_decode_coef == old(self).ctx_decode_coef,
                    self.ctx_activate_coef == old(self).ctx_activate_coef,
                    self.ctx_increase_coef == old(self).ctx_increase_coef,
                    self.current_band == old(self).current_band,
                    forall|k: int|
                        0 <= k < 16 ==> #[trigger] self.quant_lo@[k] == if k < i {
                            steps.lo[k] / 2
                        } else {
                            steps.lo[k]
                        },
                decreases 16 - i,
            {
                self.quant_lo[i] = self.quant_lo[i] / 2;
                i = i + 1;
            }
            assert(self.quant_lo@ =~= halved(steps, 0).lo);
        }
        self.current_band = if self.current_band == 9 {
            0
        } else {
            self.current_band + 1
        };
        assert(self@.steps =~= halved(steps, old(self)@.band));
    }

    /// Decodes a slice of the plane; events at the coefficient that is traced are
    /// appended.
    pub fn decode_slice(
        &mut self,
        plane: Iw44Plane,
        bitstream: &mut Iw44Bitstream<'_>,
        slice_index: u32,
        trace_target: Option<Iw44CoefficientTraceTarget>,
        events: &mut Vec<Iw44CoefficientEvent>,
    ) -> (report: Iw44PlaneSlice)
        requires
            old(self).wf(),
            old(bitstream).wf(),
            passes_bounded(old(self)@.passes, u32::MAX - 1),
        ensures
            final(self).wf(),
            final(bitstream).wf(),
            (SliceOutcome {
                plane: final(self)@,
                zp: final(bitstream)@,
                events: final(events)@,
                report,
            }) == decode_plane_slice(
                old(self)@,
                old(bitstream)@,
                old(events)@,
                plane,
                slice_index,
                trace_target,
            ),
    {
        proof {
            reveal(decode_plane_slice);
        }
        let band: u8 = self.current_band;
        let (first, last) = band_buckets(band);
        let quant: u32 = self.current_quant();
        let null: bool = self.is_null();
        let block_count: usize = self.coefficients.block_count();
        let scheduled: usize = self.coefficients.mark_bucket_range(first, last, null);
        let info = SliceInfo { plane, slice_index, band, quant, target: trace_target };
        if !null {
            self.decode_slice_body(bitstream, info, events);
        }
        self.finish_slice();
        Iw44PlaneSlice {
            plane,
            band,
            first_bucket: first,
            last_bucket: last,
            quant,
            is_null: null,
            block_count,
            scheduled_bucket_count: scheduled,
        }
    }
}

/// The sum of the flags that occur in part of a sequence.
pub open spec fn part_state(flags: Seq<u8>, from: int, to: int) -> int {
    (if part_has(flags, from, to, IW44_FLAG_ZERO) { 1int } else { 0int }) + (if part_has(
        flags,
        from,
        to,
        IW44_FLAG_ACTIVE,
    ) { 2int } else { 0int }) + (if part_has(flags, from, to, IW44_FLAG_UNKNOWN) {
        8int
    } else {
        0int
    })
}

/// Whether a flag occurs in part of a sequence.
pub open spec fn part_has(flags: Seq<u8>, from: int, to: int, flag: u8) -> bool {
    exists|i: int| from <= i < to && #[trigger] flags[i] == flag
}

proof fn lemma_bucket_state(flags: Seq<u8>, j: int)
    requires
        0 <= j,
    ensures
        bucket_state(flags, j) == part_state(flags, 16 * j, 16 * j + 16),
        bucket_has(flags, j, IW44_FLAG_UNKNOWN) == part_has(
            flags,
            16 * j,
            16 * j + 16,
            IW44_FLAG_UNKNOWN,
        ),
        bucket_has(flags, j, IW44_FLAG_ACTIVE) == part_has(
            flags,
            16 * j,
            16 * j + 16,
            IW44_FLAG_ACTIVE,
        ),
{
    lemma_bucket_has(flags, j, IW44_FLAG_ZERO);
    lemma_bucket_has(flags, j, IW44_FLAG_ACTIVE);
    lemma_bucket_has(flags, j, IW44_FLAG_UNKNOWN);
}

proof fn lemma_bucket_has(flags: Seq<u8>, j: int, flag: u8)
    ensures
        bucket_has(flags, j, flag) == part_has(flags, 16 * j, 16 * j + 16, flag),
{
    if part_has(flags, 16 * j, 16 * j + 16, flag) {
        let i = choose|i: int| 16 * j <= i < 16 * j + 16 && #[trigger] flags[i] == flag;
        assert(flags[16 * j + (i - 16 * j)] == flag);
    }
}

proof fn lemma_block_state(flags: Seq<u8>)
    ensures
        block_state(flags) == part_state(flags, 0, flags.len() as int),
{
    assert(flags.contains(IW44_FLAG_ZERO) == part_has(
        flags,
        0,
        flags.len() as int,
        IW44_FLAG_ZERO,
    ));
    assert(flags.contains(IW44_FLAG_ACTIVE) == part_has(
        flags,
        0,
        flags.len() as int,
        IW44_FLAG_ACTIVE,
    ));
    assert(flags.contains(IW44_FLAG_UNKNOWN) == part_has(
        flags,
        0,
        flags.len() as int,
        IW44_FLAG_UNKNOWN,
    ));
}

/// The sum of the flags that occur in part of a sequence.
fn flags_sum(flags: &Vec<u8>, from: usize, to: usize) -> (sum: u8)
    requires
        from <= to <= flags@.len(),
    ensures
        sum == part_state(flags@, from as int, to as int),
        (sum >= 8) == part_has(flags@, from as int, to as int, IW44_FLAG_UNKNOWN),
        sum <= 11,
{
    let mut zero: bool = false;
    let mut active: bool = false;
    let mut unknown: bool = false;
    let mut i: usize = from;
    while i < to
        invariant
            from <= i <= to <= flags@.len(),
            zero == part_has(flags@, from as int, i as int, IW44_FLAG_ZERO),
            active == part_has(flags@, from as int, i as int, IW44_FLAG_ACTIVE),
            unknown == part_has(flags@, from as int, i as int, IW44_FLAG_UNKNOWN),
        decreases to - i,
    {
        let flag: u8 = flags[i];
        proof {
            lemma_part_grows(flags@, from as int, i as int, IW44_FLAG_ZERO);
            lemma_part_grows(flags@, from as int, i as int, IW44_FLAG_ACTIVE);
            lemma_part_grows(flags@, from as int, i as int, IW44_FLAG_UNKNOWN);
        }
        if flag == IW44_FLAG_ZERO {
            zero = true;
        }
        if flag == IW44_FLAG_ACTIVE {
            active = true;
        }
        if flag == IW44_FLAG_UNKNOWN {
            unknown = true;
        }
        i = i + 1;
    }
    (if zero {
        1u8
    } else {
        0u8
    }) + (if active {
        2u8
    } else {
        0u8
    }) + (if unknown {
        8u8
    } else {
        0u8
    })
}

proof fn lemma_part_grows(flags: Seq<u8>, from: int, to: int, flag: u8)
    requires
        from <= to,
    ensures
        part_has(flags, from, to + 1, flag) == (part_has(flags, from, to, flag) || flags[to]
            == flag),
{
    if part_has(flags, from, to, flag) {
        let i = choose|i: int| from <= i < to && #[trigger] flags[i] == flag;
        assert(from <= i < to + 1 && flags[i] == flag);
    }
    if flags[to] == flag {
        assert(from <= to < to + 1 && flags[to] == flag);
    }
}

/// Whether a flag occurs.
fn has_flag(flags: &Vec<u8>, flag: u8) -> (found: bool)
    ensures
        found == flags@.contains(flag),
{
    let mut i: usize = 0;
    while i < flags.len()
        invariant
            i <= flags@.len(),
            forall|k: int| 0 <= k < i ==> flags@[k] != flag,
        decreases flags@.len() - i,
    {
        if flags[i] == flag {
            return true;
        }
        i = i + 1;
    }
    false
}

/// Whether a bucket has an active coefficient.
fn bucket_has_active(flags: &Vec<u8>, j: usize) -> (found: bool)
    requires
        16 * j + 16 <= flags@.len(),
    ensures
        found == bucket_has(flags@, j as int, IW44_FLAG_ACTIVE),
{
    let mut offset: usize = 0;
    proof {
        assert(flags@.len() == flags.len());
    }
    while offset < 16
        invariant
            offset <= 16,
            16 * j + 16 <= flags@.len() <= usize::MAX,
            forall|k: int| 0 <= k < offset ==> #[trigger] flags@[16 * j + k] != IW44_FLAG_ACTIVE,
        decreases 16 - offset,
    {
        if flags[16 * j + offset] == IW44_FLAG_ACTIVE {
            assert(flags@[16 * j + offset as int] == IW44_FLAG_ACTIVE);
            return true;
        }
        offset = offset + 1;
    }
    false
}

/// How many coefficients of a bucket may become active.
fn count_unknown(flags: &Vec<u8>, j: usize) -> (count: usize)
    requires
        16 * j + 16 <= flags@.len(),
    ensures
        count == unknown_count(flags@, j as int, 16),
        count <= 16,
{
    let mut count: usize = 0;
    let mut offset: usize = 0;
    proof {
        assert(flags@.len() == flags.len());
    }
    while offset < 16
        invariant
            offset <= 16,
            16 * j + 16 <= flags@.len() <= usize::MAX,
            count == unknown_count(flags@, j as int, offset as int),
            count <= offset,
        decreases 16 - offset,
    {
        if flags[16 * j + offset] == IW44_FLAG_UNKNOWN {
            count = count + 1;
        }
        offset = offset + 1;
    }
    count
}

/// Whether `true` occurs.
fn any_true(values: &Vec<bool>) -> (found: bool)
    ensures
        found == values@.contains(true),
{
    let mut i: usize = 0;
    while i < values.len()
        invariant
            i <= values@.len(),
            forall|k: int| 0 <= k < i ==> values@[k] != true,
        decreases values@.len() - i,
    {
        if values[i] {
            return true;
        }
        i = i + 1;
    }
    false
}

/// Whether two planes are the same.
pub fn is_plane(left: Iw44Plane, right: Iw44Plane) -> (same: bool)
    ensures
        same == (left == right),
{
    match (left, right) {
        (Iw44Plane::Y, Iw44Plane::Y) => true,
        (Iw44Plane::Cb, Iw44Plane::Cb) => true,
        (Iw44Plane::Cr, Iw44Plane::Cr) => true,
        _ => false,
    }
}

/// Whether a coefficient is the one that is traced.
fn trace_target_matches(info: SliceInfo, block: usize, coefficient: usize) -> (traced: bool)
    ensures
        traced == traces(info, block as int, coefficient as int),
{
    match info.target {
        Some(target) => is_plane(target.plane, info.plane) && target.block == block
            && target.coefficient == coefficient,
        None => false,
    }
}

/// An event at the coefficient that is traced.
fn target_event(
    info: SliceInfo,
    target: Iw44CoefficientTraceTarget,
    quant: u32,
    before: i16,
    after: i16,
    kind: Iw44CoefficientEventKind,
) -> (event: Iw44CoefficientEvent)
    requires
        info.target == Some(target),
    ensures
        event == event_at(info, quant as int, before, after, kind),
{
    Iw44CoefficientEvent {
        slice_index: info.slice_index,
        plane: info.plane,
        band: info.band,
        block: target.block,
        coefficient: target.coefficient,
        bucket: target.coefficient / 16,
        bucket_offset: target.coefficient % 16,
        quant,
        before,
        after,
        kind,
    }
}

/// Appends an event if it is at the coefficient that is traced.
fn push_event(
    events: &mut Vec<Iw44CoefficientEvent>,
    traced: bool,
    info: SliceInfo,
    quant: u32,
    before: i16,
    after: i16,
    kind: Iw44CoefficientEventKind,
)
    requires
        traced ==> info.target is Some,
    ensures
        final(events)@ == with_event(
            old(events)@,
            traced,
            event_at(info, quant as int, before, after, kind),
        ),
{
    if traced {
        match info.target {
            Some(target) => {
                events.push(target_event(info, target, quant, before, after, kind));
            },
            None => {},
        }
    }
}

} // verus!
