//! What tracing a coefficient does: it changes nothing of what is decoded, and its events
//! tell how the coefficient came by its value.

use super::decoder::{
    decoded_chunk, entered, plane_of, run_slice, run_slices, slice_step, ChunkRun, DecoderModel,
};
use super::header::{chunk_header, Iw44ImageHeader};
use super::slice::{
    block_flags, bucket_count, bucket_has, decode_plane_slice, first_bucket, pass_active,
    pass_active_coefficient, pass_block, pass_blocks, pass_buckets, pass_new_bucket,
    pass_new_buckets, pass_new_coefficient, pass_one_block, pass_one_bucket, plane_blocks,
    reported_step, traces, unknown_count, Pass, PlaneModel, SliceInfo, Steps, IW44_FLAG_ACTIVE,
    IW44_FLAG_UNKNOWN,
};
use super::{
    Iw44CoefficientEvent, Iw44CoefficientEventKind, Iw44CoefficientTraceTarget, Iw44Plane,
};
use crate::zp::{zp_start, ZpState};
use vstd::prelude::*;

verus! {

/// Whether two decodings of a slice differ in nothing but the events that they noted.
pub open spec fn same_work(a: Pass, b: Pass) -> bool {
    &&& a.zp == b.zp
    &&& a.bucket == b.bucket
    &&& a.coef == b.coef
    &&& a.activate == b.activate
    &&& a.increase == b.increase
    &&& a.values == b.values
}

/// A slice in which no coefficient is traced.
pub open spec fn untraced(info: SliceInfo) -> SliceInfo {
    SliceInfo { target: None, ..info }
}

/// Whether a slice traces no coefficient of a block: none at all, or one of another plane or
/// block, or one that no block has.
pub open spec fn quiet(info: SliceInfo, block: int) -> bool {
    ||| info.target is None
    ||| info.target->0.plane != info.plane
    ||| info.target->0.block != block
    ||| info.target->0.coefficient >= 1024
}

/// Whether a slice traces no coefficient of the blocks of a range.
pub open spec fn quiet_from(info: SliceInfo, first: int, end: int) -> bool {
    forall|block: int| first <= block < end ==> #[trigger] quiet(info, block)
}

/// Whether two decodings of a chunk differ in nothing but the events that they noted.
pub open spec fn same_run(a: ChunkRun, b: ChunkRun) -> bool {
    &&& a.model == b.model
    &&& a.zp == b.zp
    &&& a.reports == b.reports
    &&& a.states == b.states
}

proof fn lemma_buckets(
    a: Pass,
    b: Pass,
    info: SliceInfo,
    flags: Seq<u8>,
    block: int,
    news: Seq<bool>,
)
    requires
        same_work(a, b),
    ensures
        ({
            let (c, chosen) = pass_buckets(a, info, flags, block, news);
            let (d, plain) = pass_buckets(b, untraced(info), flags, block, news);
            &&& same_work(c, d)
            &&& chosen == plain
            &&& d.events == b.events
            &&& quiet(info, block) ==> c.events == a.events
        }),
    decreases bucket_count(info.band as int) - news.len(),
{
    let place = news.len() as int;
    if place < bucket_count(info.band as int) {
        let (c, first) = pass_one_bucket(a, info, flags, block, place);
        let (d, second) = pass_one_bucket(b, untraced(info), flags, block, place);
        assert(same_work(c, d) && first == second && d.events == b.events);
        assert(quiet(info, block) ==> c.events == a.events);
        lemma_buckets(c, d, info, flags, block, news.push(first));
    }
}

proof fn lemma_new_coefficient(
    a: Pass,
    b: Pass,
    info: SliceInfo,
    steps: Steps,
    shift: int,
    block: int,
    bucket: int,
    offset: int,
    unknown: int,
)
    requires
        same_work(a, b),
    ensures
        ({
            let (c, left) = pass_new_coefficient(
                a,
                info,
                steps,
                shift,
                block,
                bucket,
                offset,
                unknown,
            );
            let (d, rest) = pass_new_coefficient(
                b,
                untraced(info),
                steps,
                shift,
                block,
                bucket,
                offset,
                unknown,
            );
            &&& same_work(c, d)
            &&& left == rest
            &&& d.events == b.events
            &&& quiet(info, block) && 0 <= bucket < 64 && 0 <= offset < 16 ==> c.events
                == a.events
        }),
{
}

proof fn lemma_new_bucket(
    a: Pass,
    b: Pass,
    info: SliceInfo,
    steps: Steps,
    flags: Seq<u8>,
    block: int,
    j: int,
    offset: int,
    unknown: int,
)
    requires
        same_work(a, b),
    ensures
        ({
            let c = pass_new_bucket(a, info, steps, flags, block, j, offset, unknown);
            let d = pass_new_bucket(b, untraced(info), steps, flags, block, j, offset, unknown);
            &&& same_work(c, d)
            &&& d.events == b.events
            &&& quiet(info, block) && 0 <= j < bucket_count(info.band as int) && 0 <= offset
                ==> c.events == a.events
        }),
    decreases 16 - offset,
{
    if offset < 16 {
        if flags[16 * j + offset] != IW44_FLAG_UNKNOWN {
            lemma_new_bucket(a, b, info, steps, flags, block, j, offset + 1, unknown);
        } else {
            let shift: int = if bucket_has(flags, j, IW44_FLAG_ACTIVE) {
                8
            } else {
                0
            };
            let bucket = first_bucket(info.band as int) + j;
            lemma_new_coefficient(a, b, info, steps, shift, block, bucket, offset, unknown);
            let (c, left) = pass_new_coefficient(
                a,
                info,
                steps,
                shift,
                block,
                bucket,
                offset,
                unknown,
            );
            let (d, _) = pass_new_coefficient(
                b,
                untraced(info),
                steps,
                shift,
                block,
                bucket,
                offset,
                unknown,
            );
            lemma_new_bucket(c, d, info, steps, flags, block, j, offset + 1, left);
        }
    }
}

proof fn lemma_new_buckets(
    a: Pass,
    b: Pass,
    info: SliceInfo,
    steps: Steps,
    flags: Seq<u8>,
    block: int,
    news: Seq<bool>,
    j: int,
)
    requires
        same_work(a, b),
    ensures
        ({
            let c = pass_new_buckets(a, info, steps, flags, block, news, j);
            let d = pass_new_buckets(b, untraced(info), steps, flags, block, news, j);
            &&& same_work(c, d)
            &&& d.events == b.events
            &&& quiet(info, block) && news.len() <= bucket_count(info.band as int) && 0 <= j
                ==> c.events == a.events
        }),
    decreases news.len() - j,
{
    if j < news.len() {
        if news[j] {
            let unknown = unknown_count(flags, j, 16);
            lemma_new_bucket(a, b, info, steps, flags, block, j, 0, unknown);
            lemma_new_buckets(
                pass_new_bucket(a, info, steps, flags, block, j, 0, unknown),
                pass_new_bucket(b, untraced(info), steps, flags, block, j, 0, unknown),
                info,
                steps,
                flags,
                block,
                news,
                j + 1,
            );
        } else {
            lemma_new_buckets(a, b, info, steps, flags, block, news, j + 1);
        }
    }
}

proof fn lemma_active(
    a: Pass,
    b: Pass,
    info: SliceInfo,
    steps: Steps,
    flags: Seq<u8>,
    block: int,
    i: int,
)
    requires
        same_work(a, b),
    ensures
        ({
            let c = pass_active(a, info, steps, flags, block, i);
            let d = pass_active(b, untraced(info), steps, flags, block, i);
            &&& same_work(c, d)
            &&& d.events == b.events
            &&& quiet(info, block) && flags.len() <= 16 * bucket_count(info.band as int) && 0 <= i
                ==> c.events == a.events
        }),
    decreases flags.len() - i,
{
    if i < flags.len() {
        if flags[i] != IW44_FLAG_ACTIVE {
            lemma_active(a, b, info, steps, flags, block, i + 1);
        } else {
            let bucket = first_bucket(info.band as int) + i / 16;
            let c = pass_active_coefficient(a, info, steps, block, bucket, i % 16);
            let d = pass_active_coefficient(b, untraced(info), steps, block, bucket, i % 16);
            assert(same_work(c, d) && d.events == b.events);
            assert(quiet(info, block) && i < 16 * bucket_count(info.band as int) ==> c.events
                == a.events);
            lemma_active(c, d, info, steps, flags, block, i + 1);
        }
    }
}

proof fn lemma_one_block(a: Pass, b: Pass, info: SliceInfo, steps: Steps, block: int)
    requires
        same_work(a, b),
    ensures
        ({
            let c = pass_one_block(a, info, steps, block);
            let d = pass_one_block(b, untraced(info), steps, block);
            &&& same_work(c, d)
            &&& d.events == b.events
            &&& quiet(info, block) ==> c.events == a.events
        }),
{
    let band = info.band as int;
    let flags = block_flags(steps, band, a.values, block);
    let (c, open) = pass_block(a, band, flags);
    let (d, also) = pass_block(b, band, flags);
    assert(same_work(c, d) && open == also && d.events == b.events);
    lemma_buckets(c, d, info, flags, block, Seq::empty());
    let (e, news) = pass_buckets(c, info, flags, block, Seq::empty());
    let (f, _) = pass_buckets(d, untraced(info), flags, block, Seq::empty());
    lemma_buckets_len(c, info, flags, block, Seq::empty());
    lemma_new_buckets(e, f, info, steps, flags, block, news, 0);
    let (g, h) = if !open {
        (c, d)
    } else if news.contains(true) {
        (
            pass_new_buckets(e, info, steps, flags, block, news, 0),
            pass_new_buckets(f, untraced(info), steps, flags, block, news, 0),
        )
    } else {
        (e, f)
    };
    assert(same_work(g, h) && h.events == b.events);
    assert(quiet(info, block) ==> g.events == a.events);
    lemma_active(g, h, info, steps, flags, block, 0);
}

proof fn lemma_blocks(a: Pass, b: Pass, info: SliceInfo, steps: Steps, block: int, count: int)
    requires
        same_work(a, b),
    ensures
        ({
            let c = pass_blocks(a, info, steps, block, count);
            let d = pass_blocks(b, untraced(info), steps, block, count);
            &&& same_work(c, d)
            &&& d.events == b.events
            &&& quiet_from(info, block, count) ==> c.events == a.events
        }),
    decreases count - block,
{
    if block < count {
        assert(quiet_from(info, block, count) ==> quiet(info, block));
        assert(quiet_from(info, block, count) ==> quiet_from(info, block + 1, count));
        lemma_one_block(a, b, info, steps, block);
        lemma_blocks(
            pass_one_block(a, info, steps, block),
            pass_one_block(b, untraced(info), steps, block),
            info,
            steps,
            block + 1,
            count,
        );
    }
}

/// Whether a plane has a coefficient.
pub open spec fn has_coefficient(plane: PlaneModel, target: Iw44CoefficientTraceTarget) -> bool {
    target.block < plane_blocks(plane) && target.coefficient < 1024
}

/// A slice of a plane is decoded in the same way, whether a coefficient is traced or not;
/// and no event is noted if none of that plane is.
pub proof fn lemma_traced_plane_slice(
    plane: PlaneModel,
    zp: ZpState,
    events: Seq<Iw44CoefficientEvent>,
    others: Seq<Iw44CoefficientEvent>,
    which: Iw44Plane,
    slice_index: u32,
    target: Option<Iw44CoefficientTraceTarget>,
)
    ensures
        ({
            let traced = decode_plane_slice(plane, zp, events, which, slice_index, target);
            let plain = decode_plane_slice(plane, zp, others, which, slice_index, None);
            &&& traced.plane == plain.plane
            &&& traced.zp == plain.zp
            &&& traced.report == plain.report
            &&& plain.events == others
            &&& target is None || target->0.plane != which || !has_coefficient(plane, target->0)
                ==> traced.events == events
        }),
{
    reveal(decode_plane_slice);
    let band = plane.band;
    let quant = reported_step(plane.steps, band);
    let start = Pass {
        zp,
        bucket: plane.bucket,
        coef: plane.coef,
        activate: plane.activate,
        increase: plane.increase,
        values: plane.values,
        events,
    };
    let info = SliceInfo { plane: which, slice_index, band: band as u8, quant, target };
    lemma_blocks(
        start,
        Pass { events: others, ..start },
        info,
        plane.steps,
        0,
        plane_blocks(plane),
    );
    if target is None || target->0.plane != which || !has_coefficient(plane, target->0) {
        assert forall|block: int| 0 <= block < plane_blocks(plane) implies #[trigger] quiet(
            info,
            block,
        ) by {}
    }
}

proof fn lemma_traced_step(
    model: DecoderModel,
    zp: ZpState,
    events: Seq<Iw44CoefficientEvent>,
    others: Seq<Iw44CoefficientEvent>,
    image: Iw44ImageHeader,
    target: Option<Iw44CoefficientTraceTarget>,
)
    ensures
        ({
            let traced = slice_step(model, zp, events, image, target);
            let plain = slice_step(model, zp, others, image, None);
            &&& traced.model == plain.model
            &&& traced.zp == plain.zp
            &&& traced.report == plain.report
            &&& plain.events == others
        }),
{
    let index = model.slices as u32;
    lemma_traced_plane_slice(model.y, zp, events, others, Iw44Plane::Y, index, target);
    let y = decode_plane_slice(model.y, zp, events, Iw44Plane::Y, index, target);
    let chroma = !image.grayscale && index + 1 > image.delay;
    if chroma {
        if model.cb is Some {
            lemma_traced_plane_slice(
                model.cb->0,
                y.zp,
                y.events,
                others,
                Iw44Plane::Cb,
                index,
                target,
            );
        }
        let (after, noted) = if model.cb is Some {
            let cb = decode_plane_slice(
                model.cb->0,
                y.zp,
                y.events,
                Iw44Plane::Cb,
                index,
                target,
            );
            (cb.zp, cb.events)
        } else {
            (y.zp, y.events)
        };
        if model.cr is Some {
            lemma_traced_plane_slice(
                model.cr->0,
                after,
                noted,
                others,
                Iw44Plane::Cr,
                index,
                target,
            );
        }
    }
}

proof fn lemma_traced_slices(
    a: ChunkRun,
    b: ChunkRun,
    image: Iw44ImageHeader,
    target: Option<Iw44CoefficientTraceTarget>,
    left: int,
)
    requires
        same_run(a, b),
    ensures
        same_run(run_slices(a, image, target, left), run_slices(b, image, None, left)),
        run_slices(b, image, None, left).events == b.events,
    decreases left,
{
    if left > 0 {
        lemma_traced_step(a.model, a.zp, a.events, b.events, image, target);
        lemma_traced_slices(
            run_slice(a, image, target),
            run_slice(b, image, None),
            image,
            target,
            left - 1,
        );
    }
}

/// A chunk is decoded in the same way, whether a coefficient is traced or not: it is
/// refused for the same reason, or it leaves the same image, after each of its slices and
/// at its end, and reports the same. No event is noted if no coefficient is traced.
pub proof fn lemma_tracing_changes_nothing(
    model: DecoderModel,
    bytes: Seq<u8>,
    target: Option<Iw44CoefficientTraceTarget>,
)
    ensures
        match (decoded_chunk(model, bytes, target), decoded_chunk(model, bytes, None)) {
            (Ok((header, traced)), Ok((same, plain))) => header == same && same_run(traced, plain)
                && plain.events.len() == 0,
            (Err(message), Err(same)) => message == same,
            _ => false,
        },
{
    match chunk_header(bytes) {
        Err(_) => {},
        Ok(header) => {
            let start = entered(model, header);
            let run = ChunkRun {
                model: start,
                zp: zp_start(bytes.skip(header.payload_start as int)),
                events: Seq::empty(),
                reports: Seq::empty(),
                states: Seq::empty(),
            };
            lemma_traced_slices(run, run, start.image->0, target, header.slices as int);
        },
    }
}

/// The value that an event finds: what the one before it left.
pub open spec fn value_found(events: Seq<Iw44CoefficientEvent>, k: int, first: i16) -> i16 {
    if k == 0 {
        first
    } else {
        events[k - 1].after
    }
}

/// Whether events lead from one value of a coefficient to another: each finds the value
/// that the one before it left.
pub open spec fn leads(events: Seq<Iw44CoefficientEvent>, first: i16, last: i16) -> bool {
    &&& last == value_found(events, events.len() as int, first)
    &&& forall|k: int|
        0 <= k < events.len() ==> events[k].before == #[trigger] value_found(events, k, first)
}

/// Whether an event is a decision.
pub open spec fn is_decision(kind: Iw44CoefficientEventKind) -> bool {
    kind is BucketDecision || kind is ActivationDecision || kind is RefinementDecision
}

/// Whether an event is at a coefficient: with its plane and block, its number, its bucket and
/// its place in that; and leaves its value if it is a decision.
pub open spec fn is_at(event: Iw44CoefficientEvent, target: Iw44CoefficientTraceTarget) -> bool {
    &&& event.plane == target.plane
    &&& event.block == target.block
    &&& event.coefficient == target.coefficient
    &&& event.bucket == target.coefficient / 16
    &&& event.bucket_offset == target.coefficient % 16
    &&& is_decision(event.kind) ==> event.before == event.after
}

/// Whether events are all at a coefficient.
pub open spec fn all_at(
    events: Seq<Iw44CoefficientEvent>,
    target: Iw44CoefficientTraceTarget,
) -> bool {
    forall|k: int| 0 <= k < events.len() ==> is_at(#[trigger] events[k], target)
}

/// Whether one list of events goes on from another, at a coefficient, from one value of it
/// to another.
#[verifier::opaque]
pub open spec fn goes_on(
    before: Seq<Iw44CoefficientEvent>,
    after: Seq<Iw44CoefficientEvent>,
    target: Iw44CoefficientTraceTarget,
    first: i16,
    last: i16,
) -> bool {
    exists|noted: Seq<Iw44CoefficientEvent>|
        after == before + noted && #[trigger] leads(noted, first, last) && all_at(noted, target)
}

proof fn lemma_goes_on(
    a: Seq<Iw44CoefficientEvent>,
    b: Seq<Iw44CoefficientEvent>,
    c: Seq<Iw44CoefficientEvent>,
    target: Iw44CoefficientTraceTarget,
    first: i16,
    middle: i16,
    last: i16,
)
    requires
        goes_on(a, b, target, first, middle),
        goes_on(b, c, target, middle, last),
    ensures
        goes_on(a, c, target, first, last),
{
    reveal(goes_on);
    let one = choose|noted: Seq<Iw44CoefficientEvent>|
        b == a + noted && #[trigger] leads(noted, first, middle) && all_at(noted, target);
    let two = choose|noted: Seq<Iw44CoefficientEvent>|
        c == b + noted && #[trigger] leads(noted, middle, last) && all_at(noted, target);
    let both = one + two;
    assert(c =~= a + both);
    assert forall|k: int| 0 <= k < both.len() implies both[k].before == #[trigger] value_found(
        both,
        k,
        first,
    ) by {
        if k < one.len() {
            assert(value_found(both, k, first) == value_found(one, k, first));
        } else {
            assert(value_found(both, k, first) == value_found(two, k - one.len(), middle));
        }
    }
    assert forall|k: int| 0 <= k < both.len() implies is_at(#[trigger] both[k], target) by {
        if k < one.len() {
            assert(both[k] == one[k]);
        } else {
            assert(both[k] == two[k - one.len()]);
        }
    }
    assert(leads(both, first, last));
}

proof fn lemma_stays(
    events: Seq<Iw44CoefficientEvent>,
    target: Iw44CoefficientTraceTarget,
    value: i16,
)
    ensures
        goes_on(events, events, target, value, value),
{
    reveal(goes_on);
    assert(events =~= events + Seq::empty());
    assert(leads(Seq::empty(), value, value));
}

proof fn lemma_noted(
    events: Seq<Iw44CoefficientEvent>,
    event: Iw44CoefficientEvent,
    target: Iw44CoefficientTraceTarget,
)
    requires
        is_at(event, target),
    ensures
        goes_on(events, events.push(event), target, event.before, event.after),
{
    reveal(goes_on);
    assert(events.push(event) =~= events + seq![event]);
    assert(leads(seq![event], event.before, event.after));
}

/// Where the coefficient that is traced lies among those of its plane.
pub open spec fn target_place(target: Iw44CoefficientTraceTarget) -> int {
    1024 * target.block + target.coefficient
}

/// Whether a slice traces a coefficient of its plane.
pub open spec fn traces_within(
    pass: Pass,
    info: SliceInfo,
    target: Iw44CoefficientTraceTarget,
) -> bool {
    &&& info.target == Some(target)
    &&& info.plane == target.plane
    &&& info.band < 10
    &&& target.coefficient < 1024
    &&& target_place(target) < pass.values.len()
}

/// Whether a decoding of a slice noted how it came from one value of the coefficient that
/// is traced to another.
pub open spec fn noted_changes(a: Pass, b: Pass, target: Iw44CoefficientTraceTarget) -> bool {
    &&& b.values.len() == a.values.len()
    &&& goes_on(
        a.events,
        b.events,
        target,
        a.values[target_place(target)],
        b.values[target_place(target)],
    )
}

proof fn lemma_noted_changes(a: Pass, b: Pass, c: Pass, target: Iw44CoefficientTraceTarget)
    requires
        noted_changes(a, b, target),
        noted_changes(b, c, target),
    ensures
        noted_changes(a, c, target),
{
    let place = target_place(target);
    lemma_goes_on(
        a.events,
        b.events,
        c.events,
        target,
        a.values[place],
        b.values[place],
        c.values[place],
    );
}

proof fn lemma_buckets_noted(
    pass: Pass,
    info: SliceInfo,
    target: Iw44CoefficientTraceTarget,
    flags: Seq<u8>,
    block: int,
    news: Seq<bool>,
)
    requires
        traces_within(pass, info, target),
    ensures
        noted_changes(pass, pass_buckets(pass, info, flags, block, news).0, target),
    decreases bucket_count(info.band as int) - news.len(),
{
    let place = news.len() as int;
    lemma_stays(pass.events, target, pass.values[target_place(target)]);
    if place < bucket_count(info.band as int) {
        let (next, decision) = pass_one_bucket(pass, info, flags, block, place);
        assert(noted_changes(pass, next, target)) by {
            if next.events != pass.events {
                lemma_noted(pass.events, next.events.last(), target);
                assert(next.events =~= pass.events.push(next.events.last()));
            }
        }
        lemma_buckets_noted(next, info, target, flags, block, news.push(decision));
        lemma_noted_changes(
            pass,
            next,
            pass_buckets(pass, info, flags, block, news).0,
            target,
        );
    }
}

proof fn lemma_new_coefficient_noted(
    pass: Pass,
    info: SliceInfo,
    target: Iw44CoefficientTraceTarget,
    steps: Steps,
    shift: int,
    block: int,
    bucket: int,
    offset: int,
    unknown: int,
)
    requires
        traces_within(pass, info, target),
        0 <= block,
        0 <= bucket < 64,
        0 <= offset < 16,
        1024 * block + 16 * bucket + offset < pass.values.len(),
    ensures
        noted_changes(
            pass,
            pass_new_coefficient(pass, info, steps, shift, block, bucket, offset, unknown).0,
            target,
        ),
{
    let coefficient = 16 * bucket + offset;
    let place = 1024 * block + coefficient;
    let value = pass.values[target_place(target)];
    let end = pass_new_coefficient(pass, info, steps, shift, block, bucket, offset, unknown).0;
    lemma_stays(pass.events, target, value);
    assert(place == target_place(target) <==> traces(info, block, coefficient));
    if traces(info, block, coefficient) {
        let count = pass.events.len() as int;
        let decided = end.events.take(count + 1);
        lemma_noted(pass.events, end.events[count], target);
        assert(decided =~= pass.events.push(end.events[count]));
        if end.events.len() > count + 1 {
            lemma_noted(decided, end.events[count + 1], target);
            assert(end.events =~= decided.push(end.events[count + 1]));
            lemma_goes_on(
                pass.events,
                decided,
                end.events,
                target,
                value,
                value,
                end.values[place],
            );
        } else {
            assert(end.events =~= decided);
        }
    }
}

proof fn lemma_new_bucket_noted(
    pass: Pass,
    info: SliceInfo,
    target: Iw44CoefficientTraceTarget,
    steps: Steps,
    flags: Seq<u8>,
    block: int,
    j: int,
    offset: int,
    unknown: int,
)
    requires
        traces_within(pass, info, target),
        0 <= block,
        0 <= j < bucket_count(info.band as int),
        0 <= offset,
        1024 * block + 1024 <= pass.values.len(),
    ensures
        noted_changes(
            pass,
            pass_new_bucket(pass, info, steps, flags, block, j, offset, unknown),
            target,
        ),
    decreases 16 - offset,
{
    lemma_stays(pass.events, target, pass.values[target_place(target)]);
    if offset < 16 {
        if flags[16 * j + offset] != IW44_FLAG_UNKNOWN {
            lemma_new_bucket_noted(
                pass,
                info,
                target,
                steps,
                flags,
                block,
                j,
                offset + 1,
                unknown,
            );
        } else {
            let shift: int = if bucket_has(flags, j, IW44_FLAG_ACTIVE) {
                8
            } else {
                0
            };
            let bucket = first_bucket(info.band as int) + j;
            lemma_new_coefficient_noted(
                pass,
                info,
                target,
                steps,
                shift,
                block,
                bucket,
                offset,
                unknown,
            );
            let (next, left) = pass_new_coefficient(
                pass,
                info,
                steps,
                shift,
                block,
                bucket,
                offset,
                unknown,
            );
            lemma_new_bucket_noted(next, info, target, steps, flags, block, j, offset + 1, left);
            lemma_noted_changes(
                pass,
                next,
                pass_new_bucket(pass, info, steps, flags, block, j, offset, unknown),
                target,
            );
        }
    }
}

proof fn lemma_new_buckets_noted(
    pass: Pass,
    info: SliceInfo,
    target: Iw44CoefficientTraceTarget,
    steps: Steps,
    flags: Seq<u8>,
    block: int,
    news: Seq<bool>,
    j: int,
)
    requires
        traces_within(pass, info, target),
        0 <= block,
        0 <= j,
        news.len() == bucket_count(info.band as int),
        1024 * block + 1024 <= pass.values.len(),
    ensures
        noted_changes(
            pass,
            pass_new_buckets(pass, info, steps, flags, block, news, j),
            target,
        ),
    decreases news.len() - j,
{
    lemma_stays(pass.events, target, pass.values[target_place(target)]);
    if j < news.len() {
        let unknown = unknown_count(flags, j, 16);
        let next = if news[j] {
            pass_new_bucket(pass, info, steps, flags, block, j, 0, unknown)
        } else {
            pass
        };
        if news[j] {
            lemma_new_bucket_noted(pass, info, target, steps, flags, block, j, 0, unknown);
        }
        lemma_new_buckets_noted(next, info, target, steps, flags, block, news, j + 1);
        lemma_noted_changes(
            pass,
            next,
            pass_new_buckets(pass, info, steps, flags, block, news, j),
            target,
        );
    }
}

proof fn lemma_active_coefficient_noted(
    pass: Pass,
    info: SliceInfo,
    target: Iw44CoefficientTraceTarget,
    steps: Steps,
    block: int,
    bucket: int,
    offset: int,
)
    requires
        traces_within(pass, info, target),
        0 <= block,
        0 <= bucket < 64,
        0 <= offset < 16,
        1024 * block + 16 * bucket + offset < pass.values.len(),
    ensures
        noted_changes(
            pass,
            pass_active_coefficient(pass, info, steps, block, bucket, offset),
            target,
        ),
{
    let coefficient = 16 * bucket + offset;
    let place = 1024 * block + coefficient;
    let value = pass.values[target_place(target)];
    let end = pass_active_coefficient(pass, info, steps, block, bucket, offset);
    lemma_stays(pass.events, target, value);
    assert(place == target_place(target) <==> traces(info, block, coefficient));
    if traces(info, block, coefficient) {
        let count = pass.events.len() as int;
        let decided = end.events.take(count + 1);
        lemma_noted(pass.events, end.events[count], target);
        assert(decided =~= pass.events.push(end.events[count]));
        lemma_noted(decided, end.events[count + 1], target);
        assert(end.events =~= decided.push(end.events[count + 1]));
        lemma_goes_on(
            pass.events,
            decided,
            end.events,
            target,
            value,
            value,
            end.values[place],
        );
    }
}

proof fn lemma_active_noted(
    pass: Pass,
    info: SliceInfo,
    target: Iw44CoefficientTraceTarget,
    steps: Steps,
    flags: Seq<u8>,
    block: int,
    i: int,
)
    requires
        traces_within(pass, info, target),
        0 <= block,
        0 <= i,
        flags.len() == 16 * bucket_count(info.band as int),
        1024 * block + 1024 <= pass.values.len(),
    ensures
        noted_changes(pass, pass_active(pass, info, steps, flags, block, i), target),
    decreases flags.len() - i,
{
    lemma_stays(pass.events, target, pass.values[target_place(target)]);
    if i < flags.len() {
        if flags[i] != IW44_FLAG_ACTIVE {
            lemma_active_noted(pass, info, target, steps, flags, block, i + 1);
        } else {
            let bucket = first_bucket(info.band as int) + i / 16;
            lemma_active_coefficient_noted(pass, info, target, steps, block, bucket, i % 16);
            let next = pass_active_coefficient(pass, info, steps, block, bucket, i % 16);
            lemma_active_noted(next, info, target, steps, flags, block, i + 1);
            lemma_noted_changes(
                pass,
                next,
                pass_active(pass, info, steps, flags, block, i),
                target,
            );
        }
    }
}

proof fn lemma_buckets_len(
    pass: Pass,
    info: SliceInfo,
    flags: Seq<u8>,
    block: int,
    news: Seq<bool>,
)
    requires
        news.len() <= bucket_count(info.band as int),
    ensures
        pass_buckets(pass, info, flags, block, news).1.len() == bucket_count(info.band as int),
    decreases bucket_count(info.band as int) - news.len(),
{
    let place = news.len() as int;
    if place < bucket_count(info.band as int) {
        let (next, decision) = pass_one_bucket(pass, info, flags, block, place);
        lemma_buckets_len(next, info, flags, block, news.push(decision));
    }
}

proof fn lemma_one_block_noted(
    pass: Pass,
    info: SliceInfo,
    target: Iw44CoefficientTraceTarget,
    steps: Steps,
    block: int,
)
    requires
        traces_within(pass, info, target),
        0 <= block,
        1024 * block + 1024 <= pass.values.len(),
    ensures
        noted_changes(pass, pass_one_block(pass, info, steps, block), target),
{
    let band = info.band as int;
    let flags = block_flags(steps, band, pass.values, block);
    let (entered, open) = pass_block(pass, band, flags);
    lemma_stays(pass.events, target, pass.values[target_place(target)]);
    assert(noted_changes(pass, entered, target));
    let (chosen, news) = pass_buckets(entered, info, flags, block, Seq::empty());
    lemma_buckets_noted(entered, info, target, flags, block, Seq::empty());
    lemma_buckets_len(entered, info, flags, block, Seq::empty());
    lemma_noted_changes(pass, entered, chosen, target);
    lemma_new_buckets_noted(chosen, info, target, steps, flags, block, news, 0);
    lemma_noted_changes(
        pass,
        chosen,
        pass_new_buckets(chosen, info, steps, flags, block, news, 0),
        target,
    );
    let grown = if !open {
        entered
    } else if news.contains(true) {
        pass_new_buckets(chosen, info, steps, flags, block, news, 0)
    } else {
        chosen
    };
    assert(noted_changes(pass, grown, target));
    lemma_active_noted(grown, info, target, steps, flags, block, 0);
    lemma_noted_changes(
        pass,
        grown,
        pass_active(grown, info, steps, flags, block, 0),
        target,
    );
}

proof fn lemma_blocks_noted(
    pass: Pass,
    info: SliceInfo,
    target: Iw44CoefficientTraceTarget,
    steps: Steps,
    block: int,
    count: int,
)
    requires
        traces_within(pass, info, target),
        0 <= block,
        1024 * count <= pass.values.len(),
    ensures
        noted_changes(pass, pass_blocks(pass, info, steps, block, count), target),
    decreases count - block,
{
    lemma_stays(pass.events, target, pass.values[target_place(target)]);
    if block < count {
        let next = pass_one_block(pass, info, steps, block);
        lemma_one_block_noted(pass, info, target, steps, block);
        lemma_blocks_noted(next, info, target, steps, block + 1, count);
        lemma_noted_changes(
            pass,
            next,
            pass_blocks(pass, info, steps, block, count),
            target,
        );
    }
}

/// The coefficients of a plane of which one is traced.
pub open spec fn holds_target(plane: PlaneModel, target: Iw44CoefficientTraceTarget) -> bool {
    &&& target.block < plane_blocks(plane)
    &&& target.coefficient < 1024
    &&& plane.values.len() == 1024 * plane_blocks(plane)
    &&& 0 <= plane.band < 10
}

/// A slice of a plane notes how it came from one value of the coefficient that is traced to
/// another.
pub proof fn lemma_plane_slice_noted(
    plane: PlaneModel,
    zp: ZpState,
    events: Seq<Iw44CoefficientEvent>,
    slice_index: u32,
    target: Iw44CoefficientTraceTarget,
)
    requires
        holds_target(plane, target),
    ensures
        ({
            let next = decode_plane_slice(
                plane,
                zp,
                events,
                target.plane,
                slice_index,
                Some(target),
            );
            &&& holds_target(next.plane, target)
            &&& goes_on(
                events,
                next.events,
                target,
                plane.values[target_place(target)],
                next.plane.values[target_place(target)],
            )
        }),
{
    reveal(decode_plane_slice);
    let band = plane.band;
    let start = Pass {
        zp,
        bucket: plane.bucket,
        coef: plane.coef,
        activate: plane.activate,
        increase: plane.increase,
        values: plane.values,
        events,
    };
    lemma_stays(events, target, plane.values[target_place(target)]);
    lemma_blocks_noted(
        start,
        SliceInfo {
            plane: target.plane,
            slice_index,
            band: band as u8,
            quant: reported_step(plane.steps, band),
            target: Some(target),
        },
        target,
        plane.steps,
        0,
        plane_blocks(plane),
    );
}

/// Whether an image has the plane of the coefficient that is traced.
pub open spec fn image_holds_target(
    model: DecoderModel,
    target: Iw44CoefficientTraceTarget,
) -> bool {
    &&& plane_of(model, target.plane) is Some
    &&& holds_target(plane_of(model, target.plane)->0, target)
}

/// The value of the coefficient that is traced.
pub open spec fn target_value(model: DecoderModel, target: Iw44CoefficientTraceTarget) -> i16 {
    plane_of(model, target.plane)->0.values[target_place(target)]
}

proof fn lemma_step_noted(
    model: DecoderModel,
    zp: ZpState,
    events: Seq<Iw44CoefficientEvent>,
    image: Iw44ImageHeader,
    target: Iw44CoefficientTraceTarget,
)
    requires
        image_holds_target(model, target),
    ensures
        ({
            let next = slice_step(model, zp, events, image, Some(target));
            &&& image_holds_target(next.model, target)
            &&& goes_on(
                events,
                next.events,
                target,
                target_value(model, target),
                target_value(next.model, target),
            )
        }),
{
    let index = model.slices as u32;
    let chroma = !image.grayscale && index + 1 > image.delay;
    let wanted = Some(target);
    lemma_stays(events, target, target_value(model, target));
    let y = decode_plane_slice(model.y, zp, events, Iw44Plane::Y, index, wanted);
    lemma_traced_plane_slice(model.y, zp, events, events, Iw44Plane::Y, index, wanted);
    if target.plane == Iw44Plane::Y {
        lemma_plane_slice_noted(model.y, zp, events, index, target);
    }
    let (after, noted) = if chroma && model.cb is Some {
        let cb = decode_plane_slice(model.cb->0, y.zp, y.events, Iw44Plane::Cb, index, wanted);
        (cb.zp, cb.events)
    } else {
        (y.zp, y.events)
    };
    if chroma && model.cb is Some {
        lemma_traced_plane_slice(
            model.cb->0,
            y.zp,
            y.events,
            y.events,
            Iw44Plane::Cb,
            index,
            wanted,
        );
        if target.plane == Iw44Plane::Cb {
            lemma_plane_slice_noted(model.cb->0, y.zp, y.events, index, target);
        }
    }
    if chroma && model.cr is Some {
        lemma_traced_plane_slice(
            model.cr->0,
            after,
            noted,
            noted,
            Iw44Plane::Cr,
            index,
            wanted,
        );
        if target.plane == Iw44Plane::Cr {
            lemma_plane_slice_noted(model.cr->0, after, noted, index, target);
        }
    }
}

proof fn lemma_slices_noted(
    run: ChunkRun,
    image: Iw44ImageHeader,
    target: Iw44CoefficientTraceTarget,
    left: int,
)
    requires
        image_holds_target(run.model, target),
    ensures
        ({
            let end = run_slices(run, image, Some(target), left);
            &&& image_holds_target(end.model, target)
            &&& goes_on(
                run.events,
                end.events,
                target,
                target_value(run.model, target),
                target_value(end.model, target),
            )
        }),
    decreases left,
{
    lemma_stays(run.events, target, target_value(run.model, target));
    if left > 0 {
        let next = run_slice(run, image, Some(target));
        lemma_step_noted(run.model, run.zp, run.events, image, target);
        lemma_slices_noted(next, image, target, left - 1);
        let end = run_slices(run, image, Some(target), left);
        lemma_goes_on(
            run.events,
            next.events,
            end.events,
            target,
            target_value(run.model, target),
            target_value(next.model, target),
            target_value(end.model, target),
        );
    }
}

/// The events that are noted of a chunk are all at the coefficient that is traced, and lead
/// from its value before the chunk to its value after it.
pub proof fn lemma_events_lead_to_value(
    model: DecoderModel,
    bytes: Seq<u8>,
    target: Iw44CoefficientTraceTarget,
)
    requires
        decoded_chunk(model, bytes, Some(target)) is Ok,
        image_holds_target(entered(model, chunk_header(bytes)->Ok_0), target),
    ensures
        ({
            let start = entered(model, chunk_header(bytes)->Ok_0);
            let (_, run) = decoded_chunk(model, bytes, Some(target))->Ok_0;
            &&& leads(run.events, target_value(start, target), target_value(run.model, target))
            &&& all_at(run.events, target)
        }),
{
    reveal(goes_on);
    let header = chunk_header(bytes)->Ok_0;
    let start = entered(model, header);
    let run = ChunkRun {
        model: start,
        zp: zp_start(bytes.skip(header.payload_start as int)),
        events: Seq::empty(),
        reports: Seq::empty(),
        states: Seq::empty(),
    };
    lemma_slices_noted(run, start.image->0, target, header.slices as int);
    let end = run_slices(run, start.image->0, Some(target), header.slices as int);
    let noted = choose|noted: Seq<Iw44CoefficientEvent>|
        end.events == run.events + noted && #[trigger] leads(
            noted,
            target_value(start, target),
            target_value(end.model, target),
        ) && all_at(noted, target);
    assert(end.events =~= noted);
}

/// Whether an image lacks a coefficient: its plane, its block, or the coefficient itself.
pub open spec fn lacks_coefficient(
    model: DecoderModel,
    target: Iw44CoefficientTraceTarget,
) -> bool {
    plane_of(model, target.plane) is Some ==> !has_coefficient(
        plane_of(model, target.plane)->0,
        target,
    )
}

proof fn lemma_step_unnoted(
    model: DecoderModel,
    zp: ZpState,
    events: Seq<Iw44CoefficientEvent>,
    image: Iw44ImageHeader,
    target: Iw44CoefficientTraceTarget,
)
    requires
        lacks_coefficient(model, target),
    ensures
        lacks_coefficient(slice_step(model, zp, events, image, Some(target)).model, target),
        slice_step(model, zp, events, image, Some(target)).events == events,
{
    let index = model.slices as u32;
    let chroma = !image.grayscale && index + 1 > image.delay;
    let wanted = Some(target);
    let y = decode_plane_slice(model.y, zp, events, Iw44Plane::Y, index, wanted);
    lemma_traced_plane_slice(model.y, zp, events, events, Iw44Plane::Y, index, wanted);
    let (after, noted) = if chroma && model.cb is Some {
        let cb = decode_plane_slice(model.cb->0, y.zp, y.events, Iw44Plane::Cb, index, wanted);
        (cb.zp, cb.events)
    } else {
        (y.zp, y.events)
    };
    if chroma && model.cb is Some {
        lemma_traced_plane_slice(
            model.cb->0,
            y.zp,
            y.events,
            y.events,
            Iw44Plane::Cb,
            index,
            wanted,
        );
    }
    if chroma && model.cr is Some {
        lemma_traced_plane_slice(
            model.cr->0,
            after,
            noted,
            noted,
            Iw44Plane::Cr,
            index,
            wanted,
        );
    }
    reveal(decode_plane_slice);
}

proof fn lemma_slices_unnoted(
    run: ChunkRun,
    image: Iw44ImageHeader,
    target: Iw44CoefficientTraceTarget,
    left: int,
)
    requires
        lacks_coefficient(run.model, target),
    ensures
        run_slices(run, image, Some(target), left).events == run.events,
    decreases left,
{
    if left > 0 {
        lemma_step_unnoted(run.model, run.zp, run.events, image, target);
        lemma_slices_unnoted(run_slice(run, image, Some(target)), image, target, left - 1);
    }
}

/// No event is noted of a chunk where the image lacks the coefficient that is traced.
pub proof fn lemma_no_events_of_missing(
    model: DecoderModel,
    bytes: Seq<u8>,
    target: Iw44CoefficientTraceTarget,
)
    requires
        decoded_chunk(model, bytes, Some(target)) is Ok,
        lacks_coefficient(entered(model, chunk_header(bytes)->Ok_0), target),
    ensures
        decoded_chunk(model, bytes, Some(target))->Ok_0.1.events.len() == 0,
{
    let header = chunk_header(bytes)->Ok_0;
    let start = entered(model, header);
    lemma_slices_unnoted(
        ChunkRun {
            model: start,
            zp: zp_start(bytes.skip(header.payload_start as int)),
            events: Seq::empty(),
            reports: Seq::empty(),
            states: Seq::empty(),
        },
        start.image->0,
        target,
        header.slices as int,
    );
}

} // verus!
