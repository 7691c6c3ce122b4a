//! How coefficients come to their values, chunk by chunk.

use super::coefficients::{
    entries_placed, entry_placed, find_coefficients, plane_coefficients, Iw44CoefficientEntry,
};
use super::{layer_error_within, missing_plane, missing_plane_error, within};
use super::{InspectError, InspectFault};
use crate::bitonal::lemma_pixel_index;
use crate::iw44::blocks::{blocks_along, coefficient_index, magnitude, magnitude_of};
use crate::iw44::decoder::{
    blank_decoder, chroma_extent, decoded_chunk, entered, lemma_chunk_keeps_sizes, plane_of,
    same_sizes, watched_value, DecoderModel, Iw44DecodedSlice, Iw44Decoder,
};
use crate::iw44::header::{chunk_header, read_iw44_chunk_header, Iw44ImageHeader};
use crate::iw44::slice::{plane_blocks, PlaneModel};
use crate::iw44::{Iw44CoefficientEvent, Iw44CoefficientTraceTarget, Iw44Plane};
use crate::render::plan::{payloads_view, RenderChunkPayload};
use crate::text::{decimal, push_decimal, text_of};
use vstd::arithmetic::div_mod::lemma_fundamental_div_mod_converse;
use vstd::prelude::*;

verus! {

/// The values of coefficients after a chunk, or after a slice of it.
#[derive(Debug, Clone, Eq, PartialEq)]
pub struct Iw44CoefficientTraceStep {
    pub chunk_index: usize,
    pub chunk_serial: u8,
    pub slice_index: Option<u32>,
    pub slices_decoded: u32,
    pub values: Vec<Iw44CoefficientEntry>,
}

/// An event at a coefficient, and the chunk in which it came.
#[derive(Debug, Clone, Copy, Eq, PartialEq, Structural)]
pub struct Iw44CoefficientTraceEvent {
    pub chunk_index: usize,
    pub chunk_serial: u8,
    pub event: Iw44CoefficientEvent,
}

/// All events at a coefficient.
#[derive(Debug, Clone, Eq, PartialEq)]
pub struct Iw44CoefficientEventTrace {
    pub entry: Iw44CoefficientEntry,
    pub events: Vec<Iw44CoefficientTraceEvent>,
}

/// The values of coefficients at one time, as a value.
#[verifier::ext_equal]
pub struct StepModel {
    pub chunk_index: usize,
    pub chunk_serial: u8,
    pub slice_index: Option<u32>,
    pub slices_decoded: u32,
    pub values: Seq<Iw44CoefficientEntry>,
}

/// All events at a coefficient, as a value.
#[verifier::ext_equal]
pub struct EventTraceModel {
    pub entry: Iw44CoefficientEntry,
    pub events: Seq<Iw44CoefficientTraceEvent>,
}

impl View for Iw44CoefficientTraceStep {
    type V = StepModel;

    open spec fn view(&self) -> StepModel {
        StepModel {
            chunk_index: self.chunk_index,
            chunk_serial: self.chunk_serial,
            slice_index: self.slice_index,
            slices_decoded: self.slices_decoded,
            values: self.values@,
        }
    }
}

impl View for Iw44CoefficientEventTrace {
    type V = EventTraceModel;

    open spec fn view(&self) -> EventTraceModel {
        EventTraceModel { entry: self.entry, events: self.events@ }
    }
}

/// Steps by their values.
pub open spec fn steps_view(steps: Seq<Iw44CoefficientTraceStep>) -> Seq<StepModel> {
    Seq::new(steps.len(), |i: int| steps[i]@)
}

/// Events of coefficients by their values.
pub open spec fn traces_view(traces: Seq<Iw44CoefficientEventTrace>) -> Seq<EventTraceModel> {
    Seq::new(traces.len(), |i: int| traces[i]@)
}

/// A coefficient with another value.
pub open spec fn with_value(entry: Iw44CoefficientEntry, value: i16) -> Iw44CoefficientEntry {
    Iw44CoefficientEntry { value, absolute: magnitude(value) as u16, ..entry }
}

/// Coefficients with the values that a plane has for them.
pub open spec fn traced_values(
    plane: PlaneModel,
    entries: Seq<Iw44CoefficientEntry>,
) -> Seq<Iw44CoefficientEntry> {
    Seq::new(
        entries.len(),
        |i: int|
            with_value(
                entries[i],
                plane_coefficients(plane)[entries[i].y * plane.width + entries[i].x],
            ),
    )
}

/// In the course of what a chunk fails.
pub open spec fn decode_context(index: usize) -> Seq<char> {
    "failed to decode IW44 chunk #"@ + decimal(index as nat)
}

/// In the course of what the header of a chunk fails.
pub open spec fn header_context(index: usize) -> Seq<char> {
    "failed to read IW44 chunk #"@ + decimal(index as nat) + " header"@
}

/// The step that a chunk makes.
pub open spec fn chunk_steps(
    model: DecoderModel,
    payload: (usize, Seq<u8>),
    which: Iw44Plane,
    entries: Seq<Iw44CoefficientEntry>,
) -> Result<(DecoderModel, Seq<StepModel>), InspectFault> {
    match decoded_chunk(model, payload.1, None) {
        Err(message) => Err(within(decode_context(payload.0), message)),
        Ok((header, run)) => match plane_of(run.model, which) {
            None => Err(missing_plane(which, " coefficient plane"@)),
            Some(plane) => Ok(
                (
                    run.model,
                    seq![
                        StepModel {
                            chunk_index: payload.0,
                            chunk_serial: header.serial,
                            slice_index: None,
                            slices_decoded: run.model.slices as u32,
                            values: traced_values(plane, entries),
                        },
                    ],
                ),
            ),
        },
    }
}

/// The steps that the slices of a chunk make.
pub open spec fn slice_steps(
    model: DecoderModel,
    payload: (usize, Seq<u8>),
    which: Iw44Plane,
    entries: Seq<Iw44CoefficientEntry>,
) -> Result<(DecoderModel, Seq<StepModel>), InspectFault> {
    match chunk_header(payload.1) {
        Err(message) => Err(within(header_context(payload.0), message)),
        Ok(header) => match decoded_chunk(model, payload.1, None) {
            Err(message) => Err(within(decode_context(payload.0), message)),
            Ok((_, run)) => if run.states.len() > 0 && plane_of(run.model, which) is None {
                Err(missing_plane(which, " coefficient plane"@))
            } else {
                Ok(
                    (
                        run.model,
                        Seq::new(
                            run.states.len(),
                            |k: int|
                                StepModel {
                                    chunk_index: payload.0,
                                    chunk_serial: header.serial,
                                    slice_index: Some(run.reports[k].index),
                                    slices_decoded: run.states[k].slices as u32,
                                    values: traced_values(
                                        plane_of(run.states[k], which)->0,
                                        entries,
                                    ),
                                },
                        ),
                    ),
                )
            },
        },
    }
}

/// The steps that one chunk makes, as a whole or slice by slice.
#[verifier::opaque]
pub open spec fn steps_of(
    model: DecoderModel,
    payload: (usize, Seq<u8>),
    which: Iw44Plane,
    entries: Seq<Iw44CoefficientEntry>,
    slices: bool,
) -> Result<(DecoderModel, Seq<StepModel>), InspectFault> {
    if slices {
        slice_steps(model, payload, which, entries)
    } else {
        chunk_steps(model, payload, which, entries)
    }
}

/// The steps that the first `count` chunks make, and the image after them.
pub open spec fn trace_of(
    payloads: Seq<(usize, Seq<u8>)>,
    which: Iw44Plane,
    entries: Seq<Iw44CoefficientEntry>,
    slices: bool,
    count: int,
) -> Result<(DecoderModel, Seq<StepModel>), InspectFault>
    decreases count,
{
    if count <= 0 {
        Ok((blank_decoder(), Seq::empty()))
    } else {
        match trace_of(payloads, which, entries, slices, count - 1) {
            Err(fault) => Err(fault),
            Ok((model, before)) => match steps_of(
                model,
                payloads[count - 1],
                which,
                entries,
                slices,
            ) {
                Err(fault) => Err(fault),
                Ok((next, steps)) => Ok((next, before + steps)),
            },
        }
    }
}

/// The events that one chunk brings at a coefficient.
#[verifier::opaque]
pub open spec fn chunk_events(
    model: DecoderModel,
    payload: (usize, Seq<u8>),
    target: Iw44CoefficientTraceTarget,
) -> Result<(DecoderModel, Seq<Iw44CoefficientTraceEvent>), InspectFault> {
    match chunk_header(payload.1) {
        Err(message) => Err(within(header_context(payload.0), message)),
        Ok(header) => match decoded_chunk(model, payload.1, Some(target)) {
            Err(message) => Err(within(decode_context(payload.0), message)),
            Ok((_, run)) => Ok(
                (
                    run.model,
                    Seq::new(
                        run.events.len(),
                        |k: int|
                            Iw44CoefficientTraceEvent {
                                chunk_index: payload.0,
                                chunk_serial: header.serial,
                                event: run.events[k],
                            },
                    ),
                ),
            ),
        },
    }
}

/// The events that the first `count` chunks bring at a coefficient, and the image after
/// them.
pub open spec fn events_of(
    payloads: Seq<(usize, Seq<u8>)>,
    target: Iw44CoefficientTraceTarget,
    count: int,
) -> Result<(DecoderModel, Seq<Iw44CoefficientTraceEvent>), InspectFault>
    decreases count,
{
    if count <= 0 {
        Ok((blank_decoder(), Seq::empty()))
    } else {
        match events_of(payloads, target, count - 1) {
            Err(fault) => Err(fault),
            Ok((model, before)) => match chunk_events(model, payloads[count - 1], target) {
                Err(fault) => Err(fault),
                Ok((next, events)) => Ok((next, before + events)),
            },
        }
    }
}

/// The events at the first `count` coefficients of a list.
pub open spec fn event_traces_of(
    payloads: Seq<(usize, Seq<u8>)>,
    which: Iw44Plane,
    block: usize,
    entries: Seq<Iw44CoefficientEntry>,
    count: int,
) -> Result<Seq<EventTraceModel>, InspectFault>
    decreases count,
{
    if count <= 0 {
        Ok(Seq::empty())
    } else {
        match event_traces_of(payloads, which, block, entries, count - 1) {
            Err(fault) => Err(fault),
            Ok(before) => {
                let entry = entries[count - 1];
                let target = Iw44CoefficientTraceTarget {
                    plane: which,
                    block,
                    coefficient: entry.index,
                };
                match events_of(payloads, target, payloads.len() as int) {
                    Err(fault) => Err(fault),
                    Ok((_, events)) => Ok(before.push(EventTraceModel { entry, events })),
                }
            },
        }
    }
}

/// The size that a plane of an image has.
pub open spec fn plane_extents(image: Iw44ImageHeader, which: Iw44Plane) -> (int, int) {
    match which {
        Iw44Plane::Y => (image.width as int, image.height as int),
        _ => (
            chroma_extent(image.width as int, image.chroma_half),
            chroma_extent(image.height as int, image.chroma_half),
        ),
    }
}

/// The first chunk of a layer gives a plane the given size.
pub open spec fn layer_extents(
    payloads: Seq<(usize, Seq<u8>)>,
    which: Iw44Plane,
    width: int,
    height: int,
) -> bool {
    payloads.len() > 0 ==> match chunk_header(payloads[0].1) {
        Ok(header) => header.image is Some ==> plane_extents(header.image->0, which) == (
            width,
            height,
        ),
        Err(_) => true,
    }
}

/// A plane has the given size, if it is there.
pub open spec fn plane_sized(
    model: DecoderModel,
    which: Iw44Plane,
    width: int,
    height: int,
) -> bool {
    plane_of(model, which) is Some ==> {
        &&& plane_of(model, which)->0.width == width
        &&& plane_of(model, which)->0.height == height
    }
}

/// A decoder as it is after some chunks of a layer.
pub open spec fn on_course(
    model: DecoderModel,
    done: int,
    which: Iw44Plane,
    width: int,
    height: int,
) -> bool {
    &&& model.chunks == done
    &&& 0 <= model.slices <= 255 * model.chunks
    &&& done == 0 ==> model == blank_decoder()
    &&& done > 0 ==> plane_sized(model, which, width, height) && model.image is Some
}

/// A chunk of a layer keeps a decoder on its course.
proof fn lemma_stays_on_course(
    model: DecoderModel,
    payloads: Seq<(usize, Seq<u8>)>,
    done: int,
    which: Iw44Plane,
    target: Option<Iw44CoefficientTraceTarget>,
    width: int,
    height: int,
)
    requires
        0 <= done < payloads.len(),
        on_course(model, done, which, width, height),
        layer_extents(payloads, which, width, height),
        decoded_chunk(model, payloads[done].1, target) is Ok,
    ensures
        ({
            let run = decoded_chunk(model, payloads[done].1, target)->Ok_0.1;
            &&& on_course(run.model, done + 1, which, width, height)
            &&& run.model.slices <= u32::MAX
            &&& forall|k: int|
                0 <= k < run.states.len() ==> {
                    &&& plane_sized(#[trigger] run.states[k], which, width, height)
                    &&& (plane_of(run.states[k], which) is Some) == (plane_of(
                        run.model,
                        which,
                    ) is Some)
                    &&& run.states[k].slices == model.slices + k + 1
                    &&& run.states[k].slices <= u32::MAX
                }
        }),
{
    let (header, run) = decoded_chunk(model, payloads[done].1, target)->Ok_0;
    lemma_chunk_keeps_sizes(model, payloads[done].1, target);
    let start = entered(model, header);
    assert(plane_sized(start, which, width, height));
    assert forall|k: int| 0 <= k < run.states.len() implies {
        &&& plane_sized(#[trigger] run.states[k], which, width, height)
        &&& (plane_of(run.states[k], which) is Some) == (plane_of(run.model, which) is Some)
    } by {
        assert(same_sizes(run.states[k], start));
    }
}

/// Where the value of a coefficient is kept.
proof fn lemma_watched_entry(
    model: DecoderModel,
    which: Iw44Plane,
    entry: Iw44CoefficientEntry,
    target: Iw44CoefficientTraceTarget,
    block_x: int,
    block_y: int,
)
    requires
        plane_of(model, which) is Some,
        ({
            let plane = plane_of(model, which)->0;
            &&& entry_placed(entry, plane.width, plane.height, block_x, block_y)
            &&& target.plane == which
            &&& target.block == (entry.y as int / 32) * blocks_along(plane.width) + entry.x as int
                / 32
            &&& target.coefficient == entry.index
        }),
        block_x % 32 == 0,
        block_y % 32 == 0,
        0 <= block_x,
        0 <= block_y,
    ensures
        ({
            let plane = plane_of(model, which)->0;
            watched_value(model, target) == Some(
                plane_coefficients(plane)[entry.y * plane.width + entry.x],
            )
        }),
{
    reveal(entry_placed);
    let plane = plane_of(model, which)->0;
    let x = entry.x as int;
    let y = entry.y as int;
    let columns = blocks_along(plane.width);
    let rows = blocks_along(plane.height);
    lemma_pixel_index(plane.width, plane.height, x, y);
    lemma_fundamental_div_mod_converse(y * plane.width + x, plane.width, y, x);
    lemma_pixel_index(columns, rows, x / 32, y / 32);
    assert(columns * rows == plane_blocks(plane));
    assert(x % 32 == x - block_x);
    assert(y % 32 == y - block_y);
    assert(coefficient_index(columns, y, x) == 1024 * target.block + target.coefficient);
}

/// In the course of what a chunk fails.
pub(crate) fn decode_context_text(index: usize) -> (text: String)
    ensures
        text@ == decode_context(index),
{
    let mut text: String = text_of("failed to decode IW44 chunk #");
    push_decimal(&mut text, index as u64);
    text
}

/// In the course of what the header of a chunk fails.
fn header_context_text(index: usize) -> (text: String)
    ensures
        text@ == header_context(index),
{
    let mut text: String = text_of("failed to read IW44 chunk #");
    push_decimal(&mut text, index as u64);
    text.append(" header");
    text
}

/// Coefficients with the values that an image has for them.
fn iw44_trace_values(
    decoder: &Iw44Decoder,
    plane: Iw44Plane,
    entries: &Vec<Iw44CoefficientEntry>,
    Ghost(block_x): Ghost<int>,
    Ghost(block_y): Ghost<int>,
) -> (values: Result<Vec<Iw44CoefficientEntry>, InspectError>)
    requires
        decoder.wf(),
        decoder@.image is Some,
        plane_of(decoder@, plane) is Some ==> entries_placed(
            entries@,
            plane_of(decoder@, plane)->0.width,
            plane_of(decoder@, plane)->0.height,
            block_x,
            block_y,
        ),
    ensures
        match plane_of(decoder@, plane) {
            None => values is Err && values->Err_0@ == missing_plane(
                plane,
                " coefficient plane"@,
            ),
            Some(data) => values is Ok && values->Ok_0@ == traced_values(data, entries@),
        },
{
    let planes = decoder.coefficient_planes();
    let data = match find_coefficients(&planes, plane, Ghost(decoder@)) {
        None => {
            return Err(missing_plane_error(plane, " coefficient plane"));
        },
        Some(data) => data,
    };
    let ghost model = plane_of(decoder@, plane)->0;
    let mut values: Vec<Iw44CoefficientEntry> = Vec::new();
    let mut i: usize = 0;
    assert(data.coefficients@.len() == data.coefficients.len());
    while i < entries.len()
        invariant
            i <= entries@.len(),
            values@.len() == i,
            data.width == model.width,
            data.height == model.height,
            data.coefficients@ == plane_coefficients(model),
            data.coefficients@.len() == data.width * data.height,
            data.coefficients@.len() <= usize::MAX,
            entries_placed(entries@, model.width, model.height, block_x, block_y),
            forall|k: int|
                0 <= k < i ==> #[trigger] values@[k] == traced_values(model, entries@)[k],
        decreases entries@.len() - i,
    {
        let entry = entries[i];
        proof {
            reveal(entry_placed);
            assert(entry_placed(
                entries@[i as int],
                model.width,
                model.height,
                block_x,
                block_y,
            ));
            lemma_pixel_index(model.width, model.height, entry.x as int, entry.y as int);
        }
        let value: i16 = data.coefficients[entry.y * data.width + entry.x];
        values.push(Iw44CoefficientEntry { value, absolute: magnitude_of(value), ..entry });
        i = i + 1;
    }
    assert(values@ =~= traced_values(model, entries@));
    Ok(values)
}

/// Whether a plane is there.
fn has_plane(decoder: &Iw44Decoder, plane: Iw44Plane) -> (there: bool)
    ensures
        there == (plane_of(decoder@, plane) is Some),
{
    match plane {
        Iw44Plane::Y => true,
        Iw44Plane::Cb => decoder.cb.is_some(),
        Iw44Plane::Cr => decoder.cr.is_some(),
    }
}

/// The coefficients to be watched for those of a list.
fn watched_targets(
    plane: Iw44Plane,
    width: usize,
    entries: &Vec<Iw44CoefficientEntry>,
    Ghost(height): Ghost<int>,
    Ghost(block_x): Ghost<int>,
    Ghost(block_y): Ghost<int>,
) -> (targets: Vec<Iw44CoefficientTraceTarget>)
    requires
        width <= 0xffff,
        height <= 0xffff,
        entries_placed(entries@, width as int, height, block_x, block_y),
    ensures
        targets@.len() == entries@.len(),
        forall|i: int|
            0 <= i < targets@.len() ==> {
                &&& (#[trigger] targets@[i]).plane == plane
                &&& targets@[i].block == (entries@[i].y as int / 32) * blocks_along(width as int)
                    + entries@[i].x as int / 32
                &&& targets@[i].coefficient == entries@[i].index
            },
{
    let columns: usize = (width + 31) / 32;
    let mut targets: Vec<Iw44CoefficientTraceTarget> = Vec::new();
    let mut i: usize = 0;
    while i < entries.len()
        invariant
            i <= entries@.len(),
            targets@.len() == i,
            width <= 0xffff,
            height <= 0xffff,
            columns == blocks_along(width as int),
            entries_placed(entries@, width as int, height, block_x, block_y),
            forall|k: int|
                0 <= k < i ==> {
                    &&& (#[trigger] targets@[k]).plane == plane
                    &&& targets@[k].block == (entries@[k].y as int / 32) * blocks_along(
                        width as int,
                    ) + entries@[k].x as int / 32
                    &&& targets@[k].coefficient == entries@[k].index
                },
        decreases entries@.len() - i,
    {
        let entry = entries[i];
        let down: usize = entry.y / 32;
        proof {
            reveal(entry_placed);
            assert(entry_placed(entries@[i as int], width as int, height, block_x, block_y));
        }
        assert(down * columns <= 2048 * 2048) by (nonlinear_arith)
            requires
                0 <= down <= 2048,
                0 <= columns <= 2048,
        ;
        targets.push(
            Iw44CoefficientTraceTarget {
                plane,
                block: down * columns + entry.x / 32,
                coefficient: entry.index,
            },
        );
        i = i + 1;
    }
    targets
}

/// Coefficients with the given values.
fn valued_entries(
    entries: &Vec<Iw44CoefficientEntry>,
    seen: &Vec<Option<i16>>,
    Ghost(plane): Ghost<PlaneModel>,
) -> (values: Vec<Iw44CoefficientEntry>)
    requires
        seen@.len() == entries@.len(),
        forall|i: int|
            0 <= i < seen@.len() ==> #[trigger] seen@[i] == Some(
                plane_coefficients(plane)[entries@[i].y * plane.width + entries@[i].x],
            ),
    ensures
        values@ == traced_values(plane, entries@),
{
    let mut values: Vec<Iw44CoefficientEntry> = Vec::new();
    let mut i: usize = 0;
    while i < entries.len()
        invariant
            i <= entries@.len(),
            values@.len() == i,
            seen@.len() == entries@.len(),
            forall|k: int|
                0 <= k < seen@.len() ==> #[trigger] seen@[k] == Some(
                    plane_coefficients(plane)[entries@[k].y * plane.width + entries@[k].x],
                ),
            forall|k: int|
                0 <= k < i ==> #[trigger] values@[k] == traced_values(plane, entries@)[k],
        decreases entries@.len() - i,
    {
        let entry = entries[i];
        assert(seen@[i as int] is Some);
        let value: i16 = match seen[i] {
            Some(value) => value,
            None => 0,
        };
        values.push(Iw44CoefficientEntry { value, absolute: magnitude_of(value), ..entry });
        i = i + 1;
    }
    assert(values@ =~= traced_values(plane, entries@));
    values
}

/// Decodes a chunk and appends the step that it makes.
fn trace_chunk(
    decoder: &mut Iw44Decoder,
    payload: &RenderChunkPayload<'_>,
    plane: Iw44Plane,
    entries: &Vec<Iw44CoefficientEntry>,
    trace: &mut Vec<Iw44CoefficientTraceStep>,
    Ghost(payloads): Ghost<Seq<(usize, Seq<u8>)>>,
    Ghost(done): Ghost<int>,
    Ghost(size): Ghost<(int, int)>,
    Ghost(block): Ghost<(int, int)>,
) -> (traced: Result<(), InspectError>)
    requires
        old(decoder).wf(),
        0 <= done < payloads.len(),
        payloads[done] == (payload.index, payload.bytes@),
        on_course(old(decoder)@, done, plane, size.0, size.1),
        layer_extents(payloads, plane, size.0, size.1),
        entries_placed(entries@, size.0, size.1, block.0, block.1),
    ensures
        final(decoder).wf(),
        match chunk_steps(old(decoder)@, payloads[done], plane, entries@) {
            Err(fault) => traced is Err && traced->Err_0@ == fault,
            Ok((model, steps)) => {
                &&& traced is Ok
                &&& final(decoder)@ == model
                &&& on_course(model, done + 1, plane, size.0, size.1)
                &&& steps_view(final(trace)@) == steps_view(old(trace)@) + steps
            },
        },
{
    let ghost before = decoder@;
    let chunk = match decoder.decode_chunk(payload.bytes) {
        Err(error) => {
            return Err(layer_error_within(decode_context_text(payload.index), error));
        },
        Ok(chunk) => chunk,
    };
    proof {
        lemma_stays_on_course(before, payloads, done, plane, None, size.0, size.1);
    }
    let values = match iw44_trace_values(
        decoder,
        plane,
        entries,
        Ghost(block.0),
        Ghost(block.1),
    ) {
        Err(error) => {
            return Err(error);
        },
        Ok(values) => values,
    };
    let ghost expected = chunk_steps(before, payloads[done], plane, entries@)->Ok_0.1;
    trace.push(
        Iw44CoefficientTraceStep {
            chunk_index: payload.index,
            chunk_serial: chunk.header.serial,
            slice_index: None,
            slices_decoded: decoder.slices_decoded(),
            values,
        },
    );
    assert(trace@.last()@ == expected[0]);
    assert(steps_view(trace@) =~= steps_view(old(trace)@) + expected);
    Ok(())
}

/// Decodes a chunk and appends the steps that its slices make.
fn trace_slices_of_chunk(
    decoder: &mut Iw44Decoder,
    payload: &RenderChunkPayload<'_>,
    plane: Iw44Plane,
    width: usize,
    entries: &Vec<Iw44CoefficientEntry>,
    trace: &mut Vec<Iw44CoefficientTraceStep>,
    Ghost(payloads): Ghost<Seq<(usize, Seq<u8>)>>,
    Ghost(done): Ghost<int>,
    Ghost(height): Ghost<int>,
    Ghost(block): Ghost<(int, int)>,
) -> (traced: Result<(), InspectError>)
    requires
        old(decoder).wf(),
        0 <= done < payloads.len(),
        payloads[done] == (payload.index, payload.bytes@),
        on_course(old(decoder)@, done, plane, width as int, height),
        layer_extents(payloads, plane, width as int, height),
        entries_placed(entries@, width as int, height, block.0, block.1),
        width <= 0xffff,
        height <= 0xffff,
        block.0 % 32 == 0,
        block.1 % 32 == 0,
        0 <= block.0,
        0 <= block.1,
    ensures
        final(decoder).wf(),
        match slice_steps(old(decoder)@, payloads[done], plane, entries@) {
            Err(fault) => traced is Err && traced->Err_0@ == fault,
            Ok((model, steps)) => {
                &&& traced is Ok
                &&& final(decoder)@ == model
                &&& on_course(model, done + 1, plane, width as int, height)
                &&& steps_view(final(trace)@) == steps_view(old(trace)@) + steps
            },
        },
{
    let header = match read_iw44_chunk_header(payload.bytes) {
        Err(error) => {
            return Err(layer_error_within(header_context_text(payload.index), error));
        },
        Ok(header) => header,
    };
    let targets = watched_targets(
        plane,
        width,
        entries,
        Ghost(height),
        Ghost(block.0),
        Ghost(block.1),
    );
    let ghost before = decoder@;
    let values_after = |decoder: &Iw44Decoder, _slice: &Iw44DecodedSlice| -> (values: Vec<
        Option<i16>,
    >)
        requires
            decoder.readable(),
        ensures
            values@ == Seq::new(
                targets@.len(),
                |j: int| watched_value(decoder@, targets@[j]),
            ),
        { decoder.watched_values(&targets) };
    let (chunk, seen) = match decoder.decode_chunk_with_slice_observer(
        payload.bytes,
        values_after,
    ) {
        Err(error) => {
            return Err(layer_error_within(decode_context_text(payload.index), error));
        },
        Ok(observed) => observed,
    };
    let ghost run = decoded_chunk(before, payload.bytes@, None)->Ok_0.1;
    proof {
        lemma_stays_on_course(before, payloads, done, plane, None, width as int, height);
        lemma_chunk_keeps_sizes(before, payload.bytes@, None);
    }
    if seen.len() > 0 && !has_plane(decoder, plane) {
        return Err(missing_plane_error(plane, " coefficient plane"));
    }
    let ghost expected = slice_steps(before, payloads[done], plane, entries@)->Ok_0.1;
    let ghost first = trace@;
    let first_slice: u32 = chunk.first_slice_index;
    let mut k: usize = 0;
    while k < seen.len()
        invariant
            k <= seen@.len(),
            seen@.len() == run.states.len(),
            seen@.len() == chunk.slices@.len(),
            seen@.len() == expected.len(),
            seen@.len() <= 255,
            first_slice == before.slices,
            first_slice + seen@.len() <= u32::MAX,
            header.serial == chunk_header(payloads[done].1)->Ok_0.serial,
            payload.index == payloads[done].0,
            entries_placed(entries@, width as int, height, block.0, block.1),
            block.0 % 32 == 0,
            block.1 % 32 == 0,
            0 <= block.0,
            0 <= block.1,
            targets@.len() == entries@.len(),
            forall|i: int|
                0 <= i < targets@.len() ==> {
                    &&& (#[trigger] targets@[i]).plane == plane
                    &&& targets@[i].block == (entries@[i].y as int / 32) * blocks_along(
                        width as int,
                    ) + entries@[i].x as int / 32
                    &&& targets@[i].coefficient == entries@[i].index
                },
            forall|i: int|
                0 <= i < seen@.len() ==> #[trigger] seen@[i]@ == Seq::new(
                    targets@.len(),
                    |j: int| watched_value(run.states[i], targets@[j]),
                ),
            forall|i: int|
                0 <= i < run.states.len() ==> {
                    &&& plane_sized(#[trigger] run.states[i], plane, width as int, height)
                    &&& plane_of(run.states[i], plane) is Some
                    &&& run.states[i].slices == before.slices + i + 1
                },
            forall|i: int|
                0 <= i < chunk.slices@.len() ==> (#[trigger] chunk.slices@[i]).index
                    == run.reports[i].index,
            forall|i: int|
                0 <= i < expected.len() ==> #[trigger] expected[i] == (StepModel {
                    chunk_index: payload.index,
                    chunk_serial: header.serial,
                    slice_index: Some(run.reports[i].index),
                    slices_decoded: run.states[i].slices as u32,
                    values: traced_values(plane_of(run.states[i], plane)->0, entries@),
                }),
            steps_view(trace@) == steps_view(first) + expected.take(k as int),
        decreases seen@.len() - k,
    {
        let ghost state = run.states[k as int];
        let ghost data = plane_of(state, plane)->0;
        assert(seen@[k as int]@.len() == entries@.len());
        assert forall|i: int| 0 <= i < seen@[k as int]@.len() implies #[trigger]
            seen@[k as int]@[i] == Some(
            plane_coefficients(data)[entries@[i].y * data.width + entries@[i].x],
        ) by {
            assert(entry_placed(
                entries@[i],
                width as int,
                height,
                block.0,
                block.1,
            ));
            lemma_watched_entry(state, plane, entries@[i], targets@[i], block.0, block.1);
        }
        let values = valued_entries(entries, &seen[k], Ghost(data));
        let ghost so_far = trace@;
        trace.push(
            Iw44CoefficientTraceStep {
                chunk_index: payload.index,
                chunk_serial: header.serial,
                slice_index: Some(chunk.slices[k].index),
                slices_decoded: first_slice + k as u32 + 1,
                values,
            },
        );
        assert(trace@.last()@ == expected[k as int]);
        assert(steps_view(trace@) =~= steps_view(so_far).push(expected[k as int]));
        assert(expected.take(k + 1) =~= expected.take(k as int).push(expected[k as int]));
        assert(steps_view(trace@) =~= steps_view(first) + expected.take(k + 1));
        k = k + 1;
    }
    assert(expected.take(k as int) =~= expected);
    Ok(())
}

proof fn lemma_trace_fault(
    payloads: Seq<(usize, Seq<u8>)>,
    which: Iw44Plane,
    entries: Seq<Iw44CoefficientEntry>,
    slices: bool,
    count: int,
    total: int,
)
    requires
        0 <= count <= total,
        trace_of(payloads, which, entries, slices, count) is Err,
    ensures
        trace_of(payloads, which, entries, slices, total) == trace_of(
            payloads,
            which,
            entries,
            slices,
            count,
        ),
    decreases total - count,
{
    if count < total {
        lemma_trace_fault(payloads, which, entries, slices, count, total - 1);
    }
}

/// The values of coefficients after each chunk of a layer, or after each slice.
pub(crate) fn iw44_coefficient_trace(
    payloads: &Vec<RenderChunkPayload<'_>>,
    plane: Iw44Plane,
    width: usize,
    entries: &Vec<Iw44CoefficientEntry>,
    trace_slices: bool,
    Ghost(height): Ghost<int>,
    Ghost(block): Ghost<(int, int)>,
) -> (trace: Result<Vec<Iw44CoefficientTraceStep>, InspectError>)
    requires
        layer_extents(payloads_view(payloads@), plane, width as int, height),
        entries_placed(entries@, width as int, height, block.0, block.1),
        width <= 0xffff,
        height <= 0xffff,
        block.0 % 32 == 0,
        block.1 % 32 == 0,
        0 <= block.0,
        0 <= block.1,
    ensures
        match trace_of(
            payloads_view(payloads@),
            plane,
            entries@,
            trace_slices,
            payloads@.len() as int,
        ) {
            Err(fault) => trace is Err && trace->Err_0@ == fault,
            Ok((_, steps)) => trace is Ok && steps_view(trace->Ok_0@) == steps,
        },
{
    let ghost all = payloads_view(payloads@);
    let mut decoder = Iw44Decoder::new();
    let mut trace: Vec<Iw44CoefficientTraceStep> = Vec::new();
    assert(steps_view(trace@) =~= Seq::empty());
    let mut i: usize = 0;
    while i < payloads.len()
        invariant
            i <= payloads@.len(),
            all == payloads_view(payloads@),
            decoder.wf(),
            on_course(decoder@, i as int, plane, width as int, height),
            layer_extents(all, plane, width as int, height),
            entries_placed(entries@, width as int, height, block.0, block.1),
            width <= 0xffff,
            height <= 0xffff,
            block.0 % 32 == 0,
            block.1 % 32 == 0,
            0 <= block.0,
            0 <= block.1,
            trace_of(all, plane, entries@, trace_slices, i as int) == Ok::<_, InspectFault>(
                (decoder@, steps_view(trace@)),
            ),
        decreases payloads@.len() - i,
    {
        let traced = if trace_slices {
            trace_slices_of_chunk(
                &mut decoder,
                &payloads[i],
                plane,
                width,
                entries,
                &mut trace,
                Ghost(all),
                Ghost(i as int),
                Ghost(height),
                Ghost(block),
            )
        } else {
            trace_chunk(
                &mut decoder,
                &payloads[i],
                plane,
                entries,
                &mut trace,
                Ghost(all),
                Ghost(i as int),
                Ghost((width as int, height)),
                Ghost(block),
            )
        };
        proof {
            reveal(steps_of);
        }
        match traced {
            Err(error) => {
                proof {
                    lemma_trace_fault(
                        all,
                        plane,
                        entries@,
                        trace_slices,
                        i + 1,
                        payloads@.len() as int,
                    );
                }
                return Err(error);
            },
            Ok(_) => {},
        }
        i = i + 1;
    }
    Ok(trace)
}

/// Decodes a chunk and appends the events that it brings at a coefficient.
fn trace_chunk_events(
    decoder: &mut Iw44Decoder,
    payload: &RenderChunkPayload<'_>,
    target: Iw44CoefficientTraceTarget,
    events: &mut Vec<Iw44CoefficientTraceEvent>,
) -> (traced: Result<(), InspectError>)
    requires
        old(decoder).wf(),
    ensures
        final(decoder).wf(),
        match chunk_events(old(decoder)@, (payload.index, payload.bytes@), target) {
            Err(fault) => traced is Err && traced->Err_0@ == fault,
            Ok((model, more)) => {
                &&& traced is Ok
                &&& final(decoder)@ == model
                &&& final(events)@ == old(events)@ + more
            },
        },
{
    reveal(chunk_events);
    let header = match read_iw44_chunk_header(payload.bytes) {
        Err(error) => {
            return Err(layer_error_within(header_context_text(payload.index), error));
        },
        Ok(header) => header,
    };
    let ghost before = decoder@;
    let found = match decoder.decode_chunk_with_coefficient_observer(payload.bytes, target) {
        Err(error) => {
            return Err(layer_error_within(decode_context_text(payload.index), error));
        },
        Ok((_, found)) => found,
    };
    let ghost expected = chunk_events(before, (payload.index, payload.bytes@), target)->Ok_0.1;
    let ghost first = events@;
    let mut k: usize = 0;
    while k < found.len()
        invariant
            k <= found@.len(),
            expected.len() == found@.len(),
            forall|i: int|
                0 <= i < expected.len() ==> #[trigger] expected[i] == (
                Iw44CoefficientTraceEvent {
                    chunk_index: payload.index,
                    chunk_serial: header.serial,
                    event: found@[i],
                }),
            events@ == first + expected.take(k as int),
        decreases found@.len() - k,
    {
        events.push(
            Iw44CoefficientTraceEvent {
                chunk_index: payload.index,
                chunk_serial: header.serial,
                event: found[k],
            },
        );
        assert(events@ =~= first + expected.take(k + 1));
        k = k + 1;
    }
    assert(expected.take(k as int) =~= expected);
    Ok(())
}

proof fn lemma_events_fault(
    payloads: Seq<(usize, Seq<u8>)>,
    target: Iw44CoefficientTraceTarget,
    count: int,
    total: int,
)
    requires
        0 <= count <= total,
        events_of(payloads, target, count) is Err,
    ensures
        events_of(payloads, target, total) == events_of(payloads, target, count),
    decreases total - count,
{
    if count < total {
        lemma_events_fault(payloads, target, count, total - 1);
    }
}

/// All events at a coefficient.
fn coefficient_events(
    payloads: &Vec<RenderChunkPayload<'_>>,
    target: Iw44CoefficientTraceTarget,
) -> (events: Result<Vec<Iw44CoefficientTraceEvent>, InspectError>)
    ensures
        match events_of(payloads_view(payloads@), target, payloads@.len() as int) {
            Err(fault) => events is Err && events->Err_0@ == fault,
            Ok((_, expected)) => events is Ok && events->Ok_0@ == expected,
        },
{
    let ghost all = payloads_view(payloads@);
    let mut decoder = Iw44Decoder::new();
    let mut events: Vec<Iw44CoefficientTraceEvent> = Vec::new();
    let mut i: usize = 0;
    while i < payloads.len()
        invariant
            i <= payloads@.len(),
            all == payloads_view(payloads@),
            decoder.wf(),
            events_of(all, target, i as int) == Ok::<_, InspectFault>((decoder@, events@)),
        decreases payloads@.len() - i,
    {
        assert(all[i as int] == (payloads@[i as int].index, payloads@[i as int].bytes@));
        match trace_chunk_events(&mut decoder, &payloads[i], target, &mut events) {
            Err(error) => {
                proof {
                    lemma_events_fault(all, target, i + 1, payloads@.len() as int);
                }
                return Err(error);
            },
            Ok(_) => {},
        }
        i = i + 1;
    }
    Ok(events)
}

proof fn lemma_event_traces_fault(
    payloads: Seq<(usize, Seq<u8>)>,
    which: Iw44Plane,
    block: usize,
    entries: Seq<Iw44CoefficientEntry>,
    count: int,
    total: int,
)
    requires
        0 <= count <= total,
        event_traces_of(payloads, which, block, entries, count) is Err,
    ensures
        event_traces_of(payloads, which, block, entries, total) == event_traces_of(
            payloads,
            which,
            block,
            entries,
            count,
        ),
    decreases total - count,
{
    if count < total {
        lemma_event_traces_fault(payloads, which, block, entries, count, total - 1);
    }
}

/// The events at each coefficient of a list, all of one block.
pub(crate) fn iw44_coefficient_event_traces(
    payloads: &Vec<RenderChunkPayload<'_>>,
    plane: Iw44Plane,
    block: usize,
    entries: &Vec<Iw44CoefficientEntry>,
) -> (traces: Result<Vec<Iw44CoefficientEventTrace>, InspectError>)
    ensures
        match event_traces_of(
            payloads_view(payloads@),
            plane,
            block,
            entries@,
            entries@.len() as int,
        ) {
            Err(fault) => traces is Err && traces->Err_0@ == fault,
            Ok(expected) => traces is Ok && traces_view(traces->Ok_0@) == expected,
        },
{
    let ghost all = payloads_view(payloads@);
    let mut traces: Vec<Iw44CoefficientEventTrace> = Vec::new();
    assert(traces_view(traces@) =~= Seq::empty());
    let mut i: usize = 0;
    while i < entries.len()
        invariant
            i <= entries@.len(),
            all == payloads_view(payloads@),
            event_traces_of(all, plane, block, entries@, i as int) == Ok::<_, InspectFault>(
                traces_view(traces@),
            ),
        decreases entries@.len() - i,
    {
        let entry = entries[i];
        let target = Iw44CoefficientTraceTarget { plane, block, coefficient: entry.index };
        let ghost before = traces@;
        match coefficient_events(payloads, target) {
            Err(error) => {
                proof {
                    lemma_event_traces_fault(
                        all,
                        plane,
                        block,
                        entries@,
                        i + 1,
                        entries@.len() as int,
                    );
                }
                return Err(error);
            },
            Ok(events) => {
                traces.push(Iw44CoefficientEventTrace { entry, events });
            },
        }
        assert(traces_view(traces@) =~= traces_view(before).push(traces@.last()@));
        i = i + 1;
    }
    Ok(traces)
}

} // verus!
