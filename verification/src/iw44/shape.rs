//! What planes an image has while it is decoded, and which of them a slice goes over.

use super::blocks::blocks_along;
use super::decoder::{
    blank_decoder, chroma_extent, decoded_chunk, entered, plane_of, planes_of, run_slice,
    run_slices, slice_step, ChunkRun, DecoderModel, SliceReport,
};
use super::header::{chunk_header, Iw44ImageHeader};
use super::slice::{blank_plane, decode_plane_slice, plane_blocks, PlaneModel};
use super::tracing::{
    all_at, lacks_coefficient, leads, lemma_events_lead_to_value, lemma_no_events_of_missing,
    lemma_plane_slice_noted, lemma_traced_plane_slice, target_value,
};
use super::{Iw44CoefficientEvent, Iw44CoefficientTraceTarget, Iw44Plane};
use crate::zp::{zp_start, ZpState};
use vstd::prelude::*;

verus! {

/// Whether a plane has a size, as many coefficients as its blocks need, and the band that is
/// due after so many slices.
pub open spec fn plane_shaped(plane: PlaneModel, width: int, height: int, slices: int) -> bool {
    &&& plane.width == width
    &&& plane.height == height
    &&& plane.band == slices % 10
    &&& plane.values.len() == 1024 * plane_blocks(plane)
}

/// How many slices of the chrominance planes there are among so many slices.
pub open spec fn chroma_slices(image: Iw44ImageHeader, slices: int) -> int {
    if slices <= image.delay {
        0
    } else {
        slices - image.delay
    }
}

/// Whether a chrominance plane is there exactly if the image is in colour, and has its shape.
pub open spec fn chroma_shaped(
    plane: Option<PlaneModel>,
    image: Iw44ImageHeader,
    slices: int,
) -> bool {
    &&& plane is None <==> image.grayscale
    &&& plane is Some ==> plane_shaped(
        plane->0,
        chroma_extent(image.width as int, image.chroma_half),
        chroma_extent(image.height as int, image.chroma_half),
        chroma_slices(image, slices),
    )
}

/// Whether the planes of an image have the shapes that its header and the number of its
/// slices give them.
pub open spec fn planes_shaped(model: DecoderModel) -> bool {
    &&& model.image matches Some(image)
    &&& image.width > 0
    &&& image.height > 0
    &&& 0 <= model.slices
    &&& plane_shaped(model.y, image.width as int, image.height as int, model.slices)
    &&& chroma_shaped(model.cb, image, model.slices)
    &&& chroma_shaped(model.cr, image, model.slices)
}

/// Whether a decoder is one that can be reached: before its first chunk, or with the planes
/// of its image.
pub open spec fn shaped(model: DecoderModel) -> bool {
    if model.image is None {
        model == blank_decoder()
    } else {
        model.chunks >= 1 && planes_shaped(model)
    }
}

/// Whether a slice goes over the luminance plane alone, in an image in gray or before the
/// delay is over, and else over all three; and over the band of each that is due.
pub open spec fn covers(report: SliceReport, image: Iw44ImageHeader) -> bool {
    let index = report.index as int;
    let planes = report.planes;
    if image.grayscale || index < image.delay {
        &&& planes.len() == 1
        &&& planes[0].plane == Iw44Plane::Y
        &&& planes[0].band == index % 10
    } else {
        &&& planes.len() == 3
        &&& planes[0].plane == Iw44Plane::Y
        &&& planes[1].plane == Iw44Plane::Cb
        &&& planes[2].plane == Iw44Plane::Cr
        &&& planes[0].band == index % 10
        &&& planes[1].band == (index - image.delay) % 10
        &&& planes[2].band == (index - image.delay) % 10
    }
}

proof fn lemma_plane_slice_shaped(
    plane: PlaneModel,
    zp: ZpState,
    events: Seq<Iw44CoefficientEvent>,
    which: Iw44Plane,
    slice_index: u32,
    target: Option<Iw44CoefficientTraceTarget>,
    width: int,
    height: int,
    slices: int,
)
    requires
        plane_shaped(plane, width, height, slices),
        0 <= slices,
    ensures
        ({
            let next = decode_plane_slice(plane, zp, events, which, slice_index, target);
            &&& plane_shaped(next.plane, width, height, slices + 1)
            &&& next.report.plane == which
            &&& next.report.band == slices % 10
        }),
{
    let first = Iw44CoefficientTraceTarget { plane: which, block: 0, coefficient: 0 };
    lemma_traced_plane_slice(plane, zp, events, events, which, slice_index, target);
    lemma_traced_plane_slice(plane, zp, events, events, which, slice_index, Some(first));
    if plane_blocks(plane) > 0 {
        lemma_plane_slice_noted(plane, zp, events, slice_index, first);
    }
    reveal(decode_plane_slice);
}

/// Each slice leaves the planes of an image in shape.
pub proof fn lemma_step_shaped(
    model: DecoderModel,
    zp: ZpState,
    events: Seq<Iw44CoefficientEvent>,
    target: Option<Iw44CoefficientTraceTarget>,
)
    requires
        planes_shaped(model),
        model.slices < u32::MAX,
    ensures
        ({
            let next = slice_step(model, zp, events, model.image->0, target);
            &&& planes_shaped(next.model)
            &&& next.model.image == model.image
            &&& next.model.chunks == model.chunks
            &&& next.model.slices == model.slices + 1
            &&& next.report.index == model.slices
            &&& covers(next.report, model.image->0)
        }),
{
    let image = model.image->0;
    let index = model.slices as u32;
    let width = chroma_extent(image.width as int, image.chroma_half);
    let height = chroma_extent(image.height as int, image.chroma_half);
    let count = chroma_slices(image, model.slices);
    lemma_plane_slice_shaped(
        model.y,
        zp,
        events,
        Iw44Plane::Y,
        index,
        target,
        image.width as int,
        image.height as int,
        model.slices,
    );
    if !image.grayscale && index + 1 > image.delay {
        let y = decode_plane_slice(model.y, zp, events, Iw44Plane::Y, index, target);
        lemma_plane_slice_shaped(
            model.cb->0,
            y.zp,
            y.events,
            Iw44Plane::Cb,
            index,
            target,
            width,
            height,
            count,
        );
        let cb = decode_plane_slice(model.cb->0, y.zp, y.events, Iw44Plane::Cb, index, target);
        lemma_plane_slice_shaped(
            model.cr->0,
            cb.zp,
            cb.events,
            Iw44Plane::Cr,
            index,
            target,
            width,
            height,
            count,
        );
    }
}

proof fn lemma_slices_shaped(
    run: ChunkRun,
    target: Option<Iw44CoefficientTraceTarget>,
    left: int,
)
    requires
        planes_shaped(run.model),
        0 <= left,
        run.model.slices + left <= u32::MAX,
        forall|k: int|
            0 <= k < run.reports.len() ==> covers(#[trigger] run.reports[k], run.model.image->0),
    ensures
        ({
            let end = run_slices(run, run.model.image->0, target, left);
            &&& planes_shaped(end.model)
            &&& end.model.image == run.model.image
            &&& end.model.chunks == run.model.chunks
            &&& end.model.slices == run.model.slices + left
            &&& forall|k: int|
                0 <= k < end.reports.len() ==> covers(
                    #[trigger] end.reports[k],
                    run.model.image->0,
                )
        }),
    decreases left,
{
    if left > 0 {
        lemma_step_shaped(run.model, run.zp, run.events, target);
        let next = run_slice(run, run.model.image->0, target);
        assert forall|k: int| 0 <= k < next.reports.len() implies covers(
            #[trigger] next.reports[k],
            run.model.image->0,
        ) by {
            if k < run.reports.len() {
                assert(next.reports[k] == run.reports[k]);
            }
        }
        lemma_slices_shaped(next, target, left - 1);
    }
}

/// A chunk that comes in its turn starts from planes in shape.
pub proof fn lemma_entered_shaped(model: DecoderModel, bytes: Seq<u8>)
    requires
        shaped(model),
        chunk_header(bytes) is Ok,
        chunk_header(bytes)->Ok_0.serial == model.chunks,
    ensures
        planes_shaped(entered(model, chunk_header(bytes)->Ok_0)),
        entered(model, chunk_header(bytes)->Ok_0).chunks == model.chunks,
        entered(model, chunk_header(bytes)->Ok_0).slices == model.slices,
{
    if model.chunks == 0 {
        let image = chunk_header(bytes)->Ok_0.image->0;
        let width = chroma_extent(image.width as int, image.chroma_half);
        let height = chroma_extent(image.height as int, image.chroma_half);
        lemma_blank_plane_shaped(image.width as int, image.height as int);
        lemma_blank_plane_shaped(width, height);
    }
}

proof fn lemma_blank_plane_shaped(width: int, height: int)
    requires
        0 <= width,
        0 <= height,
    ensures
        plane_shaped(blank_plane(width, height), width, height, 0),
{
    assert(0 <= blocks_along(width) * blocks_along(height)) by (nonlinear_arith)
        requires
            0 <= blocks_along(width),
            0 <= blocks_along(height),
    ;
}

/// Decoding starts from a decoder in shape, and each chunk leaves one.
pub proof fn lemma_decoders_are_shaped(
    model: DecoderModel,
    bytes: Seq<u8>,
    target: Option<Iw44CoefficientTraceTarget>,
)
    requires
        shaped(model),
        0 <= model.slices <= 255 * model.chunks,
        0 <= model.chunks,
    ensures
        shaped(blank_decoder()),
        decoded_chunk(model, bytes, target) matches Ok((header, run)) ==> shaped(run.model)
            && run.model.image is Some,
{
    if decoded_chunk(model, bytes, target) is Ok {
        lemma_slices_cover(model, bytes, target);
    }
}

/// Each slice of a chunk goes over the luminance plane alone, in an image in gray or before
/// the delay is over, and else over all three planes; and over the band of each that is due.
pub proof fn lemma_slices_cover(
    model: DecoderModel,
    bytes: Seq<u8>,
    target: Option<Iw44CoefficientTraceTarget>,
)
    requires
        shaped(model),
        0 <= model.slices <= 255 * model.chunks,
        0 <= model.chunks,
        decoded_chunk(model, bytes, target) is Ok,
    ensures
        ({
            let (header, run) = decoded_chunk(model, bytes, target)->Ok_0;
            &&& shaped(run.model)
            &&& run.model.image is Some
            &&& run.model.slices == model.slices + header.slices
            &&& forall|k: int|
                0 <= k < run.reports.len() ==> covers(
                    #[trigger] run.reports[k],
                    run.model.image->0,
                )
        }),
{
    let header = chunk_header(bytes)->Ok_0;
    lemma_entered_shaped(model, bytes);
    let start = entered(model, header);
    lemma_slices_shaped(
        ChunkRun {
            model: start,
            zp: zp_start(bytes.skip(header.payload_start as int)),
            events: Seq::empty(),
            reports: Seq::empty(),
            states: Seq::empty(),
        },
        target,
        header.slices as int,
    );
}

/// Whatever coefficient is traced, the events of a chunk are all at it. They lead from its
/// value before the chunk to its value after it; and where the image lacks it there are
/// none.
pub proof fn lemma_events_of_any_target(
    model: DecoderModel,
    bytes: Seq<u8>,
    target: Iw44CoefficientTraceTarget,
)
    requires
        shaped(model),
        decoded_chunk(model, bytes, Some(target)) is Ok,
    ensures
        ({
            let start = entered(model, chunk_header(bytes)->Ok_0);
            let (_, run) = decoded_chunk(model, bytes, Some(target))->Ok_0;
            &&& all_at(run.events, target)
            &&& lacks_coefficient(start, target) ==> run.events.len() == 0
            &&& !lacks_coefficient(start, target) ==> leads(
                run.events,
                target_value(start, target),
                target_value(run.model, target),
            )
        }),
{
    lemma_entered_shaped(model, bytes);
    let start = entered(model, chunk_header(bytes)->Ok_0);
    if lacks_coefficient(start, target) {
        lemma_no_events_of_missing(model, bytes, target);
    } else {
        lemma_events_lead_to_value(model, bytes, target);
    }
}

/// The planes that are listed of a decoder: none before its first chunk, the luminance plane
/// of an image in gray, and else that and both chrominance planes; the luminance plane of
/// the size of the image, the others of that size too, or of half of it, rounded up.
pub proof fn lemma_planes_listed(model: DecoderModel)
    requires
        shaped(model),
    ensures
        model.image is None ==> planes_of(model).len() == 0,
        model.image matches Some(image) ==> {
            let planes = planes_of(model);
            let width = chroma_extent(image.width as int, image.chroma_half);
            let height = chroma_extent(image.height as int, image.chroma_half);
            &&& planes.len() == if image.grayscale { 1int } else { 3int }
            &&& planes[0].0 == Iw44Plane::Y
            &&& planes[0].1.width == image.width
            &&& planes[0].1.height == image.height
            &&& !image.grayscale ==> {
                &&& planes[1].0 == Iw44Plane::Cb
                &&& planes[1].1.width == width
                &&& planes[1].1.height == height
                &&& planes[2].0 == Iw44Plane::Cr
                &&& planes[2].1.width == width
                &&& planes[2].1.height == height
            }
        },
{
}

/// A plane is missing from an image exactly if it is a chrominance plane and the image is
/// in gray.
pub proof fn lemma_plane_missing(model: DecoderModel, plane: Iw44Plane)
    requires
        shaped(model),
        model.image is Some,
    ensures
        plane_of(model, plane) is None <==> plane != Iw44Plane::Y && model.image->0.grayscale,
{
}

} // verus!
