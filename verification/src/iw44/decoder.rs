//! The progressive decoder of an image.

use super::blocks::{
    blocks_along, magnitude_sum, max_magnitude, nonzero_count, plane_fits, reconstruction,
    row_major,
};
use super::color::{color_pixels, gray_pixels, grayscale_to_rgb, ycbcr_to_rgb};
use super::header::{
    chunk_header, read_iw44_chunk_header, serial_error, serial_message, Iw44ChunkHeader,
    Iw44ImageHeader,
};
use super::shape::{
    lemma_decoders_are_shaped, lemma_entered_shaped, lemma_events_of_any_target,
    lemma_step_shaped, planes_shaped, shaped,
};
use super::slice::{
    blank_plane, decode_plane_slice, passes_bounded, plane_blocks, Iw44PlaneState, PlaneModel,
};
use super::tracing::{all_at, lemma_tracing_changes_nothing};
use super::{
    Iw44Bitstream, Iw44CoefficientEvent, Iw44CoefficientTraceTarget, Iw44Error, Iw44Plane,
    Iw44PlaneSlice, Iw44ReconstructionExtent, Iw44ReconstructionOrder, Iw44ReconstructionPlane,
    Iw44RgbImage,
};
use crate::zp::{zp_start, ZpState};
use vstd::prelude::*;

verus! {

/// What a slice did.
#[derive(Debug, Clone, Eq, PartialEq)]
pub struct Iw44DecodedSlice {
    pub index: u32,
    pub planes: Vec<Iw44PlaneSlice>,
}

/// What a chunk did.
#[derive(Debug, Clone, Eq, PartialEq)]
pub struct Iw44DecodedChunk {
    pub header: Iw44ChunkHeader,
    pub first_slice_index: u32,
    pub slice_count: u8,
    pub slices: Vec<Iw44DecodedSlice>,
}

/// The coefficients of a plane in numbers.
#[derive(Debug, Clone, Copy, Eq, PartialEq, Structural)]
pub struct Iw44PlaneCoefficientSummary {
    pub plane: Iw44Plane,
    pub width: usize,
    pub height: usize,
    pub block_count: usize,
    pub non_zero_coefficients: usize,
    pub max_abs_coefficient: u16,
    pub coefficient_abs_sum: u64,
}

/// The coefficients of a plane, row by row.
#[derive(Debug, Clone, Eq, PartialEq)]
pub struct Iw44CoefficientPlane {
    pub plane: Iw44Plane,
    pub width: usize,
    pub height: usize,
    pub coefficients: Vec<i16>,
}

/// All that decoding of an image depends on.
#[verifier::ext_equal]
pub struct DecoderModel {
    pub image: Option<Iw44ImageHeader>,
    pub chunks: int,
    pub slices: int,
    pub payload: usize,
    pub y: PlaneModel,
    pub cb: Option<PlaneModel>,
    pub cr: Option<PlaneModel>,
}

/// What a slice did.
#[verifier::ext_equal]
pub struct SliceReport {
    pub index: u32,
    pub planes: Seq<Iw44PlaneSlice>,
}

/// A chunk under decoding: the image so far, the coder, the events at the coefficient
/// that is traced, what the slices did, and the image after each of them.
#[verifier::ext_equal]
pub struct ChunkRun {
    pub model: DecoderModel,
    pub zp: ZpState,
    pub events: Seq<Iw44CoefficientEvent>,
    pub reports: Seq<SliceReport>,
    pub states: Seq<DecoderModel>,
}

/// A decoder before its first chunk.
pub open spec fn blank_decoder() -> DecoderModel {
    DecoderModel {
        image: None,
        chunks: 0,
        slices: 0,
        payload: 0,
        y: blank_plane(0, 0),
        cb: None,
        cr: None,
    }
}

/// The extent of a chrominance plane.
pub open spec fn chroma_extent(extent: int, half: bool) -> int {
    if half {
        (extent + 1) / 2
    } else {
        extent
    }
}

/// An image, the coder and the events after a slice, and what the slice did.
#[verifier::ext_equal]
pub struct SliceStep {
    pub model: DecoderModel,
    pub zp: ZpState,
    pub events: Seq<Iw44CoefficientEvent>,
    pub report: SliceReport,
}

/// Decodes one slice of the luminance plane, and of the chrominance planes once their
/// delay is over.
pub open spec fn slice_step(
    model: DecoderModel,
    zp: ZpState,
    events: Seq<Iw44CoefficientEvent>,
    image: Iw44ImageHeader,
    target: Option<Iw44CoefficientTraceTarget>,
) -> SliceStep {
    let index = model.slices as u32;
    let chroma = !image.grayscale && index + 1 > image.delay;
    let y = decode_plane_slice(model.y, zp, events, Iw44Plane::Y, index, target);
    let first = SliceStep {
        model: DecoderModel { y: y.plane, slices: model.slices + 1, ..model },
        zp: y.zp,
        events: y.events,
        report: SliceReport { index, planes: seq![y.report] },
    };
    let second = if chroma && model.cb is Some {
        let cb = decode_plane_slice(
            model.cb->0,
            first.zp,
            first.events,
            Iw44Plane::Cb,
            index,
            target,
        );
        SliceStep {
            model: DecoderModel { cb: Some(cb.plane), ..first.model },
            zp: cb.zp,
            events: cb.events,
            report: SliceReport { index, planes: first.report.planes.push(cb.report) },
        }
    } else {
        first
    };
    if chroma && model.cr is Some {
        let cr = decode_plane_slice(
            model.cr->0,
            second.zp,
            second.events,
            Iw44Plane::Cr,
            index,
            target,
        );
        SliceStep {
            model: DecoderModel { cr: Some(cr.plane), ..second.model },
            zp: cr.zp,
            events: cr.events,
            report: SliceReport { index, planes: second.report.planes.push(cr.report) },
        }
    } else {
        second
    }
}

/// Decodes one slice of a chunk.
pub open spec fn run_slice(
    run: ChunkRun,
    image: Iw44ImageHeader,
    target: Option<Iw44CoefficientTraceTarget>,
) -> ChunkRun {
    let step = slice_step(run.model, run.zp, run.events, image, target);
    ChunkRun {
        model: step.model,
        zp: step.zp,
        events: step.events,
        reports: run.reports.push(step.report),
        states: run.states.push(step.model),
    }
}

/// Decodes a number of slices.
pub open spec fn run_slices(
    run: ChunkRun,
    image: Iw44ImageHeader,
    target: Option<Iw44CoefficientTraceTarget>,
    left: int,
) -> ChunkRun
    decreases left,
{
    if left <= 0 {
        run
    } else {
        run_slices(run_slice(run, image, target), image, target, left - 1)
    }
}

/// Whether a `usize` counts the coefficients of every plane of an image.
pub open spec fn image_fits(image: Iw44ImageHeader) -> bool {
    plane_fits(image.width as int, image.height as int)
}

/// The decoder when the slices of a chunk start.
pub open spec fn entered(model: DecoderModel, header: Iw44ChunkHeader) -> DecoderModel {
    if model.chunks == 0 {
        let image = header.image->0;
        let width = chroma_extent(image.width as int, image.chroma_half);
        let height = chroma_extent(image.height as int, image.chroma_half);
        DecoderModel {
            image: Some(image),
            y: blank_plane(image.width as int, image.height as int),
            cb: if image.grayscale {
                model.cb
            } else {
                Some(blank_plane(width, height))
            },
            cr: if image.grayscale {
                model.cr
            } else {
                Some(blank_plane(width, height))
            },
            ..model
        }
    } else {
        model
    }
}

/// Decodes a chunk: its header, and what its slices came to; or why it cannot be.
pub open spec fn decoded_chunk(
    model: DecoderModel,
    bytes: Seq<u8>,
    target: Option<Iw44CoefficientTraceTarget>,
) -> Result<(Iw44ChunkHeader, ChunkRun), Seq<char>> {
    match chunk_header(bytes) {
        Err(message) => Err(message),
        Ok(header) => if model.chunks > 255 {
            Err("IW44 decoder has already consumed 256 chunks"@)
        } else if header.serial != model.chunks {
            Err(serial_message(header.serial, model.chunks))
        } else if header.image is Some && !image_fits(header.image->0) {
            Err("IW44 image exceeds the address range"@)
        } else {
            let start = entered(model, header);
            let run = run_slices(
                ChunkRun {
                    model: start,
                    zp: zp_start(bytes.skip(header.payload_start as int)),
                    events: Seq::empty(),
                    reports: Seq::empty(),
                    states: Seq::empty(),
                },
                start.image->0,
                target,
                header.slices as int,
            );
            Ok(
                (
                    header,
                    ChunkRun {
                        model: DecoderModel {
                            chunks: model.chunks + 1,
                            payload: model.payload.wrapping_add(header.payload_len),
                            ..run.model
                        },
                        ..run
                    },
                ),
            )
        },
    }
}

/// What a chunk did, as it is reported.
pub open spec fn chunk_shows(
    chunk: Iw44DecodedChunk,
    header: Iw44ChunkHeader,
    reports: Seq<SliceReport>,
    first: int,
) -> bool {
    &&& chunk.header == header
    &&& chunk.first_slice_index == first
    &&& chunk.slice_count == header.slices
    &&& slices_show(chunk.slices@, reports)
}

/// What slices did, as it is reported.
pub open spec fn slices_show(slices: Seq<Iw44DecodedSlice>, reports: Seq<SliceReport>) -> bool {
    &&& slices.len() == reports.len()
    &&& forall|i: int|
        0 <= i < slices.len() ==> {
            &&& (#[trigger] slices[i]).index == reports[i].index
            &&& slices[i].planes@ == reports[i].planes
        }
}

/// The plane of an image of the given kind.
pub open spec fn plane_of(model: DecoderModel, plane: Iw44Plane) -> Option<PlaneModel> {
    match plane {
        Iw44Plane::Y => Some(model.y),
        Iw44Plane::Cb => model.cb,
        Iw44Plane::Cr => model.cr,
    }
}

/// The value of a coefficient that is watched, if there is one.
pub open spec fn watched_value(model: DecoderModel, target: Iw44CoefficientTraceTarget) -> Option<
    i16,
> {
    match plane_of(model, target.plane) {
        None => None,
        Some(plane) => if target.block < plane_blocks(plane) && target.coefficient < 1024 {
            Some(plane.values[1024 * target.block + target.coefficient])
        } else {
            None
        },
    }
}

/// The planes of an image that are there.
pub open spec fn planes_of(model: DecoderModel) -> Seq<(Iw44Plane, PlaneModel)> {
    if model.image is None {
        Seq::empty()
    } else {
        seq![(Iw44Plane::Y, model.y)] + (if model.cb is Some {
            seq![(Iw44Plane::Cb, model.cb->0)]
        } else {
            Seq::empty()
        }) + (if model.cr is Some {
            seq![(Iw44Plane::Cr, model.cr->0)]
        } else {
            Seq::empty()
        })
    }
}

/// The samples of a plane.
pub open spec fn plane_samples(
    plane: PlaneModel,
    order: Iw44ReconstructionOrder,
    extent: Iw44ReconstructionExtent,
) -> Seq<i16> {
    reconstruction(plane.values, plane.width, plane.height, order, extent)
}

/// A plane's samples as they are reported.
pub open spec fn reconstruction_shows(
    shown: Iw44ReconstructionPlane,
    which: Iw44Plane,
    plane: PlaneModel,
    order: Iw44ReconstructionOrder,
    extent: Iw44ReconstructionExtent,
) -> bool {
    &&& shown.plane == which
    &&& shown.width == plane.width
    &&& shown.height == plane.height
    &&& shown.samples@ == plane_samples(plane, order, extent)
    &&& shown.samples@.len() == shown.width * shown.height
}

/// Coefficients with the first `count` of a list replaced in turn.
pub open spec fn overridden(
    values: Seq<i16>,
    overrides: Seq<(usize, usize, i16)>,
    count: int,
) -> Seq<i16>
    decreases count,
{
    if count <= 0 {
        values
    } else {
        let (block, coefficient, value) = overrides[count - 1];
        overridden(values, overrides, count - 1).update(1024 * block + coefficient, value)
    }
}

/// Every coefficient to be replaced is there.
pub open spec fn overrides_fit(plane: PlaneModel, overrides: Seq<(usize, usize, i16)>) -> bool {
    forall|i: int|
        0 <= i < overrides.len() ==> (#[trigger] overrides[i]).0 < plane_blocks(plane)
            && overrides[i].1 < 1024
}

/// The colours of an image, or why it has none.
pub open spec fn image_pixels(model: DecoderModel) -> Result<Seq<u8>, Seq<char>> {
    let order = Iw44ReconstructionOrder::ColumnsThenRows;
    let extent = Iw44ReconstructionExtent::Visible;
    match model.image {
        None => Err("IW44 decoder has no image header"@),
        Some(image) => {
            let y = plane_samples(model.y, order, extent);
            if image.grayscale {
                Ok(gray_pixels(y, model.y.width, model.y.height))
            } else if model.cb is None {
                Err("IW44 color image is missing Cb plane"@)
            } else if model.cr is None {
                Err("IW44 color image is missing Cr plane"@)
            } else {
                Ok(
                    color_pixels(
                        y,
                        model.y.width,
                        model.y.height,
                        plane_samples(model.cb->0, order, extent),
                        plane_samples(model.cr->0, order, extent),
                        model.cb->0.width,
                        model.cb->0.height,
                        image.chroma_half,
                    ),
                )
            }
        },
    }
}

/// The progressive decoder of an image.
#[derive(Debug, Clone, Eq, PartialEq)]
pub struct Iw44Decoder {
    pub image: Option<Iw44ImageHeader>,
    pub chunks_decoded: usize,
    pub slices_decoded: u32,
    pub payload_bytes_seen: usize,
    pub y: Iw44PlaneState,
    pub cb: Option<Iw44PlaneState>,
    pub cr: Option<Iw44PlaneState>,
}

/// A plane that may be missing.
pub open spec fn plane_view(plane: Option<Iw44PlaneState>) -> Option<PlaneModel> {
    match plane {
        Some(plane) => Some(plane@),
        None => None,
    }
}

impl View for Iw44Decoder {
    type V = DecoderModel;

    open spec fn view(&self) -> DecoderModel {
        DecoderModel {
            image: self.image,
            chunks: self.chunks_decoded as int,
            slices: self.slices_decoded as int,
            payload: self.payload_bytes_seen,
            y: self.y@,
            cb: plane_view(self.cb),
            cr: plane_view(self.cr),
        }
    }
}

/// A plane's parts have their sizes, and no bucket was passed over too often.
pub open spec fn plane_ready(plane: Iw44PlaneState, slices: int) -> bool {
    plane.wf() && passes_bounded(plane@.passes, slices)
}

impl Iw44Decoder {
    /// The planes are in order and in shape, and the counts of chunks and slices bound each
    /// other.
    pub open spec fn wf(&self) -> bool {
        &&& self.chunks_decoded <= 256
        &&& self.slices_decoded <= 255 * self.chunks_decoded
        &&& self.planes_ready()
        &&& shaped(self@)
    }

    /// The planes are in order and in shape, as they are between any two slices.
    pub open spec fn readable(&self) -> bool {
        &&& self.planes_ready()
        &&& self.image is None ==> shaped(self@)
        &&& self.image is Some ==> planes_shaped(self@)
    }

    /// The planes are in order.
    pub open spec fn planes_ready(&self) -> bool {
        &&& plane_ready(self.y, self.slices_decoded as int)
        &&& self.cb is Some ==> plane_ready(self.cb->0, self.slices_decoded as int)
        &&& self.cr is Some ==> plane_ready(self.cr->0, self.slices_decoded as int)
        &&& self.cb is Some && self.cr is Some ==> {
            &&& self.cb->0@.width == self.cr->0@.width
            &&& self.cb->0@.height == self.cr->0@.height
            &&& self.cb->0@.width > 0
            &&& self.cb->0@.height > 0
        }
    }

    /// A decoder before its first chunk.
    #[must_use]
    pub fn new() -> (decoder: Self)
        ensures
            decoder.wf(),
            decoder@ == blank_decoder(),
    {
        Iw44Decoder {
            image: None,
            chunks_decoded: 0,
            slices_decoded: 0,
            payload_bytes_seen: 0,
            y: Iw44PlaneState::empty(),
            cb: None,
            cr: None,
        }
    }

    /// What the first chunk said of the image.
    #[must_use]
    pub fn image(&self) -> (image: Option<Iw44ImageHeader>)
        ensures
            image == self@.image,
    {
        self.image
    }

    /// The number of chunks decoded.
    #[must_use]
    pub fn chunks_decoded(&self) -> (count: usize)
        ensures
            count == self@.chunks,
    {
        self.chunks_decoded
    }

    /// The number of slices decoded.
    #[must_use]
    pub fn slices_decoded(&self) -> (count: u32)
        ensures
            count == self@.slices,
    {
        self.slices_decoded
    }

    /// The number of payload bytes of the chunks decoded.
    #[must_use]
    pub fn payload_bytes_seen(&self) -> (count: usize)
        ensures
            count == self@.payload,
    {
        self.payload_bytes_seen
    }

    /// The coefficients of the planes in numbers.
    #[must_use]
    pub fn plane_coefficient_summaries(&self) -> (summaries: Vec<Iw44PlaneCoefficientSummary>)
        requires
            self.readable(),
        ensures
            summaries@ == Seq::new(
                planes_of(self@).len(),
                |i: int| summary_of(planes_of(self@)[i].0, planes_of(self@)[i].1),
            ),
    {
        let mut summaries: Vec<Iw44PlaneCoefficientSummary> = Vec::new();
        if self.image.is_some() {
            summaries.push(summarize_plane(&self.y, Iw44Plane::Y));
            match &self.cb {
                Some(cb) => {
                    summaries.push(summarize_plane(cb, Iw44Plane::Cb));
                },
                None => {},
            }
            match &self.cr {
                Some(cr) => {
                    summaries.push(summarize_plane(cr, Iw44Plane::Cr));
                },
                None => {},
            }
        }
        assert(summaries@ =~= Seq::new(
            planes_of(self@).len(),
            |i: int| summary_of(planes_of(self@)[i].0, planes_of(self@)[i].1),
        ));
        summaries
    }

    /// The coefficients of the planes, row by row.
    #[must_use]
    pub fn coefficient_planes(&self) -> (planes: Vec<Iw44CoefficientPlane>)
        requires
            self.readable(),
        ensures
            planes@.len() == planes_of(self@).len(),
            forall|i: int|
                0 <= i < planes@.len() ==> coefficients_show(
                    #[trigger] planes@[i],
                    planes_of(self@)[i].0,
                    planes_of(self@)[i].1,
                ),
    {
        let mut planes: Vec<Iw44CoefficientPlane> = Vec::new();
        if self.image.is_some() {
            planes.push(coefficient_plane(&self.y, Iw44Plane::Y));
            match &self.cb {
                Some(cb) => {
                    planes.push(coefficient_plane(cb, Iw44Plane::Cb));
                },
                None => {},
            }
            match &self.cr {
                Some(cr) => {
                    planes.push(coefficient_plane(cr, Iw44Plane::Cr));
                },
                None => {},
            }
        }
        planes
    }

    /// The samples of the planes.
    #[must_use]
    pub fn reconstruct_planes(&self) -> (planes: Vec<Iw44ReconstructionPlane>)
        requires
            self.readable(),
        ensures
            planes_show(
                planes@,
                self@,
                Iw44ReconstructionOrder::ColumnsThenRows,
                Iw44ReconstructionExtent::Visible,
            ),
    {
        self.reconstruct_planes_with_options(
            Iw44ReconstructionOrder::ColumnsThenRows,
            Iw44ReconstructionExtent::Visible,
        )
    }

    /// The samples of the planes, lines transformed in the given order.
    #[must_use]
    pub fn reconstruct_planes_with_order(&self, order: Iw44ReconstructionOrder) -> (planes: Vec<
        Iw44ReconstructionPlane,
    >)
        requires
            self.readable(),
        ensures
            planes_show(planes@, self@, order, Iw44ReconstructionExtent::Visible),
    {
        self.reconstruct_planes_with_options(order, Iw44ReconstructionExtent::Visible)
    }

    /// The samples of the planes, lines transformed in the given order over the given
    /// extent.
    #[must_use]
    pub fn reconstruct_planes_with_options(
        &self,
        order: Iw44ReconstructionOrder,
        extent: Iw44ReconstructionExtent,
    ) -> (planes: Vec<Iw44ReconstructionPlane>)
        requires
            self.readable(),
        ensures
            planes_show(planes@, self@, order, extent),
    {
        let mut planes: Vec<Iw44ReconstructionPlane> = Vec::new();
        if self.image.is_some() {
            planes.push(self.y.reconstruct_plane_with_options(Iw44Plane::Y, order, extent));
            match &self.cb {
                Some(cb) => {
                    planes.push(cb.reconstruct_plane_with_options(Iw44Plane::Cb, order, extent));
                },
                None => {},
            }
            match &self.cr {
                Some(cr) => {
                    planes.push(cr.reconstruct_plane_with_options(Iw44Plane::Cr, order, extent));
                },
                None => {},
            }
        }
        planes
    }

    /// The samples of a plane with one coefficient replaced, if it is there.
    #[must_use]
    pub fn reconstruct_plane_with_coefficient_value(
        &self,
        plane: Iw44Plane,
        block: usize,
        coefficient: usize,
        value: i16,
    ) -> (shown: Option<Iw44ReconstructionPlane>)
        requires
            self.readable(),
        ensures
            override_shows(
                shown,
                plane_of(self@, plane),
                plane,
                seq![(block, coefficient, value)],
            ),
    {
        let overrides: [(usize, usize, i16); 1] = [(block, coefficient, value)];
        assert(overrides@ =~= seq![(block, coefficient, value)]);
        self.reconstruct_plane_with_coefficient_values(plane, overrides.as_slice())
    }

    /// The samples of a plane with coefficients replaced, if all of them are there.
    #[must_use]
    pub fn reconstruct_plane_with_coefficient_values(
        &self,
        plane: Iw44Plane,
        overrides: &[(usize, usize, i16)],
    ) -> (shown: Option<Iw44ReconstructionPlane>)
        requires
            self.readable(),
        ensures
            override_shows(shown, plane_of(self@, plane), plane, overrides@),
    {
        match plane {
            Iw44Plane::Y => self.y.reconstruct_with_overrides(plane, overrides),
            Iw44Plane::Cb => match &self.cb {
                Some(cb) => cb.reconstruct_with_overrides(plane, overrides),
                None => None,
            },
            Iw44Plane::Cr => match &self.cr {
                Some(cr) => cr.reconstruct_with_overrides(plane, overrides),
                None => None,
            },
        }
    }

    /// The image in red, green and blue.
    pub fn to_rgb_image(&self) -> (image: Result<Iw44RgbImage, Iw44Error>)
        requires
            self.readable(),
        ensures
            match image_pixels(self@) {
                Ok(pixels) => {
                    &&& image is Ok
                    &&& image->Ok_0.width == self@.y.width
                    &&& image->Ok_0.height == self@.y.height
                    &&& image->Ok_0.pixels@ == pixels
                },
                Err(message) => image is Err && image->Err_0@ == message,
            },
    {
        let header = match self.image {
            None => {
                return Err(Iw44Error::new("IW44 decoder has no image header"));
            },
            Some(header) => header,
        };
        let y = self.y.reconstruct_plane(Iw44Plane::Y);
        if header.grayscale {
            return Ok(grayscale_to_rgb(&y));
        }
        let cb = match &self.cb {
            None => {
                return Err(Iw44Error::new("IW44 color image is missing Cb plane"));
            },
            Some(plane) => plane,
        };
        let cr = match &self.cr {
            None => {
                return Err(Iw44Error::new("IW44 color image is missing Cr plane"));
            },
            Some(plane) => plane,
        };
        Ok(
            ycbcr_to_rgb(
                &y,
                &cb.reconstruct_plane(Iw44Plane::Cb),
                &cr.reconstruct_plane(Iw44Plane::Cr),
                header.chroma_half,
            ),
        )
    }

    /// Decodes the next chunk.
    pub fn decode_chunk(&mut self, bytes: &[u8]) -> (chunk: Result<Iw44DecodedChunk, Iw44Error>)
        requires
            old(self).wf(),
        ensures
            final(self).wf(),
            match decoded_chunk(old(self)@, bytes@, None) {
                Ok((header, run)) => {
                    &&& chunk is Ok
                    &&& final(self)@ == run.model
                    &&& chunk_shows(chunk->Ok_0, header, run.reports, old(self)@.slices)
                },
                Err(message) => {
                    &&& chunk is Err
                    &&& chunk->Err_0@ == message
                    &&& final(self)@ == old(self)@
                },
            },
    {
        let mut events: Vec<Iw44CoefficientEvent> = Vec::new();
        let mut seen: Vec<()> = Vec::new();
        self.decode_chunk_with_observers(
            bytes,
            |_decoder: &Iw44Decoder, _slice: &Iw44DecodedSlice| {  },
            None,
            &mut events,
            &mut seen,
        )
    }

    /// Decodes the next chunk, and calls the observer after each of its slices, with the
    /// decoder as it then is and with what the slice did; gives what the observer returned.
    pub fn decode_chunk_with_slice_observer<R, F: Fn(&Iw44Decoder, &Iw44DecodedSlice) -> R>(
        &mut self,
        bytes: &[u8],
        observer: F,
    ) -> (chunk: Result<(Iw44DecodedChunk, Vec<R>), Iw44Error>)
        requires
            old(self).wf(),
            forall|decoder: &Iw44Decoder, slice: &Iw44DecodedSlice|
                decoder.readable() ==> #[trigger] observer.requires((decoder, slice)),
        ensures
            final(self).wf(),
            match decoded_chunk(old(self)@, bytes@, None) {
                Ok((header, run)) => {
                    &&& chunk is Ok
                    &&& final(self)@ == run.model
                    &&& chunk_shows(chunk->Ok_0.0, header, run.reports, old(self)@.slices)
                    &&& all_observed(observer, chunk->Ok_0.1@, run.states, run.reports)
                },
                Err(message) => {
                    &&& chunk is Err
                    &&& chunk->Err_0@ == message
                    &&& final(self)@ == old(self)@
                },
            },
    {
        let mut events: Vec<Iw44CoefficientEvent> = Vec::new();
        let mut seen: Vec<R> = Vec::new();
        match self.decode_chunk_with_observers(bytes, observer, None, &mut events, &mut seen) {
            Ok(chunk) => Ok((chunk, seen)),
            Err(error) => Err(error),
        }
    }

    /// Decodes the next chunk; gives the events at the coefficient that is traced.
    pub fn decode_chunk_with_coefficient_observer(
        &mut self,
        bytes: &[u8],
        target: Iw44CoefficientTraceTarget,
    ) -> (chunk: Result<(Iw44DecodedChunk, Vec<Iw44CoefficientEvent>), Iw44Error>)
        requires
            old(self).wf(),
        ensures
            final(self).wf(),
            match decoded_chunk(old(self)@, bytes@, Some(target)) {
                Ok((header, run)) => {
                    &&& chunk is Ok
                    &&& final(self)@ == run.model
                    &&& chunk_shows(chunk->Ok_0.0, header, run.reports, old(self)@.slices)
                    &&& chunk->Ok_0.1@ == run.events
                },
                Err(message) => {
                    &&& chunk is Err
                    &&& chunk->Err_0@ == message
                    &&& final(self)@ == old(self)@
                },
            },
            match decoded_chunk(old(self)@, bytes@, None) {
                Ok((header, plain)) => {
                    &&& chunk is Ok
                    &&& final(self)@ == plain.model
                    &&& chunk_shows(chunk->Ok_0.0, header, plain.reports, old(self)@.slices)
                },
                Err(message) => chunk is Err && chunk->Err_0@ == message,
            },
            chunk is Ok ==> all_at(chunk->Ok_0.1@, target),
    {
        proof {
            lemma_tracing_changes_nothing(self@, bytes@, Some(target));
            if decoded_chunk(self@, bytes@, Some(target)) is Ok {
                lemma_events_of_any_target(self@, bytes@, target);
            }
        }
        let mut events: Vec<Iw44CoefficientEvent> = Vec::new();
        let mut seen: Vec<()> = Vec::new();
        match self.decode_chunk_with_observers(
            bytes,
            |_decoder: &Iw44Decoder, _slice: &Iw44DecodedSlice| {  },
            Some(target),
            &mut events,
            &mut seen,
        ) {
            Ok(chunk) => Ok((chunk, events)),
            Err(error) => Err(error),
        }
    }

    /// Decodes the next chunk; events at the coefficient that is traced, and what the
    /// observer returned after each slice, are appended.
    fn decode_chunk_with_observers<R, F: Fn(&Iw44Decoder, &Iw44DecodedSlice) -> R>(
        &mut self,
        bytes: &[u8],
        observer: F,
        trace_target: Option<Iw44CoefficientTraceTarget>,
        events: &mut Vec<Iw44CoefficientEvent>,
        seen: &mut Vec<R>,
    ) -> (chunk: Result<Iw44DecodedChunk, Iw44Error>)
        requires
            old(self).wf(),
            old(events)@.len() == 0,
            old(seen)@.len() == 0,
            forall|decoder: &Iw44Decoder, slice: &Iw44DecodedSlice|
                decoder.readable() ==> #[trigger] observer.requires((decoder, slice)),
        ensures
            final(self).wf(),
            match decoded_chunk(old(self)@, bytes@, trace_target) {
                Ok((header, run)) => {
                    &&& chunk is Ok
                    &&& final(self)@ == run.model
                    &&& chunk_shows(chunk->Ok_0, header, run.reports, old(self)@.slices)
                    &&& final(events)@ == run.events
                    &&& all_observed(observer, final(seen)@, run.states, run.reports)
                },
                Err(message) => {
                    &&& chunk is Err
                    &&& chunk->Err_0@ == message
                    &&& final(self)@ == old(self)@
                },
            },
    {
        let header = match read_iw44_chunk_header(bytes) {
            Err(error) => {
                return Err(error);
            },
            Ok(header) => header,
        };
        if self.chunks_decoded > 255 {
            return Err(Iw44Error::new("IW44 decoder has already consumed 256 chunks"));
        }
        if header.serial as usize != self.chunks_decoded {
            return Err(serial_error(header.serial, self.chunks_decoded as u8));
        }
        match header.image {
            Some(image) => {
                if !fits(image) {
                    return Err(Iw44Error::new("IW44 image exceeds the address range"));
                }
                self.enter_image(image);
            },
            None => {},
        }
        let image = match self.image {
            Some(image) => image,
            None => {
                return Err(Iw44Error::new("IW44 decoder has no image header"));
            },
        };
        let ghost start = self@;
        assert(start == entered(old(self)@, header));
        proof {
            lemma_entered_shaped(old(self)@, bytes@);
        }
        let payload: &[u8] = vstd::slice::slice_subrange(bytes, header.payload_start, bytes.len());
        assert(payload@ =~= bytes@.skip(header.payload_start as int));
        let mut bitstream = Iw44Bitstream::new(payload);
        let ghost first = ChunkRun {
            model: start,
            zp: bitstream@,
            events: Seq::empty(),
            reports: Seq::empty(),
            states: Seq::empty(),
        };
        let first_slice_index: u32 = self.slices_decoded;
        let mut slices: Vec<Iw44DecodedSlice> = Vec::new();
        let ghost mut run = first;
        let mut left: u8 = header.slices;
        assert(events@ =~= Seq::empty());
        while left > 0
            invariant
                self.planes_ready(),
                self.image == Some(image),
                self.chunks_decoded == old(self).chunks_decoded,
                self.chunks_decoded <= 255,
                self.payload_bytes_seen == old(self).payload_bytes_seen,
                self.slices_decoded == first_slice_index + (header.slices - left),
                first_slice_index <= 255 * self.chunks_decoded,
                left <= header.slices,
                bitstream.wf(),
                run.model == self@,
                run.zp == bitstream@,
                run.events == events@,
                slices_show(slices@, run.reports),
                planes_shaped(self@),
                forall|decoder: &Iw44Decoder, slice: &Iw44DecodedSlice|
                    decoder.readable() ==> #[trigger] observer.requires((decoder, slice)),
                all_observed(observer, seen@, run.states, run.reports),
                run_slices(run, image, trace_target, left as int) == run_slices(
                    first,
                    image,
                    trace_target,
                    header.slices as int,
                ),
            decreases left,
        {
            proof {
                lemma_step_shaped(run.model, run.zp, run.events, trace_target);
                run = run_slice(run, image, trace_target);
            }
            let slice = self.decode_one_slice(image, &mut bitstream, trace_target, events);
            let returned = observer(&*self, &slice);
            assert(slice_shows(*self, slice, run.states.last(), run.reports.last()));
            slices.push(slice);
            seen.push(returned);
            left = left - 1;
        }
        self.chunks_decoded = self.chunks_decoded + 1;
        self.payload_bytes_seen = self.payload_bytes_seen.wrapping_add(header.payload_len);
        proof {
            lemma_decoders_are_shaped(old(self)@, bytes@, trace_target);
        }
        Ok(
            Iw44DecodedChunk {
                header,
                first_slice_index,
                slice_count: header.slices,
                slices,
            },
        )
    }

    /// Makes the planes of an image.
    fn enter_image(&mut self, image: Iw44ImageHeader)
        requires
            old(self).wf(),
            old(self).chunks_decoded == 0,
            image.width > 0,
            image.height > 0,
            image_fits(image),
        ensures
            final(self).planes_ready(),
            final(self).image == Some(image),
            final(self).chunks_decoded == 0,
            final(self).slices_decoded == old(self).slices_decoded,
            final(self).payload_bytes_seen == old(self).payload_bytes_seen,
            forall|header: Iw44ChunkHeader| #[trigger]
                entered(old(self)@, header) == final(self)@ || header.image != Some(image),
    {
        self.image = Some(image);
        self.y = Iw44PlaneState::new(image.width as usize, image.height as usize);
        if !image.grayscale {
            let width: usize = if image.chroma_half {
                (image.width as usize + 1) / 2
            } else {
                image.width as usize
            };
            let height: usize = if image.chroma_half {
                (image.height as usize + 1) / 2
            } else {
                image.height as usize
            };
            proof {
                lemma_chroma_fits(image);
            }
            self.cb = Some(Iw44PlaneState::new(width, height));
            self.cr = Some(Iw44PlaneState::new(width, height));
        }
    }

    /// Decodes one slice.
    fn decode_one_slice(
        &mut self,
        image: Iw44ImageHeader,
        bitstream: &mut Iw44Bitstream<'_>,
        trace_target: Option<Iw44CoefficientTraceTarget>,
        events: &mut Vec<Iw44CoefficientEvent>,
    ) -> (slice: Iw44DecodedSlice)
        requires
            old(self).planes_ready(),
            old(self).slices_decoded < 0x10_0000,
            old(bitstream).wf(),
        ensures
            final(self).planes_ready(),
            final(bitstream).wf(),
            final(self).image == old(self).image,
            final(self).chunks_decoded == old(self).chunks_decoded,
            final(self).payload_bytes_seen == old(self).payload_bytes_seen,
            final(self).slices_decoded == old(self).slices_decoded + 1,
            (SliceStep {
                model: final(self)@,
                zp: final(bitstream)@,
                events: final(events)@,
                report: SliceReport { index: slice.index, planes: slice.planes@ },
            }) == slice_step(
                old(self)@,
                old(bitstream)@,
                old(events)@,
                image,
                trace_target,
            ),
    {
        let index: u32 = self.slices_decoded;
        let mut planes: Vec<Iw44PlaneSlice> = Vec::new();
        proof {
            lemma_slice_passes(self.y@, bitstream@, events@, Iw44Plane::Y, index, trace_target);
        }
        planes.push(
            self.y.decode_slice(Iw44Plane::Y, bitstream, index, trace_target, events),
        );
        let chroma: bool = !image.grayscale && index + 1 > image.delay as u32;
        if chroma {
            match &mut self.cb {
                Some(cb) => {
                    proof {
                        lemma_slice_passes(
                            cb@,
                            bitstream@,
                            events@,
                            Iw44Plane::Cb,
                            index,
                            trace_target,
                        );
                    }
                    planes.push(
                        cb.decode_slice(Iw44Plane::Cb, bitstream, index, trace_target, events),
                    );
                },
                None => {},
            }
            match &mut self.cr {
                Some(cr) => {
                    proof {
                        lemma_slice_passes(
                            cr@,
                            bitstream@,
                            events@,
                            Iw44Plane::Cr,
                            index,
                            trace_target,
                        );
                    }
                    planes.push(
                        cr.decode_slice(Iw44Plane::Cr, bitstream, index, trace_target, events),
                    );
                },
                None => {},
            }
        }
        self.slices_decoded = self.slices_decoded + 1;
        assert(planes@ =~= slice_step(
            old(self)@,
            old(bitstream)@,
            old(events)@,
            image,
            trace_target,
        ).report.planes);
        assert(self@ =~= slice_step(
            old(self)@,
            old(bitstream)@,
            old(events)@,
            image,
            trace_target,
        ).model);
        Iw44DecodedSlice { index, planes }
    }

    /// The value of a coefficient that is watched, if there is one.
    fn watched_coefficient(&self, target: Iw44CoefficientTraceTarget) -> (value: Option<i16>)
        requires
            self.planes_ready(),
        ensures
            value == watched_value(self@, target),
    {
        match target.plane {
            Iw44Plane::Y => self.y.coefficient_if_any(target),
            Iw44Plane::Cb => match &self.cb {
                Some(cb) => cb.coefficient_if_any(target),
                None => None,
            },
            Iw44Plane::Cr => match &self.cr {
                Some(cr) => cr.coefficient_if_any(target),
                None => None,
            },
        }
    }

    /// The values of the coefficients that are watched.
    pub(crate) fn watched_values(&self, watched: &Vec<Iw44CoefficientTraceTarget>) -> (values: Vec<
        Option<i16>,
    >)
        requires
            self.planes_ready(),
        ensures
            values@ == Seq::new(
                watched@.len(),
                |i: int| watched_value(self@, watched@[i]),
            ),
    {
        let mut values: Vec<Option<i16>> = Vec::new();
        let mut i: usize = 0;
        while i < watched.len()
            invariant
                self.planes_ready(),
                i <= watched@.len(),
                values@.len() == i,
                forall|k: int|
                    0 <= k < i ==> #[trigger] values@[k] == watched_value(self@, watched@[k]),
            decreases watched@.len() - i,
        {
            values.push(self.watched_coefficient(watched[i]));
            i = i + 1;
        }
        assert(values@ =~= Seq::new(
            watched@.len(),
            |k: int| watched_value(self@, watched@[k]),
        ));
        values
    }
}

impl Default for Iw44Decoder {
    fn default() -> (decoder: Self)
        ensures
            decoder.wf(),
            decoder@ == blank_decoder(),
    {
        Iw44Decoder::new()
    }
}

/// Whether a decoder is in the given state, and a slice did what is reported.
pub open spec fn slice_shows(
    decoder: Iw44Decoder,
    slice: Iw44DecodedSlice,
    state: DecoderModel,
    report: SliceReport,
) -> bool {
    &&& decoder.readable()
    &&& decoder@ == state
    &&& slice.index == report.index
    &&& slice.planes@ == report.planes
}

/// Whether this is what the observer returned when it was called with the decoder in the
/// given state and with the slice that did what is reported.
pub open spec fn observed<R, F: Fn(&Iw44Decoder, &Iw44DecodedSlice) -> R>(
    observer: F,
    returned: R,
    state: DecoderModel,
    report: SliceReport,
) -> bool {
    exists|decoder: Iw44Decoder, slice: Iw44DecodedSlice|
        #[trigger] slice_shows(decoder, slice, state, report) && observer.ensures(
            (&decoder, &slice),
            returned,
        )
}

/// Whether this is what the observer returned after each slice, in order.
pub open spec fn all_observed<R, F: Fn(&Iw44Decoder, &Iw44DecodedSlice) -> R>(
    observer: F,
    seen: Seq<R>,
    states: Seq<DecoderModel>,
    reports: Seq<SliceReport>,
) -> bool {
    &&& seen.len() == states.len()
    &&& seen.len() == reports.len()
    &&& forall|i: int|
        0 <= i < seen.len() ==> observed(observer, #[trigger] seen[i], states[i], reports[i])
}

/// The coefficients of a plane in numbers.
pub open spec fn summary_of(which: Iw44Plane, plane: PlaneModel) -> Iw44PlaneCoefficientSummary {
    Iw44PlaneCoefficientSummary {
        plane: which,
        width: plane.width as usize,
        height: plane.height as usize,
        block_count: plane_blocks(plane) as usize,
        non_zero_coefficients: nonzero_count(plane.values, plane.values.len() as int) as usize,
        max_abs_coefficient: max_magnitude(plane.values, plane.values.len() as int) as u16,
        coefficient_abs_sum: magnitude_sum(plane.values, plane.values.len() as int) as u64,
    }
}

/// The coefficients of a plane, row by row, as they are reported.
pub open spec fn coefficients_show(
    shown: Iw44CoefficientPlane,
    which: Iw44Plane,
    plane: PlaneModel,
) -> bool {
    &&& shown.plane == which
    &&& shown.width == plane.width
    &&& shown.height == plane.height
    &&& shown.coefficients@ == row_major(
        plane.values,
        blocks_along(plane.width),
        plane.width,
        plane.height,
    )
    &&& shown.coefficients@.len() == shown.width * shown.height
}

/// The samples of all planes of an image as they are reported.
pub open spec fn planes_show(
    shown: Seq<Iw44ReconstructionPlane>,
    model: DecoderModel,
    order: Iw44ReconstructionOrder,
    extent: Iw44ReconstructionExtent,
) -> bool {
    &&& shown.len() == planes_of(model).len()
    &&& forall|i: int|
        0 <= i < shown.len() ==> reconstruction_shows(
            #[trigger] shown[i],
            planes_of(model)[i].0,
            planes_of(model)[i].1,
            order,
            extent,
        )
}

/// The samples of a plane with coefficients replaced, as they are reported.
pub open spec fn override_shows(
    shown: Option<Iw44ReconstructionPlane>,
    plane: Option<PlaneModel>,
    which: Iw44Plane,
    overrides: Seq<(usize, usize, i16)>,
) -> bool {
    if plane is Some && overrides_fit(plane->0, overrides) {
        &&& shown is Some
        &&& reconstruction_shows(
            shown->0,
            which,
            PlaneModel {
                values: overridden(plane->0.values, overrides, overrides.len() as int),
                ..plane->0
            },
            Iw44ReconstructionOrder::ColumnsThenRows,
            Iw44ReconstructionExtent::Visible,
        )
    } else {
        shown is None
    }
}

/// Two images have planes of the same sizes and the same header.
pub open spec fn same_sizes(left: DecoderModel, right: DecoderModel) -> bool {
    &&& left.image == right.image
    &&& plane_sizes_agree(Some(left.y), Some(right.y))
    &&& plane_sizes_agree(left.cb, right.cb)
    &&& plane_sizes_agree(left.cr, right.cr)
}

/// Two planes have the same size, or neither is there.
pub open spec fn plane_sizes_agree(left: Option<PlaneModel>, right: Option<PlaneModel>) -> bool {
    match (left, right) {
        (Some(first), Some(second)) => first.width == second.width && first.height
            == second.height,
        (None, None) => true,
        _ => false,
    }
}

/// Slices leave the sizes of the planes and the header of the image alone; each is counted,
/// and the image after it is kept.
pub proof fn lemma_slices_keep_sizes(
    run: ChunkRun,
    image: Iw44ImageHeader,
    target: Option<Iw44CoefficientTraceTarget>,
    left: int,
)
    requires
        0 <= left,
        0 <= run.model.slices,
        run.model.slices + left <= u32::MAX,
        run.states.len() == run.reports.len(),
    ensures
        ({
            let end = run_slices(run, image, target, left);
            let before = run.states.len();
            &&& same_sizes(end.model, run.model)
            &&& end.model.slices == run.model.slices + left
            &&& end.model.chunks == run.model.chunks
            &&& end.states.len() == before + left
            &&& end.reports.len() == before + left
            &&& forall|k: int|
                0 <= k < before ==> #[trigger] end.states[k] == run.states[k] && end.reports[k]
                    == run.reports[k]
            &&& forall|k: int|
                before <= k < end.states.len() ==> {
                    &&& same_sizes(#[trigger] end.states[k], run.model)
                    &&& end.states[k].slices == run.model.slices + (k - before) + 1
                    &&& end.reports[k].index == run.model.slices + (k - before)
                }
        }),
    decreases left,
{
    if left > 0 {
        reveal(decode_plane_slice);
        let next = run_slice(run, image, target);
        assert(same_sizes(next.model, run.model));
        lemma_slices_keep_sizes(next, image, target, left - 1);
        let end = run_slices(run, image, target, left);
        let before = run.states.len();
        assert forall|k: int| before <= k < end.states.len() implies {
            &&& same_sizes(#[trigger] end.states[k], run.model)
            &&& end.states[k].slices == run.model.slices + (k - before) + 1
            &&& end.reports[k].index == run.model.slices + (k - before)
        } by {
            if k == before {
                assert(end.states[k] == next.states[k]);
            }
        }
        assert forall|k: int| 0 <= k < before implies #[trigger] end.states[k] == run.states[k]
            && end.reports[k] == run.reports[k] by {
            assert(end.states[k] == next.states[k]);
        }
    }
}

/// A chunk leaves the sizes of the planes and the header of the image alone, but for the
/// first, which sets them.
pub proof fn lemma_chunk_keeps_sizes(
    model: DecoderModel,
    bytes: Seq<u8>,
    target: Option<Iw44CoefficientTraceTarget>,
)
    requires
        0 <= model.slices <= 255 * model.chunks,
        0 <= model.chunks,
        decoded_chunk(model, bytes, target) is Ok,
    ensures
        ({
            let (header, run) = decoded_chunk(model, bytes, target)->Ok_0;
            &&& chunk_header(bytes) == Ok::<_, Seq<char>>(header)
            &&& same_sizes(run.model, entered(model, header))
            &&& run.model.chunks == model.chunks + 1
            &&& run.model.chunks <= 256
            &&& 0 <= run.model.slices <= 255 * run.model.chunks
            &&& run.model.slices == model.slices + header.slices
            &&& run.states.len() == header.slices
            &&& run.reports.len() == header.slices
            &&& forall|k: int|
                0 <= k < run.states.len() ==> {
                    &&& same_sizes(#[trigger] run.states[k], entered(model, header))
                    &&& run.states[k].slices == model.slices + k + 1
                    &&& run.reports[k].index == model.slices + k
                }
        }),
{
    let (header, _) = decoded_chunk(model, bytes, target)->Ok_0;
    let start = entered(model, header);
    lemma_slices_keep_sizes(
        ChunkRun {
            model: start,
            zp: zp_start(bytes.skip(header.payload_start as int)),
            events: Seq::empty(),
            reports: Seq::empty(),
            states: Seq::empty(),
        },
        start.image->0,
        target,
        header.slices as int,
    );
}

/// A slice passes over a bucket at most once.
proof fn lemma_slice_passes(
    plane: PlaneModel,
    zp: ZpState,
    events: Seq<Iw44CoefficientEvent>,
    which: Iw44Plane,
    slice_index: u32,
    target: Option<Iw44CoefficientTraceTarget>,
)
    requires
        passes_bounded(plane.passes, slice_index as int),
        slice_index < u32::MAX,
    ensures
        passes_bounded(
            decode_plane_slice(plane, zp, events, which, slice_index, target).plane.passes,
            slice_index + 1,
        ),
        decode_plane_slice(plane, zp, events, which, slice_index, target).plane.width
            == plane.width,
        decode_plane_slice(plane, zp, events, which, slice_index, target).plane.height
            == plane.height,
{
    reveal(decode_plane_slice);
}

/// Halving the extents of a plane does not enlarge it.
proof fn lemma_chroma_fits(image: Iw44ImageHeader)
    requires
        image_fits(image),
        image.width > 0,
        image.height > 0,
    ensures
        plane_fits(
            chroma_extent(image.width as int, image.chroma_half),
            chroma_extent(image.height as int, image.chroma_half),
        ),
        chroma_extent(image.width as int, image.chroma_half) > 0,
        chroma_extent(image.height as int, image.chroma_half) > 0,
{
    let w = blocks_along(image.width as int);
    let h = blocks_along(image.height as int);
    let cw = blocks_along(chroma_extent(image.width as int, image.chroma_half));
    let ch = blocks_along(chroma_extent(image.height as int, image.chroma_half));
    assert(cw * ch <= w * h) by (nonlinear_arith)
        requires
            0 <= cw <= w,
            0 <= ch <= h,
    ;
}

/// Whether a `usize` counts the coefficients of every plane of an image.
fn fits(image: Iw44ImageHeader) -> (yes: bool)
    ensures
        yes == image_fits(image),
{
    let across: u64 = (image.width as u64 + 31) / 32;
    let down: u64 = (image.height as u64 + 31) / 32;
    assert(across * down <= 2048 * 2048) by (nonlinear_arith)
        requires
            0 <= across <= 2048,
            0 <= down <= 2048,
    ;
    1024 * (across * down) <= usize::MAX as u64
}

/// The coefficients of a plane in numbers.
fn summarize_plane(plane: &Iw44PlaneState, which: Iw44Plane) -> (summary:
    Iw44PlaneCoefficientSummary)
    requires
        plane.wf(),
    ensures
        summary == summary_of(which, plane@),
{
    let (nonzero, largest, sum) = plane.coefficients.summary();
    Iw44PlaneCoefficientSummary {
        plane: which,
        width: plane.coefficients.width,
        height: plane.coefficients.height,
        block_count: plane.coefficients.block_count(),
        non_zero_coefficients: nonzero,
        max_abs_coefficient: largest,
        coefficient_abs_sum: sum,
    }
}

/// The coefficients of a plane, row by row.
fn coefficient_plane(plane: &Iw44PlaneState, which: Iw44Plane) -> (shown: Iw44CoefficientPlane)
    requires
        plane.wf(),
    ensures
        coefficients_show(shown, which, plane@),
{
    Iw44CoefficientPlane {
        plane: which,
        width: plane.coefficients.width,
        height: plane.coefficients.height,
        coefficients: plane.coefficients.to_row_major_plane(),
    }
}

impl Iw44PlaneState {
    /// The samples of the plane.
    pub fn reconstruct_plane(&self, plane: Iw44Plane) -> (shown: Iw44ReconstructionPlane)
        requires
            self.wf(),
        ensures
            reconstruction_shows(
                shown,
                plane,
                self@,
                Iw44ReconstructionOrder::ColumnsThenRows,
                Iw44ReconstructionExtent::Visible,
            ),
    {
        self.reconstruct_plane_with_options(
            plane,
            Iw44ReconstructionOrder::ColumnsThenRows,
            Iw44ReconstructionExtent::Visible,
        )
    }

    /// The samples of the plane, lines transformed in the given order over the given
    /// extent.
    pub fn reconstruct_plane_with_options(
        &self,
        plane: Iw44Plane,
        order: Iw44ReconstructionOrder,
        extent: Iw44ReconstructionExtent,
    ) -> (shown: Iw44ReconstructionPlane)
        requires
            self.wf(),
        ensures
            reconstruction_shows(shown, plane, self@, order, extent),
    {
        Iw44ReconstructionPlane {
            plane,
            width: self.coefficients.width,
            height: self.coefficients.height,
            samples: self.coefficients.reconstruct_with_options(order, extent),
        }
    }

    /// The samples of the plane with coefficients replaced, if all of them are there.
    fn reconstruct_with_overrides(
        &self,
        plane: Iw44Plane,
        overrides: &[(usize, usize, i16)],
    ) -> (shown: Option<Iw44ReconstructionPlane>)
        requires
            self.wf(),
        ensures
            override_shows(shown, Some(self@), plane, overrides@),
    {
        let mut coefficients = self.coefficients.duplicate();
        let count: usize = coefficients.block_count();
        let mut i: usize = 0;
        while i < overrides.len()
            invariant
                coefficients.wf(),
                coefficients.width == self.coefficients.width,
                coefficients.height == self.coefficients.height,
                count == plane_blocks(self@),
                i <= overrides@.len(),
                forall|k: int|
                    0 <= k < i ==> (#[trigger] overrides@[k]).0 < plane_blocks(self@)
                        && overrides@[k].1 < 1024,
                coefficients.values@ == overridden(self@.values, overrides@, i as int),
            decreases overrides@.len() - i,
        {
            let (block, coefficient, value): (usize, usize, i16) = overrides[i];
            if block >= count || coefficient >= 1024 {
                assert(!(overrides@[i as int].0 < plane_blocks(self@) && overrides@[i as int].1
                    < 1024));
                return None;
            }
            coefficients.set_coefficient(block, coefficient, value);
            i = i + 1;
        }
        Some(
            Iw44ReconstructionPlane {
                plane,
                width: coefficients.width,
                height: coefficients.height,
                samples: coefficients.reconstruct_with_options(
                    Iw44ReconstructionOrder::ColumnsThenRows,
                    Iw44ReconstructionExtent::Visible,
                ),
            },
        )
    }

    /// The value of a coefficient that is watched, if there is one.
    fn coefficient_if_any(&self, target: Iw44CoefficientTraceTarget) -> (value: Option<i16>)
        requires
            self.wf(),
        ensures
            value == if target.block < plane_blocks(self@) && target.coefficient < 1024 {
                Some(self@.values[1024 * target.block + target.coefficient])
            } else {
                None::<i16>
            },
    {
        if target.block < self.coefficients.block_count() && target.coefficient < 1024 {
            Some(self.coefficients.coefficient(target.block, target.coefficient))
        } else {
            None
        }
    }
}

} // verus!
