//! A close look at one pixel of an IW44 layer.

pub mod coefficients;
pub mod reconstruction;
pub mod sample;
pub mod seen;
pub mod trace;

use crate::bitonal::lemma_pixel_index;
use crate::iw44::decoder::{
    blank_decoder, decoded_chunk, entered, image_pixels, lemma_chunk_keeps_sizes, planes_show,
    DecoderModel, Iw44Decoder,
};
use crate::iw44::header::{chunk_header, Iw44PageMapping};
use crate::iw44::{
    Iw44Error, Iw44Plane, Iw44ReconstructionExtent, Iw44ReconstructionOrder,
    Iw44ReconstructionPlane, Iw44RgbImage,
};
use crate::render::plan::{
    mode_name, page_mapping_of, payloads_of, payloads_view, summary_of, Iw44LayerGeometry,
    Iw44LayerRole, PageRenderMode, PageRenderPlan, PlanModel, RenderChunkPayload,
};
use crate::text::{decimal, push_decimal, text_of};
use coefficients::{
    block_of, entries_placed, iw44_coefficient_block_summary, BlockModel,
    Iw44CoefficientBlockSummary,
};
use reconstruction::{
    block_number, block_number_of, iw44_coefficient_reconstruction_trace, reconstruction_of,
    sample_placed, Iw44CoefficientReconstructionSummary, ReconstructionModel,
};
use sample::{
    inspected_coordinate, iw44_inspected_coordinate, iw44_luma_neighborhood, iw44_plane_sample,
    iw44_samples_to_rgb, neighborhood_of, sample_of, samples_rgb, Iw44LumaNeighborhood,
    Iw44PlaneSample, NeighborhoodModel,
};
use trace::{
    decode_context, decode_context_text, event_traces_of, iw44_coefficient_event_traces,
    iw44_coefficient_trace, layer_extents, plane_extents, steps_view, trace_of, traces_view,
    EventTraceModel, Iw44CoefficientEventTrace, Iw44CoefficientTraceStep, StepModel,
};
use vstd::prelude::*;

verus! {

/// Why a pixel could not be inspected: what went wrong, and in the course of what.
#[derive(Debug, Clone, Eq, PartialEq)]
pub struct InspectError {
    pub context: Option<String>,
    pub message: String,
}

/// Why a pixel could not be inspected, by its words.
#[verifier::ext_equal]
pub struct InspectFault {
    pub context: Option<Seq<char>>,
    pub message: Seq<char>,
}

impl View for InspectError {
    type V = InspectFault;

    open spec fn view(&self) -> InspectFault {
        InspectFault {
            context: match self.context {
                Some(context) => Some(context@),
                None => None,
            },
            message: self.message@,
        }
    }
}

/// A fault without a context.
pub open spec fn plain(message: Seq<char>) -> InspectFault {
    InspectFault { context: None, message }
}

/// A fault that another led to.
pub open spec fn within(context: Seq<char>, message: Seq<char>) -> InspectFault {
    InspectFault { context: Some(context), message }
}

impl InspectError {
    /// An error without a context.
    pub fn new(message: &str) -> (error: Self)
        ensures
            error@ == plain(message@),
    {
        InspectError { context: None, message: text_of(message) }
    }

    /// The context, if there is one, and the message.
    pub fn text(&self) -> (text: String)
        ensures
            text@ == match self@.context {
                Some(context) => context + ": "@ + self@.message,
                None => self@.message,
            },
    {
        match &self.context {
            Some(context) => {
                let mut text: String = text_of(context.as_str());
                text.append(": ");
                text.append(self.message.as_str());
                text
            },
            None => text_of(self.message.as_str()),
        }
    }
}

/// An error without a context, of words already put together.
pub(crate) fn plain_error(message: String) -> (error: InspectError)
    ensures
        error@ == plain(message@),
{
    InspectError { context: None, message }
}

/// An error of a layer without a context.
pub(crate) fn layer_error(error: Iw44Error) -> (wrapped: InspectError)
    ensures
        wrapped@ == plain(error@),
{
    InspectError { context: None, message: error.0 }
}

/// An error of a layer, and in the course of what it came.
pub(crate) fn layer_error_within(context: String, error: Iw44Error) -> (wrapped: InspectError)
    ensures
        wrapped@ == within(context@, error@),
{
    InspectError { context: Some(context), message: error.0 }
}

/// The name of a plane.
pub open spec fn plane_name(plane: Iw44Plane) -> Seq<char> {
    match plane {
        Iw44Plane::Y => "Y"@,
        Iw44Plane::Cb => "Cb"@,
        Iw44Plane::Cr => "Cr"@,
    }
}

/// The name of a plane.
pub fn iw44_plane_name(plane: Iw44Plane) -> (name: &'static str)
    ensures
        name@ == plane_name(plane),
{
    match plane {
        Iw44Plane::Y => "Y",
        Iw44Plane::Cb => "Cb",
        Iw44Plane::Cr => "Cr",
    }
}

/// What is said of a plane that is not there.
pub open spec fn missing_plane(plane: Iw44Plane, kind: Seq<char>) -> InspectFault {
    plain("missing "@ + plane_name(plane) + kind)
}

/// What is said of a plane that is not there.
pub(crate) fn missing_plane_error(plane: Iw44Plane, kind: &str) -> (error: InspectError)
    ensures
        error@ == missing_plane(plane, kind@),
{
    let mut message: String = text_of("missing ");
    message.append(iw44_plane_name(plane));
    message.append(kind);
    plain_error(message)
}

/// Every plane of an image has an extent.
pub open spec fn sized(model: DecoderModel) -> bool {
    &&& model.image is Some
    &&& model.y.width > 0
    &&& model.y.height > 0
    &&& model.cb is Some ==> model.cb->0.width > 0 && model.cb->0.height > 0
    &&& model.cr is Some ==> model.cr->0.width > 0 && model.cr->0.height > 0
}

/// What is traced of the coefficients round a pixel.
#[derive(Debug, Clone, Copy, Eq, PartialEq, Structural)]
pub enum Iw44PixelTrace {
    Coefficients,
    Slices,
    Events,
    Reconstruction,
}

/// Which pixel of a page is inspected, and how closely.
#[derive(Debug, Clone, Eq, PartialEq)]
pub struct Iw44PixelInspectOptions {
    pub x: u32,
    pub y: u32,
    pub radius: u8,
    pub coefficient_limit: usize,
    pub coefficient_indices: Vec<usize>,
    pub traces: Vec<Iw44PixelTrace>,
}

/// Which pixel of a page is inspected, and how closely, as a value.
#[verifier::ext_equal]
pub struct OptionsModel {
    pub x: u32,
    pub y: u32,
    pub radius: u8,
    pub coefficient_limit: usize,
    pub coefficient_indices: Seq<usize>,
    pub traces: Seq<Iw44PixelTrace>,
}

impl View for Iw44PixelInspectOptions {
    type V = OptionsModel;

    open spec fn view(&self) -> OptionsModel {
        OptionsModel {
            x: self.x,
            y: self.y,
            radius: self.radius,
            coefficient_limit: self.coefficient_limit,
            coefficient_indices: self.coefficient_indices@,
            traces: self.traces@,
        }
    }
}

/// The traces whose flags are set, in their order.
pub open spec fn chosen_traces(flags: Seq<(bool, Iw44PixelTrace)>, count: int) -> Seq<
    Iw44PixelTrace,
>
    decreases count,
{
    if count <= 0 {
        Seq::empty()
    } else if flags[count - 1].0 {
        chosen_traces(flags, count - 1).push(flags[count - 1].1)
    } else {
        chosen_traces(flags, count - 1)
    }
}

/// Options with those traces whose flags are set.
pub fn iw44_pixel_inspect_options(
    x: u32,
    y: u32,
    radius: u8,
    coefficient_indices: Vec<usize>,
    coefficient_limit: usize,
    trace_flags: [(bool, Iw44PixelTrace); 4],
) -> (options: Iw44PixelInspectOptions)
    ensures
        options@ == (OptionsModel {
            x,
            y,
            radius,
            coefficient_limit,
            coefficient_indices: coefficient_indices@,
            traces: chosen_traces(trace_flags@, 4),
        }),
{
    let mut traces: Vec<Iw44PixelTrace> = Vec::new();
    let mut i: usize = 0;
    while i < 4
        invariant
            i <= 4,
            traces@ == chosen_traces(trace_flags@, i as int),
        decreases 4 - i,
    {
        let (chosen, trace) = trace_flags[i];
        if chosen {
            traces.push(trace);
        }
        i = i + 1;
    }
    Iw44PixelInspectOptions { x, y, radius, coefficient_limit, coefficient_indices, traces }
}

/// Whether a trace is asked for.
fn asks_for(traces: &Vec<Iw44PixelTrace>, trace: Iw44PixelTrace) -> (asked: bool)
    ensures
        asked == traces@.contains(trace),
{
    let mut i: usize = 0;
    while i < traces.len()
        invariant
            i <= traces@.len(),
            forall|k: int| 0 <= k < i ==> #[trigger] traces@[k] != trace,
        decreases traces@.len() - i,
    {
        if traces[i] == trace {
            assert(traces@[i as int] == trace);
            return true;
        }
        i = i + 1;
    }
    false
}

/// All that was found at a pixel.
#[derive(Debug, Clone, Eq, PartialEq)]
pub struct Iw44PixelInspection {
    pub role: Iw44LayerRole,
    pub page_x: u32,
    pub page_y: u32,
    pub source_x: usize,
    pub source_y: usize,
    pub rgb: [u8; 3],
    pub computed_rgb: [u8; 3],
    pub y: Iw44PlaneSample,
    pub cb: Option<Iw44PlaneSample>,
    pub cr: Option<Iw44PlaneSample>,
    pub y_neighborhood: Option<Iw44LumaNeighborhood>,
    pub y_coefficients: Option<Iw44CoefficientBlockSummary>,
    pub y_coefficient_trace: Option<Vec<Iw44CoefficientTraceStep>>,
    pub y_coefficient_event_traces: Option<Vec<Iw44CoefficientEventTrace>>,
    pub y_coefficient_reconstruction: Option<Iw44CoefficientReconstructionSummary>,
}

/// What was found round a pixel.
pub struct Iw44OptionalPixelDiagnostics {
    pub neighborhood: Option<Iw44LumaNeighborhood>,
    pub coefficients: Option<Iw44CoefficientBlockSummary>,
    pub coefficient_trace: Option<Vec<Iw44CoefficientTraceStep>>,
    pub coefficient_event_traces: Option<Vec<Iw44CoefficientEventTrace>>,
    pub coefficient_reconstruction: Option<Iw44CoefficientReconstructionSummary>,
}

/// A layer to be inspected.
pub struct Iw44InspectionLayer<'a> {
    pub role: Iw44LayerRole,
    pub payloads: Vec<RenderChunkPayload<'a>>,
    pub geometry: Iw44LayerGeometry,
}

/// A layer to be inspected, as a value.
#[verifier::ext_equal]
pub struct InspectedLayer {
    pub role: Iw44LayerRole,
    pub payloads: Seq<(usize, Seq<u8>)>,
    pub mapping: Iw44PageMapping,
}

/// What was found round a pixel, as a value.
#[verifier::ext_equal]
pub struct DiagnosticsModel {
    pub neighborhood: Option<NeighborhoodModel>,
    pub coefficients: Option<BlockModel>,
    pub coefficient_trace: Option<Seq<StepModel>>,
    pub coefficient_event_traces: Option<Seq<EventTraceModel>>,
    pub coefficient_reconstruction: Option<ReconstructionModel>,
}

/// All that was found at a pixel, as a value.
#[verifier::ext_equal]
pub struct InspectionModel {
    pub role: Iw44LayerRole,
    pub page_x: u32,
    pub page_y: u32,
    pub source_x: usize,
    pub source_y: usize,
    pub rgb: Seq<u8>,
    pub computed_rgb: Seq<u8>,
    pub y: Iw44PlaneSample,
    pub cb: Option<Iw44PlaneSample>,
    pub cr: Option<Iw44PlaneSample>,
    pub around: DiagnosticsModel,
}

impl View for Iw44OptionalPixelDiagnostics {
    type V = DiagnosticsModel;

    open spec fn view(&self) -> DiagnosticsModel {
        DiagnosticsModel {
            neighborhood: match self.neighborhood {
                Some(found) => Some(found@),
                None => None,
            },
            coefficients: match self.coefficients {
                Some(found) => Some(found@),
                None => None,
            },
            coefficient_trace: match self.coefficient_trace {
                Some(found) => Some(steps_view(found@)),
                None => None,
            },
            coefficient_event_traces: match self.coefficient_event_traces {
                Some(found) => Some(traces_view(found@)),
                None => None,
            },
            coefficient_reconstruction: match self.coefficient_reconstruction {
                Some(found) => Some(found@),
                None => None,
            },
        }
    }
}

impl View for Iw44PixelInspection {
    type V = InspectionModel;

    open spec fn view(&self) -> InspectionModel {
        InspectionModel {
            role: self.role,
            page_x: self.page_x,
            page_y: self.page_y,
            source_x: self.source_x,
            source_y: self.source_y,
            rgb: self.rgb@,
            computed_rgb: self.computed_rgb@,
            y: self.y,
            cb: self.cb,
            cr: self.cr,
            around: (Iw44OptionalPixelDiagnostics {
                neighborhood: self.y_neighborhood,
                coefficients: self.y_coefficients,
                coefficient_trace: self.y_coefficient_trace,
                coefficient_event_traces: self.y_coefficient_event_traces,
                coefficient_reconstruction: self.y_coefficient_reconstruction,
            })@,
        }
    }
}

/// The layer of a page that is inspected in a mode, or why there is none.
pub open spec fn inspected_layer(
    plan: PlanModel,
    bytes: Seq<u8>,
    mode: PageRenderMode,
) -> Result<InspectedLayer, InspectFault> {
    if mode is Full || mode is Mask {
        Err(plain("IW44 pixel inspection requires background or foreground mode"@))
    } else {
        let role = if mode is Background {
            Iw44LayerRole::Background
        } else {
            Iw44LayerRole::Foreground
        };
        let payloads = payloads_of(
            plan,
            bytes,
            if mode is Background {
                plan.background_layers
            } else {
                plan.foreground_layers
            },
        );
        match summary_of(payloads) {
            Err(message) => Err(plain(message)),
            Ok(None) => Err(plain(mode_name(mode) + " IW44 layer not found"@)),
            Ok(Some(summary)) => Ok(
                InspectedLayer { role, payloads, mapping: page_mapping_of(plan.info, summary) },
            ),
        }
    }
}

/// The image after the first `count` chunks of a layer, or which of them is wrong.
pub open spec fn decoded_layer(payloads: Seq<(usize, Seq<u8>)>, count: int) -> Result<
    DecoderModel,
    InspectFault,
>
    decreases count,
{
    if count <= 0 {
        Ok(blank_decoder())
    } else {
        match decoded_layer(payloads, count - 1) {
            Err(fault) => Err(fault),
            Ok(model) => match decoded_chunk(model, payloads[count - 1].1, None) {
                Err(message) => Err(within(decode_context(payloads[count - 1].0), message)),
                Ok((_, run)) => Ok(run.model),
            },
        }
    }
}

/// What is said of a pixel beyond its page.
pub open spec fn outside_page(x: u32, y: u32, mapping: Iw44PageMapping) -> InspectFault {
    plain(
        "page pixel x="@ + decimal(x as nat) + " y="@ + decimal(y as nat) + " is outside page "@
            + decimal(mapping.page_width as nat) + "x"@ + decimal(mapping.page_height as nat),
    )
}

/// The block of coefficients, if any of them is asked for.
pub open spec fn optional_block(
    model: DecoderModel,
    sample: Iw44PlaneSample,
    options: OptionsModel,
) -> Result<Option<BlockModel>, InspectFault> {
    if options.coefficient_limit == 0 && options.coefficient_indices.len() == 0 {
        Ok(None)
    } else {
        match block_of(
            model,
            sample,
            options.coefficient_limit as int,
            options.coefficient_indices,
        ) {
            Err(fault) => Err(fault),
            Ok(block) => Ok(Some(block)),
        }
    }
}

/// The values of the listed coefficients over time, if they are asked for.
pub open spec fn optional_trace(
    payloads: Seq<(usize, Seq<u8>)>,
    block: Option<BlockModel>,
    traces: Seq<Iw44PixelTrace>,
) -> Result<Option<Seq<StepModel>>, InspectFault> {
    if !traces.contains(Iw44PixelTrace::Coefficients) {
        Ok(None)
    } else {
        match block {
            None => Err(
                plain("--trace-coefficients requires --coefficients or --coefficient-index"@),
            ),
            Some(block) => match trace_of(
                payloads,
                block.plane,
                block.entries,
                traces.contains(Iw44PixelTrace::Slices),
                payloads.len() as int,
            ) {
                Err(fault) => Err(fault),
                Ok((_, steps)) => Ok(Some(steps)),
            },
        }
    }
}

/// The events at the listed coefficients, if they are asked for.
pub open spec fn optional_events(
    payloads: Seq<(usize, Seq<u8>)>,
    block: Option<BlockModel>,
    traces: Seq<Iw44PixelTrace>,
) -> Result<Option<Seq<EventTraceModel>>, InspectFault> {
    if !traces.contains(Iw44PixelTrace::Events) {
        Ok(None)
    } else {
        match block {
            None => Err(plain("--trace-events requires --coefficients or --coefficient-index"@)),
            Some(block) => match event_traces_of(
                payloads,
                block.plane,
                block_number(block),
                block.entries,
                block.entries.len() as int,
            ) {
                Err(fault) => Err(fault),
                Ok(events) => Ok(Some(events)),
            },
        }
    }
}

/// The effects of the listed coefficients, if they are asked for.
pub open spec fn optional_reconstruction(
    model: DecoderModel,
    block: Option<BlockModel>,
    sample: Iw44PlaneSample,
    traces: Seq<Iw44PixelTrace>,
) -> Result<Option<ReconstructionModel>, InspectFault> {
    if !traces.contains(Iw44PixelTrace::Reconstruction) {
        Ok(None)
    } else {
        match block {
            None => Err(
                plain("--trace-reconstruction requires --coefficients or --coefficient-index"@),
            ),
            Some(block) => match reconstruction_of(model, block, sample) {
                Err(fault) => Err(fault),
                Ok(effects) => Ok(Some(effects)),
            },
        }
    }
}

/// What is asked for round a pixel.
pub open spec fn diagnostics_of(
    layer: InspectedLayer,
    model: DecoderModel,
    sample: Iw44PlaneSample,
    options: OptionsModel,
) -> Result<DiagnosticsModel, InspectFault> {
    match optional_block(model, sample, options) {
        Err(fault) => Err(fault),
        Ok(coefficients) => match optional_trace(layer.payloads, coefficients, options.traces) {
            Err(fault) => Err(fault),
            Ok(coefficient_trace) => match optional_events(
                layer.payloads,
                coefficients,
                options.traces,
            ) {
                Err(fault) => Err(fault),
                Ok(coefficient_event_traces) => match optional_reconstruction(
                    model,
                    coefficients,
                    sample,
                    options.traces,
                ) {
                    Err(fault) => Err(fault),
                    Ok(coefficient_reconstruction) => Ok(
                        DiagnosticsModel {
                            neighborhood: if options.radius == 0 {
                                None
                            } else {
                                Some(
                                    neighborhood_of(
                                        model,
                                        layer.mapping,
                                        options.x as int,
                                        options.y as int,
                                        options.radius as int,
                                    ),
                                )
                            },
                            coefficients,
                            coefficient_trace,
                            coefficient_event_traces,
                            coefficient_reconstruction,
                        },
                    ),
                },
            },
        },
    }
}

/// The sample of a chrominance plane, which a gray image has not.
pub open spec fn chroma_sample(
    model: DecoderModel,
    which: Iw44Plane,
    source_x: int,
    source_y: int,
) -> Result<Option<Iw44PlaneSample>, InspectFault> {
    if model.image->0.grayscale {
        Ok(None)
    } else {
        match sample_of(model, which, source_x, source_y, model.image->0.chroma_half) {
            Err(fault) => Err(fault),
            Ok(sample) => Ok(Some(sample)),
        }
    }
}

/// All that is found at a pixel of a layer that was decoded.
pub open spec fn pixel_of(
    layer: InspectedLayer,
    model: DecoderModel,
    pixels: Seq<u8>,
    options: OptionsModel,
) -> Result<InspectionModel, InspectFault> {
    let x = inspected_coordinate(
        options.x as int,
        layer.mapping.horizontal_overscan as int,
        layer.mapping.subsample as int,
        model.y.width,
    );
    let y = inspected_coordinate(
        options.y as int,
        layer.mapping.vertical_overscan as int,
        layer.mapping.subsample as int,
        model.y.height,
    );
    let first = 3 * (y * model.y.width + x);
    match sample_of(model, Iw44Plane::Y, x, y, false) {
        Err(fault) => Err(fault),
        Ok(luma) => match chroma_sample(model, Iw44Plane::Cb, x, y) {
            Err(fault) => Err(fault),
            Ok(cb) => match chroma_sample(model, Iw44Plane::Cr, x, y) {
                Err(fault) => Err(fault),
                Ok(cr) => match diagnostics_of(layer, model, luma, options) {
                    Err(fault) => Err(fault),
                    Ok(around) => Ok(
                        InspectionModel {
                            role: layer.role,
                            page_x: options.x,
                            page_y: options.y,
                            source_x: x as usize,
                            source_y: y as usize,
                            rgb: pixels.subrange(first, first + 3),
                            computed_rgb: samples_rgb(luma, cb, cr),
                            y: luma,
                            cb,
                            cr,
                            around,
                        },
                    ),
                },
            },
        },
    }
}

/// All that is found at a pixel of a page, or why it cannot be inspected.
pub open spec fn inspection_of(
    plan: PlanModel,
    bytes: Seq<u8>,
    mode: PageRenderMode,
    options: OptionsModel,
) -> Result<InspectionModel, InspectFault> {
    if options.radius > 10 {
        Err(plain("IW44 inspection radius must be 10 or less"@))
    } else {
        match inspected_layer(plan, bytes, mode) {
            Err(fault) => Err(fault),
            Ok(layer) => if options.x >= layer.mapping.page_width || options.y
                >= layer.mapping.page_height {
                Err(outside_page(options.x, options.y, layer.mapping))
            } else {
                match decoded_layer(layer.payloads, layer.payloads.len() as int) {
                    Err(fault) => Err(fault),
                    Ok(model) => match image_pixels(model) {
                        Err(message) => Err(plain(message)),
                        Ok(pixels) => pixel_of(layer, model, pixels, options),
                    },
                }
            },
        }
    }
}

/// The planes of a layer that was decoded have the sizes that its first chunk gave them.
pub proof fn lemma_decoded_layer_is_sized(payloads: Seq<(usize, Seq<u8>)>, count: int)
    requires
        0 < count <= payloads.len(),
        decoded_layer(payloads, count) is Ok,
    ensures
        ({
            let model = decoded_layer(payloads, count)->Ok_0;
            &&& sized(model)
            &&& chunk_header(payloads[0].1) is Ok
            &&& chunk_header(payloads[0].1)->Ok_0.image == model.image
            &&& (model.y.width, model.y.height) == plane_extents(model.image->0, Iw44Plane::Y)
            &&& model.cb is Some ==> (model.cb->0.width, model.cb->0.height) == plane_extents(
                model.image->0,
                Iw44Plane::Cb,
            )
            &&& model.cr is Some ==> (model.cr->0.width, model.cr->0.height) == plane_extents(
                model.image->0,
                Iw44Plane::Cr,
            )
            &&& model.chunks == count
            &&& 0 <= model.slices <= 255 * model.chunks
        }),
    decreases count,
{
    let before = decoded_layer(payloads, count - 1)->Ok_0;
    if count > 1 {
        lemma_decoded_layer_is_sized(payloads, count - 1);
    }
    lemma_chunk_keeps_sizes(before, payloads[count - 1].1, None);
    let (header, _) = decoded_chunk(before, payloads[count - 1].1, None)->Ok_0;
    assert(sized(entered(before, header)));
}

/// The layer of a page that is inspected in a mode.
pub fn iw44_inspection_layer<'a>(
    plan: &PageRenderPlan<'_>,
    bytes: &'a [u8],
    mode: PageRenderMode,
) -> (layer: Result<Iw44InspectionLayer<'a>, InspectError>)
    ensures
        match inspected_layer(plan@, bytes@, mode) {
            Err(fault) => layer is Err && layer->Err_0@ == fault,
            Ok(expected) => {
                &&& layer is Ok
                &&& layer->Ok_0.role == expected.role
                &&& payloads_view(layer->Ok_0.payloads@) == expected.payloads
                &&& layer->Ok_0.geometry.mapping == expected.mapping
                &&& layer->Ok_0.payloads@.len() > 0
            },
        },
{
    let (role, payloads, geometry) = match mode {
        PageRenderMode::Background => (
            Iw44LayerRole::Background,
            plan.background_layer_payloads(bytes),
            plan.background_layer_geometry(bytes),
        ),
        PageRenderMode::Foreground => (
            Iw44LayerRole::Foreground,
            plan.foreground_layer_payloads(bytes),
            plan.foreground_layer_geometry(bytes),
        ),
        _ => {
            return Err(
                InspectError::new(
                    "IW44 pixel inspection requires background or foreground mode",
                ),
            );
        },
    };
    match geometry {
        Err(error) => Err(layer_error(error)),
        Ok(None) => {
            let mut message: String = text_of(mode.as_str());
            message.append(" IW44 layer not found");
            Err(plain_error(message))
        },
        Ok(Some(geometry)) => {
            assert(payloads_view(payloads@).len() == payloads@.len());
            Ok(Iw44InspectionLayer { role, payloads, geometry })
        },
    }
}

proof fn lemma_layer_fault(payloads: Seq<(usize, Seq<u8>)>, count: int, total: int)
    requires
        0 <= count <= total,
        decoded_layer(payloads, count) is Err,
    ensures
        decoded_layer(payloads, total) == decoded_layer(payloads, count),
    decreases total - count,
{
    if count < total {
        lemma_layer_fault(payloads, count, total - 1);
    }
}

/// Decodes the chunks of a layer.
pub fn decode_iw44_payloads(payloads: &Vec<RenderChunkPayload<'_>>) -> (decoder: Result<
    Iw44Decoder,
    InspectError,
>)
    ensures
        match decoded_layer(payloads_view(payloads@), payloads@.len() as int) {
            Err(fault) => decoder is Err && decoder->Err_0@ == fault,
            Ok(model) => decoder is Ok && decoder->Ok_0.wf() && decoder->Ok_0@ == model,
        },
{
    let ghost all = payloads_view(payloads@);
    let mut decoder = Iw44Decoder::new();
    let mut i: usize = 0;
    while i < payloads.len()
        invariant
            i <= payloads@.len(),
            all == payloads_view(payloads@),
            decoder.wf(),
            decoded_layer(all, i as int) == Ok::<_, InspectFault>(decoder@),
        decreases payloads@.len() - i,
    {
        assert(all[i as int] == (payloads@[i as int].index, payloads@[i as int].bytes@));
        match decoder.decode_chunk(payloads[i].bytes) {
            Err(error) => {
                proof {
                    lemma_layer_fault(all, i + 1, payloads@.len() as int);
                }
                return Err(layer_error_within(decode_context_text(payloads[i].index), error));
            },
            Ok(_) => {},
        }
        i = i + 1;
    }
    Ok(decoder)
}

/// The values of the listed coefficients over time, if they are asked for.
fn trace_if_asked(
    payloads: &Vec<RenderChunkPayload<'_>>,
    coefficients: &Option<Iw44CoefficientBlockSummary>,
    traces: &Vec<Iw44PixelTrace>,
    Ghost(block): Ghost<Option<BlockModel>>,
    Ghost(height): Ghost<int>,
) -> (trace: Result<Option<Vec<Iw44CoefficientTraceStep>>, InspectError>)
    requires
        (block is Some) == (coefficients is Some),
        coefficients is Some ==> {
            let summary = coefficients->0;
            &&& summary@ == block->0
            &&& summary.plane_width <= 0xffff
            &&& height <= 0xffff
            &&& summary.block_x % 32 == 0
            &&& summary.block_y % 32 == 0
            &&& layer_extents(
                payloads_view(payloads@),
                summary.plane,
                summary.plane_width as int,
                height,
            )
            &&& entries_placed(
                summary.entries@,
                summary.plane_width as int,
                height,
                summary.block_x as int,
                summary.block_y as int,
            )
        },
    ensures
        match optional_trace(payloads_view(payloads@), block, traces@) {
            Err(fault) => trace is Err && trace->Err_0@ == fault,
            Ok(None) => trace is Ok && trace->Ok_0 is None,
            Ok(Some(steps)) => trace is Ok && trace->Ok_0 is Some && steps_view(trace->Ok_0->0@)
                == steps,
        },
{
    if !asks_for(traces, Iw44PixelTrace::Coefficients) {
        return Ok(None);
    }
    match coefficients {
        None => Err(
            InspectError::new(
                "--trace-coefficients requires --coefficients or --coefficient-index",
            ),
        ),
        Some(summary) => match iw44_coefficient_trace(
            payloads,
            summary.plane,
            summary.plane_width,
            &summary.entries,
            asks_for(traces, Iw44PixelTrace::Slices),
            Ghost(height),
            Ghost((summary.block_x as int, summary.block_y as int)),
        ) {
            Err(error) => Err(error),
            Ok(steps) => Ok(Some(steps)),
        },
    }
}

/// The events at the listed coefficients, if they are asked for.
fn events_if_asked(
    payloads: &Vec<RenderChunkPayload<'_>>,
    coefficients: &Option<Iw44CoefficientBlockSummary>,
    traces: &Vec<Iw44PixelTrace>,
    Ghost(block): Ghost<Option<BlockModel>>,
) -> (events: Result<Option<Vec<Iw44CoefficientEventTrace>>, InspectError>)
    requires
        (block is Some) == (coefficients is Some),
        coefficients is Some ==> {
            let summary = coefficients->0;
            &&& summary@ == block->0
            &&& summary.plane_width <= 0xffff
            &&& summary.block_col <= 0xffff
            &&& summary.block_row <= 0xffff
        },
    ensures
        match optional_events(payloads_view(payloads@), block, traces@) {
            Err(fault) => events is Err && events->Err_0@ == fault,
            Ok(None) => events is Ok && events->Ok_0 is None,
            Ok(Some(expected)) => events is Ok && events->Ok_0 is Some && traces_view(
                events->Ok_0->0@,
            ) == expected,
        },
{
    if !asks_for(traces, Iw44PixelTrace::Events) {
        return Ok(None);
    }
    match coefficients {
        None => Err(
            InspectError::new("--trace-events requires --coefficients or --coefficient-index"),
        ),
        Some(summary) => match iw44_coefficient_event_traces(
            payloads,
            summary.plane,
            block_number_of(summary),
            &summary.entries,
        ) {
            Err(error) => Err(error),
            Ok(events) => Ok(Some(events)),
        },
    }
}

/// The effects of the listed coefficients, if they are asked for.
fn reconstruction_if_asked(
    decoder: &Iw44Decoder,
    coefficients: &Option<Iw44CoefficientBlockSummary>,
    sample: Iw44PlaneSample,
    traces: &Vec<Iw44PixelTrace>,
    Ghost(block): Ghost<Option<BlockModel>>,
) -> (effects: Result<Option<Iw44CoefficientReconstructionSummary>, InspectError>)
    requires
        decoder.wf(),
        decoder@.image is Some,
        (block is Some) == (coefficients is Some),
        coefficients is Some ==> {
            let summary = coefficients->0;
            &&& summary@ == block->0
            &&& sample_placed(decoder@, summary.plane, sample)
            &&& summary.plane_width <= 0xffff
            &&& summary.block_x <= 0xffff
            &&& summary.block_y <= 0xffff
            &&& summary.block_col <= 0xffff
            &&& summary.block_row <= 0xffff
        },
    ensures
        match optional_reconstruction(decoder@, block, sample, traces@) {
            Err(fault) => effects is Err && effects->Err_0@ == fault,
            Ok(None) => effects is Ok && effects->Ok_0 is None,
            Ok(Some(expected)) => effects is Ok && effects->Ok_0 is Some && effects->Ok_0->0@
                == expected,
        },
{
    if !asks_for(traces, Iw44PixelTrace::Reconstruction) {
        return Ok(None);
    }
    match coefficients {
        None => Err(
            InspectError::new(
                "--trace-reconstruction requires --coefficients or --coefficient-index",
            ),
        ),
        Some(summary) => match iw44_coefficient_reconstruction_trace(decoder, summary, sample) {
            Err(error) => Err(error),
            Ok(effects) => Ok(Some(effects)),
        },
    }
}

/// What is asked for round a pixel.
fn iw44_optional_pixel_diagnostics(
    layer: &Iw44InspectionLayer<'_>,
    decoder: &Iw44Decoder,
    planes: &Vec<Iw44ReconstructionPlane>,
    image: &Iw44RgbImage,
    y_sample: Iw44PlaneSample,
    options: &Iw44PixelInspectOptions,
    Ghost(expected): Ghost<InspectedLayer>,
) -> (diagnostics: Result<Iw44OptionalPixelDiagnostics, InspectError>)
    requires
        decoder.wf(),
        sized(decoder@),
        planes_show(
            planes@,
            decoder@,
            Iw44ReconstructionOrder::ColumnsThenRows,
            Iw44ReconstructionExtent::Visible,
        ),
        image.width == decoder@.y.width,
        image.height == decoder@.y.height,
        payloads_view(layer.payloads@) == expected.payloads,
        layer.geometry.mapping == expected.mapping,
        options.x < expected.mapping.page_width,
        options.y < expected.mapping.page_height,
        y_sample.plane == Iw44Plane::Y,
        sample_placed(decoder@, Iw44Plane::Y, y_sample),
        layer_extents(
            expected.payloads,
            Iw44Plane::Y,
            decoder@.y.width,
            decoder@.y.height,
        ),
    ensures
        match diagnostics_of(expected, decoder@, y_sample, options@) {
            Err(fault) => diagnostics is Err && diagnostics->Err_0@ == fault,
            Ok(found) => diagnostics is Ok && diagnostics->Ok_0@ == found,
        },
{
    let neighborhood = if options.radius == 0 {
        None
    } else {
        match iw44_luma_neighborhood(
            planes,
            &layer.geometry.mapping,
            image.width,
            image.height,
            options.x,
            options.y,
            options.radius,
            Ghost(decoder@),
        ) {
            Err(error) => {
                return Err(error);
            },
            Ok(around) => Some(around),
        }
    };
    let ghost listed = optional_block(decoder@, y_sample, options@);
    let coefficients = if options.coefficient_limit == 0 && options.coefficient_indices.len()
        == 0 {
        None
    } else {
        match iw44_coefficient_block_summary(
            decoder,
            y_sample,
            options.coefficient_limit,
            options.coefficient_indices.as_slice(),
        ) {
            Err(error) => {
                return Err(error);
            },
            Ok(summary) => Some(summary),
        }
    };
    let ghost block = listed->Ok_0;
    assert(listed is Ok);
    let coefficient_trace = match trace_if_asked(
        &layer.payloads,
        &coefficients,
        &options.traces,
        Ghost(block),
        Ghost(decoder@.y.height),
    ) {
        Err(error) => {
            return Err(error);
        },
        Ok(trace) => trace,
    };
    let coefficient_event_traces = match events_if_asked(
        &layer.payloads,
        &coefficients,
        &options.traces,
        Ghost(block),
    ) {
        Err(error) => {
            return Err(error);
        },
        Ok(events) => events,
    };
    let coefficient_reconstruction = match reconstruction_if_asked(
        decoder,
        &coefficients,
        y_sample,
        &options.traces,
        Ghost(block),
    ) {
        Err(error) => {
            return Err(error);
        },
        Ok(effects) => effects,
    };
    Ok(
        Iw44OptionalPixelDiagnostics {
            neighborhood,
            coefficients,
            coefficient_trace,
            coefficient_event_traces,
            coefficient_reconstruction,
        },
    )
}

/// The error on a pixel beyond its page.
fn outside_page_error(x: u32, y: u32, mapping: &Iw44PageMapping) -> (error: InspectError)
    ensures
        error@ == outside_page(x, y, *mapping),
{
    let mut message: String = text_of("page pixel x=");
    push_decimal(&mut message, x as u64);
    message.append(" y=");
    push_decimal(&mut message, y as u64);
    message.append(" is outside page ");
    push_decimal(&mut message, mapping.page_width as u64);
    message.append("x");
    push_decimal(&mut message, mapping.page_height as u64);
    plain_error(message)
}

/// The sample of a chrominance plane, which a gray image has not.
fn iw44_chroma_sample(
    decoder: &Iw44Decoder,
    planes: &Vec<Iw44ReconstructionPlane>,
    plane: Iw44Plane,
    grayscale: bool,
    chroma_half: bool,
    source_x: usize,
    source_y: usize,
) -> (sample: Result<Option<Iw44PlaneSample>, InspectError>)
    requires
        sized(decoder@),
        planes_show(
            planes@,
            decoder@,
            Iw44ReconstructionOrder::ColumnsThenRows,
            Iw44ReconstructionExtent::Visible,
        ),
        decoder@.image->0.grayscale == grayscale,
        decoder@.image->0.chroma_half == chroma_half,
    ensures
        match chroma_sample(decoder@, plane, source_x as int, source_y as int) {
            Err(fault) => sample is Err && sample->Err_0@ == fault,
            Ok(expected) => {
                &&& sample is Ok
                &&& sample->Ok_0 == expected
                &&& (expected is Some) == !grayscale
                &&& expected is Some ==> -128 <= expected->0.normalized <= 127
            },
        },
{
    if grayscale {
        return Ok(None);
    }
    match iw44_plane_sample(planes, plane, source_x, source_y, chroma_half, Ghost(decoder@)) {
        Err(error) => Err(error),
        Ok(sample) => Ok(Some(sample)),
    }
}

/// Inspects a pixel of a layer that was decoded.
fn inspect_decoded_pixel(
    layer: &Iw44InspectionLayer<'_>,
    decoder: &Iw44Decoder,
    image: &Iw44RgbImage,
    options: &Iw44PixelInspectOptions,
    Ghost(expected): Ghost<InspectedLayer>,
) -> (inspection: Result<Iw44PixelInspection, InspectError>)
    requires
        decoder.wf(),
        sized(decoder@),
        image_pixels(decoder@) == Ok::<_, Seq<char>>(image.pixels@),
        image.width == decoder@.y.width,
        image.height == decoder@.y.height,
        layer.role == expected.role,
        payloads_view(layer.payloads@) == expected.payloads,
        layer.geometry.mapping == expected.mapping,
        options.x < expected.mapping.page_width,
        options.y < expected.mapping.page_height,
        layer_extents(
            expected.payloads,
            Iw44Plane::Y,
            decoder@.y.width,
            decoder@.y.height,
        ),
    ensures
        match pixel_of(expected, decoder@, image.pixels@, options@) {
            Err(fault) => inspection is Err && inspection->Err_0@ == fault,
            Ok(found) => inspection is Ok && inspection->Ok_0@ == found,
        },
{
    let header = match decoder.image() {
        Some(header) => header,
        None => {
            return Err(InspectError::new("IW44 decoder did not produce image metadata"));
        },
    };
    let planes = decoder.reconstruct_planes();
    let source_x = iw44_inspected_coordinate(
        options.x,
        layer.geometry.mapping.horizontal_overscan,
        layer.geometry.mapping.subsample,
        image.width,
    );
    let source_y = iw44_inspected_coordinate(
        options.y,
        layer.geometry.mapping.vertical_overscan,
        layer.geometry.mapping.subsample,
        image.height,
    );
    proof {
        lemma_pixel_index(
            image.width as int,
            image.height as int,
            source_x as int,
            source_y as int,
        );
    }
    assert(image.pixels@.len() == 3 * (image.width * image.height));
    assert(image.pixels@.len() == image.pixels.len());
    let first: usize = 3 * (source_y * image.width + source_x);
    let rgb: [u8; 3] = [image.pixels[first], image.pixels[first + 1], image.pixels[first + 2]];
    assert(rgb@ =~= image.pixels@.subrange(first as int, first + 3));
    let y_sample = match iw44_plane_sample(
        &planes,
        Iw44Plane::Y,
        source_x,
        source_y,
        false,
        Ghost(decoder@),
    ) {
        Err(error) => {
            return Err(error);
        },
        Ok(sample) => sample,
    };
    let cb = match iw44_chroma_sample(
        decoder,
        &planes,
        Iw44Plane::Cb,
        header.grayscale,
        header.chroma_half,
        source_x,
        source_y,
    ) {
        Err(error) => {
            return Err(error);
        },
        Ok(sample) => sample,
    };
    let cr = match iw44_chroma_sample(
        decoder,
        &planes,
        Iw44Plane::Cr,
        header.grayscale,
        header.chroma_half,
        source_x,
        source_y,
    ) {
        Err(error) => {
            return Err(error);
        },
        Ok(sample) => sample,
    };
    let computed_rgb = iw44_samples_to_rgb(y_sample, cb, cr);
    let diagnostics = match iw44_optional_pixel_diagnostics(
        layer,
        decoder,
        &planes,
        image,
        y_sample,
        options,
        Ghost(expected),
    ) {
        Err(error) => {
            return Err(error);
        },
        Ok(diagnostics) => diagnostics,
    };
    Ok(
        Iw44PixelInspection {
            role: layer.role,
            page_x: options.x,
            page_y: options.y,
            source_x,
            source_y,
            rgb,
            computed_rgb,
            y: y_sample,
            cb,
            cr,
            y_neighborhood: diagnostics.neighborhood,
            y_coefficients: diagnostics.coefficients,
            y_coefficient_trace: diagnostics.coefficient_trace,
            y_coefficient_event_traces: diagnostics.coefficient_event_traces,
            y_coefficient_reconstruction: diagnostics.coefficient_reconstruction,
        },
    )
}

/// Inspects a pixel of a page: maps it to a pixel of its background or foreground layer,
/// and shows the samples that this is made of, and what is asked for besides.
pub fn inspect_iw44_pixel(
    plan: &PageRenderPlan<'_>,
    bytes: &[u8],
    mode: PageRenderMode,
    options: &Iw44PixelInspectOptions,
) -> (inspection: Result<Iw44PixelInspection, InspectError>)
    ensures
        match inspection_of(plan@, bytes@, mode, options@) {
            Err(fault) => inspection is Err && inspection->Err_0@ == fault,
            Ok(found) => inspection is Ok && inspection->Ok_0@ == found,
        },
{
    if options.radius > 10 {
        return Err(InspectError::new("IW44 inspection radius must be 10 or less"));
    }
    let layer = match iw44_inspection_layer(plan, bytes, mode) {
        Err(error) => {
            return Err(error);
        },
        Ok(layer) => layer,
    };
    let ghost expected = inspected_layer(plan@, bytes@, mode)->Ok_0;
    if options.x >= layer.geometry.mapping.page_width || options.y
        >= layer.geometry.mapping.page_height {
        return Err(outside_page_error(options.x, options.y, &layer.geometry.mapping));
    }
    let decoder = match decode_iw44_payloads(&layer.payloads) {
        Err(error) => {
            return Err(error);
        },
        Ok(decoder) => decoder,
    };
    proof {
        lemma_decoded_layer_is_sized(expected.payloads, expected.payloads.len() as int);
    }
    let image = match decoder.to_rgb_image() {
        Err(error) => {
            return Err(layer_error(error));
        },
        Ok(image) => image,
    };
    inspect_decoded_pixel(&layer, &decoder, &image, options, Ghost(expected))
}

} // verus!
