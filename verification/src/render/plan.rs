//! What of a page is rendered, and how.

use crate::document::{resolved_view, ResolvedModel, ResolvedPageChunk};
use crate::info::PageInfo;
use crate::iw44::decoder::{blank_decoder, decoded_chunk, image_pixels, DecoderModel};
use crate::iw44::header::{
    layer_summary, mapping_of, Iw44LayerSummary, Iw44PageMapping, SummaryModel,
};
use crate::iw44::Iw44RgbImage;
use crate::jb2::decoder::{jb2_header, jb2_start};
use crate::jb2::symbol::Symbol;
use crate::jb2::{
    jb2_dictionary, jb2_prefix, jb2_render, jb2_render_all, shows, Jb2ImageHeader, Jb2PartialImage,
    Jb2RecordKind, Jb2RecordPrefix, Jb2RecordSummary, RenderEnd, Rendering,
};
use crate::page::PageChunkKind;
use crate::render::bitmap::{
    painted_layer, painted_mask, painted_through, uniform, BitmapModel, PageBitmap,
};
use crate::render::layer::{image_of, layer_matches, Image};
use crate::render::RenderError;
use crate::text::{debug_text, decimal, quoted, same_text, text_of};
use std::str::FromStr;
use vstd::prelude::*;

verus! {

/// The chunks of a page, by what they are for: each list holds indices into `chunks`.
#[derive(Debug, Clone)]
pub struct PageRenderPlan<'a> {
    pub info: PageInfo,
    pub chunks: Vec<ResolvedPageChunk<'a>>,
    pub bitonal_dictionaries: Vec<usize>,
    pub bitonal_images: Vec<usize>,
    pub foreground_layers: Vec<usize>,
    pub background_layers: Vec<usize>,
    pub text_chunks: Vec<usize>,
    pub unknown_chunks: Vec<usize>,
}

/// The data of a chunk.
#[derive(Debug, Clone, Copy, Eq, PartialEq)]
pub struct RenderChunkPayload<'a> {
    pub index: usize,
    pub bytes: &'a [u8],
}

/// The header of a bitonal image.
#[derive(Debug, Clone, Copy, Eq, PartialEq, Structural)]
pub struct BitonalImageHeader {
    pub index: usize,
    pub header: Jb2ImageHeader,
}

/// The headers of a layer, and how it lies on its page.
#[derive(Debug, Clone, Eq, PartialEq)]
pub struct Iw44LayerGeometry {
    pub summary: Iw44LayerSummary,
    pub mapping: Iw44PageMapping,
}

/// Whether a layer lies behind the masks or shows through them.
#[derive(Debug, Clone, Copy, Eq, PartialEq, Structural)]
pub enum Iw44LayerRole {
    Foreground,
    Background,
}

/// What of a page is shown.
#[derive(Debug, Clone, Copy, Eq, PartialEq, Structural)]
pub enum PageRenderMode {
    Full,
    Background,
    Foreground,
    Mask,
}

/// A layer that was decoded.
#[derive(Debug, Clone, Eq, PartialEq)]
pub struct RenderedIw44Layer {
    pub role: Iw44LayerRole,
    pub chunk_indices: Vec<usize>,
    pub geometry: Iw44LayerGeometry,
    pub image: Iw44RgbImage,
}

/// A page that was rendered, with the layers and masks that it was made of.
#[derive(Debug, Clone, Eq, PartialEq)]
pub struct PartialPageRender {
    pub bitmap: PageBitmap,
    pub iw44_layers: Vec<RenderedIw44Layer>,
    pub bitonal_masks: Vec<(usize, Jb2PartialImage)>,
}

/// A plan by its values.
#[verifier::ext_equal]
pub struct PlanModel {
    pub info: PageInfo,
    pub chunks: Seq<ResolvedModel>,
    pub bitonal_dictionaries: Seq<usize>,
    pub bitonal_images: Seq<usize>,
    pub foreground_layers: Seq<usize>,
    pub background_layers: Seq<usize>,
    pub text_chunks: Seq<usize>,
    pub unknown_chunks: Seq<usize>,
}

/// A layer that was decoded, by its values.
#[verifier::ext_equal]
pub struct LayerModel {
    pub role: Iw44LayerRole,
    pub chunk_indices: Seq<usize>,
    pub summary: SummaryModel,
    pub mapping: Iw44PageMapping,
    pub image: Image,
}

/// A bitonal image that was decoded: its header, what was painted, and where that ended.
pub type MaskModel = (Jb2ImageHeader, Rendering, RenderEnd);

/// A page that was rendered, by its values.
#[verifier::ext_equal]
pub struct RenderModel {
    pub bitmap: BitmapModel,
    pub layers: Seq<LayerModel>,
    pub masks: Seq<(usize, MaskModel)>,
}

impl<'a> View for PageRenderPlan<'a> {
    type V = PlanModel;

    open spec fn view(&self) -> PlanModel {
        PlanModel {
            info: self.info,
            chunks: resolved_view(self.chunks@),
            bitonal_dictionaries: self.bitonal_dictionaries@,
            bitonal_images: self.bitonal_images@,
            foreground_layers: self.foreground_layers@,
            background_layers: self.background_layers@,
            text_chunks: self.text_chunks@,
            unknown_chunks: self.unknown_chunks@,
        }
    }
}

impl View for RenderedIw44Layer {
    type V = LayerModel;

    open spec fn view(&self) -> LayerModel {
        LayerModel {
            role: self.role,
            chunk_indices: self.chunk_indices@,
            summary: self.geometry.summary@,
            mapping: self.geometry.mapping,
            image: image_of(self.image),
        }
    }
}

/// The payloads of a list by their values.
pub open spec fn payloads_view(payloads: Seq<RenderChunkPayload<'_>>) -> Seq<(usize, Seq<u8>)> {
    Seq::new(payloads.len(), |i: int| (payloads[i].index, payloads[i].bytes@))
}

/// The layers of a list by their values.
pub open spec fn layers_view(layers: Seq<RenderedIw44Layer>) -> Seq<LayerModel> {
    Seq::new(layers.len(), |i: int| layers[i]@)
}

/// Whether a bitonal image has the given values.
pub open spec fn mask_shows(image: Jb2PartialImage, model: MaskModel) -> bool {
    shows(Ok(image), Ok(model))
}

/// Whether bitonal images have the given values.
pub open spec fn masks_show(
    masks: Seq<(usize, Jb2PartialImage)>,
    models: Seq<(usize, MaskModel)>,
) -> bool {
    &&& masks.len() == models.len()
    &&& forall|i: int|
        0 <= i < masks.len() ==> (#[trigger] masks[i]).0 == models[i].0 && mask_shows(
            masks[i].1,
            models[i].1,
        )
}

/// Whether a page that was rendered has the given values.
pub open spec fn render_shows(render: PartialPageRender, model: RenderModel) -> bool {
    &&& render.bitmap.wf()
    &&& render.bitmap@ == model.bitmap
    &&& layers_view(render.iw44_layers@) == model.layers
    &&& masks_show(render.bitonal_masks@, model.masks)
}

/// Whether the outcome of rendering is the given one.
pub open spec fn render_agrees(
    result: Result<PartialPageRender, RenderError>,
    expected: Result<RenderModel, Seq<char>>,
) -> bool {
    match expected {
        Ok(model) => result is Ok && render_shows(result->Ok_0, model),
        Err(message) => result is Err && result->Err_0@ == message,
    }
}

/// What a chunk of a page contributes to.
pub enum ChunkUse {
    Dictionary,
    Mask,
    Foreground,
    Background,
    Text,
    Unknown,
    Nothing,
}

/// What a chunk of the given kind contributes to.
pub open spec fn chunk_use(kind: PageChunkKind) -> ChunkUse {
    match kind {
        PageChunkKind::Djbz => ChunkUse::Dictionary,
        PageChunkKind::Sjbz => ChunkUse::Mask,
        PageChunkKind::Fg44 => ChunkUse::Foreground,
        PageChunkKind::Bg44 => ChunkUse::Background,
        PageChunkKind::Txta | PageChunkKind::Txtz => ChunkUse::Text,
        PageChunkKind::Unknown => ChunkUse::Unknown,
        PageChunkKind::Info | PageChunkKind::Include => ChunkUse::Nothing,
    }
}

/// The indices of the first `count` chunks that contribute to something, in order.
pub open spec fn indices_for(chunks: Seq<ResolvedModel>, purpose: ChunkUse, count: int) -> Seq<
    usize,
>
    decreases count,
{
    if count <= 0 {
        Seq::empty()
    } else {
        let before = indices_for(chunks, purpose, count - 1);
        if chunk_use(chunks[count - 1].chunk.kind) == purpose {
            before.push((count - 1) as usize)
        } else {
            before
        }
    }
}

/// The plan of a page with the given information and chunks.
pub open spec fn plan_of(info: PageInfo, chunks: Seq<ResolvedModel>) -> PlanModel {
    let n = chunks.len() as int;
    PlanModel {
        info,
        chunks,
        bitonal_dictionaries: indices_for(chunks, ChunkUse::Dictionary, n),
        bitonal_images: indices_for(chunks, ChunkUse::Mask, n),
        foreground_layers: indices_for(chunks, ChunkUse::Foreground, n),
        background_layers: indices_for(chunks, ChunkUse::Background, n),
        text_chunks: indices_for(chunks, ChunkUse::Text, n),
        unknown_chunks: indices_for(chunks, ChunkUse::Unknown, n),
    }
}

/// The data of a chunk, if it lies within the file.
pub open spec fn chunk_data(bytes: Seq<u8>, chunks: Seq<ResolvedModel>, index: int) -> Option<
    Seq<u8>,
> {
    if 0 <= index < chunks.len() && chunks[index].chunk.chunk.data_start
        <= chunks[index].chunk.chunk.data_end <= bytes.len() {
        Some(
            bytes.subrange(
                chunks[index].chunk.chunk.data_start as int,
                chunks[index].chunk.chunk.data_end as int,
            ),
        )
    } else {
        None
    }
}

/// The data of the first `count` chunks of a list, without those outside the file.
pub open spec fn payloads_at(
    bytes: Seq<u8>,
    chunks: Seq<ResolvedModel>,
    indices: Seq<usize>,
    count: int,
) -> Seq<(usize, Seq<u8>)>
    decreases count,
{
    if count <= 0 {
        Seq::empty()
    } else {
        let before = payloads_at(bytes, chunks, indices, count - 1);
        match chunk_data(bytes, chunks, indices[count - 1] as int) {
            Some(data) => before.push((indices[count - 1], data)),
            None => before,
        }
    }
}

/// The data of the chunks of a list, without those outside the file.
pub open spec fn payloads_of(plan: PlanModel, bytes: Seq<u8>, indices: Seq<usize>) -> Seq<
    (usize, Seq<u8>),
> {
    payloads_at(bytes, plan.chunks, indices, indices.len() as int)
}

/// The data alone.
pub open spec fn data_of(payloads: Seq<(usize, Seq<u8>)>) -> Seq<Seq<u8>> {
    Seq::new(payloads.len(), |i: int| payloads[i].1)
}

/// The headers of a layer, if it has chunks; or why they are wrong.
pub open spec fn summary_of(payloads: Seq<(usize, Seq<u8>)>) -> Result<
    Option<SummaryModel>,
    Seq<char>,
> {
    if payloads.len() == 0 {
        Ok(None)
    } else {
        match layer_summary(data_of(payloads)) {
            Err(message) => Err(message),
            Ok(summary) => Ok(Some(summary)),
        }
    }
}

/// How a layer lies on a page.
pub open spec fn page_mapping_of(info: PageInfo, summary: SummaryModel) -> Iw44PageMapping {
    mapping_of(summary.image, info.width as u32, info.height as u32)
}

/// A decoder after the first `count` chunks of a layer, or why one of them is wrong.
pub open spec fn decode_all(chunks: Seq<Seq<u8>>, count: int) -> Result<DecoderModel, Seq<char>>
    decreases count,
{
    if count <= 0 {
        Ok(blank_decoder())
    } else {
        match decode_all(chunks, count - 1) {
            Err(message) => Err(message),
            Ok(decoder) => match decoded_chunk(decoder, chunks[count - 1], None) {
                Err(message) => Err(message),
                Ok((_, run)) => Ok(run.model),
            },
        }
    }
}

/// The image of a layer, or why it has none.
pub open spec fn layer_image(chunks: Seq<Seq<u8>>) -> Result<Image, Seq<char>> {
    match decode_all(chunks, chunks.len() as int) {
        Err(message) => Err(message),
        Ok(decoder) => match image_pixels(decoder) {
            Err(message) => Err(message),
            Ok(pixels) => Ok(
                Image { width: decoder.y.width, height: decoder.y.height, pixels },
            ),
        },
    }
}

/// A layer of a page, if it has chunks; or why it cannot be decoded.
pub open spec fn layer_of(
    info: PageInfo,
    payloads: Seq<(usize, Seq<u8>)>,
    role: Iw44LayerRole,
) -> Result<Option<LayerModel>, Seq<char>> {
    match summary_of(payloads) {
        Err(message) => Err(message),
        Ok(None) => Ok(None),
        Ok(Some(summary)) => match layer_image(data_of(payloads)) {
            Err(message) => Err(message),
            Ok(image) => Ok(
                Some(
                    LayerModel {
                        role,
                        chunk_indices: Seq::new(payloads.len(), |i: int| payloads[i].0),
                        summary,
                        mapping: page_mapping_of(info, summary),
                        image,
                    },
                ),
            ),
        },
    }
}

/// The foreground layer of a plan.
pub open spec fn foreground_of(plan: PlanModel, bytes: Seq<u8>) -> Result<
    Option<LayerModel>,
    Seq<char>,
> {
    layer_of(
        plan.info,
        payloads_of(plan, bytes, plan.foreground_layers),
        Iw44LayerRole::Foreground,
    )
}

/// The background layer of a plan.
pub open spec fn background_of(plan: PlanModel, bytes: Seq<u8>) -> Result<
    Option<LayerModel>,
    Seq<char>,
> {
    layer_of(
        plan.info,
        payloads_of(plan, bytes, plan.background_layers),
        Iw44LayerRole::Background,
    )
}

/// The last of the first `count` dictionaries, if there is one; or why one of them cannot
/// be decoded.
pub open spec fn dictionary_of(payloads: Seq<(usize, Seq<u8>)>, count: int) -> Result<
    Option<Seq<Symbol>>,
    Seq<char>,
>
    decreases count,
{
    if count <= 0 {
        Ok(None)
    } else {
        match dictionary_of(payloads, count - 1) {
            Err(message) => Err(message),
            Ok(_) => match jb2_dictionary(payloads[count - 1].1, None) {
                Err(message) => Err(message),
                Ok(symbols) => Ok(Some(symbols)),
            },
        }
    }
}

/// The first `count` bitonal images, or why one of them cannot be decoded.
pub open spec fn images_of(
    payloads: Seq<(usize, Seq<u8>)>,
    dictionary: Option<Seq<Symbol>>,
    count: int,
) -> Result<Seq<(usize, MaskModel)>, Seq<char>>
    decreases count,
{
    if count <= 0 {
        Ok(Seq::empty())
    } else {
        match images_of(payloads, dictionary, count - 1) {
            Err(message) => Err(message),
            Ok(before) => match jb2_render_all(payloads[count - 1].1, dictionary) {
                Err(message) => Err(message),
                Ok(image) => Ok(before.push((payloads[count - 1].0, image))),
            },
        }
    }
}

/// The bitonal images of a plan, or why one of them cannot be decoded.
pub open spec fn masks_of(plan: PlanModel, bytes: Seq<u8>) -> Result<
    Seq<(usize, MaskModel)>,
    Seq<char>,
> {
    let dictionaries = payloads_of(plan, bytes, plan.bitonal_dictionaries);
    let images = payloads_of(plan, bytes, plan.bitonal_images);
    match dictionary_of(dictionaries, dictionaries.len() as int) {
        Err(message) => Err(message),
        Ok(dictionary) => images_of(images, dictionary, images.len() as int),
    }
}

/// The headers of the first `count` bitonal images, or why one of them is wrong.
pub open spec fn headers_of(payloads: Seq<(usize, Seq<u8>)>, count: int) -> Result<
    Seq<BitonalImageHeader>,
    Seq<char>,
>
    decreases count,
{
    if count <= 0 {
        Ok(Seq::empty())
    } else {
        let (index, data) = payloads[count - 1];
        match headers_of(payloads, count - 1) {
            Err(message) => Err(message),
            Ok(before) => if data.len() < 2 {
                Err("JB2 input is too short"@)
            } else {
                match jb2_header(jb2_start(data)).1 {
                    Err(message) => Err(message),
                    Ok(header) => Ok(before.push(BitonalImageHeader { index, header })),
                }
            },
        }
    }
}

/// What is found at the start of a bitonal image: its header, its first records, and
/// before which record reading stopped.
pub type PrefixModel = (Jb2ImageHeader, Seq<Jb2RecordSummary>, Option<Jb2RecordKind>);

/// The first records of the first `count` bitonal images, or why one of them is wrong.
pub open spec fn prefixes_of(payloads: Seq<(usize, Seq<u8>)>, limit: int, count: int) -> Result<
    Seq<(usize, PrefixModel)>,
    Seq<char>,
>
    decreases count,
{
    if count <= 0 {
        Ok(Seq::empty())
    } else {
        match prefixes_of(payloads, limit, count - 1) {
            Err(message) => Err(message),
            Ok(before) => match jb2_prefix(payloads[count - 1].1, limit) {
                Err(message) => Err(message),
                Ok(prefix) => Ok(before.push((payloads[count - 1].0, prefix))),
            },
        }
    }
}

/// Whether the first records of bitonal images are the given ones.
pub open spec fn prefixes_show(
    prefixes: Seq<(usize, Jb2RecordPrefix)>,
    models: Seq<(usize, PrefixModel)>,
) -> bool {
    &&& prefixes.len() == models.len()
    &&& forall|i: int|
        0 <= i < prefixes.len() ==> {
            &&& (#[trigger] prefixes[i]).0 == models[i].0
            &&& prefixes[i].1.header == models[i].1.0
            &&& prefixes[i].1.records@ == models[i].1.1
            &&& prefixes[i].1.stopped_before == models[i].1.2
        }
}

/// What the first records of the first `count` bitonal images paint, or why one of them is
/// wrong.
pub open spec fn partial_masks_of(
    payloads: Seq<(usize, Seq<u8>)>,
    limit: int,
    count: int,
) -> Result<Seq<(usize, MaskModel)>, Seq<char>>
    decreases count,
{
    if count <= 0 {
        Ok(Seq::empty())
    } else {
        match partial_masks_of(payloads, limit, count - 1) {
            Err(message) => Err(message),
            Ok(before) => match jb2_render(payloads[count - 1].1, limit, None) {
                Err(message) => Err(message),
                Ok(image) => Ok(before.push((payloads[count - 1].0, image))),
            },
        }
    }
}

/// What is said of a page that has too many pixels.
pub open spec fn too_many_pixels(info: PageInfo) -> Seq<char> {
    "page "@ + decimal(info.width as nat) + "x"@ + decimal(info.height as nat)
        + " exceeds the address range"@
}

/// The white bitmap of a page, or why there is none.
pub open spec fn base_of(info: PageInfo) -> Result<BitmapModel, Seq<char>> {
    if 3 * (info.width * info.height) > usize::MAX {
        Err(too_many_pixels(info))
    } else {
        Ok(
            uniform(
                info.width as u32,
                info.height as u32,
                info.dpi,
                seq![255u8, 255u8, 255u8],
            ),
        )
    }
}

/// A width and height as text.
pub open spec fn size_text(width: int, height: int) -> Seq<char> {
    decimal(width as nat) + "x"@ + decimal(height as nat)
}

/// A bitmap under its background layer, if there is one; or why that does not lie on it.
pub open spec fn with_background(bitmap: BitmapModel, layer: Option<LayerModel>) -> Result<
    BitmapModel,
    Seq<char>,
> {
    match layer {
        None => Ok(bitmap),
        Some(layer) => if layer_matches(
            layer.image,
            layer.mapping,
            bitmap.width as int,
            bitmap.height as int,
        ) {
            Ok(
                BitmapModel {
                    pixels: painted_layer(bitmap, layer.image, layer.mapping),
                    ..bitmap
                },
            )
        } else {
            Err(
                "background IW44 layer dimensions "@ + size_text(
                    layer.image.width,
                    layer.image.height,
                ) + " do not map to page "@ + size_text(
                    bitmap.width as int,
                    bitmap.height as int,
                ),
            )
        },
    }
}

/// A bitmap under a mask: in the colours of the foreground layer, if there is one, and
/// black if not; or why the mask does not lie on it.
pub open spec fn with_mask(
    bitmap: BitmapModel,
    mask: (usize, MaskModel),
    foreground: Option<LayerModel>,
) -> Result<BitmapModel, Seq<char>> {
    let (index, (header, run, _)) = mask;
    let fits = header.width == bitmap.width && header.height == bitmap.height && match foreground {
        Some(layer) => layer_matches(
            layer.image,
            layer.mapping,
            bitmap.width as int,
            bitmap.height as int,
        ),
        None => true,
    };
    if fits {
        Ok(
            BitmapModel {
                pixels: match foreground {
                    Some(layer) => painted_through(bitmap, layer.image, layer.mapping, run.page),
                    None => painted_mask(bitmap.pixels, run.page, seq![0u8, 0u8, 0u8]),
                },
                ..bitmap
            },
        )
    } else {
        Err(
            "bitonal image #"@ + decimal(index as nat) + " dimensions "@ + size_text(
                header.width as int,
                header.height as int,
            ) + " do not match page "@ + size_text(bitmap.width as int, bitmap.height as int),
        )
    }
}

/// A bitmap under the first `count` masks, or why one of them does not lie on it.
pub open spec fn with_masks(
    bitmap: BitmapModel,
    masks: Seq<(usize, MaskModel)>,
    foreground: Option<LayerModel>,
    count: int,
) -> Result<BitmapModel, Seq<char>>
    decreases count,
{
    if count <= 0 {
        Ok(bitmap)
    } else {
        match with_masks(bitmap, masks, foreground, count - 1) {
            Err(message) => Err(message),
            Ok(before) => with_mask(before, masks[count - 1], foreground),
        }
    }
}

/// The layers that are there, the first before the second.
pub open spec fn present(first: Option<LayerModel>, second: Option<LayerModel>) -> Seq<
    LayerModel,
> {
    (match first {
        Some(layer) => seq![layer],
        None => Seq::empty(),
    }) + (match second {
        Some(layer) => seq![layer],
        None => Seq::empty(),
    })
}

/// The page: the background layer, and the masks over it in the colours of the foreground
/// layer.
pub open spec fn full_render(plan: PlanModel, bytes: Seq<u8>) -> Result<RenderModel, Seq<char>> {
    match base_of(plan.info) {
        Err(message) => Err(message),
        Ok(base) => match background_of(plan, bytes) {
            Err(message) => Err(message),
            Ok(background) => match with_background(base, background) {
                Err(message) => Err(message),
                Ok(behind) => match foreground_of(plan, bytes) {
                    Err(message) => Err(message),
                    Ok(foreground) => match masks_of(plan, bytes) {
                        Err(message) => Err(message),
                        Ok(masks) => match with_masks(
                            behind,
                            masks,
                            foreground,
                            masks.len() as int,
                        ) {
                            Err(message) => Err(message),
                            Ok(bitmap) => Ok(
                                RenderModel {
                                    bitmap,
                                    layers: present(background, foreground),
                                    masks,
                                },
                            ),
                        },
                    },
                },
            },
        },
    }
}

/// The background layer alone.
pub open spec fn background_render(plan: PlanModel, bytes: Seq<u8>) -> Result<
    RenderModel,
    Seq<char>,
> {
    match base_of(plan.info) {
        Err(message) => Err(message),
        Ok(base) => match background_of(plan, bytes) {
            Err(message) => Err(message),
            Ok(background) => match with_background(base, background) {
                Err(message) => Err(message),
                Ok(bitmap) => Ok(
                    RenderModel {
                        bitmap,
                        layers: present(background, None),
                        masks: Seq::empty(),
                    },
                ),
            },
        },
    }
}

/// The masks in the colours of the foreground layer, on white.
pub open spec fn foreground_render(plan: PlanModel, bytes: Seq<u8>) -> Result<
    RenderModel,
    Seq<char>,
> {
    match base_of(plan.info) {
        Err(message) => Err(message),
        Ok(base) => match masks_of(plan, bytes) {
            Err(message) => Err(message),
            Ok(masks) => match foreground_of(plan, bytes) {
                Err(message) => Err(message),
                Ok(foreground) => match with_masks(base, masks, foreground, masks.len() as int) {
                    Err(message) => Err(message),
                    Ok(bitmap) => Ok(
                        RenderModel { bitmap, layers: present(foreground, None), masks },
                    ),
                },
            },
        },
    }
}

/// The masks in black, on white.
pub open spec fn mask_render(plan: PlanModel, bytes: Seq<u8>) -> Result<RenderModel, Seq<char>> {
    match masks_of(plan, bytes) {
        Err(message) => Err(message),
        Ok(masks) => match base_of(plan.info) {
            Err(message) => Err(message),
            Ok(base) => match with_masks(base, masks, None, masks.len() as int) {
                Err(message) => Err(message),
                Ok(bitmap) => Ok(RenderModel { bitmap, layers: Seq::empty(), masks }),
            },
        },
    }
}

/// What of a page is shown in a mode.
#[verifier::opaque]
pub open spec fn render_in_mode(plan: PlanModel, bytes: Seq<u8>, mode: PageRenderMode) -> Result<
    RenderModel,
    Seq<char>,
> {
    match mode {
        PageRenderMode::Full => full_render(plan, bytes),
        PageRenderMode::Background => background_render(plan, bytes),
        PageRenderMode::Foreground => foreground_render(plan, bytes),
        PageRenderMode::Mask => mask_render(plan, bytes),
    }
}

/// The name of a mode.
pub open spec fn mode_name(mode: PageRenderMode) -> Seq<char> {
    match mode {
        PageRenderMode::Full => "full"@,
        PageRenderMode::Background => "background"@,
        PageRenderMode::Foreground => "foreground"@,
        PageRenderMode::Mask => "mask"@,
    }
}

/// The mode with the given name, or what is said of another name.
pub open spec fn mode_named(name: Seq<char>) -> Result<PageRenderMode, Seq<char>> {
    if name == "full"@ {
        Ok(PageRenderMode::Full)
    } else if name == "background"@ {
        Ok(PageRenderMode::Background)
    } else if name == "foreground"@ {
        Ok(PageRenderMode::Foreground)
    } else if name == "mask"@ {
        Ok(PageRenderMode::Mask)
    } else {
        Err(
            "unknown render mode "@ + debug_text(name)
                + "; expected full, background, foreground, or mask"@,
        )
    }
}

/// The name of a mode leads back to it.
pub proof fn lemma_mode_name_read_back(mode: PageRenderMode)
    ensures
        mode_named(mode_name(mode)) == Ok::<PageRenderMode, Seq<char>>(mode),
{
    reveal_strlit("full");
    reveal_strlit("background");
    reveal_strlit("foreground");
    reveal_strlit("mask");
    assert("background"@[0] == 'b');
    assert("foreground"@[0] == 'f' && "foreground"@.len() == 10);
    assert("mask"@[0] == 'm');
    assert("full"@.len() == 4);
}

proof fn lemma_indices_in_range(chunks: Seq<ResolvedModel>, purpose: ChunkUse, count: int)
    requires
        0 <= count <= chunks.len(),
        chunks.len() <= usize::MAX,
    ensures
        forall|i: int|
            0 <= i < indices_for(chunks, purpose, count).len() ==> {
                &&& (#[trigger] indices_for(chunks, purpose, count)[i]) < count
                &&& chunk_use(
                    chunks[indices_for(chunks, purpose, count)[i] as int].chunk.kind,
                ) == purpose
            },
        forall|i: int, j: int|
            0 <= i < j < indices_for(chunks, purpose, count).len() ==> indices_for(
                chunks,
                purpose,
                count,
            )[i] < indices_for(chunks, purpose, count)[j],
        forall|k: int|
            0 <= k < count && chunk_use((#[trigger] chunks[k]).chunk.kind) == purpose
                ==> indices_for(chunks, purpose, count).contains(k as usize),
    decreases count,
{
    if count > 0 {
        lemma_indices_in_range(chunks, purpose, count - 1);
        let before = indices_for(chunks, purpose, count - 1);
        let all = indices_for(chunks, purpose, count);
        assert forall|k: int|
            0 <= k < count && chunk_use((#[trigger] chunks[k]).chunk.kind)
                == purpose implies all.contains(k as usize) by {
            if k < count - 1 {
                assert(before.contains(k as usize));
                let i = choose|i: int| 0 <= i < before.len() && before[i] == k as usize;
                assert(all[i] == k as usize);
            } else {
                assert(all[all.len() - 1] == k as usize);
            }
        }
    }
}

/// Each list of a plan holds the indices of exactly the chunks of its use, in order and
/// without repetition.
pub proof fn lemma_plan_lists_every_chunk(
    chunks: Seq<ResolvedModel>,
    purpose: ChunkUse,
    index: usize,
)
    requires
        chunks.len() <= usize::MAX,
    ensures
        indices_for(chunks, purpose, chunks.len() as int).contains(index) <==> index
            < chunks.len() && chunk_use(chunks[index as int].chunk.kind) == purpose,
        indices_for(chunks, purpose, chunks.len() as int).no_duplicates(),
{
    lemma_indices_in_range(chunks, purpose, chunks.len() as int);
    if index < chunks.len() && chunk_use(chunks[index as int].chunk.kind) == purpose {
        assert(chunks[index as int].chunk.kind == chunks[index as int].chunk.kind);
        assert(indices_for(chunks, purpose, chunks.len() as int).contains(index));
    }
}

impl PageRenderMode {
    /// The name of the mode.
    #[must_use]
    pub fn as_str(self) -> (name: &'static str)
        ensures
            name@ == mode_name(self),
    {
        match self {
            PageRenderMode::Full => "full",
            PageRenderMode::Background => "background",
            PageRenderMode::Foreground => "foreground",
            PageRenderMode::Mask => "mask",
        }
    }

    /// The mode with the given name.
    pub fn named(name: &str) -> (mode: Result<Self, RenderError>)
        ensures
            match mode_named(name@) {
                Ok(expected) => mode is Ok && mode->Ok_0 == expected,
                Err(message) => mode is Err && mode->Err_0@ == message,
            },
    {
        if same_text(name, "full") {
            Ok(PageRenderMode::Full)
        } else if same_text(name, "background") {
            Ok(PageRenderMode::Background)
        } else if same_text(name, "foreground") {
            Ok(PageRenderMode::Foreground)
        } else if same_text(name, "mask") {
            Ok(PageRenderMode::Mask)
        } else {
            let mut message: String = text_of("unknown render mode ");
            message.append(quoted(name).as_str());
            message.append("; expected full, background, foreground, or mask");
            Err(RenderError(message))
        }
    }
}

impl FromStr for PageRenderMode {
    type Err = RenderError;

    fn from_str(value: &str) -> (mode: Result<Self, RenderError>) {
        PageRenderMode::named(value)
    }
}

} // verus!
