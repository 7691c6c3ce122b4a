//! Pages, decoded and composed of their layers and masks.

use crate::document::{resolved_view, ResolvedModel, ResolvedPageChunk};
use crate::info::PageInfo;
use crate::iw44::decoder::Iw44Decoder;
use crate::iw44::header::{byte_lists, summarize_iw44_layer, Iw44LayerSummary};
use crate::iw44::{Iw44Error, Iw44RgbImage};
use crate::jb2::symbol::Symbol;
use crate::jb2::{
    read_jb2_image_header, read_jb2_record_prefix, render_jb2_image,
    render_jb2_image_with_dictionary, render_jb2_supported_prefix, shared_view, Jb2Dictionary,
    Jb2Error, Jb2PartialImage, Jb2RecordPrefix,
};
use crate::page::PageChunkKind;
use crate::render::bitmap::PageBitmap;
use crate::render::dictionaries::Jb2DictionaryCache;
use crate::render::layer::image_of;
use crate::render::plan::{
    background_of, background_render, base_of, chunk_data, data_of, decode_all, dictionary_of,
    foreground_of, foreground_render, full_render, headers_of, images_of, indices_for, layer_image,
    layer_of, layers_view, mask_render, mask_shows, masks_of, masks_show, page_mapping_of, partial_masks_of,
    payloads_at, payloads_of, payloads_view, plan_of, prefixes_of, prefixes_show, present,
    render_agrees, render_in_mode, summary_of, with_background, with_mask, with_masks, BitonalImageHeader,
    ChunkUse, Iw44LayerGeometry, Iw44LayerRole, LayerModel, MaskModel, PageRenderMode,
    PageRenderPlan, PartialPageRender, RenderChunkPayload, RenderedIw44Layer,
};
use crate::render::steps::PageRendering;
use crate::render::RenderError;
use crate::text::{push_decimal, text_of};
use vstd::prelude::*;

verus! {

/// A message of the image decoder as one of rendering.
fn from_iw44(error: Iw44Error) -> (converted: RenderError)
    ensures
        converted@ == error@,
{
    RenderError(error.0)
}

/// A message of the bitonal decoder as one of rendering.
pub(crate) fn from_jb2(error: Jb2Error) -> (converted: RenderError)
    ensures
        converted@ == error@,
{
    RenderError(error.0)
}

/// The data alone.
fn payload_bytes<'b>(payloads: &Vec<RenderChunkPayload<'b>>) -> (lists: Vec<&'b [u8]>)
    ensures
        byte_lists(lists@) == data_of(payloads_view(payloads@)),
{
    let mut lists: Vec<&'b [u8]> = Vec::new();
    let mut i: usize = 0;
    while i < payloads.len()
        invariant
            i <= payloads@.len(),
            lists@.len() == i,
            forall|k: int| 0 <= k < i ==> #[trigger] lists@[k] == payloads@[k].bytes,
        decreases payloads@.len() - i,
    {
        lists.push(payloads[i].bytes);
        i = i + 1;
    }
    assert(byte_lists(lists@) =~= data_of(payloads_view(payloads@)));
    lists
}

/// A width and height at the end of a message.
fn push_size(message: &mut String, width: u64, height: u64)
    ensures
        final(message)@ == old(message)@ + crate::render::plan::size_text(
            width as int,
            height as int,
        ),
{
    push_decimal(message, width);
    message.append("x");
    push_decimal(message, height);
    assert(message@ =~= old(message)@ + crate::render::plan::size_text(
        width as int,
        height as int,
    ));
}

proof fn lemma_decode_fault(chunks: Seq<Seq<u8>>, count: int, total: int)
    requires
        0 <= count <= total,
        decode_all(chunks, count) is Err,
    ensures
        decode_all(chunks, total) == decode_all(chunks, count),
    decreases total - count,
{
    if count < total {
        lemma_decode_fault(chunks, count, total - 1);
    }
}

/// Decodes the chunks of a layer.
pub fn decode_iw44_rgb_image(chunks: &[&[u8]]) -> (image: Result<Iw44RgbImage, Iw44Error>)
    ensures
        match layer_image(byte_lists(chunks@)) {
            Ok(expected) => image is Ok && image_of(image->Ok_0) == expected,
            Err(message) => image is Err && image->Err_0@ == message,
        },
{
    let ghost lists = byte_lists(chunks@);
    let mut decoder = Iw44Decoder::new();
    let mut i: usize = 0;
    while i < chunks.len()
        invariant
            i <= chunks@.len(),
            lists == byte_lists(chunks@),
            decoder.wf(),
            decode_all(lists, i as int) == Ok::<_, Seq<char>>(decoder@),
        decreases chunks@.len() - i,
    {
        assert(lists[i as int] == chunks@[i as int]@);
        match decoder.decode_chunk(chunks[i]) {
            Err(error) => {
                proof {
                    lemma_decode_fault(lists, i + 1, lists.len() as int);
                }
                return Err(error);
            },
            Ok(_) => {},
        }
        i = i + 1;
    }
    decoder.to_rgb_image()
}

proof fn lemma_dictionary_fault(payloads: Seq<(usize, Seq<u8>)>, count: int, total: int)
    requires
        0 <= count <= total,
        dictionary_of(payloads, count) is Err,
    ensures
        dictionary_of(payloads, total) == dictionary_of(payloads, count),
    decreases total - count,
{
    if count < total {
        lemma_dictionary_fault(payloads, count, total - 1);
    }
}

proof fn lemma_images_fault(
    payloads: Seq<(usize, Seq<u8>)>,
    dictionary: Option<Seq<Symbol>>,
    count: int,
    total: int,
)
    requires
        0 <= count <= total,
        images_of(payloads, dictionary, count) is Err,
    ensures
        images_of(payloads, dictionary, total) == images_of(payloads, dictionary, count),
    decreases total - count,
{
    if count < total {
        lemma_images_fault(payloads, dictionary, count, total - 1);
    }
}

proof fn lemma_headers_fault(payloads: Seq<(usize, Seq<u8>)>, count: int, total: int)
    requires
        0 <= count <= total,
        headers_of(payloads, count) is Err,
    ensures
        headers_of(payloads, total) == headers_of(payloads, count),
    decreases total - count,
{
    if count < total {
        lemma_headers_fault(payloads, count, total - 1);
    }
}

proof fn lemma_prefixes_fault(
    payloads: Seq<(usize, Seq<u8>)>,
    limit: int,
    count: int,
    total: int,
)
    requires
        0 <= count <= total,
        prefixes_of(payloads, limit, count) is Err,
    ensures
        prefixes_of(payloads, limit, total) == prefixes_of(payloads, limit, count),
    decreases total - count,
{
    if count < total {
        lemma_prefixes_fault(payloads, limit, count, total - 1);
    }
}

proof fn lemma_partial_masks_fault(
    payloads: Seq<(usize, Seq<u8>)>,
    limit: int,
    count: int,
    total: int,
)
    requires
        0 <= count <= total,
        partial_masks_of(payloads, limit, count) is Err,
    ensures
        partial_masks_of(payloads, limit, total) == partial_masks_of(payloads, limit, count),
    decreases total - count,
{
    if count < total {
        lemma_partial_masks_fault(payloads, limit, count, total - 1);
    }
}

pub proof fn lemma_with_masks_fault(
    bitmap: crate::render::bitmap::BitmapModel,
    masks: Seq<(usize, MaskModel)>,
    foreground: Option<LayerModel>,
    count: int,
    total: int,
)
    requires
        0 <= count <= total,
        with_masks(bitmap, masks, foreground, count) is Err,
    ensures
        with_masks(bitmap, masks, foreground, total) == with_masks(
            bitmap,
            masks,
            foreground,
            count,
        ),
    decreases total - count,
{
    if count < total {
        lemma_with_masks_fault(bitmap, masks, foreground, count, total - 1);
    }
}

/// Decodes a bitonal image, with a dictionary if there is one.
fn render_jb2_image_with_optional_dictionary(
    bytes: &[u8],
    dictionary: Option<&Jb2Dictionary>,
) -> (image: Result<Jb2PartialImage, Jb2Error>)
    requires
        dictionary is Some ==> dictionary->0.wf(),
    ensures
        crate::jb2::shows(image, crate::jb2::jb2_render_all(bytes@, shared_view(dictionary))),
{
    match dictionary {
        None => render_jb2_image(bytes),
        Some(dictionary) => render_jb2_image_with_dictionary(bytes, dictionary),
    }
}

proof fn lemma_payload_data(
    bytes: Seq<u8>,
    chunks: Seq<ResolvedModel>,
    indices: Seq<usize>,
    count: int,
)
    ensures
        forall|k: int|
            0 <= k < payloads_at(bytes, chunks, indices, count).len() ==> chunk_data(
                bytes,
                chunks,
                (#[trigger] payloads_at(bytes, chunks, indices, count)[k]).0 as int,
            ) == Some(payloads_at(bytes, chunks, indices, count)[k].1),
    decreases count,
{
    if count > 0 {
        lemma_payload_data(bytes, chunks, indices, count - 1);
        let before = payloads_at(bytes, chunks, indices, count - 1);
        let payloads = payloads_at(bytes, chunks, indices, count);
        assert forall|k: int| 0 <= k < payloads.len() implies chunk_data(
            bytes,
            chunks,
            (#[trigger] payloads[k]).0 as int,
        ) == Some(payloads[k].1) by {
            if k < before.len() {
                assert(payloads[k] == before[k]);
            }
        }
    }
}

/// A layer that may be there, by its values.
pub open spec fn layer_view(layer: Option<RenderedIw44Layer>) -> Option<LayerModel> {
    match layer {
        Some(layer) => Some(layer@),
        None => None,
    }
}

/// Paints a background layer over a bitmap.
pub(crate) fn paint_background(bitmap: &mut PageBitmap, layer: &Option<RenderedIw44Layer>) -> (done: Result<
    (),
    RenderError,
>)
    requires
        old(bitmap).wf(),
    ensures
        final(bitmap).wf(),
        match with_background(old(bitmap)@, layer_view(*layer)) {
            Ok(expected) => done is Ok && final(bitmap)@ == expected,
            Err(message) => done is Err && done->Err_0@ == message,
        },
{
    match layer {
        None => Ok(()),
        Some(layer) => {
            if !bitmap.paint_iw44_rgb_layer(&layer.image, &layer.geometry.mapping) {
                let mut message: String = text_of("background IW44 layer dimensions ");
                push_size(&mut message, layer.image.width as u64, layer.image.height as u64);
                message.append(" do not map to page ");
                push_size(&mut message, bitmap.width as u64, bitmap.height as u64);
                return Err(RenderError(message));
            }
            Ok(())
        },
    }
}

/// Paints a mask over a bitmap.
pub(crate) fn paint_mask(
    bitmap: &mut PageBitmap,
    index: usize,
    image: &Jb2PartialImage,
    foreground: &Option<RenderedIw44Layer>,
    Ghost(model): Ghost<MaskModel>,
) -> (done: Result<(), RenderError>)
    requires
        old(bitmap).wf(),
        mask_shows(*image, model),
    ensures
        final(bitmap).wf(),
        match with_mask(old(bitmap)@, (index, model), layer_view(*foreground)) {
            Ok(expected) => done is Ok && final(bitmap)@ == expected,
            Err(message) => done is Err && done->Err_0@ == message,
        },
{
    let mask = &image.mask;
    let black: [u8; 3] = [0, 0, 0];
    assert(black@ =~= seq![0u8, 0u8, 0u8]);
    let painted: bool = match foreground {
        Some(layer) => bitmap.paint_iw44_rgb_layer_through_mask(
            &layer.image,
            &layer.geometry.mapping,
            mask,
        ),
        None => bitmap.paint_bitonal_mask(mask, black),
    };
    if !painted {
        let mut message: String = text_of("bitonal image #");
        push_decimal(&mut message, index as u64);
        message.append(" dimensions ");
        push_size(&mut message, mask.width as u64, mask.height as u64);
        message.append(" do not match page ");
        push_size(&mut message, bitmap.width as u64, bitmap.height as u64);
        return Err(RenderError(message));
    }
    Ok(())
}

/// Paints masks over a bitmap.
fn paint_masks(
    bitmap: &mut PageBitmap,
    masks: &Vec<(usize, Jb2PartialImage)>,
    foreground: &Option<RenderedIw44Layer>,
    Ghost(models): Ghost<Seq<(usize, MaskModel)>>,
) -> (done: Result<(), RenderError>)
    requires
        old(bitmap).wf(),
        masks_show(masks@, models),
    ensures
        final(bitmap).wf(),
        match with_masks(old(bitmap)@, models, layer_view(*foreground), models.len() as int) {
            Ok(expected) => done is Ok && final(bitmap)@ == expected,
            Err(message) => done is Err && done->Err_0@ == message,
        },
{
    let ghost first = bitmap@;
    let ghost layer = layer_view(*foreground);
    let mut i: usize = 0;
    while i < masks.len()
        invariant
            i <= masks@.len(),
            masks_show(masks@, models),
            first == old(bitmap)@,
            layer == layer_view(*foreground),
            bitmap.wf(),
            with_masks(first, models, layer, i as int) == Ok::<_, Seq<char>>(bitmap@),
        decreases masks@.len() - i,
    {
        assert(masks@[i as int].0 == models[i as int].0);
        match paint_mask(
            bitmap,
            masks[i].0,
            &masks[i].1,
            foreground,
            Ghost(models[i as int].1),
        ) {
            Err(error) => {
                proof {
                    lemma_with_masks_fault(first, models, layer, i + 1, models.len() as int);
                }
                return Err(error);
            },
            Ok(_) => {},
        }
        i = i + 1;
    }
    Ok(())
}

impl<'a> PageRenderPlan<'a> {
    /// The plan of a page with the given information and chunks.
    #[must_use]
    pub fn new(info: PageInfo, chunks: Vec<ResolvedPageChunk<'a>>) -> (plan: Self)
        ensures
            plan@ == plan_of(info, resolved_view(chunks@)),
    {
        let mut bitonal_dictionaries: Vec<usize> = Vec::new();
        let mut bitonal_images: Vec<usize> = Vec::new();
        let mut foreground_layers: Vec<usize> = Vec::new();
        let mut background_layers: Vec<usize> = Vec::new();
        let mut text_chunks: Vec<usize> = Vec::new();
        let mut unknown_chunks: Vec<usize> = Vec::new();
        let ghost models = resolved_view(chunks@);
        let mut index: usize = 0;
        while index < chunks.len()
            invariant
                index <= chunks@.len(),
                models == resolved_view(chunks@),
                bitonal_dictionaries@ == indices_for(models, ChunkUse::Dictionary, index as int),
                bitonal_images@ == indices_for(models, ChunkUse::Mask, index as int),
                foreground_layers@ == indices_for(models, ChunkUse::Foreground, index as int),
                background_layers@ == indices_for(models, ChunkUse::Background, index as int),
                text_chunks@ == indices_for(models, ChunkUse::Text, index as int),
                unknown_chunks@ == indices_for(models, ChunkUse::Unknown, index as int),
            decreases chunks@.len() - index,
        {
            assert(models[index as int] == chunks@[index as int]@);
            match chunks[index].chunk.kind {
                PageChunkKind::Djbz => {
                    bitonal_dictionaries.push(index);
                },
                PageChunkKind::Sjbz => {
                    bitonal_images.push(index);
                },
                PageChunkKind::Fg44 => {
                    foreground_layers.push(index);
                },
                PageChunkKind::Bg44 => {
                    background_layers.push(index);
                },
                PageChunkKind::Txta | PageChunkKind::Txtz => {
                    text_chunks.push(index);
                },
                PageChunkKind::Unknown => {
                    unknown_chunks.push(index);
                },
                PageChunkKind::Info | PageChunkKind::Include => {},
            }
            index = index + 1;
        }
        PageRenderPlan {
            info,
            chunks,
            bitonal_dictionaries,
            bitonal_images,
            foreground_layers,
            background_layers,
            text_chunks,
            unknown_chunks,
        }
    }

    /// Whether there is anything to show.
    #[must_use]
    pub fn has_image_data(&self) -> (has: bool)
        ensures
            has == (self@.bitonal_images.len() > 0 || self@.foreground_layers.len() > 0
                || self@.background_layers.len() > 0),
    {
        self.bitonal_images.len() > 0 || self.foreground_layers.len() > 0
            || self.background_layers.len() > 0
    }

    /// Whether there is hidden text.
    #[must_use]
    pub fn has_text(&self) -> (has: bool)
        ensures
            has == (self@.text_chunks.len() > 0),
    {
        self.text_chunks.len() > 0
    }

    /// The chunk at an index.
    #[must_use]
    pub fn chunk(&self, index: usize) -> (chunk: Option<&ResolvedPageChunk<'a>>)
        ensures
            chunk is Some <==> index < self.chunks@.len(),
            chunk is Some ==> *chunk->0 == self.chunks@[index as int],
    {
        if index < self.chunks.len() {
            Some(&self.chunks[index])
        } else {
            None
        }
    }

    /// The data of a chunk, if it lies within the file.
    #[must_use]
    pub fn chunk_payload<'b>(&self, bytes: &'b [u8], index: usize) -> (payload: Option<&'b [u8]>)
        ensures
            match chunk_data(bytes@, self@.chunks, index as int) {
                Some(data) => payload is Some && payload->0@ == data,
                None => payload is None,
            },
    {
        match self.chunk(index) {
            None => None,
            Some(chunk) => {
                let start: usize = chunk.chunk.chunk.data_start;
                let end: usize = chunk.chunk.chunk.data_end;
                assert(self@.chunks[index as int] == chunk@);
                if start <= end && end <= bytes.len() {
                    Some(vstd::slice::slice_subrange(bytes, start, end))
                } else {
                    None
                }
            },
        }
    }

    /// The data of the chunks of a list.
    fn payloads_for_indices<'b>(&self, bytes: &'b [u8], indices: &Vec<usize>) -> (payloads: Vec<
        RenderChunkPayload<'b>,
    >)
        ensures
            payloads_view(payloads@) == payloads_of(self@, bytes@, indices@),
    {
        let mut payloads: Vec<RenderChunkPayload<'b>> = Vec::new();
        let mut i: usize = 0;
        assert(payloads_view(payloads@) =~= Seq::<(usize, Seq<u8>)>::empty());
        while i < indices.len()
            invariant
                i <= indices@.len(),
                payloads_view(payloads@) == payloads_at(
                    bytes@,
                    self@.chunks,
                    indices@,
                    i as int,
                ),
            decreases indices@.len() - i,
        {
            match self.chunk_payload(bytes, indices[i]) {
                None => {},
                Some(data) => {
                    let ghost before = payloads@;
                    payloads.push(RenderChunkPayload { index: indices[i], bytes: data });
                    assert(payloads_view(payloads@) =~= payloads_view(before).push(
                        (indices@[i as int], data@),
                    ));
                },
            }
            i = i + 1;
        }
        payloads
    }

    /// The data of the dictionaries.
    #[must_use]
    pub fn bitonal_dictionary_payloads<'b>(&self, bytes: &'b [u8]) -> (payloads: Vec<
        RenderChunkPayload<'b>,
    >)
        ensures
            payloads_view(payloads@) == payloads_of(self@, bytes@, self@.bitonal_dictionaries),
    {
        self.payloads_for_indices(bytes, &self.bitonal_dictionaries)
    }

    /// The data of the bitonal images.
    #[must_use]
    pub fn bitonal_image_payloads<'b>(&self, bytes: &'b [u8]) -> (payloads: Vec<
        RenderChunkPayload<'b>,
    >)
        ensures
            payloads_view(payloads@) == payloads_of(self@, bytes@, self@.bitonal_images),
    {
        self.payloads_for_indices(bytes, &self.bitonal_images)
    }

    /// The data of the foreground layer.
    #[must_use]
    pub fn foreground_layer_payloads<'b>(&self, bytes: &'b [u8]) -> (payloads: Vec<
        RenderChunkPayload<'b>,
    >)
        ensures
            payloads_view(payloads@) == payloads_of(self@, bytes@, self@.foreground_layers),
    {
        self.payloads_for_indices(bytes, &self.foreground_layers)
    }

    /// The data of the background layer.
    #[must_use]
    pub fn background_layer_payloads<'b>(&self, bytes: &'b [u8]) -> (payloads: Vec<
        RenderChunkPayload<'b>,
    >)
        ensures
            payloads_view(payloads@) == payloads_of(self@, bytes@, self@.background_layers),
    {
        self.payloads_for_indices(bytes, &self.background_layers)
    }

    /// The headers of a layer.
    fn layer_summary_for(&self, payloads: &Vec<RenderChunkPayload<'_>>) -> (summary: Result<
        Option<Iw44LayerSummary>,
        Iw44Error,
    >)
        ensures
            match summary_of(payloads_view(payloads@)) {
                Err(message) => summary is Err && summary->Err_0@ == message,
                Ok(None) => summary is Ok && summary->Ok_0 is None,
                Ok(Some(model)) => summary is Ok && summary->Ok_0 is Some && summary->Ok_0->0@
                    == model && model.image.width > 0 && model.image.height > 0,
            },
    {
        if payloads.len() == 0 {
            return Ok(None);
        }
        let lists = payload_bytes(payloads);
        match summarize_iw44_layer(lists.as_slice()) {
            Err(error) => Err(error),
            Ok(summary) => Ok(Some(summary)),
        }
    }

    /// The headers of a layer, and how it lies on the page.
    fn layer_geometry_for(&self, payloads: &Vec<RenderChunkPayload<'_>>) -> (geometry: Result<
        Option<Iw44LayerGeometry>,
        Iw44Error,
    >)
        ensures
            match summary_of(payloads_view(payloads@)) {
                Err(message) => geometry is Err && geometry->Err_0@ == message,
                Ok(None) => geometry is Ok && geometry->Ok_0 is None,
                Ok(Some(model)) => geometry is Ok && geometry->Ok_0 is Some
                    && geometry->Ok_0->0.summary@ == model && geometry->Ok_0->0.mapping
                    == page_mapping_of(self.info, model),
            },
    {
        match self.layer_summary_for(payloads) {
            Err(error) => Err(error),
            Ok(None) => Ok(None),
            Ok(Some(summary)) => {
                let mapping = summary.page_mapping(
                    self.info.width as u32,
                    self.info.height as u32,
                );
                Ok(Some(Iw44LayerGeometry { summary, mapping }))
            },
        }
    }

    /// The headers of the foreground layer, if there is one.
    pub fn foreground_layer_summary(&self, bytes: &[u8]) -> (summary: Result<
        Option<Iw44LayerSummary>,
        Iw44Error,
    >)
        ensures
            match summary_of(payloads_of(self@, bytes@, self@.foreground_layers)) {
                Err(message) => summary is Err && summary->Err_0@ == message,
                Ok(None) => summary is Ok && summary->Ok_0 is None,
                Ok(Some(model)) => summary is Ok && summary->Ok_0 is Some && summary->Ok_0->0@
                    == model,
            },
    {
        self.layer_summary_for(&self.foreground_layer_payloads(bytes))
    }

    /// The headers of the background layer, if there is one.
    pub fn background_layer_summary(&self, bytes: &[u8]) -> (summary: Result<
        Option<Iw44LayerSummary>,
        Iw44Error,
    >)
        ensures
            match summary_of(payloads_of(self@, bytes@, self@.background_layers)) {
                Err(message) => summary is Err && summary->Err_0@ == message,
                Ok(None) => summary is Ok && summary->Ok_0 is None,
                Ok(Some(model)) => summary is Ok && summary->Ok_0 is Some && summary->Ok_0->0@
                    == model,
            },
    {
        self.layer_summary_for(&self.background_layer_payloads(bytes))
    }

    /// How the foreground layer lies on the page, if there is one.
    pub fn foreground_layer_geometry(&self, bytes: &[u8]) -> (geometry: Result<
        Option<Iw44LayerGeometry>,
        Iw44Error,
    >)
        ensures
            match summary_of(payloads_of(self@, bytes@, self@.foreground_layers)) {
                Err(message) => geometry is Err && geometry->Err_0@ == message,
                Ok(None) => geometry is Ok && geometry->Ok_0 is None,
                Ok(Some(model)) => geometry is Ok && geometry->Ok_0 is Some
                    && geometry->Ok_0->0.summary@ == model && geometry->Ok_0->0.mapping
                    == page_mapping_of(self.info, model),
            },
    {
        self.layer_geometry_for(&self.foreground_layer_payloads(bytes))
    }

    /// How the background layer lies on the page, if there is one.
    pub fn background_layer_geometry(&self, bytes: &[u8]) -> (geometry: Result<
        Option<Iw44LayerGeometry>,
        Iw44Error,
    >)
        ensures
            match summary_of(payloads_of(self@, bytes@, self@.background_layers)) {
                Err(message) => geometry is Err && geometry->Err_0@ == message,
                Ok(None) => geometry is Ok && geometry->Ok_0 is None,
                Ok(Some(model)) => geometry is Ok && geometry->Ok_0 is Some
                    && geometry->Ok_0->0.summary@ == model && geometry->Ok_0->0.mapping
                    == page_mapping_of(self.info, model),
            },
    {
        self.layer_geometry_for(&self.background_layer_payloads(bytes))
    }

    /// Decodes a layer, if it has chunks.
    fn decode_iw44_layer(&self, role: Iw44LayerRole, payloads: &Vec<RenderChunkPayload<'_>>) -> (layer:
        Result<Option<RenderedIw44Layer>, RenderError>)
        ensures
            match layer_of(self.info, payloads_view(payloads@), role) {
                Ok(expected) => layer is Ok && layer_view(layer->Ok_0) == expected,
                Err(message) => layer is Err && layer->Err_0@ == message,
            },
    {
        let geometry = match self.layer_geometry_for(payloads) {
            Err(error) => {
                return Err(from_iw44(error));
            },
            Ok(None) => {
                return Ok(None);
            },
            Ok(Some(geometry)) => geometry,
        };
        let mut chunk_indices: Vec<usize> = Vec::new();
        let mut i: usize = 0;
        while i < payloads.len()
            invariant
                i <= payloads@.len(),
                chunk_indices@.len() == i,
                forall|k: int| 0 <= k < i ==> #[trigger] chunk_indices@[k] == payloads@[k].index,
            decreases payloads@.len() - i,
        {
            chunk_indices.push(payloads[i].index);
            i = i + 1;
        }
        let lists = payload_bytes(payloads);
        let image = match decode_iw44_rgb_image(lists.as_slice()) {
            Err(error) => {
                return Err(from_iw44(error));
            },
            Ok(image) => image,
        };
        let layer = RenderedIw44Layer { role, chunk_indices, geometry, image };
        proof {
            let expected = layer_of(self.info, payloads_view(payloads@), role);
            assert(expected is Ok && expected->Ok_0 is Some);
            assert(layer@.chunk_indices =~= expected->Ok_0->0.chunk_indices);
        }
        Ok(Some(layer))
    }

    /// Decodes the foreground layer, if there is one.
    pub fn foreground_iw44_layer(&self, bytes: &[u8]) -> (layer: Result<
        Option<RenderedIw44Layer>,
        RenderError,
    >)
        ensures
            match foreground_of(self@, bytes@) {
                Ok(expected) => layer is Ok && layer_view(layer->Ok_0) == expected,
                Err(message) => layer is Err && layer->Err_0@ == message,
            },
    {
        self.decode_iw44_layer(Iw44LayerRole::Foreground, &self.foreground_layer_payloads(bytes))
    }

    /// Decodes the background layer, if there is one.
    pub fn background_iw44_layer(&self, bytes: &[u8]) -> (layer: Result<
        Option<RenderedIw44Layer>,
        RenderError,
    >)
        ensures
            match background_of(self@, bytes@) {
                Ok(expected) => layer is Ok && layer_view(layer->Ok_0) == expected,
                Err(message) => layer is Err && layer->Err_0@ == message,
            },
    {
        self.decode_iw44_layer(Iw44LayerRole::Background, &self.background_layer_payloads(bytes))
    }

    /// Reads the headers of the bitonal images.
    pub fn bitonal_image_headers(&self, bytes: &[u8]) -> (headers: Result<
        Vec<BitonalImageHeader>,
        Jb2Error,
    >)
        ensures
            ({
                let payloads = payloads_of(self@, bytes@, self@.bitonal_images);
                match headers_of(payloads, payloads.len() as int) {
                    Ok(expected) => headers is Ok && headers->Ok_0@ == expected,
                    Err(message) => headers is Err && headers->Err_0@ == message,
                }
            }),
    {
        let payloads = self.bitonal_image_payloads(bytes);
        let ghost models = payloads_view(payloads@);
        let mut headers: Vec<BitonalImageHeader> = Vec::new();
        let mut i: usize = 0;
        while i < payloads.len()
            invariant
                i <= payloads@.len(),
                models == payloads_view(payloads@),
                models == payloads_of(self@, bytes@, self@.bitonal_images),
                headers_of(models, i as int) == Ok::<_, Seq<char>>(headers@),
            decreases payloads@.len() - i,
        {
            assert(models[i as int] == (payloads@[i as int].index, payloads@[i as int].bytes@));
            match read_jb2_image_header(payloads[i].bytes) {
                Err(error) => {
                    proof {
                        lemma_headers_fault(models, i + 1, models.len() as int);
                    }
                    return Err(error);
                },
                Ok(header) => {
                    headers.push(BitonalImageHeader { index: payloads[i].index, header });
                },
            }
            i = i + 1;
        }
        Ok(headers)
    }

    /// Reads the first records of the bitonal images.
    pub fn bitonal_record_prefixes(&self, bytes: &[u8], max_records: usize) -> (prefixes: Result<
        Vec<(usize, Jb2RecordPrefix)>,
        Jb2Error,
    >)
        ensures
            ({
                let payloads = payloads_of(self@, bytes@, self@.bitonal_images);
                match prefixes_of(payloads, max_records as int, payloads.len() as int) {
                    Ok(expected) => prefixes is Ok && prefixes_show(prefixes->Ok_0@, expected),
                    Err(message) => prefixes is Err && prefixes->Err_0@ == message,
                }
            }),
    {
        let payloads = self.bitonal_image_payloads(bytes);
        let ghost models = payloads_view(payloads@);
        let ghost limit = max_records as int;
        let mut prefixes: Vec<(usize, Jb2RecordPrefix)> = Vec::new();
        let mut i: usize = 0;
        while i < payloads.len()
            invariant
                i <= payloads@.len(),
                models == payloads_view(payloads@),
                models == payloads_of(self@, bytes@, self@.bitonal_images),
                limit == max_records,
                prefixes_of(models, limit, i as int) is Ok,
                prefixes_show(prefixes@, prefixes_of(models, limit, i as int)->Ok_0),
            decreases payloads@.len() - i,
        {
            assert(models[i as int] == (payloads@[i as int].index, payloads@[i as int].bytes@));
            match read_jb2_record_prefix(payloads[i].bytes, max_records) {
                Err(error) => {
                    proof {
                        lemma_prefixes_fault(models, limit, i + 1, models.len() as int);
                    }
                    return Err(error);
                },
                Ok(prefix) => {
                    prefixes.push((payloads[i].index, prefix));
                },
            }
            i = i + 1;
        }
        Ok(prefixes)
    }

    /// Paints the first records of the bitonal images; stops in each before a record that asks
    /// for a dictionary or a reset.
    pub fn partial_bitonal_masks(&self, bytes: &[u8], max_records: usize) -> (masks: Result<
        Vec<(usize, Jb2PartialImage)>,
        Jb2Error,
    >)
        ensures
            ({
                let payloads = payloads_of(self@, bytes@, self@.bitonal_images);
                match partial_masks_of(payloads, max_records as int, payloads.len() as int) {
                    Ok(expected) => masks is Ok && masks_show(masks->Ok_0@, expected),
                    Err(message) => masks is Err && masks->Err_0@ == message,
                }
            }),
    {
        let payloads = self.bitonal_image_payloads(bytes);
        let ghost models = payloads_view(payloads@);
        let ghost limit = max_records as int;
        let mut masks: Vec<(usize, Jb2PartialImage)> = Vec::new();
        let mut i: usize = 0;
        while i < payloads.len()
            invariant
                i <= payloads@.len(),
                models == payloads_view(payloads@),
                models == payloads_of(self@, bytes@, self@.bitonal_images),
                limit == max_records,
                partial_masks_of(models, limit, i as int) is Ok,
                masks_show(masks@, partial_masks_of(models, limit, i as int)->Ok_0),
            decreases payloads@.len() - i,
        {
            assert(models[i as int] == (payloads@[i as int].index, payloads@[i as int].bytes@));
            match render_jb2_supported_prefix(payloads[i].bytes, max_records) {
                Err(error) => {
                    proof {
                        lemma_partial_masks_fault(models, limit, i + 1, models.len() as int);
                    }
                    return Err(error);
                },
                Ok(mask) => {
                    masks.push((payloads[i].index, mask));
                },
            }
            i = i + 1;
        }
        Ok(masks)
    }

    /// Decodes the dictionaries where they were not before, and says which of those that
    /// were decoded is used: the last.
    fn bitonal_dictionary_with_cache(
        &self,
        bytes: &[u8],
        cache: &mut Jb2DictionaryCache,
    ) -> (place: Result<Option<usize>, Jb2Error>)
        requires
            old(cache).holds(bytes@),
        ensures
            final(cache).holds(bytes@),
            ({
                let payloads = payloads_of(self@, bytes@, self@.bitonal_dictionaries);
                match dictionary_of(payloads, payloads.len() as int) {
                    Ok(None) => place is Ok && place->Ok_0 is None,
                    Ok(Some(symbols)) => {
                        &&& place is Ok
                        &&& place->Ok_0 is Some
                        &&& place->Ok_0->0 < final(cache).entries@.len()
                        &&& final(cache).entries@[place->Ok_0->0 as int].dictionary@ == symbols
                        &&& final(cache).entries@[place->Ok_0->0 as int].dictionary.wf()
                    },
                    Err(message) => place is Err && place->Err_0@ == message,
                }
            }),
    {
        let payloads = self.bitonal_dictionary_payloads(bytes);
        let ghost models = payloads_view(payloads@);
        proof {
            lemma_payload_data(
                bytes@,
                self@.chunks,
                self@.bitonal_dictionaries,
                self@.bitonal_dictionaries.len() as int,
            );
        }
        let mut last: Option<usize> = None;
        let mut i: usize = 0;
        while i < payloads.len()
            invariant
                i <= payloads@.len(),
                models == payloads_view(payloads@),
                models == payloads_of(self@, bytes@, self@.bitonal_dictionaries),
                forall|k: int|
                    0 <= k < models.len() ==> chunk_data(
                        bytes@,
                        self@.chunks,
                        (#[trigger] models[k]).0 as int,
                    ) == Some(models[k].1),
                cache.holds(bytes@),
                match dictionary_of(models, i as int) {
                    Ok(None) => last is None,
                    Ok(Some(symbols)) => {
                        &&& last is Some
                        &&& last->0 < cache.entries@.len()
                        &&& cache.entries@[last->0 as int].dictionary@ == symbols
                        &&& cache.entries@[last->0 as int].dictionary.wf()
                    },
                    Err(_) => false,
                },
            decreases payloads@.len() - i,
        {
            let index: usize = payloads[i].index;
            assert(models[i as int] == (payloads@[i as int].index, payloads@[i as int].bytes@));
            let chunk = &self.chunks[index].chunk.chunk;
            assert(self@.chunks[index as int] == self.chunks@[index as int]@);
            match cache.dictionary_at(bytes, chunk.data_start, chunk.data_end) {
                Err(error) => {
                    proof {
                        lemma_dictionary_fault(models, i + 1, models.len() as int);
                    }
                    return Err(error);
                },
                Ok(place) => {
                    last = Some(place);
                },
            }
            i = i + 1;
        }
        Ok(last)
    }

    /// Decodes the bitonal images.
    pub fn bitonal_masks(&self, bytes: &[u8]) -> (masks: Result<
        Vec<(usize, Jb2PartialImage)>,
        Jb2Error,
    >)
        ensures
            match masks_of(self@, bytes@) {
                Ok(expected) => masks is Ok && masks_show(masks->Ok_0@, expected),
                Err(message) => masks is Err && masks->Err_0@ == message,
            },
    {
        let mut cache = Jb2DictionaryCache::new();
        self.bitonal_masks_with_cache(bytes, &mut cache)
    }

    /// Decodes the bitonal images, and the dictionaries where they were not before.
    pub fn bitonal_masks_with_cache(
        &self,
        bytes: &[u8],
        cache: &mut Jb2DictionaryCache,
    ) -> (masks: Result<Vec<(usize, Jb2PartialImage)>, Jb2Error>)
        requires
            old(cache).holds(bytes@),
        ensures
            final(cache).holds(bytes@),
            match masks_of(self@, bytes@) {
                Ok(expected) => masks is Ok && masks_show(masks->Ok_0@, expected),
                Err(message) => masks is Err && masks->Err_0@ == message,
            },
    {
        let place: Option<usize> = match self.bitonal_dictionary_with_cache(bytes, cache) {
            Err(error) => {
                return Err(error);
            },
            Ok(place) => place,
        };
        let dictionary: Option<&Jb2Dictionary> = match place {
            Some(place) => Some(&cache.entries[place].dictionary),
            None => None,
        };
        let ghost symbols = shared_view(dictionary);
        let payloads = self.bitonal_image_payloads(bytes);
        let ghost models = payloads_view(payloads@);
        let mut masks: Vec<(usize, Jb2PartialImage)> = Vec::new();
        let mut i: usize = 0;
        while i < payloads.len()
            invariant
                i <= payloads@.len(),
                models == payloads_view(payloads@),
                symbols == shared_view(dictionary),
                dictionary is Some ==> dictionary->0.wf(),
                cache.holds(bytes@),
                masks_of(self@, bytes@) == images_of(models, symbols, models.len() as int),
                images_of(models, symbols, i as int) is Ok,
                masks_show(masks@, images_of(models, symbols, i as int)->Ok_0),
            decreases payloads@.len() - i,
        {
            assert(models[i as int] == (payloads@[i as int].index, payloads@[i as int].bytes@));
            match render_jb2_image_with_optional_dictionary(payloads[i].bytes, dictionary) {
                Err(error) => {
                    proof {
                        lemma_images_fault(models, symbols, i + 1, models.len() as int);
                    }
                    return Err(error);
                },
                Ok(mask) => {
                    masks.push((payloads[i].index, mask));
                },
            }
            i = i + 1;
        }
        Ok(masks)
    }

    /// The white bitmap of the page.
    #[must_use]
    pub fn render_base_bitmap(&self) -> (bitmap: PageBitmap)
        requires
            3 * (self.info.width * self.info.height) <= usize::MAX,
        ensures
            bitmap.wf(),
            base_of(self.info) == Ok::<_, Seq<char>>(bitmap@),
    {
        PageBitmap::white_rgb8(&self.info)
    }

    /// The white bitmap of the page, if its bytes can be counted.
    pub(crate) fn checked_base_bitmap(&self) -> (bitmap: Result<PageBitmap, RenderError>)
        ensures
            match base_of(self.info) {
                Ok(expected) => bitmap is Ok && bitmap->Ok_0@ == expected && bitmap->Ok_0.wf(),
                Err(message) => bitmap is Err && bitmap->Err_0@ == message,
            },
    {
        assert(self.info.width * self.info.height <= 0xffff * 0xffff) by (nonlinear_arith)
            requires
                self.info.width <= 0xffff,
                self.info.height <= 0xffff,
        ;
        let pixels: u64 = self.info.width as u64 * self.info.height as u64;
        if 3 * pixels > usize::MAX as u64 {
            let mut message: String = text_of("page ");
            push_decimal(&mut message, self.info.width as u64);
            message.append("x");
            push_decimal(&mut message, self.info.height as u64);
            message.append(" exceeds the address range");
            return Err(RenderError(message));
        }
        Ok(self.render_base_bitmap())
    }

    /// Renders what a mode shows of the page.
    pub fn render_bitmap_with_mode(&self, bytes: &[u8], mode: PageRenderMode) -> (render: Result<
        PartialPageRender,
        RenderError,
    >)
        ensures
            render_agrees(render, render_in_mode(self@, bytes@, mode)),
    {
        reveal(render_in_mode);
        match mode {
            PageRenderMode::Full => self.render_partial_bitmap(bytes),
            PageRenderMode::Background => self.render_background_bitmap(bytes),
            PageRenderMode::Foreground => self.render_foreground_bitmap(bytes),
            PageRenderMode::Mask => self.render_mask_bitmap(bytes),
        }
    }

    /// Renders the page: the background layer, and the masks over it in the colours of the
    /// foreground layer.
    pub fn render_partial_bitmap(&self, bytes: &[u8]) -> (render: Result<
        PartialPageRender,
        RenderError,
    >)
        ensures
            render_agrees(render, full_render(self@, bytes@)),
    {
        let mut cache = Jb2DictionaryCache::new();
        self.render_full_page(bytes, &mut cache)
    }

    /// Renders the page, and decodes the dictionaries where they were not before.
    pub fn render_full_page(&self, bytes: &[u8], cache: &mut Jb2DictionaryCache) -> (render: Result<
        PartialPageRender,
        RenderError,
    >)
        requires
            old(cache).holds(bytes@),
        ensures
            final(cache).holds(bytes@),
            render_agrees(render, full_render(self@, bytes@)),
    {
        let mut work = PageRendering::Started;
        loop
            invariant
                cache.holds(bytes@),
                work.holds(self@, bytes@),
            decreases work.rank(), work.left(),
        {
            match work {
                PageRendering::Rendered(render) => {
                    return Ok(render);
                },
                _ => {},
            }
            work = match work.advance(self, bytes, cache) {
                Err(error) => {
                    return Err(error);
                },
                Ok(next) => next,
            };
        }
    }

    /// Renders the background layer alone.
    pub fn render_background_bitmap(&self, bytes: &[u8]) -> (render: Result<
        PartialPageRender,
        RenderError,
    >)
        ensures
            render_agrees(render, background_render(self@, bytes@)),
    {
        let mut bitmap = match self.checked_base_bitmap() {
            Err(error) => {
                return Err(error);
            },
            Ok(bitmap) => bitmap,
        };
        let background = match self.background_iw44_layer(bytes) {
            Err(error) => {
                return Err(error);
            },
            Ok(background) => background,
        };
        match paint_background(&mut bitmap, &background) {
            Err(error) => {
                return Err(error);
            },
            Ok(_) => {},
        }
        let iw44_layers = present_layers(background, None);
        Ok(PartialPageRender { bitmap, iw44_layers, bitonal_masks: Vec::new() })
    }

    /// Renders the masks in the colours of the foreground layer, on white.
    pub fn render_foreground_bitmap(&self, bytes: &[u8]) -> (render: Result<
        PartialPageRender,
        RenderError,
    >)
        ensures
            render_agrees(render, foreground_render(self@, bytes@)),
    {
        let mut bitmap = match self.checked_base_bitmap() {
            Err(error) => {
                return Err(error);
            },
            Ok(bitmap) => bitmap,
        };
        let bitonal_masks = match self.bitonal_masks(bytes) {
            Err(error) => {
                return Err(from_jb2(error));
            },
            Ok(masks) => masks,
        };
        let foreground = match self.foreground_iw44_layer(bytes) {
            Err(error) => {
                return Err(error);
            },
            Ok(foreground) => foreground,
        };
        let ghost models = masks_of(self@, bytes@)->Ok_0;
        match paint_masks(&mut bitmap, &bitonal_masks, &foreground, Ghost(models)) {
            Err(error) => {
                return Err(error);
            },
            Ok(_) => {},
        }
        let iw44_layers = present_layers(foreground, None);
        Ok(PartialPageRender { bitmap, iw44_layers, bitonal_masks })
    }

    /// Renders the masks in black, on white.
    pub fn render_mask_bitmap(&self, bytes: &[u8]) -> (render: Result<
        PartialPageRender,
        RenderError,
    >)
        ensures
            render_agrees(render, mask_render(self@, bytes@)),
    {
        let bitonal_masks = match self.bitonal_masks(bytes) {
            Err(error) => {
                return Err(from_jb2(error));
            },
            Ok(masks) => masks,
        };
        let mut bitmap = match self.checked_base_bitmap() {
            Err(error) => {
                return Err(error);
            },
            Ok(bitmap) => bitmap,
        };
        let ghost models = masks_of(self@, bytes@)->Ok_0;
        let none: Option<RenderedIw44Layer> = None;
        match paint_masks(&mut bitmap, &bitonal_masks, &none, Ghost(models)) {
            Err(error) => {
                return Err(error);
            },
            Ok(_) => {},
        }
        let iw44_layers = present_layers(None, None);
        Ok(PartialPageRender { bitmap, iw44_layers, bitonal_masks })
    }
}

/// The layers that are there, the first before the second.
pub(crate) fn present_layers(first: Option<RenderedIw44Layer>, second: Option<RenderedIw44Layer>) -> (layers:
    Vec<RenderedIw44Layer>)
    ensures
        layers_view(layers@) == present(layer_view(first), layer_view(second)),
{
    let mut layers: Vec<RenderedIw44Layer> = Vec::new();
    match first {
        Some(layer) => {
            layers.push(layer);
        },
        None => {},
    }
    match second {
        Some(layer) => {
            layers.push(layer);
        },
        None => {},
    }
    assert(layers_view(layers@) =~= present(layer_view(first), layer_view(second)));
    layers
}

} // verus!
