//! Copies of pages that were rendered.

use crate::bitonal::BitonalBitmap;
use crate::iw44::header::Iw44LayerSummary;
use crate::iw44::Iw44RgbImage;
use crate::jb2::Jb2PartialImage;
use crate::render::bitmap::PageBitmap;
use crate::render::plan::{
    layers_view, mask_shows, masks_show, render_shows, Iw44LayerGeometry, MaskModel,
    PartialPageRender, RenderModel, RenderedIw44Layer,
};
use vstd::prelude::*;

verus! {

/// A copy of a list.
fn copy_list<T: Copy>(values: &Vec<T>) -> (copy: Vec<T>)
    ensures
        copy@ == values@,
{
    let mut copy: Vec<T> = Vec::new();
    let mut index: usize = 0;
    while index < values.len()
        invariant
            index <= values@.len(),
            copy@ == values@.take(index as int),
        decreases values@.len() - index,
    {
        copy.push(values[index]);
        index = index + 1;
        assert(copy@ =~= values@.take(index as int));
    }
    assert(copy@ =~= values@);
    copy
}

/// A copy of a layer.
fn copy_layer(layer: &RenderedIw44Layer) -> (copy: RenderedIw44Layer)
    ensures
        copy@ == layer@,
{
    let summary: &Iw44LayerSummary = &layer.geometry.summary;
    RenderedIw44Layer {
        role: layer.role,
        chunk_indices: copy_list(&layer.chunk_indices),
        geometry: Iw44LayerGeometry {
            summary: Iw44LayerSummary {
                image: summary.image,
                chunks: copy_list(&summary.chunks),
                total_slices: summary.total_slices,
                total_payload_bytes: summary.total_payload_bytes,
            },
            mapping: layer.geometry.mapping,
        },
        image: Iw44RgbImage {
            width: layer.image.width,
            height: layer.image.height,
            pixels: copy_list(&layer.image.pixels),
        },
    }
}

/// A copy of a bitonal image.
fn copy_mask(image: &Jb2PartialImage) -> (copy: Jb2PartialImage)
    ensures
        forall|model: MaskModel| mask_shows(*image, model) ==> #[trigger] mask_shows(copy, model),
{
    Jb2PartialImage {
        header: image.header,
        mask: BitonalBitmap {
            width: image.mask.width,
            height: image.mask.height,
            bits: copy_list(&image.mask.bits),
        },
        records: copy_list(&image.records),
        dictionary_symbol_count: image.dictionary_symbol_count,
        stopped_before: image.stopped_before,
        reached_end_of_data: image.reached_end_of_data,
    }
}

/// A copy of a page that was rendered, with its layers and masks.
pub(crate) fn copy_render(render: &PartialPageRender, Ghost(model): Ghost<RenderModel>) -> (copy:
    PartialPageRender)
    requires
        render_shows(*render, model),
    ensures
        render_shows(copy, model),
{
    let mut layers: Vec<RenderedIw44Layer> = Vec::new();
    while layers.len() < render.iw44_layers.len()
        invariant
            layers@.len() <= render.iw44_layers@.len(),
            forall|i: int|
                0 <= i < layers@.len() ==> (#[trigger] layers@[i])@ == render.iw44_layers@[i]@,
        decreases render.iw44_layers@.len() - layers@.len(),
    {
        let layer = copy_layer(&render.iw44_layers[layers.len()]);
        layers.push(layer);
    }
    assert(layers_view(layers@) =~= layers_view(render.iw44_layers@));
    let mut masks: Vec<(usize, Jb2PartialImage)> = Vec::new();
    while masks.len() < render.bitonal_masks.len()
        invariant
            masks@.len() <= render.bitonal_masks@.len(),
            masks_show(render.bitonal_masks@, model.masks),
            forall|i: int|
                0 <= i < masks@.len() ==> (#[trigger] masks@[i]).0 == model.masks[i].0
                    && mask_shows(masks@[i].1, model.masks[i].1),
        decreases render.bitonal_masks@.len() - masks@.len(),
    {
        let index: usize = masks.len();
        let (number, image) = (&render.bitonal_masks[index].0, &render.bitonal_masks[index].1);
        assert(mask_shows(render.bitonal_masks@[index as int].1, model.masks[index as int].1));
        let copy = copy_mask(image);
        masks.push((*number, copy));
    }
    PartialPageRender {
        bitmap: PageBitmap {
            width: render.bitmap.width,
            height: render.bitmap.height,
            dpi: render.bitmap.dpi,
            format: render.bitmap.format,
            pixels: copy_list(&render.bitmap.pixels),
        },
        iw44_layers: layers,
        bitonal_masks: masks,
    }
}

} // verus!
