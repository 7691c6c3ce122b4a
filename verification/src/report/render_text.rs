//! Pages that were rendered, in words.

use super::words::{
    field, flag, hex, number_list, push_field, push_flag, push_hex, push_number_list,
};
use crate::bitonal::ones;
use crate::jb2::{kind_name, Jb2PartialImage};
use crate::pdf::image::{ImageModel, PdfPageImage};
use crate::render::bitmap::{stats_of, PageBitmap, PageBitmapStats};
use crate::render::plan::{Iw44LayerRole, PartialPageRender, RenderedIw44Layer};
use crate::text::text_of;
use vstd::prelude::*;

verus! {

/// A bitmap in numbers.
pub open spec fn stats_text(stats: PageBitmapStats) -> Seq<char> {
    field("bitmap stats: pixels="@, stats.pixel_count as int) + field(
        " black="@,
        stats.black_pixels as int,
    ) + field(" white="@, stats.white_pixels as int) + field(
        " non_gray="@,
        stats.non_gray_pixels as int,
    ) + field(" component_sum="@, stats.component_sum as int) + " fingerprint="@ + hex(
        stats.fingerprint as int,
        16,
    ) + "\n"@
}

/// Appends a bitmap in numbers.
pub fn write_bitmap_stats(output: &mut String, bitmap: &PageBitmap)
    requires
        255 * bitmap.pixels@.len() <= u64::MAX,
    ensures
        final(output)@ == old(output)@ + stats_text(stats_of(bitmap@)),
{
    let stats = bitmap.stats();
    push_field(output, "bitmap stats: pixels=", stats.pixel_count as u64);
    push_field(output, " black=", stats.black_pixels as u64);
    push_field(output, " white=", stats.white_pixels as u64);
    push_field(output, " non_gray=", stats.non_gray_pixels as u64);
    push_field(output, " component_sum=", stats.component_sum);
    output.append(" fingerprint=");
    push_hex(output, stats.fingerprint, 16);
    output.append("\n");
    assert(output@ =~= old(output)@ + stats_text(stats_of(bitmap@)));
}

/// A mask that was painted.
pub open spec fn painted_mask_text(index: usize, image: Jb2PartialImage) -> Seq<char> {
    field("painted bitonal image #"@, index as int) + field(
        ": black_pixels="@,
        ones(image.mask@, image.mask@.len() as int),
    ) + field(" dictionary_symbols="@, image.dictionary_symbol_count as int) + flag(
        " end_of_data="@,
        image.reached_end_of_data,
    ) + " stopped_before="@ + (match image.stopped_before {
        Some(kind) => kind_name(kind),
        None => "none"@,
    }) + "\n"@
}

/// The first `count` masks that were painted.
pub open spec fn painted_masks_text(masks: Seq<(usize, Jb2PartialImage)>, count: int) -> Seq<char>
    decreases count,
{
    if count <= 0 {
        Seq::empty()
    } else {
        painted_masks_text(masks, count - 1) + painted_mask_text(
            masks[count - 1].0,
            masks[count - 1].1,
        )
    }
}

/// Whether the pixels of masks can be counted.
pub open spec fn masks_countable(masks: Seq<(usize, Jb2PartialImage)>) -> bool {
    forall|i: int|
        0 <= i < masks.len() ==> (#[trigger] masks[i]).1.mask@.len() <= usize::MAX
}

/// Appends a mask that was painted.
fn push_painted_mask(output: &mut String, index: usize, image: &Jb2PartialImage)
    requires
        image.mask@.len() <= usize::MAX,
    ensures
        final(output)@ == old(output)@ + painted_mask_text(index, *image),
{
    push_field(output, "painted bitonal image #", index as u64);
    push_field(output, ": black_pixels=", image.mask.black_pixel_count() as u64);
    push_field(output, " dictionary_symbols=", image.dictionary_symbol_count as u64);
    push_flag(output, " end_of_data=", image.reached_end_of_data);
    output.append(" stopped_before=");
    match image.stopped_before {
        Some(kind) => {
            output.append(kind.as_str());
        },
        None => {
            output.append("none");
        },
    }
    output.append("\n");
    assert(output@ =~= old(output)@ + painted_mask_text(index, *image));
}

/// Appends the masks that were painted.
pub fn write_partial_render_summary(
    output: &mut String,
    bitonal_masks: &Vec<(usize, Jb2PartialImage)>,
)
    requires
        masks_countable(bitonal_masks@),
    ensures
        final(output)@ == old(output)@ + painted_masks_text(
            bitonal_masks@,
            bitonal_masks@.len() as int,
        ),
{
    let ghost before = output@;
    let mut i: usize = 0;
    assert(output@ =~= before + painted_masks_text(bitonal_masks@, 0));
    while i < bitonal_masks.len()
        invariant
            i <= bitonal_masks@.len(),
            masks_countable(bitonal_masks@),
            output@ == before + painted_masks_text(bitonal_masks@, i as int),
        decreases bitonal_masks@.len() - i,
    {
        push_painted_mask(output, bitonal_masks[i].0, &bitonal_masks[i].1);
        i = i + 1;
        assert(output@ =~= before + painted_masks_text(bitonal_masks@, i as int));
    }
}

/// A layer that was painted.
pub open spec fn layer_text(layer: RenderedIw44Layer) -> Seq<char> {
    let mapping = layer.geometry.mapping;
    (match layer.role {
        Iw44LayerRole::Foreground => "IW44 foreground: painted-through-mask chunks="@,
        Iw44LayerRole::Background => "IW44 background: painted chunks="@,
    }) + number_list(layer.chunk_indices@) + field(" image="@, layer.image.width as int) + field(
        "x"@,
        layer.image.height as int,
    ) + field(" subsample="@, mapping.subsample as int) + field(
        " scaled="@,
        mapping.scaled_width as int,
    ) + field("x"@, mapping.scaled_height as int) + field(
        " overscan="@,
        mapping.horizontal_overscan as int,
    ) + field("x"@, mapping.vertical_overscan as int) + "\n"@
}

/// The first `count` layers that were painted.
pub open spec fn layers_text(layers: Seq<RenderedIw44Layer>, count: int) -> Seq<char>
    decreases count,
{
    if count <= 0 {
        Seq::empty()
    } else {
        layers_text(layers, count - 1) + layer_text(layers[count - 1])
    }
}

/// Appends a layer that was painted.
fn push_layer(output: &mut String, layer: &RenderedIw44Layer)
    ensures
        final(output)@ == old(output)@ + layer_text(*layer),
{
    let ghost before = output@;
    let mapping = &layer.geometry.mapping;
    match layer.role {
        Iw44LayerRole::Foreground => {
            output.append("IW44 foreground: painted-through-mask chunks=");
        },
        Iw44LayerRole::Background => {
            output.append("IW44 background: painted chunks=");
        },
    }
    push_number_list(output, &layer.chunk_indices);
    push_field(output, " image=", layer.image.width as u64);
    push_field(output, "x", layer.image.height as u64);
    push_field(output, " subsample=", mapping.subsample as u64);
    push_field(output, " scaled=", mapping.scaled_width as u64);
    push_field(output, "x", mapping.scaled_height as u64);
    push_field(output, " overscan=", mapping.horizontal_overscan as u64);
    push_field(output, "x", mapping.vertical_overscan as u64);
    output.append("\n");
    assert(output@ =~= before + layer_text(*layer));
}

/// Appends the layers that were painted.
pub fn write_iw44_render_summary(output: &mut String, iw44_layers: &Vec<RenderedIw44Layer>)
    ensures
        final(output)@ == old(output)@ + layers_text(iw44_layers@, iw44_layers@.len() as int),
{
    let ghost before = output@;
    let mut i: usize = 0;
    assert(output@ =~= before + layers_text(iw44_layers@, 0));
    while i < iw44_layers.len()
        invariant
            i <= iw44_layers@.len(),
            output@ == before + layers_text(iw44_layers@, i as int),
        decreases iw44_layers@.len() - i,
    {
        push_layer(output, &iw44_layers[i]);
        i = i + 1;
        assert(output@ =~= before + layers_text(iw44_layers@, i as int));
    }
}

/// A page that was rendered: its bitmap in numbers, its masks and its layers.
pub open spec fn render_text(render: PartialPageRender) -> Seq<char> {
    stats_text(stats_of(render.bitmap@)) + painted_masks_text(
        render.bitonal_masks@,
        render.bitonal_masks@.len() as int,
    ) + layers_text(render.iw44_layers@, render.iw44_layers@.len() as int)
}

/// Whether a page that was rendered can be summed up.
pub open spec fn summable(render: PartialPageRender) -> bool {
    &&& 255 * render.bitmap.pixels@.len() <= u64::MAX
    &&& masks_countable(render.bitonal_masks@)
}

/// Appends a page that was rendered.
pub fn write_render_summary(output: &mut String, render: &PartialPageRender)
    requires
        summable(*render),
    ensures
        final(output)@ == old(output)@ + render_text(*render),
{
    write_bitmap_stats(output, &render.bitmap);
    write_partial_render_summary(output, &render.bitonal_masks);
    write_iw44_render_summary(output, &render.iw44_layers);
    assert(output@ =~= old(output)@ + render_text(*render));
}

/// The line that tells the number of a page.
pub open spec fn page_line(page_number: int) -> Seq<char> {
    field("page: "@, page_number) + "\n"@
}

/// A page that was rendered for a PDF file.
#[must_use]
pub fn render_pdf_page_summary(page_number: usize, render: &PartialPageRender) -> (summary: String)
    requires
        summable(*render),
    ensures
        summary@ == page_line(page_number as int) + field(
            "rendered: "@,
            render.bitmap.width as int,
        ) + field("x"@, render.bitmap.height as int) + field(" dpi="@, render.bitmap.dpi as int)
            + "\n"@ + render_text(*render),
{
    let mut summary: String = text_of("");
    proof {
        reveal_strlit("");
        assert(summary@ =~= Seq::empty());
    }
    push_field(&mut summary, "page: ", page_number as u64);
    summary.append("\n");
    push_field(&mut summary, "rendered: ", render.bitmap.width as u64);
    push_field(&mut summary, "x", render.bitmap.height as u64);
    push_field(&mut summary, " dpi=", render.bitmap.dpi as u64);
    summary.append("\n");
    let ghost head = page_line(page_number as int) + field(
        "rendered: "@,
        render.bitmap.width as int,
    ) + field("x"@, render.bitmap.height as int) + field(" dpi="@, render.bitmap.dpi as int)
        + "\n"@;
    assert(summary@ =~= head);
    write_render_summary(&mut summary, render);
    summary
}

/// The image of a page that was prepared for a PDF file.
pub open spec fn prepared_text(image: ImageModel) -> Seq<char> {
    field("prepared: "@, image.width() as int) + field("x"@, image.height() as int) + field(
        " dpi="@,
        image.dpi() as int,
    ) + (match image {
        ImageModel::Rgb8 { pixels, .. } => field(" format=PDF/RGB bytes="@, pixels.len() as int),
        ImageModel::Gray8 { pixels, .. } => field(
            " format=PDF/DeviceGray8 bytes="@,
            pixels.len() as int,
        ),
        ImageModel::BitonalMask { mask, .. } => field(
            " format=PDF/DeviceGray1 bytes="@,
            mask.len() as int,
        ),
    }) + "\n"@
}

/// Appends the image of a page that was prepared.
pub fn write_pdf_page_image_summary(summary: &mut String, image: &PdfPageImage)
    ensures
        final(summary)@ == old(summary)@ + prepared_text(image@),
{
    push_field(summary, "prepared: ", image.width() as u64);
    push_field(summary, "x", image.height() as u64);
    push_field(summary, " dpi=", image.dpi() as u64);
    match image {
        PdfPageImage::Rgb8 { pixels, .. } => {
            push_field(summary, " format=PDF/RGB bytes=", pixels.len() as u64);
        },
        PdfPageImage::Gray8 { pixels, .. } => {
            push_field(summary, " format=PDF/DeviceGray8 bytes=", pixels.len() as u64);
        },
        PdfPageImage::BitonalMask { mask, .. } => {
            push_field(summary, " format=PDF/DeviceGray1 bytes=", mask.len() as u64);
        },
    }
    summary.append("\n");
    assert(summary@ =~= old(summary)@ + prepared_text(image@));
}

/// A page whose image was prepared for a PDF file without rendering it.
#[must_use]
pub fn pdf_page_image_summary(page_number: usize, image: &PdfPageImage) -> (summary: String)
    ensures
        summary@ == page_line(page_number as int) + prepared_text(image@),
{
    let mut summary: String = text_of("");
    proof {
        reveal_strlit("");
        assert(summary@ =~= Seq::empty());
    }
    push_field(&mut summary, "page: ", page_number as u64);
    summary.append("\n");
    assert(summary@ =~= page_line(page_number as int));
    write_pdf_page_image_summary(&mut summary, image);
    summary
}

} // verus!
