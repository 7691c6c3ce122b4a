//! What painting changes of a page, and what it leaves.

use super::bitmap::{
    lemma_component_place, painted_layer, painted_mask, painted_through, BitmapModel,
};
use super::layer::{layer_channel, layer_matches, masked_channel, Image};
use super::plan::{
    background_of, base_of, foreground_of, masks_of, render_in_mode, with_background, with_masks,
    LayerModel, MaskModel, PageRenderMode, PlanModel,
};
use super::scaling::{
    brightens_down, brightens_right, covers_exactly, lemma_brightens_down, lemma_brightens_right,
    lemma_corners, pixel_of,
};
use crate::iw44::header::Iw44PageMapping;
use vstd::arithmetic::div_mod::lemma_fundamental_div_mod;
use vstd::prelude::*;

verus! {

/// A component of the pixel of a page in a column and a row, both counted from the upper left
/// corner.
pub open spec fn shade_at(bitmap: BitmapModel, x: int, y: int, channel: int) -> u8 {
    bitmap.pixels[3 * (y * bitmap.width + x) + channel]
}

/// Whether a column and a row lie on a page.
pub open spec fn on_page(bitmap: BitmapModel, x: int, y: int) -> bool {
    0 <= x < bitmap.width && 0 <= y < bitmap.height
}

/// There are three bytes to each pixel.
pub open spec fn whole(bitmap: BitmapModel) -> bool {
    bitmap.pixels.len() == 3 * (bitmap.width * bitmap.height)
}

/// Whether, along one axis, a page's pixel at a place lies in a layer's pixel, or behind all
/// of them if that is the last.
pub open spec fn lies_in(place: int, pixel: int, subsample: int, size: int) -> bool {
    &&& 0 <= pixel < size
    &&& subsample * pixel <= place
    &&& place < subsample * pixel + subsample || pixel == size - 1
}

/// Whether a page's pixel shows the pixel in a column and row of a layer.
pub open spec fn shows_pixel(
    bitmap: BitmapModel,
    x: int,
    y: int,
    image: Image,
    column: int,
    row: int,
) -> bool {
    forall|k: int|
        0 <= k < 3 ==> #[trigger] shade_at(bitmap, x, y, k) == pixel_of(image, column, row, k)
}

/// Painting a mask changes no pixel where the mask is not set, and gives each pixel the colour
/// where it is.
pub proof fn lemma_mask_painted(
    bitmap: BitmapModel,
    mask: Seq<bool>,
    color: Seq<u8>,
    x: int,
    y: int,
    channel: int,
)
    requires
        whole(bitmap),
        on_page(bitmap, x, y),
        0 <= channel < 3,
    ensures
        ({
            let after = BitmapModel { pixels: painted_mask(bitmap.pixels, mask, color), ..bitmap };
            &&& whole(after)
            &&& mask[y * bitmap.width + x] ==> shade_at(after, x, y, channel) == color[channel]
            &&& !mask[y * bitmap.width + x] ==> shade_at(after, x, y, channel) == shade_at(
                bitmap,
                x,
                y,
                channel,
            )
        }),
{
    lemma_component_place(bitmap.width as int, bitmap.height as int, x, y, channel);
}

/// Painting through a mask changes no pixel where the mask is not set. Where it is, the pixel
/// shows, whole, that pixel of the layer in which it lies.
pub proof fn lemma_painted_through(
    bitmap: BitmapModel,
    image: Image,
    mapping: Iw44PageMapping,
    mask: Seq<bool>,
    x: int,
    y: int,
)
    requires
        whole(bitmap),
        layer_matches(image, mapping, bitmap.width as int, bitmap.height as int),
        on_page(bitmap, x, y),
    ensures
        ({
            let after = BitmapModel {
                pixels: painted_through(bitmap, image, mapping, mask),
                ..bitmap
            };
            &&& whole(after)
            &&& !mask[y * bitmap.width + x] ==> forall|k: int|
                0 <= k < 3 ==> #[trigger] shade_at(after, x, y, k) == shade_at(bitmap, x, y, k)
            &&& mask[y * bitmap.width + x] ==> exists|column: int, row: int|
                {
                    &&& lies_in(x, column, mapping.subsample as int, image.width)
                    &&& lies_in(
                        y + mapping.vertical_overscan,
                        row,
                        mapping.subsample as int,
                        image.height,
                    )
                    &&& #[trigger] shows_pixel(after, x, y, image, column, row)
                }
        }),
{
    let after = BitmapModel { pixels: painted_through(bitmap, image, mapping, mask), ..bitmap };
    assert forall|k: int| 0 <= k < 3 implies #[trigger] shade_at(after, x, y, k) == if mask[y
        * bitmap.width + x] {
        masked_channel(image, mapping, x, y, k)
    } else {
        shade_at(bitmap, x, y, k)
    } by {
        lemma_component_place(bitmap.width as int, bitmap.height as int, x, y, k);
    }
    let n = mapping.subsample as int;
    if mask[y * bitmap.width + x] {
        let column = lemma_source(x, 0, n, image.width);
        let row = lemma_source(y, mapping.vertical_overscan as int, n, image.height);
        assert(shows_pixel(after, x, y, image, column, row));
    }
}

proof fn lemma_source(place: int, overscan: int, subsample: int, size: int) -> (source: int)
    requires
        subsample >= 1,
        place >= 0,
        overscan >= 0,
        size >= 1,
    ensures
        lies_in(place + overscan, source, subsample, size),
        source == super::layer::source_coordinate(place, overscan, subsample, size),
{
    let sum = place + overscan;
    lemma_fundamental_div_mod(sum, subsample);
    let q = sum / subsample;
    assert(q >= 0) by (nonlinear_arith)
        requires
            subsample * q + sum % subsample == sum,
            0 <= sum % subsample < subsample,
            sum >= 0,
            subsample >= 1,
    ;
    let source = if q <= size - 1 { q } else { size - 1 };
    assert(subsample * source <= subsample * q) by (nonlinear_arith)
        requires
            source <= q,
            subsample >= 1,
    ;
    source
}

/// Through a mask that is set nowhere nothing is painted.
pub proof fn lemma_nothing_through_blank_mask(
    bitmap: BitmapModel,
    image: Image,
    mapping: Iw44PageMapping,
    mask: Seq<bool>,
)
    requires
        bitmap.pixels.len() <= 3 * mask.len(),
        forall|i: int| 0 <= i < mask.len() ==> !mask[i],
    ensures
        painted_through(bitmap, image, mapping, mask) == bitmap.pixels,
{
    assert(painted_through(bitmap, image, mapping, mask) =~= bitmap.pixels);
}

/// Through a mask that is set everywhere nothing is left of the page: two pages of one size end
/// the same.
pub proof fn lemma_everything_through_full_mask(
    bitmap: BitmapModel,
    other: BitmapModel,
    image: Image,
    mapping: Iw44PageMapping,
    mask: Seq<bool>,
)
    requires
        bitmap.width == other.width,
        bitmap.pixels.len() == other.pixels.len(),
        bitmap.pixels.len() <= 3 * mask.len(),
        forall|i: int| 0 <= i < mask.len() ==> mask[i],
    ensures
        painted_through(bitmap, image, mapping, mask) == painted_through(
            other,
            image,
            mapping,
            mask,
        ),
{
    assert(painted_through(bitmap, image, mapping, mask) =~= painted_through(
        other,
        image,
        mapping,
        mask,
    ));
}

/// A layer as fine as the page is painted pixel for pixel: each pixel shows, whole, the pixel
/// of the layer in its place, with what lies off the page left out.
pub proof fn lemma_fine_layer_painted(
    bitmap: BitmapModel,
    image: Image,
    mapping: Iw44PageMapping,
    x: int,
    y: int,
)
    requires
        whole(bitmap),
        layer_matches(image, mapping, bitmap.width as int, bitmap.height as int),
        mapping.subsample == 1,
        on_page(bitmap, x, y),
        x + mapping.horizontal_overscan < image.width,
        y + mapping.vertical_overscan < image.height,
    ensures
        ({
            let after = BitmapModel { pixels: painted_layer(bitmap, image, mapping), ..bitmap };
            &&& whole(after)
            &&& shows_pixel(
                after,
                x,
                y,
                image,
                x + mapping.horizontal_overscan,
                y + mapping.vertical_overscan,
            )
        }),
{
    let after = BitmapModel { pixels: painted_layer(bitmap, image, mapping), ..bitmap };
    assert forall|k: int| 0 <= k < 3 implies #[trigger] shade_at(after, x, y, k) == pixel_of(
        image,
        x + mapping.horizontal_overscan,
        y + mapping.vertical_overscan,
        k,
    ) by {
        lemma_component_place(bitmap.width as int, bitmap.height as int, x, y, k);
    }
}

/// A background is painted only where it was scaled for a page of this size, has the size that it
/// was scaled from, and has three bytes to each of its pixels.
pub proof fn lemma_background_fits(bitmap: BitmapModel, layer: LayerModel)
    ensures
        with_background(bitmap, Some(layer)) is Ok <==> {
            &&& layer.mapping.page_width == bitmap.width
            &&& layer.mapping.page_height == bitmap.height
            &&& layer.mapping.layer_width == layer.image.width
            &&& layer.mapping.layer_height == layer.image.height
            &&& layer.mapping.subsample > 0
            &&& layer.image.width > 0
            &&& layer.image.height > 0
            &&& layer.image.pixels.len() == 3 * (layer.image.width * layer.image.height)
        },
        with_background(bitmap, None) == Ok::<BitmapModel, Seq<char>>(bitmap),
{
}

proof fn lemma_layer_painted(
    bitmap: BitmapModel,
    layer: LayerModel,
    x: int,
    y: int,
    channel: int,
)
    requires
        whole(bitmap),
        on_page(bitmap, x, y),
        0 <= channel < 3,
        with_background(bitmap, Some(layer)) is Ok,
    ensures
        shade_at(with_background(bitmap, Some(layer))->Ok_0, x, y, channel) == layer_channel(
            layer.image,
            layer.mapping,
            x,
            y,
            channel,
        ),
{
    lemma_component_place(bitmap.width as int, bitmap.height as int, x, y, channel);
}

/// A page under a background that covers it exactly shows the corners of the background in its
/// own corners.
pub proof fn lemma_background_corners(bitmap: BitmapModel, layer: LayerModel, channel: int)
    requires
        whole(bitmap),
        with_background(bitmap, Some(layer)) is Ok,
        covers_exactly(layer.image, layer.mapping),
        bitmap.width > 0,
        bitmap.height > 0,
        0 <= channel < 3,
    ensures
        ({
            let after = with_background(bitmap, Some(layer))->Ok_0;
            let (right, bottom) = (bitmap.width - 1, bitmap.height - 1);
            let (last_column, last_row) = (layer.image.width - 1, layer.image.height - 1);
            &&& whole(after)
            &&& shade_at(after, 0, 0, channel) == pixel_of(layer.image, 0, 0, channel)
            &&& shade_at(after, right, 0, channel) == pixel_of(
                layer.image,
                last_column,
                0,
                channel,
            )
            &&& shade_at(after, 0, bottom, channel) == pixel_of(layer.image, 0, last_row, channel)
            &&& shade_at(after, right, bottom, channel) == pixel_of(
                layer.image,
                last_column,
                last_row,
                channel,
            )
        }),
{
    let (right, bottom) = (bitmap.width - 1, bitmap.height - 1);
    lemma_corners(layer.image, layer.mapping, channel);
    lemma_layer_painted(bitmap, layer, 0, 0, channel);
    lemma_layer_painted(bitmap, layer, right, 0, channel);
    lemma_layer_painted(bitmap, layer, 0, bottom, channel);
    lemma_layer_painted(bitmap, layer, right, bottom, channel);
}

/// A page under a background that gets no darker downwards gets no darker downwards, and one
/// under a background that gets no darker to the right gets no darker to the right.
pub proof fn lemma_background_in_order(
    bitmap: BitmapModel,
    layer: LayerModel,
    channel: int,
    x: int,
    y: int,
    right: int,
    lower: int,
)
    requires
        whole(bitmap),
        with_background(bitmap, Some(layer)) is Ok,
        0 <= channel < 3,
        0 <= x <= right < bitmap.width,
        0 <= y <= lower < bitmap.height,
    ensures
        ({
            let after = with_background(bitmap, Some(layer))->Ok_0;
            &&& brightens_down(layer.image, channel) ==> shade_at(after, x, y, channel)
                <= shade_at(after, x, lower, channel)
            &&& brightens_right(layer.image, channel) ==> shade_at(after, x, y, channel)
                <= shade_at(after, right, y, channel)
        }),
{
    lemma_layer_painted(bitmap, layer, x, y, channel);
    lemma_layer_painted(bitmap, layer, x, lower, channel);
    lemma_layer_painted(bitmap, layer, right, y, channel);
    if brightens_down(layer.image, channel) {
        lemma_brightens_down(layer.image, layer.mapping, channel, x, y, lower);
    }
    if brightens_right(layer.image, channel) {
        lemma_brightens_right(layer.image, layer.mapping, channel, y, x, right);
    }
}

/// Whether one of the first `count` masks is set at a pixel.
pub open spec fn is_covered(masks: Seq<(usize, MaskModel)>, count: int, pixel: int) -> bool {
    exists|i: int| 0 <= i < count && (#[trigger] masks[i]).1.1.page[pixel]
}

/// The colour in which a mask is painted at a pixel.
spec fn mask_shade(foreground: Option<LayerModel>, x: int, y: int, channel: int) -> u8 {
    match foreground {
        Some(layer) => masked_channel(layer.image, layer.mapping, x, y, channel),
        None => 0,
    }
}

proof fn lemma_masks_painted(
    bitmap: BitmapModel,
    masks: Seq<(usize, MaskModel)>,
    foreground: Option<LayerModel>,
    count: int,
    x: int,
    y: int,
    channel: int,
)
    requires
        whole(bitmap),
        on_page(bitmap, x, y),
        0 <= channel < 3,
        0 <= count <= masks.len(),
        with_masks(bitmap, masks, foreground, count) is Ok,
    ensures
        ({
            let after = with_masks(bitmap, masks, foreground, count)->Ok_0;
            &&& whole(after)
            &&& after.width == bitmap.width && after.height == bitmap.height && after.dpi
                == bitmap.dpi
            &&& shade_at(after, x, y, channel) == if is_covered(
                masks,
                count,
                y * bitmap.width + x,
            ) {
                mask_shade(foreground, x, y, channel)
            } else {
                shade_at(bitmap, x, y, channel)
            }
        }),
    decreases count,
{
    let pixel = y * bitmap.width + x;
    if count > 0 {
        lemma_masks_painted(bitmap, masks, foreground, count - 1, x, y, channel);
        lemma_component_place(bitmap.width as int, bitmap.height as int, x, y, channel);
        if masks[count - 1].1.1.page[pixel] {
            assert(is_covered(masks, count, pixel));
        } else if is_covered(masks, count, pixel) {
            let i = choose|i: int| 0 <= i < count && (#[trigger] masks[i]).1.1.page[pixel];
            assert(0 <= i < count - 1);
        } else {
            assert forall|i: int| 0 <= i < count - 1 implies !(
            #[trigger] masks[i]).1.1.page[pixel] by {
                assert(0 <= i < count);
            }
        }
    }
}

/// Masks change no pixel that none of them covers. A pixel that one of them covers turns black
/// where there is no foreground layer, and shows that pixel of the foreground layer in which it
/// lies where there is one. The size and the resolution of the page stay.
pub proof fn lemma_masks_on_page(
    bitmap: BitmapModel,
    masks: Seq<(usize, MaskModel)>,
    foreground: Option<LayerModel>,
    x: int,
    y: int,
)
    requires
        whole(bitmap),
        on_page(bitmap, x, y),
        with_masks(bitmap, masks, foreground, masks.len() as int) is Ok,
    ensures
        ({
            let after = with_masks(bitmap, masks, foreground, masks.len() as int)->Ok_0;
            let covered = is_covered(masks, masks.len() as int, y * bitmap.width + x);
            &&& whole(after)
            &&& after.width == bitmap.width && after.height == bitmap.height && after.dpi
                == bitmap.dpi
            &&& !covered ==> forall|k: int|
                0 <= k < 3 ==> #[trigger] shade_at(after, x, y, k) == shade_at(bitmap, x, y, k)
            &&& covered && foreground is None ==> forall|k: int|
                0 <= k < 3 ==> #[trigger] shade_at(after, x, y, k) == 0
            &&& covered ==> (foreground matches Some(layer) ==> exists|column: int, row: int|
                {
                    &&& lies_in(x, column, layer.mapping.subsample as int, layer.image.width)
                    &&& lies_in(
                        y + layer.mapping.vertical_overscan,
                        row,
                        layer.mapping.subsample as int,
                        layer.image.height,
                    )
                    &&& #[trigger] shows_pixel(after, x, y, layer.image, column, row)
                })
        }),
{
    let count = masks.len() as int;
    let after = with_masks(bitmap, masks, foreground, count)->Ok_0;
    let pixel = y * bitmap.width + x;
    lemma_masks_painted(bitmap, masks, foreground, count, x, y, 0);
    assert forall|k: int| 0 <= k < 3 implies #[trigger] shade_at(after, x, y, k) == if is_covered(
        masks,
        count,
        pixel,
    ) {
        mask_shade(foreground, x, y, k)
    } else {
        shade_at(bitmap, x, y, k)
    } by {
        lemma_masks_painted(bitmap, masks, foreground, count, x, y, k);
    }
    if is_covered(masks, count, pixel) {
        if let Some(layer) = foreground {
            lemma_masks_fit(bitmap, masks, foreground, count);
            let n = layer.mapping.subsample as int;
            let column = lemma_source(x, 0, n, layer.image.width);
            let row = lemma_source(
                y,
                layer.mapping.vertical_overscan as int,
                n,
                layer.image.height,
            );
            assert(shows_pixel(after, x, y, layer.image, column, row));
        }
    }
}

/// Masks are painted only where they, and the foreground layer, have the size of the page.
pub proof fn lemma_masks_fit(
    bitmap: BitmapModel,
    masks: Seq<(usize, MaskModel)>,
    foreground: Option<LayerModel>,
    count: int,
)
    requires
        0 <= count <= masks.len(),
        with_masks(bitmap, masks, foreground, count) is Ok,
    ensures
        with_masks(bitmap, masks, foreground, count)->Ok_0.width == bitmap.width,
        with_masks(bitmap, masks, foreground, count)->Ok_0.height == bitmap.height,
        forall|i: int|
            0 <= i < count ==> (#[trigger] masks[i]).1.0.width == bitmap.width
                && masks[i].1.0.height == bitmap.height,
        count > 0 ==> (foreground matches Some(layer) ==> layer_matches(
            layer.image,
            layer.mapping,
            bitmap.width as int,
            bitmap.height as int,
        )),
    decreases count,
{
    if count > 0 {
        lemma_masks_fit(bitmap, masks, foreground, count - 1);
    }
}

/// The modes of rendering hang together. On a page that can be rendered whole, each pixel that
/// no mask covers is that of the background alone, and white in the foreground alone and in the
/// masks alone; each pixel that a mask covers is that of the foreground alone, and black in the
/// masks alone.
pub proof fn lemma_modes(plan: PlanModel, bytes: Seq<u8>, x: int, y: int, channel: int)
    requires
        render_in_mode(plan, bytes, PageRenderMode::Full) is Ok,
        render_in_mode(plan, bytes, PageRenderMode::Foreground) is Ok,
        render_in_mode(plan, bytes, PageRenderMode::Mask) is Ok,
        0 <= x < plan.info.width,
        0 <= y < plan.info.height,
        0 <= channel < 3,
    ensures
        render_in_mode(plan, bytes, PageRenderMode::Background) is Ok,
        ({
            let full = render_in_mode(plan, bytes, PageRenderMode::Full)->Ok_0;
            let back = render_in_mode(plan, bytes, PageRenderMode::Background)->Ok_0;
            let front = render_in_mode(plan, bytes, PageRenderMode::Foreground)->Ok_0;
            let mask = render_in_mode(plan, bytes, PageRenderMode::Mask)->Ok_0;
            let covered = is_covered(
                full.masks,
                full.masks.len() as int,
                y * plan.info.width + x,
            );
            &&& front.masks == full.masks && mask.masks == full.masks
            &&& back.masks.len() == 0
            &&& mask.layers.len() == 0
            &&& full.bitmap.width == plan.info.width && full.bitmap.height == plan.info.height
            &&& full.bitmap.dpi == plan.info.dpi
            &&& covered ==> shade_at(full.bitmap, x, y, channel) == shade_at(
                front.bitmap,
                x,
                y,
                channel,
            ) && shade_at(mask.bitmap, x, y, channel) == 0
            &&& !covered ==> shade_at(full.bitmap, x, y, channel) == shade_at(
                back.bitmap,
                x,
                y,
                channel,
            ) && shade_at(front.bitmap, x, y, channel) == 255 && shade_at(
                mask.bitmap,
                x,
                y,
                channel,
            ) == 255
        }),
{
    reveal(render_in_mode);
    let base = base_of(plan.info)->Ok_0;
    let background = background_of(plan, bytes)->Ok_0;
    let behind = with_background(base, background)->Ok_0;
    let foreground = foreground_of(plan, bytes)->Ok_0;
    let masks = masks_of(plan, bytes)->Ok_0;
    let count = masks.len() as int;
    lemma_masks_painted(behind, masks, foreground, count, x, y, channel);
    lemma_masks_painted(base, masks, foreground, count, x, y, channel);
    lemma_masks_painted(base, masks, None, count, x, y, channel);
    lemma_component_place(base.width as int, base.height as int, x, y, channel);
}

/// The layers of a page are listed with the background before the foreground; the background
/// alone lists no foreground, and the foreground alone no background.
pub proof fn lemma_layers_listed(plan: PlanModel, bytes: Seq<u8>)
    ensures
        render_in_mode(plan, bytes, PageRenderMode::Full) matches Ok(full) ==> {
            &&& full.layers.len() <= 2
            &&& full.layers.len() == 2 ==> full.layers[0].role is Background
                && full.layers[1].role is Foreground
        },
        render_in_mode(plan, bytes, PageRenderMode::Background) matches Ok(back) ==> {
            &&& back.layers.len() <= 1
            &&& back.layers.len() == 1 ==> back.layers[0].role is Background
        },
        render_in_mode(plan, bytes, PageRenderMode::Foreground) matches Ok(front) ==> {
            &&& front.layers.len() <= 1
            &&& front.layers.len() == 1 ==> front.layers[0].role is Foreground
        },
{
    reveal(render_in_mode);
}

/// On a page without a background layer the background alone is white.
pub proof fn lemma_white_without_background(
    plan: PlanModel,
    bytes: Seq<u8>,
    x: int,
    y: int,
    channel: int,
)
    requires
        render_in_mode(plan, bytes, PageRenderMode::Background) is Ok,
        render_in_mode(plan, bytes, PageRenderMode::Background)->Ok_0.layers.len() == 0,
        0 <= x < plan.info.width,
        0 <= y < plan.info.height,
        0 <= channel < 3,
    ensures
        shade_at(
            render_in_mode(plan, bytes, PageRenderMode::Background)->Ok_0.bitmap,
            x,
            y,
            channel,
        ) == 255,
{
    reveal(render_in_mode);
    let base = base_of(plan.info)->Ok_0;
    lemma_component_place(base.width as int, base.height as int, x, y, channel);
}

} // verus!
