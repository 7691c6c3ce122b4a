//! Which image a page becomes, and what of the page it shows.

use super::document::{direct_image, prepared, PreparedModel};
use super::image::{gray_pixels, image_of, mask_pages, ImageModel};
use super::outline::{bookmark_page, outline_of, OutlineModel};
use crate::bitonal::{byte_count, mask_bits, mask_rows};
use crate::bitstream::bits_of;
use crate::navm::BookmarkModel;
use crate::render::bitmap::BitmapModel;
use crate::render::painting::{lemma_masks_fit, shade_at};
use crate::render::plan::{
    background_of, base_of, foreground_of, full_render, masks_of, payloads_of, with_masks, PlanModel,
};
use vstd::arithmetic::div_mod::lemma_fundamental_div_mod_converse;
use vstd::prelude::*;

verus! {

/// A page that is nothing but one mask of its size becomes the same image whether it is rendered
/// or not.
pub proof fn lemma_direct_image_is_that_of_the_page(plan: PlanModel, bytes: Seq<u8>)
    requires
        direct_image(plan, bytes) matches Ok(Some(_)),
        full_render(plan, bytes) is Ok,
    ensures
        ({
            let render = full_render(plan, bytes)->Ok_0;
            &&& render.layers.len() == 0
            &&& render.masks.len() == 1
            &&& image_of(render.bitmap, render.layers.len(), mask_pages(render.masks))
                == direct_image(plan, bytes)->Ok_0->Some_0
            &&& prepared(plan, bytes) == Ok::<PreparedModel, Seq<char>>(
                PreparedModel::Direct(direct_image(plan, bytes)->Ok_0->Some_0),
            )
        }),
{
    reveal(prepared);
    let render = full_render(plan, bytes)->Ok_0;
    assert(payloads_of(plan, bytes, plan.background_layers).len() == 0);
    assert(payloads_of(plan, bytes, plan.foreground_layers).len() == 0);
    assert(background_of(plan, bytes)->Ok_0 is None);
    assert(foreground_of(plan, bytes)->Ok_0 is None);
    let base = base_of(plan.info)->Ok_0;
    lemma_masks_fit(base, render.masks, None, 1);
    assert(with_masks(base, render.masks, None, 0) == Ok::<BitmapModel, Seq<char>>(base));
    assert(render.bitmap.dpi == base.dpi);
    assert(mask_pages(render.masks)[0] == (
        render.masks[0].1.0.width,
        render.masks[0].1.0.height,
        render.masks[0].1.1.page,
    ));
    assert(render.layers.len() == 0);
    assert(render.masks == masks_of(plan, bytes)->Ok_0);
}

/// The rows of a mask take whole bytes, from their leftmost pixel on, which is the highest bit of
/// the first byte; a set bit is a set pixel, and what fills the last byte of a row is not set.
pub proof fn lemma_mask_rows(pixels: Seq<bool>, width: int, height: int, x: int, y: int)
    requires
        0 < width,
        0 <= y < height,
        0 <= x < 8 * byte_count(width as nat),
    ensures
        ({
            let row = 8 * byte_count(width as nat) as int;
            let bits = bits_of(mask_rows(pixels, width, height));
            &&& mask_rows(pixels, width, height).len() == byte_count(width as nat) * height
            &&& width <= row < width + 8
            &&& x < width ==> bits[y * row + x] == pixels[y * width + x]
            &&& x >= width ==> !bits[y * row + x]
        }),
{
    let bits = mask_bits(pixels, width, height);
    lemma_mask_bits(pixels, width, height, x, y);
    crate::bitstream::lemma_packed_bits_read_back(bits);
}

proof fn lemma_mask_bits(pixels: Seq<bool>, width: int, height: int, x: int, y: int)
    requires
        0 < width,
        0 <= y < height,
        0 <= x < 8 * byte_count(width as nat),
    ensures
        ({
            let row = 8 * byte_count(width as nat) as int;
            let bits = mask_bits(pixels, width, height);
            &&& bits.len() == 8 * (byte_count(width as nat) * height)
            &&& 0 <= y * row + x < bits.len()
            &&& bits[y * row + x] == (x < width && pixels[y * width + x])
        }),
{
    let bytes = byte_count(width as nat) as int;
    let row = 8 * bytes;
    crate::bitonal::lemma_pixel_index(row, height, x, y);
    lemma_fundamental_div_mod_converse(y * row + x, row, y, x);
    assert(row * height == 8 * (bytes * height) && bytes * height >= 0) by (nonlinear_arith)
        requires
            row == 8 * bytes,
            bytes >= 0,
            height >= 0,
    ;
}

/// A page with layers becomes an image in colour, byte for byte. Without layers a page whose
/// first mask has its size becomes that mask. Whatever it becomes, an image has the size and the
/// resolution of its page.
pub proof fn lemma_image_of_page(
    bitmap: BitmapModel,
    layers: nat,
    masks: Seq<(u32, u32, Seq<bool>)>,
)
    ensures
        ({
            let image = image_of(bitmap, layers, masks);
            &&& image.width() == bitmap.width
            &&& image.height() == bitmap.height
            &&& image.dpi() == bitmap.dpi
            &&& layers > 0 ==> image is Rgb8
            &&& image matches ImageModel::Rgb8 { pixels, .. } ==> pixels == bitmap.pixels
            &&& layers == 0 && masks.len() > 0 && masks[0].0 == bitmap.width && masks[0].1
                == bitmap.height ==> image is BitonalMask
            &&& masks.len() > 0 && (masks[0].0 != bitmap.width || masks[0].1 != bitmap.height)
                ==> !(image is BitonalMask)
        }),
{
}

/// A page becomes a gray image only where red, green and blue of every pixel are equal; each
/// pixel then has that shade. A page without layers that has a pixel with unequal components, and
/// whose image is no mask, becomes one in colour.
pub proof fn lemma_gray_image(
    bitmap: BitmapModel,
    layers: nat,
    masks: Seq<(u32, u32, Seq<bool>)>,
    x: int,
    y: int,
    channel: int,
)
    requires
        bitmap.pixels.len() == 3 * (bitmap.width * bitmap.height),
        0 <= x < bitmap.width,
        0 <= y < bitmap.height,
        0 <= channel < 3,
    ensures
        image_of(bitmap, layers, masks) matches ImageModel::Gray8 { pixels, .. } ==> {
            &&& pixels.len() == bitmap.width * bitmap.height
            &&& pixels[y * bitmap.width + x] == shade_at(bitmap, x, y, channel)
        },
        shade_at(bitmap, x, y, 0) != shade_at(bitmap, x, y, channel) ==> !(image_of(
            bitmap,
            layers,
            masks,
        ) is Gray8),
{
    let at = y * bitmap.width + x;
    crate::bitonal::lemma_pixel_index(bitmap.width as int, bitmap.height as int, x, y);
    if gray_pixels(bitmap.pixels) is Some {
        assert(bitmap.pixels[3 * at] == bitmap.pixels[3 * at + 1]);
    }
}

/// A page without layers and masks becomes a white mask only where no pixel is black.
pub proof fn lemma_white_image(
    bitmap: BitmapModel,
    layers: nat,
    masks: Seq<(u32, u32, Seq<bool>)>,
    pixel: int,
)
    requires
        masks.len() == 0,
        image_of(bitmap, layers, masks) is BitonalMask,
        0 <= 3 * pixel,
        3 * pixel + 2 < bitmap.pixels.len(),
    ensures
        layers == 0,
        bitmap.pixels[3 * pixel] != 0 || bitmap.pixels[3 * pixel + 1] != 0 || bitmap.pixels[3
            * pixel + 2] != 0,
        image_of(bitmap, layers, masks) matches ImageModel::BitonalMask { mask, .. } ==> forall|
            i: int,
        |
            0 <= i < mask.len() ==> mask[i] == 0,
{
    lemma_none_black(bitmap.pixels, bitmap.pixels.len() as int / 3, pixel);
}

proof fn lemma_none_black(pixels: Seq<u8>, count: int, pixel: int)
    requires
        0 <= pixel < count,
        crate::render::bitmap::pixels_of_shade(pixels, 0, count) == 0,
    ensures
        pixels[3 * pixel] != 0 || pixels[3 * pixel + 1] != 0 || pixels[3 * pixel + 2] != 0,
    decreases count,
{
    if pixel < count - 1 {
        lemma_none_black(pixels, count - 1, pixel);
    }
}

/// Whether a bookmark is one of the given bookmarks, or stands below one of them.
pub open spec fn is_listed(bookmark: BookmarkModel, bookmarks: Seq<BookmarkModel>) -> bool
    decreases bookmarks,
{
    exists|i: int|
        0 <= i < bookmarks.len() && (#[trigger] bookmarks[i] == bookmark || is_listed(
            bookmark,
            bookmarks[i].children,
        ))
}

/// Every bookmark of an outline has the title of a bookmark of the document, and leads to the
/// same page: counted from 0, with the first page of the range as number 0.
pub proof fn lemma_outline_leads_to_pages(
    bookmarks: Seq<BookmarkModel>,
    from_page: int,
    end_page: int,
    index: int,
)
    requires
        0 <= index < outline_of(bookmarks, from_page, end_page).len(),
    ensures
        exists|bookmark: BookmarkModel| #[trigger]
            is_listed(bookmark, bookmarks) && leads_with(
                outline_of(bookmarks, from_page, end_page)[index],
                bookmark,
                from_page,
                end_page,
            ),
    decreases bookmarks,
{
    let all = outline_of(bookmarks, from_page, end_page);
    let before = outline_of(bookmarks.drop_last(), from_page, end_page);
    let last = bookmarks.last();
    let at = bookmarks.len() - 1;
    assert(bookmarks[at] == last);
    let children = outline_of(last.children, from_page, end_page);
    if index < before.len() {
        lemma_outline_leads_to_pages(bookmarks.drop_last(), from_page, end_page, index);
        let found = choose|found: BookmarkModel| #[trigger]
            is_listed(found, bookmarks.drop_last()) && leads_with(
                before[index],
                found,
                from_page,
                end_page,
            );
        let i = choose|i: int|
            0 <= i < at && (#[trigger] bookmarks.drop_last()[i] == found || is_listed(
                found,
                bookmarks.drop_last()[i].children,
            ));
        assert(bookmarks[i] == bookmarks.drop_last()[i]);
        assert(is_listed(found, bookmarks));
        assert(all[index] == before[index]);
    } else {
        let in_range = match bookmark_page(last.url) {
            Some(page) => from_page <= page <= end_page,
            None => false,
        };
        if in_range {
            assert(is_listed(last, bookmarks));
            assert(leads_with(all[index], last, from_page, end_page));
        } else {
            lemma_outline_leads_to_pages(
                last.children,
                from_page,
                end_page,
                index - before.len(),
            );
            let found = choose|found: BookmarkModel| #[trigger]
                is_listed(found, last.children) && leads_with(
                    children[index - before.len()],
                    found,
                    from_page,
                    end_page,
                );
            assert(is_listed(found, bookmarks));
            assert(all[index] == children[index - before.len()]);
        }
    }
}

/// Whether a bookmark of an outline has the title of a bookmark of a document, leads to its
/// page, and has below it the outline of those below the other.
pub open spec fn leads_with(
    item: OutlineModel,
    bookmark: BookmarkModel,
    from_page: int,
    end_page: int,
) -> bool {
    &&& item.title == bookmark.title
    &&& bookmark_page(bookmark.url) matches Some(page)
    &&& page == from_page + item.page_index
    &&& from_page <= page <= end_page
    &&& item.children == outline_of(bookmark.children, from_page, end_page)
}

/// A bookmark whose address is a number sign and a page number leads to that page.
pub proof fn lemma_address_of_page(page: nat)
    requires
        page <= usize::MAX,
    ensures
        bookmark_page("#"@ + crate::text::decimal(page)) == Some(page),
{
    let text = "#"@ + crate::text::decimal(page);
    reveal_strlit("#");
    crate::number::lemma_decimal_value(page);
    crate::text::lemma_decimal_bytes(page);
    crate::text::lemma_decimal_digits(page);
    assert forall|i: int| 0 <= i < text.len() implies #[trigger] text[i] as nat <= 127 by {
        if i > 0 {
            assert(text[i] == crate::text::decimal(page)[i - 1]);
        }
    }
    assert forall|i: int|
        0 <= i < crate::text::decimal(page).len() implies #[trigger] crate::text::decimal(
        page,
    )[i] as nat <= 127 by {}
    assert(vstd::utf8::is_ascii_chars(text));
    vstd::utf8::is_ascii_chars_encode_utf8(text);
    vstd::utf8::is_ascii_chars_encode_utf8(crate::text::decimal(page));
    let bytes = crate::text::utf8(text);
    let digits = crate::text::decimal_bytes(page);
    assert(bytes.skip(1) =~= digits);
    assert(48 <= digits[0] <= 57);
}

} // verus!
