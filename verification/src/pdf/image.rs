//! Images of whole pages.

use crate::bitonal::{byte_count, mask_rows};
use crate::jb2::Jb2PartialImage;
use crate::pdf::stream::{
    bitonal_stream_bytes, ccitt_group4_image_stream_object, image_stream_bytes,
    image_stream_object, zlib_bytes,
};
use crate::pdf::{PdfError, PdfResult};
use crate::render::bitmap::{pixels_of_shade, BitmapModel, PageBitmap};
use crate::render::plan::{MaskModel, PartialPageRender};
use crate::text::{
    decimal, decimal_bytes, push_bytes, push_decimal, push_decimal_bytes, push_text, text_of,
    utf8,
};
use vstd::prelude::*;

verus! {

/// The image of a page: in colour, in shades of gray, or in black on white.
#[derive(Debug, Clone, Eq, PartialEq)]
pub enum PdfPageImage {
    Rgb8 { width: u32, height: u32, dpi: u16, pixels: Vec<u8> },
    Gray8 { width: u32, height: u32, dpi: u16, pixels: Vec<u8> },
    BitonalMask { width: u32, height: u32, dpi: u16, mask: Vec<u8> },
}

/// The image of a page by its values.
#[verifier::ext_equal]
pub enum ImageModel {
    Rgb8 { width: u32, height: u32, dpi: u16, pixels: Seq<u8> },
    Gray8 { width: u32, height: u32, dpi: u16, pixels: Seq<u8> },
    BitonalMask { width: u32, height: u32, dpi: u16, mask: Seq<u8> },
}

impl View for PdfPageImage {
    type V = ImageModel;

    open spec fn view(&self) -> ImageModel {
        match self {
            PdfPageImage::Rgb8 { width, height, dpi, pixels } => ImageModel::Rgb8 {
                width: *width,
                height: *height,
                dpi: *dpi,
                pixels: pixels@,
            },
            PdfPageImage::Gray8 { width, height, dpi, pixels } => ImageModel::Gray8 {
                width: *width,
                height: *height,
                dpi: *dpi,
                pixels: pixels@,
            },
            PdfPageImage::BitonalMask { width, height, dpi, mask } => ImageModel::BitonalMask {
                width: *width,
                height: *height,
                dpi: *dpi,
                mask: mask@,
            },
        }
    }
}

impl ImageModel {
    /// The width in pixels.
    pub open spec fn width(self) -> u32 {
        match self {
            ImageModel::Rgb8 { width, .. } => width,
            ImageModel::Gray8 { width, .. } => width,
            ImageModel::BitonalMask { width, .. } => width,
        }
    }

    /// The height in pixels.
    pub open spec fn height(self) -> u32 {
        match self {
            ImageModel::Rgb8 { height, .. } => height,
            ImageModel::Gray8 { height, .. } => height,
            ImageModel::BitonalMask { height, .. } => height,
        }
    }

    /// The pixels to the inch.
    pub open spec fn dpi(self) -> u16 {
        match self {
            ImageModel::Rgb8 { dpi, .. } => dpi,
            ImageModel::Gray8 { dpi, .. } => dpi,
            ImageModel::BitonalMask { dpi, .. } => dpi,
        }
    }

    /// How many bytes the image has.
    pub open spec fn len(self) -> nat {
        match self {
            ImageModel::Rgb8 { pixels, .. } => pixels.len(),
            ImageModel::Gray8 { pixels, .. } => pixels.len(),
            ImageModel::BitonalMask { mask, .. } => mask.len(),
        }
    }

    /// How many bytes an image of its size has.
    pub open spec fn expected_len(self) -> nat {
        match self {
            ImageModel::Rgb8 { width, height, .. } => 3 * (width as nat * height as nat),
            ImageModel::Gray8 { width, height, .. } => width as nat * height as nat,
            ImageModel::BitonalMask { width, height, .. } => byte_count(width as nat)
                * height as nat,
        }
    }

    /// What its page is called in an error.
    pub open spec fn page_name(self) -> Seq<char> {
        match self {
            ImageModel::Rgb8 { .. } => "RGB page"@,
            ImageModel::Gray8 { .. } => "grayscale page"@,
            ImageModel::BitonalMask { .. } => "bitonal page"@,
        }
    }
}

/// What is said of a wrong number of bytes.
pub open spec fn wrong_length(name: Seq<char>, len: nat, expected: nat) -> Seq<char> {
    name + " has "@ + decimal(len) + " bytes, expected "@ + decimal(expected)
}

/// Why an image cannot be a page, if it cannot.
pub open spec fn image_fault(image: ImageModel) -> Option<Seq<char>> {
    if image.expected_len() > usize::MAX {
        Some("bitmap dimensions overflow"@)
    } else if image.len() != image.expected_len() {
        Some(wrong_length(image.page_name(), image.len(), image.expected_len()))
    } else {
        None
    }
}

/// Why a bitmap cannot be a page, if it cannot.
pub open spec fn bitmap_fault(bitmap: BitmapModel) -> Option<Seq<char>> {
    let expected = 3 * (bitmap.width as nat * bitmap.height as nat);
    if expected > usize::MAX {
        Some("bitmap dimensions overflow"@)
    } else if bitmap.pixels.len() != expected {
        Some(wrong_length("bitmap"@, bitmap.pixels.len(), expected))
    } else {
        None
    }
}

/// The shades of pixels, if every one of them is gray.
pub open spec fn gray_pixels(pixels: Seq<u8>) -> Option<Seq<u8>> {
    if pixels.len() % 3 == 0 && forall|i: int|
        0 <= i < pixels.len() / 3 ==> #[trigger] pixels[3 * i] == pixels[3 * i + 1] && pixels[3 * i
            + 1] == pixels[3 * i + 2] {
        Some(Seq::new(pixels.len() / 3, |i: int| pixels[3 * i]))
    } else {
        None
    }
}

/// The masks of a page that was rendered: their sizes and pixels.
pub open spec fn mask_pages(masks: Seq<(usize, MaskModel)>) -> Seq<(u32, u32, Seq<bool>)> {
    Seq::new(
        masks.len(),
        |i: int| (masks[i].1.0.width, masks[i].1.0.height, masks[i].1.1.page),
    )
}

/// The masks of a page that was rendered: their sizes and pixels.
pub open spec fn mask_images(masks: Seq<(usize, Jb2PartialImage)>) -> Seq<
    (u32, u32, Seq<bool>),
> {
    Seq::new(
        masks.len(),
        |i: int| (masks[i].1.mask.width, masks[i].1.mask.height, masks[i].1.mask@),
    )
}

/// How many bytes a white page has, as far as there is memory for it.
pub open spec fn white_len(bitmap: BitmapModel) -> nat {
    let len = byte_count(bitmap.width as nat) * bitmap.height as nat;
    if len > usize::MAX {
        usize::MAX as nat
    } else {
        len
    }
}

/// The image of a page that was rendered. With layers it is in colour. Without layers it is
/// the first mask, where that is as large as the page, and without masks too it is all
/// white, where nothing is black. Else it is gray, where every pixel is, and in colour where
/// one is not.
pub open spec fn image_of(
    bitmap: BitmapModel,
    layers: nat,
    masks: Seq<(u32, u32, Seq<bool>)>,
) -> ImageModel {
    let (width, height, dpi) = (bitmap.width, bitmap.height, bitmap.dpi);
    if layers > 0 {
        ImageModel::Rgb8 { width, height, dpi, pixels: bitmap.pixels }
    } else if masks.len() > 0 && masks[0].0 == width && masks[0].1 == height {
        ImageModel::BitonalMask {
            width,
            height,
            dpi,
            mask: mask_rows(masks[0].2, width as int, height as int),
        }
    } else if masks.len() == 0 && pixels_of_shade(
        bitmap.pixels,
        0,
        bitmap.pixels.len() as int / 3,
    ) == 0 {
        ImageModel::BitonalMask {
            width,
            height,
            dpi,
            mask: Seq::new(white_len(bitmap), |i: int| 0u8),
        }
    } else {
        match gray_pixels(bitmap.pixels) {
            Some(pixels) => ImageModel::Gray8 { width, height, dpi, pixels },
            None => ImageModel::Rgb8 { width, height, dpi, pixels: bitmap.pixels },
        }
    }
}

/// The dictionary of an image, up to its colours.
pub open spec fn size_dictionary(width: nat, height: nat) -> Seq<u8> {
    utf8("/Type /XObject /Subtype /Image /Width "@) + decimal_bytes(width) + utf8(" /Height "@)
        + decimal_bytes(height)
}

/// The object of an image.
#[verifier::opaque]
pub open spec fn image_object(image: ImageModel) -> Seq<u8> {
    let size = size_dictionary(image.width() as nat, image.height() as nat);
    match image {
        ImageModel::Rgb8 { pixels, .. } => image_stream_bytes(
            size + utf8(" /ColorSpace /DeviceRGB /BitsPerComponent 8"@),
            pixels,
            zlib_bytes(pixels),
        ),
        ImageModel::Gray8 { pixels, .. } => image_stream_bytes(
            size + utf8(" /ColorSpace /DeviceGray /BitsPerComponent 8"@),
            pixels,
            zlib_bytes(pixels),
        ),
        ImageModel::BitonalMask { width, height, mask, .. } => bitonal_stream_bytes(
            size + utf8(" /ColorSpace /DeviceGray /BitsPerComponent 1 /Decode [1 0]"@),
            width as int,
            height as int,
            mask,
        ),
    }
}

/// The error of a wrong number of bytes.
fn wrong_length_error(name: &str, len: usize, expected: usize) -> (error: PdfError)
    ensures
        error@ == wrong_length(name@, len as nat, expected as nat),
{
    let mut message: String = text_of(name);
    message.append(" has ");
    push_decimal(&mut message, len as u64);
    message.append(" bytes, expected ");
    push_decimal(&mut message, expected as u64);
    PdfError(message)
}

/// How many bytes an image in shades of gray has.
fn gray_len(width: u32, height: u32) -> (len: PdfResult<usize>)
    ensures
        width * height <= usize::MAX ==> len is Ok && len->Ok_0 == width * height,
        width * height > usize::MAX ==> len is Err && len->Err_0@
            == "bitmap dimensions overflow"@,
{
    match (width as usize).checked_mul(height as usize) {
        Some(len) => Ok(len),
        None => Err(PdfError::new("bitmap dimensions overflow")),
    }
}

/// How many bytes an image in colour has.
fn rgb_len(width: u32, height: u32) -> (len: PdfResult<usize>)
    ensures
        3 * (width * height) <= usize::MAX ==> len is Ok && len->Ok_0 == 3 * (width * height),
        3 * (width * height) > usize::MAX ==> len is Err && len->Err_0@
            == "bitmap dimensions overflow"@,
{
    assert(0 <= width * height) by (nonlinear_arith);
    match gray_len(width, height) {
        Ok(pixels) => match pixels.checked_mul(3) {
            Some(len) => Ok(len),
            None => Err(PdfError::new("bitmap dimensions overflow")),
        },
        Err(error) => Err(error),
    }
}

/// How many bytes an image in black on white has.
fn bitonal_len(width: u32, height: u32) -> (len: PdfResult<usize>)
    ensures
        byte_count(width as nat) * height <= usize::MAX ==> len is Ok && len->Ok_0 == byte_count(
            width as nat,
        ) * height,
        byte_count(width as nat) * height > usize::MAX ==> len is Err && len->Err_0@
            == "bitmap dimensions overflow"@,
{
    match row_len(width).checked_mul(height as usize) {
        Some(len) => Ok(len),
        None => Err(PdfError::new("bitmap dimensions overflow")),
    }
}

/// How many bytes a row in black on white has.
fn row_len(width: u32) -> (len: usize)
    ensures
        len == byte_count(width as nat),
{
    (width / 8) as usize + if width % 8 == 0 {
        0
    } else {
        1
    }
}

/// Insists that a bitmap can be a page.
pub fn validate_bitmap(bitmap: &PageBitmap) -> (done: PdfResult<()>)
    ensures
        match bitmap_fault(bitmap@) {
            Some(message) => done is Err && done->Err_0@ == message,
            None => done is Ok,
        },
{
    assert(bitmap.width as nat * bitmap.height as nat == bitmap.width * bitmap.height);
    match rgb_len(bitmap.width, bitmap.height) {
        Err(error) => Err(error),
        Ok(expected_len) => if bitmap.pixels.len() != expected_len {
            Err(wrong_length_error("bitmap", bitmap.pixels.len(), expected_len))
        } else {
            Ok(())
        },
    }
}

/// Insists that an image can be a page.
pub fn validate_page_image(page: &PdfPageImage) -> (done: PdfResult<()>)
    ensures
        match image_fault(page@) {
            Some(message) => done is Err && done->Err_0@ == message,
            None => done is Ok,
        },
{
    match page {
        PdfPageImage::Rgb8 { width, height, pixels, .. } => match rgb_len(*width, *height) {
            Err(error) => Err(error),
            Ok(expected_len) => if pixels.len() != expected_len {
                Err(wrong_length_error("RGB page", pixels.len(), expected_len))
            } else {
                Ok(())
            },
        },
        PdfPageImage::Gray8 { width, height, pixels, .. } => match gray_len(*width, *height) {
            Err(error) => Err(error),
            Ok(expected_len) => if pixels.len() != expected_len {
                Err(wrong_length_error("grayscale page", pixels.len(), expected_len))
            } else {
                Ok(())
            },
        },
        PdfPageImage::BitonalMask { width, height, mask, .. } => match bitonal_len(
            *width,
            *height,
        ) {
            Err(error) => Err(error),
            Ok(expected_len) => if mask.len() != expected_len {
                Err(wrong_length_error("bitonal page", mask.len(), expected_len))
            } else {
                Ok(())
            },
        },
    }
}

/// The shades of pixels, if every one of them is gray.
pub fn rgb_pixels_to_gray8(pixels: &[u8]) -> (shades: Option<Vec<u8>>)
    ensures
        match gray_pixels(pixels@) {
            Some(expected) => shades is Some && shades->0@ == expected,
            None => shades is None,
        },
{
    let count: usize = pixels.len() / 3;
    let mut gray: Vec<u8> = Vec::new();
    let mut i: usize = 0;
    assert(pixels@.len() == pixels.len());
    while i < count
        invariant
            i <= count,
            count == pixels@.len() / 3,
            pixels@.len() <= usize::MAX,
            gray@.len() == i,
            forall|k: int|
                0 <= k < i ==> #[trigger] pixels@[3 * k] == pixels@[3 * k + 1] && pixels@[3 * k
                    + 1] == pixels@[3 * k + 2],
            forall|k: int| 0 <= k < i ==> #[trigger] gray@[k] == pixels@[3 * k],
        decreases count - i,
    {
        if pixels[3 * i] != pixels[3 * i + 1] || pixels[3 * i + 1] != pixels[3 * i + 2] {
            assert(pixels@[3 * i as int] == pixels@[3 * i]);
            return None;
        }
        gray.push(pixels[3 * i]);
        i = i + 1;
    }
    if pixels.len() % 3 == 0 {
        assert(gray@ =~= gray_pixels(pixels@)->0);
        Some(gray)
    } else {
        None
    }
}

/// Whether one of the pixels is black.
fn has_black_pixel(pixels: &[u8]) -> (has: bool)
    ensures
        has == (pixels_of_shade(pixels@, 0, pixels@.len() as int / 3) > 0),
{
    let count: usize = pixels.len() / 3;
    let mut i: usize = 0;
    let mut has: bool = false;
    assert(pixels@.len() == pixels.len());
    while i < count
        invariant
            i <= count,
            count == pixels@.len() / 3,
            pixels@.len() <= usize::MAX,
            has == (pixels_of_shade(pixels@, 0, i as int) > 0),
        decreases count - i,
    {
        if pixels[3 * i] == 0 && pixels[3 * i + 1] == 0 && pixels[3 * i + 2] == 0 {
            has = true;
        }
        i = i + 1;
    }
    has
}

/// So many zero bytes.
fn zero_bytes(len: usize) -> (bytes: Vec<u8>)
    ensures
        bytes@ == Seq::new(len as nat, |i: int| 0u8),
{
    let mut bytes: Vec<u8> = Vec::new();
    let mut i: usize = 0;
    while i < len
        invariant
            i <= len,
            bytes@ == Seq::new(i as nat, |k: int| 0u8),
        decreases len - i,
    {
        bytes.push(0);
        i = i + 1;
        assert(bytes@ =~= Seq::new(i as nat, |k: int| 0u8));
    }
    bytes
}

impl PdfPageImage {
    /// The image of a page that was rendered.
    #[must_use]
    pub fn from_render(render: &PartialPageRender) -> (image: Self)
        requires
            forall|i: int|
                0 <= i < render.bitonal_masks@.len() ==> (
                #[trigger] render.bitonal_masks@[i]).1.mask.wf(),
        ensures
            image@ == image_of(
                render.bitmap@,
                render.iw44_layers@.len(),
                mask_images(render.bitonal_masks@),
            ),
    {
        let bitmap: &PageBitmap = &render.bitmap;
        let (width, height, dpi) = (bitmap.width, bitmap.height, bitmap.dpi);
        if render.iw44_layers.len() == 0 {
            if render.bitonal_masks.len() > 0 {
                let bitonal: &Jb2PartialImage = &render.bitonal_masks[0].1;
                if bitonal.mask.width == width && bitonal.mask.height == height {
                    return PdfPageImage::BitonalMask {
                        width,
                        height,
                        dpi,
                        mask: bitonal.mask.to_image_mask_bytes(),
                    };
                }
            } else if !has_black_pixel(bitmap.pixels.as_slice()) {
                let len: usize = match row_len(width).checked_mul(height as usize) {
                    Some(len) => len,
                    None => usize::MAX,
                };
                return PdfPageImage::BitonalMask { width, height, dpi, mask: zero_bytes(len) };
            }
            match rgb_pixels_to_gray8(bitmap.pixels.as_slice()) {
                Some(pixels) => {
                    return PdfPageImage::Gray8 { width, height, dpi, pixels };
                },
                None => {},
            }
        }
        let mut pixels: Vec<u8> = Vec::new();
        push_bytes(&mut pixels, bitmap.pixels.as_slice());
        assert(pixels@ =~= bitmap.pixels@);
        PdfPageImage::Rgb8 { width, height, dpi, pixels }
    }

    /// The width in pixels.
    #[must_use]
    pub fn width(&self) -> (width: u32)
        ensures
            width == self@.width(),
    {
        match self {
            PdfPageImage::Rgb8 { width, .. } => *width,
            PdfPageImage::Gray8 { width, .. } => *width,
            PdfPageImage::BitonalMask { width, .. } => *width,
        }
    }

    /// The height in pixels.
    #[must_use]
    pub fn height(&self) -> (height: u32)
        ensures
            height == self@.height(),
    {
        match self {
            PdfPageImage::Rgb8 { height, .. } => *height,
            PdfPageImage::Gray8 { height, .. } => *height,
            PdfPageImage::BitonalMask { height, .. } => *height,
        }
    }

    /// The pixels to the inch.
    #[must_use]
    pub fn dpi(&self) -> (dpi: u16)
        ensures
            dpi == self@.dpi(),
    {
        match self {
            PdfPageImage::Rgb8 { dpi, .. } => *dpi,
            PdfPageImage::Gray8 { dpi, .. } => *dpi,
            PdfPageImage::BitonalMask { dpi, .. } => *dpi,
        }
    }

    /// Whether the image is in black on white.
    #[must_use]
    pub fn is_bitonal_mask(&self) -> (bitonal: bool)
        ensures
            bitonal == (self@ is BitonalMask),
    {
        matches!(self, PdfPageImage::BitonalMask { .. })
    }

    /// The object of the image.
    pub fn image_stream_object(&self) -> (object: Vec<u8>)
        requires
            image_fault(self@) is None,
            self@ is BitonalMask ==> self@.width() < usize::MAX,
        ensures
            object@ == image_object(self@),
    {
        reveal(image_object);
        let mut dictionary: Vec<u8> = Vec::new();
        push_text(&mut dictionary, "/Type /XObject /Subtype /Image /Width ");
        push_decimal_bytes(&mut dictionary, self.width() as u64);
        push_text(&mut dictionary, " /Height ");
        push_decimal_bytes(&mut dictionary, self.height() as u64);
        assert(dictionary@ =~= size_dictionary(
            self@.width() as nat,
            self@.height() as nat,
        ));
        match self {
            PdfPageImage::Rgb8 { pixels, .. } => {
                push_text(&mut dictionary, " /ColorSpace /DeviceRGB /BitsPerComponent 8");
                image_stream_object(dictionary.as_slice(), pixels.as_slice())
            },
            PdfPageImage::Gray8 { pixels, .. } => {
                push_text(&mut dictionary, " /ColorSpace /DeviceGray /BitsPerComponent 8");
                image_stream_object(dictionary.as_slice(), pixels.as_slice())
            },
            PdfPageImage::BitonalMask { width, height, mask, .. } => {
                push_text(
                    &mut dictionary,
                    " /ColorSpace /DeviceGray /BitsPerComponent 1 /Decode [1 0]",
                );
                ccitt_group4_image_stream_object(
                    dictionary.as_slice(),
                    *width,
                    *height,
                    mask.as_slice(),
                )
            },
        }
    }
}

} // verus!
