//! Bitmaps of red, green and blue.

use crate::bitonal::{lemma_pixel_index, BitonalBitmap};
use crate::info::PageInfo;
use crate::iw44::header::Iw44PageMapping;
use crate::iw44::Iw44RgbImage;
use crate::render::layer::{
    image_of, iw44_background_pixel, iw44_rgb_layer_matches_page, iw44_source_coordinate,
    layer_channel, layer_matches, masked_channel, Image,
};
use vstd::arithmetic::div_mod::lemma_fundamental_div_mod_converse;
use vstd::prelude::*;

verus! {

/// How pixels are stored.
#[derive(Debug, Clone, Copy, Eq, PartialEq, Structural)]
pub enum PixelFormat {
    Rgb8,
}

/// A bitmap: three bytes to the pixel, row by row from the top.
#[derive(Debug, Clone, Eq, PartialEq)]
pub struct PageBitmap {
    pub width: u32,
    pub height: u32,
    pub dpi: u16,
    pub format: PixelFormat,
    pub pixels: Vec<u8>,
}

/// A bitmap by its values.
#[verifier::ext_equal]
pub struct BitmapModel {
    pub width: u32,
    pub height: u32,
    pub dpi: u16,
    pub pixels: Seq<u8>,
}

/// A bitmap in numbers.
#[derive(Debug, Clone, Copy, Eq, PartialEq, Structural)]
pub struct PageBitmapStats {
    pub width: u32,
    pub height: u32,
    pub pixel_count: usize,
    pub black_pixels: usize,
    pub white_pixels: usize,
    pub non_gray_pixels: usize,
    pub component_sum: u64,
    pub fingerprint: u64,
}

impl View for PageBitmap {
    type V = BitmapModel;

    open spec fn view(&self) -> BitmapModel {
        BitmapModel {
            width: self.width,
            height: self.height,
            dpi: self.dpi,
            pixels: self.pixels@,
        }
    }
}

/// A bitmap all in one colour.
pub open spec fn uniform(width: u32, height: u32, dpi: u16, color: Seq<u8>) -> BitmapModel {
    BitmapModel {
        width,
        height,
        dpi,
        pixels: Seq::new((3 * (width * height)) as nat, |i: int| color[i % 3]),
    }
}

/// Pixels with one colour wherever a mask is set.
pub open spec fn painted_mask(pixels: Seq<u8>, mask: Seq<bool>, color: Seq<u8>) -> Seq<u8> {
    Seq::new(
        pixels.len(),
        |i: int|
            if mask[i / 3] {
                color[i % 3]
            } else {
                pixels[i]
            },
    )
}

/// Pixels of a page that a layer covers.
pub open spec fn painted_layer(bitmap: BitmapModel, image: Image, mapping: Iw44PageMapping) -> Seq<
    u8,
> {
    Seq::new(
        bitmap.pixels.len(),
        |i: int|
            layer_channel(
                image,
                mapping,
                (i / 3) % (bitmap.width as int),
                (i / 3) / (bitmap.width as int),
                i % 3,
            ),
    )
}

/// Pixels of a page with those of a layer wherever a mask is set.
pub open spec fn painted_through(
    bitmap: BitmapModel,
    image: Image,
    mapping: Iw44PageMapping,
    mask: Seq<bool>,
) -> Seq<u8> {
    Seq::new(
        bitmap.pixels.len(),
        |i: int|
            if mask[i / 3] {
                masked_channel(
                    image,
                    mapping,
                    (i / 3) % (bitmap.width as int),
                    (i / 3) / (bitmap.width as int),
                    i % 3,
                )
            } else {
                bitmap.pixels[i]
            },
    )
}

/// How many of the first `count` pixels have all three components equal to a value.
pub open spec fn pixels_of_shade(pixels: Seq<u8>, shade: u8, count: int) -> nat
    decreases count,
{
    if count <= 0 {
        0
    } else {
        let at = 3 * (count - 1);
        pixels_of_shade(pixels, shade, count - 1) + if pixels[at] == shade && pixels[at + 1]
            == shade && pixels[at + 2] == shade {
            1nat
        } else {
            0nat
        }
    }
}

/// How many of the first `count` pixels are not gray.
pub open spec fn colored_pixels(pixels: Seq<u8>, count: int) -> nat
    decreases count,
{
    if count <= 0 {
        0
    } else {
        let at = 3 * (count - 1);
        colored_pixels(pixels, count - 1) + if pixels[at] != pixels[at + 1] || pixels[at + 1]
            != pixels[at + 2] {
            1nat
        } else {
            0nat
        }
    }
}

/// The sum of the first bytes.
pub open spec fn byte_sum(bytes: Seq<u8>, count: int) -> nat
    decreases count,
{
    if count <= 0 {
        0
    } else {
        byte_sum(bytes, count - 1) + bytes[count - 1] as nat
    }
}

/// The factor of the 64-bit FNV-1a hash.
pub const FNV_PRIME: u64 = 0x0000_0100_0000_01b3;

/// The start of the 64-bit FNV-1a hash.
pub const FNV_START: u64 = 0xcbf2_9ce4_8422_2325;

/// The 64-bit FNV-1a hash of the first bytes, from a given start.
pub open spec fn fnv1a(hash: u64, bytes: Seq<u8>, count: int) -> u64
    decreases count,
{
    if count <= 0 {
        hash
    } else {
        (fnv1a(hash, bytes, count - 1) ^ (bytes[count - 1] as u64)).wrapping_mul(FNV_PRIME)
    }
}

/// The bytes of a number of two bytes, high byte first.
pub open spec fn be16(value: u16) -> Seq<u8> {
    seq![(value / 256) as u8, (value % 256) as u8]
}

/// The bytes of a number of four bytes, high byte first.
pub open spec fn be32(value: u32) -> Seq<u8> {
    seq![
        (value / 16777216) as u8,
        ((value / 65536) % 256) as u8,
        ((value / 256) % 256) as u8,
        (value % 256) as u8,
    ]
}

/// What is hashed of a bitmap: its size, its resolution and its whole pixels.
pub open spec fn hashed_bytes(bitmap: BitmapModel) -> Seq<u8> {
    be32(bitmap.width) + be32(bitmap.height) + be16(bitmap.dpi) + bitmap.pixels.take(
        3 * (bitmap.pixels.len() as int / 3),
    )
}

/// A bitmap in numbers.
pub open spec fn stats_of(bitmap: BitmapModel) -> PageBitmapStats {
    let count = bitmap.pixels.len() as int / 3;
    PageBitmapStats {
        width: bitmap.width,
        height: bitmap.height,
        pixel_count: count as usize,
        black_pixels: pixels_of_shade(bitmap.pixels, 0, count) as usize,
        white_pixels: pixels_of_shade(bitmap.pixels, 255, count) as usize,
        non_gray_pixels: colored_pixels(bitmap.pixels, count) as usize,
        component_sum: byte_sum(bitmap.pixels, 3 * count) as u64,
        fingerprint: fnv1a(
            FNV_START,
            hashed_bytes(bitmap),
            hashed_bytes(bitmap).len() as int,
        ),
    }
}

/// Where the first byte of the pixel in a column and row stands, among its three.
pub(crate) proof fn lemma_component_place(width: int, height: int, x: int, y: int, k: int)
    requires
        0 <= x < width,
        0 <= y < height,
        0 <= k < 3,
    ensures
        ({
            let i = 3 * (y * width + x) + k;
            &&& i / 3 == y * width + x
            &&& i % 3 == k
            &&& (i / 3) % width == x
            &&& (i / 3) / width == y
            &&& 0 <= i < 3 * (width * height)
        }),
{
    lemma_pixel_index(width, height, x, y);
    lemma_fundamental_div_mod_converse(y * width + x, width, y, x);
}

proof fn lemma_shade_range(pixels: Seq<u8>, shade: u8, count: int)
    requires
        0 <= count,
    ensures
        pixels_of_shade(pixels, shade, count) <= count,
    decreases count,
{
    if count > 0 {
        lemma_shade_range(pixels, shade, count - 1);
    }
}

proof fn lemma_colored_range(pixels: Seq<u8>, count: int)
    requires
        0 <= count,
    ensures
        colored_pixels(pixels, count) <= count,
    decreases count,
{
    if count > 0 {
        lemma_colored_range(pixels, count - 1);
    }
}

proof fn lemma_byte_sum_range(bytes: Seq<u8>, count: int)
    requires
        0 <= count,
    ensures
        byte_sum(bytes, count) <= 255 * count,
    decreases count,
{
    if count > 0 {
        lemma_byte_sum_range(bytes, count - 1);
    }
}

proof fn lemma_fnv1a_joined(hash: u64, first: Seq<u8>, second: Seq<u8>, count: int)
    requires
        0 <= count <= second.len(),
    ensures
        fnv1a(hash, first + second, first.len() + count) == fnv1a(
            fnv1a(hash, first, first.len() as int),
            second,
            count,
        ),
    decreases first.len() + count,
{
    if count > 0 {
        lemma_fnv1a_joined(hash, first, second, count - 1);
        assert((first + second)[first.len() + count - 1] == second[count - 1]);
    } else if first.len() > 0 {
        lemma_fnv1a_prefix(hash, first + second, first, first.len() as int);
    }
}

proof fn lemma_fnv1a_prefix(hash: u64, long: Seq<u8>, short: Seq<u8>, count: int)
    requires
        0 <= count <= short.len() <= long.len(),
        forall|i: int| 0 <= i < count ==> long[i] == short[i],
    ensures
        fnv1a(hash, long, count) == fnv1a(hash, short, count),
    decreases count,
{
    if count > 0 {
        lemma_fnv1a_prefix(hash, long, short, count - 1);
    }
}

/// Hashes bytes from a given start.
fn fnv1a_u64(hash: u64, bytes: &[u8], start: usize, end: usize) -> (hashed: u64)
    requires
        start <= end <= bytes@.len(),
    ensures
        hashed == fnv1a(hash, bytes@.subrange(start as int, end as int), end - start),
{
    let mut hashed: u64 = hash;
    let mut i: usize = start;
    let ghost part = bytes@.subrange(start as int, end as int);
    while i < end
        invariant
            start <= i <= end <= bytes@.len(),
            part == bytes@.subrange(start as int, end as int),
            hashed == fnv1a(hash, part, i - start),
        decreases end - i,
    {
        let byte: u64 = bytes[i] as u64;
        assert(part[i - start] == bytes@[i as int]);
        hashed = (hashed ^ byte).wrapping_mul(FNV_PRIME);
        i = i + 1;
    }
    hashed
}

impl PageBitmap {
    /// There are three bytes for each pixel.
    pub open spec fn wf(&self) -> bool {
        self.pixels@.len() == 3 * (self.width * self.height)
    }

    /// A bitmap all in one colour.
    #[must_use]
    pub fn new_rgb8(width: u32, height: u32, dpi: u16, fill: [u8; 3]) -> (bitmap: Self)
        requires
            3 * (width * height) <= usize::MAX,
        ensures
            bitmap.wf(),
            bitmap@ == uniform(width, height, dpi, fill@),
    {
        assert(0 <= width * height) by (nonlinear_arith);
        let count: usize = width as usize * height as usize;
        let mut pixels: Vec<u8> = Vec::new();
        let mut i: usize = 0;
        while i < count
            invariant
                i <= count,
                3 * count <= usize::MAX,
                pixels@.len() == 3 * i,
                forall|k: int| 0 <= k < 3 * i ==> #[trigger] pixels@[k] == fill@[k % 3],
            decreases count - i,
        {
            pixels.push(fill[0]);
            pixels.push(fill[1]);
            pixels.push(fill[2]);
            i = i + 1;
        }
        let bitmap = PageBitmap { width, height, dpi, format: PixelFormat::Rgb8, pixels };
        assert(bitmap@ =~= uniform(width, height, dpi, fill@));
        bitmap
    }

    /// The white bitmap of a page.
    #[must_use]
    pub fn white_rgb8(info: &PageInfo) -> (bitmap: Self)
        requires
            3 * (info.width * info.height) <= usize::MAX,
        ensures
            bitmap.wf(),
            bitmap@ == uniform(
                info.width as u32,
                info.height as u32,
                info.dpi,
                seq![255u8, 255u8, 255u8],
            ),
    {
        let white: [u8; 3] = [0xff, 0xff, 0xff];
        assert(white@ =~= seq![255u8, 255u8, 255u8]);
        PageBitmap::new_rgb8(info.width as u32, info.height as u32, info.dpi, white)
    }

    /// Where a pixel starts, if it is on the bitmap and a `usize` can tell.
    #[must_use]
    pub fn pixel_offset(&self, x: u32, y: u32) -> (offset: Option<usize>)
        ensures
            offset is Some <==> x < self.width && y < self.height && 3 * (y * self.width + x)
                <= usize::MAX,
            offset matches Some(offset) ==> offset == 3 * (y * self.width + x),
    {
        if x >= self.width || y >= self.height {
            return None;
        }
        assert(0 <= y * self.width) by (nonlinear_arith)
            requires
                0 <= y,
                0 <= self.width,
        ;
        match (y as usize).checked_mul(self.width as usize) {
            None => None,
            Some(row) => match row.checked_add(x as usize) {
                None => None,
                Some(index) => index.checked_mul(3),
            },
        }
    }

    /// Colours a pixel; tells whether it is on the bitmap.
    pub fn set_rgb(&mut self, x: u32, y: u32, color: [u8; 3]) -> (done: bool)
        requires
            old(self).wf(),
        ensures
            final(self).wf(),
            final(self).width == old(self).width,
            final(self).height == old(self).height,
            final(self).dpi == old(self).dpi,
            done == (x < old(self).width && y < old(self).height),
            final(self).pixels@ == if done {
                let offset = 3 * (y * old(self).width + x);
                old(self).pixels@.update(offset, color[0]).update(offset + 1, color[1]).update(
                    offset + 2,
                    color[2],
                )
            } else {
                old(self).pixels@
            },
    {
        proof {
            assert(self.pixels@.len() == self.pixels.len());
            if x < self.width && y < self.height {
                lemma_pixel_index(self.width as int, self.height as int, x as int, y as int);
            }
        }
        let offset: usize = match self.pixel_offset(x, y) {
            None => {
                return false;
            },
            Some(offset) => offset,
        };
        self.pixels.set(offset, color[0]);
        self.pixels.set(offset + 1, color[1]);
        self.pixels.set(offset + 2, color[2]);
        true
    }

    /// Paints a colour wherever a mask is set; tells whether the mask has the size of the
    /// bitmap.
    pub fn paint_bitonal_mask(&mut self, mask: &BitonalBitmap, color: [u8; 3]) -> (done: bool)
        requires
            old(self).wf(),
            mask.wf(),
        ensures
            final(self).wf(),
            done == (mask.width == old(self).width && mask.height == old(self).height),
            final(self)@ == if done {
                BitmapModel {
                    pixels: painted_mask(old(self).pixels@, mask@, color@),
                    ..old(self)@
                }
            } else {
                old(self)@
            },
    {
        if mask.width != self.width || mask.height != self.height {
            return false;
        }
        let ghost before = self@;
        let ghost expected = painted_mask(before.pixels, mask@, color@);
        let ghost width = self.width as int;
        let ghost height = self.height as int;
        let mut y: u32 = 0;
        while y < mask.height
            invariant
                y <= mask.height,
                self.wf(),
                mask.wf(),
                self.width == before.width == mask.width == width,
                self.height == before.height == mask.height == height,
                self.dpi == before.dpi,
                before.pixels.len() == 3 * (width * height),
                expected == painted_mask(before.pixels, mask@, color@),
                forall|i: int| 0 <= i < 3 * (y * width) ==> self.pixels@[i] == expected[i],
                forall|i: int|
                    3 * (y * width) <= i < self.pixels@.len() ==> self.pixels@[i]
                        == before.pixels[i],
            decreases mask.height - y,
        {
            let mut x: u32 = 0;
            while x < mask.width
                invariant
                    x <= mask.width,
                    y < mask.height,
                    self.wf(),
                    mask.wf(),
                    self.width == before.width == mask.width == width,
                    self.height == before.height == mask.height == height,
                    self.dpi == before.dpi,
                    before.pixels.len() == 3 * (width * height),
                    expected == painted_mask(before.pixels, mask@, color@),
                    forall|i: int|
                        0 <= i < 3 * (y * width + x) ==> self.pixels@[i] == expected[i],
                    forall|i: int|
                        3 * (y * width + x) <= i < self.pixels@.len() ==> self.pixels@[i]
                            == before.pixels[i],
                decreases mask.width - x,
            {
                proof {
                    lemma_component_place(width, height, x as int, y as int, 0);
                    lemma_component_place(width, height, x as int, y as int, 1);
                    lemma_component_place(width, height, x as int, y as int, 2);
                }
                let black: bool = match mask.bit(x, y) {
                    Some(black) => black,
                    None => false,
                };
                if black {
                    self.set_rgb(x, y, color);
                }
                x = x + 1;
            }
            assert((y + 1) * width == y * width + width) by (nonlinear_arith);
            y = y + 1;
        }
        assert(y * width == width * height) by (nonlinear_arith)
            requires
                y == height,
        ;
        assert(self.pixels@ =~= expected);
        true
    }

    /// Paints a layer over the page; tells whether it lies on a page of this size.
    pub fn paint_iw44_rgb_layer(&mut self, image: &Iw44RgbImage, mapping: &Iw44PageMapping) -> (done:
        bool)
        requires
            old(self).wf(),
        ensures
            final(self).wf(),
            done == layer_matches(
                image_of(*image),
                *mapping,
                old(self).width as int,
                old(self).height as int,
            ),
            final(self)@ == if done {
                BitmapModel {
                    pixels: painted_layer(old(self)@, image_of(*image), *mapping),
                    ..old(self)@
                }
            } else {
                old(self)@
            },
    {
        if !iw44_rgb_layer_matches_page(image, mapping, self.width, self.height) {
            return false;
        }
        let ghost before = self@;
        let ghost layer = image_of(*image);
        let ghost expected = painted_layer(before, layer, *mapping);
        let ghost width = self.width as int;
        let ghost height = self.height as int;
        let mut y: u32 = 0;
        while y < self.height
            invariant
                y <= self.height,
                self.wf(),
                self.width == before.width == width,
                self.height == before.height == height,
                self.dpi == before.dpi,
                before.pixels.len() == 3 * (width * height),
                layer == image_of(*image),
                layer_matches(layer, *mapping, width, height),
                expected == painted_layer(before, layer, *mapping),
                forall|i: int| 0 <= i < 3 * (y * width) ==> self.pixels@[i] == expected[i],
            decreases self.height - y,
        {
            let mut x: u32 = 0;
            while x < self.width
                invariant
                    x <= self.width,
                    y < self.height,
                    self.wf(),
                    self.width == before.width == width,
                    self.height == before.height == height,
                    self.dpi == before.dpi,
                    before.pixels.len() == 3 * (width * height),
                    layer == image_of(*image),
                    layer_matches(layer, *mapping, width, height),
                    expected == painted_layer(before, layer, *mapping),
                    forall|i: int|
                        0 <= i < 3 * (y * width + x) ==> self.pixels@[i] == expected[i],
                decreases self.width - x,
            {
                proof {
                    lemma_component_place(width, height, x as int, y as int, 0);
                    lemma_component_place(width, height, x as int, y as int, 1);
                    lemma_component_place(width, height, x as int, y as int, 2);
                }
                let color: [u8; 3] = iw44_background_pixel(image, mapping, x, y);
                self.set_rgb(x, y, color);
                x = x + 1;
            }
            assert((y + 1) * width == y * width + width) by (nonlinear_arith);
            y = y + 1;
        }
        assert(y * width == width * height) by (nonlinear_arith)
            requires
                y == height,
        ;
        assert(self.pixels@ =~= expected);
        true
    }

    /// Paints a layer wherever a mask is set; tells whether both lie on a page of this
    /// size.
    pub fn paint_iw44_rgb_layer_through_mask(
        &mut self,
        image: &Iw44RgbImage,
        mapping: &Iw44PageMapping,
        mask: &BitonalBitmap,
    ) -> (done: bool)
        requires
            old(self).wf(),
            mask.wf(),
        ensures
            final(self).wf(),
            done == (mask.width == old(self).width && mask.height == old(self).height
                && layer_matches(
                image_of(*image),
                *mapping,
                old(self).width as int,
                old(self).height as int,
            )),
            final(self)@ == if done {
                BitmapModel {
                    pixels: painted_through(old(self)@, image_of(*image), *mapping, mask@),
                    ..old(self)@
                }
            } else {
                old(self)@
            },
    {
        if mask.width != self.width || mask.height != self.height || !iw44_rgb_layer_matches_page(
            image,
            mapping,
            self.width,
            self.height,
        ) {
            return false;
        }
        let ghost before = self@;
        let ghost layer = image_of(*image);
        let ghost expected = painted_through(before, layer, *mapping, mask@);
        let ghost width = self.width as int;
        let ghost height = self.height as int;
        let mut y: u32 = 0;
        while y < self.height
            invariant
                y <= self.height,
                self.wf(),
                mask.wf(),
                self.width == before.width == mask.width == width,
                self.height == before.height == mask.height == height,
                self.dpi == before.dpi,
                before.pixels.len() == 3 * (width * height),
                layer == image_of(*image),
                layer_matches(layer, *mapping, width, height),
                expected == painted_through(before, layer, *mapping, mask@),
                forall|i: int| 0 <= i < 3 * (y * width) ==> self.pixels@[i] == expected[i],
                forall|i: int|
                    3 * (y * width) <= i < self.pixels@.len() ==> self.pixels@[i]
                        == before.pixels[i],
            decreases self.height - y,
        {
            let source_y: usize = iw44_source_coordinate(
                y,
                mapping.vertical_overscan,
                mapping.subsample,
                image.height,
            );
            let mut x: u32 = 0;
            while x < self.width
                invariant
                    x <= self.width,
                    y < self.height,
                    self.wf(),
                    mask.wf(),
                    self.width == before.width == mask.width == width,
                    self.height == before.height == mask.height == height,
                    self.dpi == before.dpi,
                    before.pixels.len() == 3 * (width * height),
                    layer == image_of(*image),
                    layer_matches(layer, *mapping, width, height),
                    expected == painted_through(before, layer, *mapping, mask@),
                    source_y == crate::render::layer::source_coordinate(
                        y as int,
                        mapping.vertical_overscan as int,
                        mapping.subsample as int,
                        image.height as int,
                    ),
                    source_y < image.height,
                    forall|i: int|
                        0 <= i < 3 * (y * width + x) ==> self.pixels@[i] == expected[i],
                    forall|i: int|
                        3 * (y * width + x) <= i < self.pixels@.len() ==> self.pixels@[i]
                            == before.pixels[i],
                decreases self.width - x,
            {
                proof {
                    lemma_component_place(width, height, x as int, y as int, 0);
                    lemma_component_place(width, height, x as int, y as int, 1);
                    lemma_component_place(width, height, x as int, y as int, 2);
                }
                let black: bool = match mask.bit(x, y) {
                    Some(black) => black,
                    None => false,
                };
                if black {
                    let source_x: usize = iw44_source_coordinate(
                        x,
                        0,
                        mapping.subsample,
                        image.width,
                    );
                    let color: [u8; 3] = crate::render::layer::iw44_native_pixel(
                        image,
                        source_x,
                        source_y,
                    );
                    self.set_rgb(x, y, color);
                }
                x = x + 1;
            }
            assert((y + 1) * width == y * width + width) by (nonlinear_arith);
            y = y + 1;
        }
        assert(y * width == width * height) by (nonlinear_arith)
            requires
                y == height,
        ;
        assert(self.pixels@ =~= expected);
        true
    }

    /// The bitmap in numbers.
    #[must_use]
    pub fn stats(&self) -> (stats: PageBitmapStats)
        requires
            255 * self.pixels@.len() <= u64::MAX,
        ensures
            stats == stats_of(self@),
    {
        let pixels: &[u8] = self.pixels.as_slice();
        let count: usize = pixels.len() / 3;
        assert(pixels@.len() == pixels.len());
        let mut black_pixels: usize = 0;
        let mut white_pixels: usize = 0;
        let mut non_gray_pixels: usize = 0;
        let mut component_sum: u64 = 0;
        let header: [u8; 10] = [
            (self.width / 16777216) as u8,
            ((self.width / 65536) % 256) as u8,
            ((self.width / 256) % 256) as u8,
            (self.width % 256) as u8,
            (self.height / 16777216) as u8,
            ((self.height / 65536) % 256) as u8,
            ((self.height / 256) % 256) as u8,
            (self.height % 256) as u8,
            (self.dpi / 256) as u8,
            (self.dpi % 256) as u8,
        ];
        let ghost prefix = be32(self.width) + be32(self.height) + be16(self.dpi);
        assert(header@ =~= prefix);
        assert(header@.subrange(0, 10) =~= prefix);
        let start: u64 = fnv1a_u64(FNV_START, header.as_slice(), 0, 10);
        let mut i: usize = 0;
        while i < count
            invariant
                i <= count,
                count == pixels@.len() / 3,
                pixels@.len() <= usize::MAX,
                255 * pixels@.len() <= u64::MAX,
                black_pixels == pixels_of_shade(pixels@, 0, i as int),
                white_pixels == pixels_of_shade(pixels@, 255, i as int),
                non_gray_pixels == colored_pixels(pixels@, i as int),
                component_sum == byte_sum(pixels@, 3 * i),
            decreases count - i,
        {
            proof {
                lemma_shade_range(pixels@, 0, i as int);
                lemma_shade_range(pixels@, 255, i as int);
                lemma_colored_range(pixels@, i as int);
                lemma_byte_sum_range(pixels@, 3 * i);
            }
            let red: u8 = pixels[3 * i];
            let green: u8 = pixels[3 * i + 1];
            let blue: u8 = pixels[3 * i + 2];
            if red == 0 && green == 0 && blue == 0 {
                black_pixels = black_pixels + 1;
            }
            if red == 0xff && green == 0xff && blue == 0xff {
                white_pixels = white_pixels + 1;
            }
            if red != green || green != blue {
                non_gray_pixels = non_gray_pixels + 1;
            }
            component_sum = component_sum + (red as u64 + green as u64 + blue as u64);
            proof {
                reveal_with_fuel(byte_sum, 4);
            }
            i = i + 1;
        }
        let whole: usize = 3 * count;
        let fingerprint: u64 = fnv1a_u64(start, pixels, 0, whole);
        proof {
            let rest = pixels@.take(whole as int);
            assert(pixels@.subrange(0, whole as int) =~= rest);
            assert(hashed_bytes(self@) =~= prefix + rest);
            lemma_fnv1a_joined(FNV_START, prefix, rest, rest.len() as int);
        }
        PageBitmapStats {
            width: self.width,
            height: self.height,
            pixel_count: count,
            black_pixels,
            white_pixels,
            non_gray_pixels,
            component_sum,
            fingerprint,
        }
    }
}

/// A mask that is set nowhere leaves the pixels as they are.
pub proof fn lemma_blank_mask_paints_nothing(pixels: Seq<u8>, mask: Seq<bool>, color: Seq<u8>)
    requires
        pixels.len() <= 3 * mask.len(),
        forall|i: int| 0 <= i < mask.len() ==> !mask[i],
    ensures
        painted_mask(pixels, mask, color) == pixels,
{
    assert(painted_mask(pixels, mask, color) =~= pixels);
}

/// Painting a mask twice is the same as painting it once.
pub proof fn lemma_painting_twice(pixels: Seq<u8>, mask: Seq<bool>, color: Seq<u8>)
    ensures
        painted_mask(painted_mask(pixels, mask, color), mask, color) == painted_mask(
            pixels,
            mask,
            color,
        ),
{
    assert(painted_mask(painted_mask(pixels, mask, color), mask, color) =~= painted_mask(
        pixels,
        mask,
        color,
    ));
}

} // verus!
