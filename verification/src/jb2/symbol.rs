//! Bitmaps of symbols and how they are cropped and painted.

use crate::bitonal::{lemma_pixel_index, BitonalBitmap};
use vstd::prelude::*;

verus! {

/// A symbol: its size and one byte for each pixel, row after row from the
/// bottom up; a pixel other than 0 is ink.
#[verifier::ext_equal]
pub struct Symbol {
    pub width: int,
    pub height: int,
    pub pixels: Seq<u8>,
}

/// A symbol without extent.
pub open spec fn empty_symbol() -> Symbol {
    Symbol { width: 0, height: 0, pixels: Seq::empty() }
}

/// There is one pixel to each place, and the size fits a signed number.
pub open spec fn symbol_wf(symbol: Symbol) -> bool {
    &&& 0 <= symbol.width <= 0x7fff_ffff
    &&& 0 <= symbol.height <= 0x7fff_ffff
    &&& symbol.pixels.len() == symbol.width * symbol.height
}

/// The value of a pixel; 0 off the symbol.
pub open spec fn symbol_at(symbol: Symbol, x: int, y: int) -> u8 {
    if 0 <= x < symbol.width && 0 <= y < symbol.height {
        symbol.pixels[y * symbol.width + x]
    } else {
        0
    }
}

/// Whether a pixel is ink.
pub open spec fn symbol_ink(symbol: Symbol, x: int, y: int) -> bool {
    symbol_at(symbol, x, y) != 0
}

/// The smallest box around the ink: it holds all of it, and each of its four
/// sides touches some.
pub open spec fn is_ink_box(
    symbol: Symbol,
    left: int,
    right: int,
    bottom: int,
    top: int,
) -> bool {
    &&& forall|x: int, y: int| #[trigger]
        symbol_ink(symbol, x, y) ==> left <= x <= right && bottom <= y <= top
    &&& exists|y: int| symbol_ink(symbol, left, y)
    &&& exists|y: int| symbol_ink(symbol, right, y)
    &&& exists|x: int| symbol_ink(symbol, x, bottom)
    &&& exists|x: int| symbol_ink(symbol, x, top)
}

/// The part of a symbol inside a box.
pub open spec fn symbol_part(
    symbol: Symbol,
    left: int,
    right: int,
    bottom: int,
    top: int,
) -> Symbol {
    let width = right - left + 1;
    let height = top - bottom + 1;
    Symbol {
        width,
        height,
        pixels: Seq::new(
            (width * height) as nat,
            |i: int| symbol_at(symbol, left + i % width, bottom + i / width),
        ),
    }
}

/// A symbol cut down to the smallest box around its ink; a symbol without ink
/// loses its extent.
pub open spec fn symbol_crop(symbol: Symbol) -> Symbol {
    if exists|x: int, y: int| symbol_ink(symbol, x, y) {
        let (left, right, bottom, top) = choose|left: int, right: int, bottom: int, top: int|
            is_ink_box(symbol, left, right, bottom, top);
        symbol_part(symbol, left, right, bottom, top)
    } else {
        empty_symbol()
    }
}

/// What the dictionary keeps of a symbol: its ink, or all of it if it has none.
pub open spec fn symbol_for_dictionary(symbol: Symbol) -> Symbol {
    let cropped = symbol_crop(symbol);
    if cropped.width == 0 || cropped.height == 0 {
        symbol
    } else {
        cropped
    }
}

/// There is only one smallest box.
proof fn lemma_ink_box_unique(
    symbol: Symbol,
    left: int,
    right: int,
    bottom: int,
    top: int,
    left2: int,
    right2: int,
    bottom2: int,
    top2: int,
)
    requires
        is_ink_box(symbol, left, right, bottom, top),
        is_ink_box(symbol, left2, right2, bottom2, top2),
    ensures
        left == left2,
        right == right2,
        bottom == bottom2,
        top == top2,
{
}

/// The smallest box around the ink lies on the symbol.
proof fn lemma_ink_box_on_symbol(
    symbol: Symbol,
    left: int,
    right: int,
    bottom: int,
    top: int,
)
    requires
        is_ink_box(symbol, left, right, bottom, top),
    ensures
        0 <= left <= right < symbol.width,
        0 <= bottom <= top < symbol.height,
{
}

/// Cropping is cutting out the smallest box.
proof fn lemma_crop_by_box(symbol: Symbol, left: int, right: int, bottom: int, top: int)
    requires
        is_ink_box(symbol, left, right, bottom, top),
    ensures
        symbol_crop(symbol) == symbol_part(symbol, left, right, bottom, top),
{
    let (left2, right2, bottom2, top2) = choose|left2: int, right2: int, bottom2: int, top2: int|
        is_ink_box(symbol, left2, right2, bottom2, top2);
    lemma_ink_box_unique(symbol, left, right, bottom, top, left2, right2, bottom2, top2);
}

/// The dictionary keeps of a symbol exactly the part from its leftmost to its rightmost ink and
/// from its lowest to its highest ink, pixel by pixel.
pub proof fn lemma_dictionary_keeps_ink(
    symbol: Symbol,
    left: int,
    right: int,
    bottom: int,
    top: int,
    leftmost: int,
    rightmost: int,
    lowest: int,
    highest: int,
)
    requires
        symbol_wf(symbol),
        symbol_ink(symbol, left, leftmost),
        symbol_ink(symbol, right, rightmost),
        symbol_ink(symbol, lowest, bottom),
        symbol_ink(symbol, highest, top),
        forall|x: int, y: int|
            (x < left || right < x || y < bottom || top < y) ==> !#[trigger] symbol_ink(
                symbol,
                x,
                y,
            ),
    ensures
        ({
            let kept = symbol_for_dictionary(symbol);
            &&& kept.width == right - left + 1
            &&& kept.height == top - bottom + 1
            &&& kept.pixels.len() == kept.width * kept.height
            &&& forall|x: int, y: int|
                0 <= x < kept.width && 0 <= y < kept.height ==> #[trigger] symbol_at(kept, x, y)
                    == symbol_at(symbol, left + x, bottom + y)
        }),
{
    assert(is_ink_box(symbol, left, right, bottom, top));
    lemma_ink_box_on_symbol(symbol, left, right, bottom, top);
    lemma_crop_by_box(symbol, left, right, bottom, top);
    let kept = symbol_part(symbol, left, right, bottom, top);
    assert(kept.width * kept.height >= 0) by (nonlinear_arith)
        requires
            kept.width >= 1,
            kept.height >= 1,
    ;
    assert forall|x: int, y: int|
        0 <= x < kept.width && 0 <= y < kept.height implies #[trigger] symbol_at(kept, x, y)
        == symbol_at(symbol, left + x, bottom + y) by {
        lemma_pixel_index(kept.width, kept.height, x, y);
        vstd::arithmetic::div_mod::lemma_fundamental_div_mod_converse(
            y * kept.width + x,
            kept.width,
            y,
            x,
        );
    }
}

/// A number kept within the range of an `i32`.
pub open spec fn saturate(value: int) -> int {
    if value < i32::MIN {
        i32::MIN as int
    } else if value > i32::MAX {
        i32::MAX as int
    } else {
        value
    }
}

/// The row of a page, counted from its top, that takes row `source_y` of a symbol
/// whose lower edge is at height `y`.
pub open spec fn blit_dest_row(page_height: int, y: int, source_y: int) -> int {
    saturate(saturate(saturate(page_height - y) - 1) - source_y)
}

/// Paints the pixels of one row of a symbol from column `source_x` on.
pub open spec fn blit_row(
    page: Seq<bool>,
    page_width: int,
    symbol: Symbol,
    x: i32,
    dest_y: int,
    source_y: int,
    source_x: int,
) -> Seq<bool>
    decreases symbol.width - source_x,
{
    if source_x >= symbol.width {
        page
    } else {
        let dest_x = x.wrapping_add(source_x as i32) as int;
        let painted = if symbol_ink(symbol, source_x, source_y) && 0 <= dest_x < page_width {
            page.update(dest_y * page_width + dest_x, true)
        } else {
            page
        };
        blit_row(painted, page_width, symbol, x, dest_y, source_y, source_x + 1)
    }
}

/// Paints the rows of a symbol from row `source_y` on.
pub open spec fn blit_rows(
    page: Seq<bool>,
    page_width: int,
    page_height: int,
    symbol: Symbol,
    x: i32,
    y: i32,
    source_y: int,
) -> Seq<bool>
    decreases symbol.height - source_y,
{
    if source_y >= symbol.height {
        page
    } else {
        let dest_y = blit_dest_row(page_height, y as int, source_y);
        let painted = if 0 <= dest_y < page_height {
            blit_row(page, page_width, symbol, x, dest_y, source_y, 0)
        } else {
            page
        };
        blit_rows(painted, page_width, page_height, symbol, x, y, source_y + 1)
    }
}

/// Paints a symbol with its lower left corner at column `x` and height `y`; what
/// lies off the page is lost.
#[verifier::opaque]
pub open spec fn blit(
    page: Seq<bool>,
    page_width: int,
    page_height: int,
    symbol: Symbol,
    x: i32,
    y: i32,
) -> Seq<bool> {
    blit_rows(page, page_width, page_height, symbol, x, y, 0)
}

proof fn lemma_blit_row_len(
    page: Seq<bool>,
    page_width: int,
    symbol: Symbol,
    x: i32,
    dest_y: int,
    source_y: int,
    source_x: int,
    page_height: int,
)
    requires
        0 <= dest_y < page_height,
        page_width * page_height <= page.len(),
    ensures
        blit_row(page, page_width, symbol, x, dest_y, source_y, source_x).len() == page.len(),
        forall|i: int|
            0 <= i < page.len() && page[i] ==> #[trigger] blit_row(
                page,
                page_width,
                symbol,
                x,
                dest_y,
                source_y,
                source_x,
            )[i],
    decreases symbol.width - source_x,
{
    if source_x < symbol.width {
        let dest_x = x.wrapping_add(source_x as i32) as int;
        let painted = if symbol_ink(symbol, source_x, source_y) && 0 <= dest_x < page_width {
            page.update(dest_y * page_width + dest_x, true)
        } else {
            page
        };
        if 0 <= dest_x < page_width {
            lemma_pixel_index(page_width, page_height, dest_x, dest_y);
        }
        lemma_blit_row_len(
            painted,
            page_width,
            symbol,
            x,
            dest_y,
            source_y,
            source_x + 1,
            page_height,
        );
        assert forall|i: int| 0 <= i < page.len() && page[i] implies #[trigger] blit_row(
            page,
            page_width,
            symbol,
            x,
            dest_y,
            source_y,
            source_x,
        )[i] by {
            assert(painted[i]);
            assert(blit_row(painted, page_width, symbol, x, dest_y, source_y, source_x + 1)[i]);
        }
    }
}

proof fn lemma_blit_rows_len(
    page: Seq<bool>,
    page_width: int,
    page_height: int,
    symbol: Symbol,
    x: i32,
    y: i32,
    source_y: int,
)
    requires
        page_width * page_height <= page.len(),
    ensures
        blit_rows(page, page_width, page_height, symbol, x, y, source_y).len() == page.len(),
        forall|i: int|
            0 <= i < page.len() && page[i] ==> #[trigger] blit_rows(
                page,
                page_width,
                page_height,
                symbol,
                x,
                y,
                source_y,
            )[i],
    decreases symbol.height - source_y,
{
    if source_y < symbol.height {
        let dest_y = blit_dest_row(page_height, y as int, source_y);
        let painted = if 0 <= dest_y < page_height {
            blit_row(page, page_width, symbol, x, dest_y, source_y, 0)
        } else {
            page
        };
        if 0 <= dest_y < page_height {
            lemma_blit_row_len(page, page_width, symbol, x, dest_y, source_y, 0, page_height);
        }
        lemma_blit_rows_len(painted, page_width, page_height, symbol, x, y, source_y + 1);
        assert forall|i: int| 0 <= i < page.len() && page[i] implies #[trigger] blit_rows(
            page,
            page_width,
            page_height,
            symbol,
            x,
            y,
            source_y,
        )[i] by {
            assert(painted[i]);
            assert(blit_rows(painted, page_width, page_height, symbol, x, y, source_y + 1)[i]);
        }
    }
}

/// Painting a symbol keeps the size of the page and every black pixel on it.
pub proof fn lemma_blit_keeps_black(
    page: Seq<bool>,
    page_width: int,
    page_height: int,
    symbol: Symbol,
    x: i32,
    y: i32,
)
    requires
        page_width * page_height <= page.len(),
    ensures
        blit(page, page_width, page_height, symbol, x, y).len() == page.len(),
        forall|i: int|
            0 <= i < page.len() && page[i] ==> #[trigger] blit(
                page,
                page_width,
                page_height,
                symbol,
                x,
                y,
            )[i],
{
    reveal(blit);
    lemma_blit_rows_len(page, page_width, page_height, symbol, x, y, 0);
}

/// A symbol without ink leaves the page as it was.
pub proof fn lemma_blit_without_ink(
    page: Seq<bool>,
    page_width: int,
    page_height: int,
    symbol: Symbol,
    x: i32,
    y: i32,
)
    requires
        forall|u: int, v: int| !symbol_ink(symbol, u, v),
    ensures
        blit(page, page_width, page_height, symbol, x, y) == page,
{
    reveal(blit);
    lemma_blit_rows_without_ink(page, page_width, page_height, symbol, x, y, 0);
}

proof fn lemma_blit_row_without_ink(
    page: Seq<bool>,
    page_width: int,
    symbol: Symbol,
    x: i32,
    dest_y: int,
    source_y: int,
    source_x: int,
)
    requires
        forall|u: int, v: int| !symbol_ink(symbol, u, v),
    ensures
        blit_row(page, page_width, symbol, x, dest_y, source_y, source_x) == page,
    decreases symbol.width - source_x,
{
    if source_x < symbol.width {
        assert(!symbol_ink(symbol, source_x, source_y));
        lemma_blit_row_without_ink(page, page_width, symbol, x, dest_y, source_y, source_x + 1);
    }
}

proof fn lemma_blit_rows_without_ink(
    page: Seq<bool>,
    page_width: int,
    page_height: int,
    symbol: Symbol,
    x: i32,
    y: i32,
    source_y: int,
)
    requires
        forall|u: int, v: int| !symbol_ink(symbol, u, v),
    ensures
        blit_rows(page, page_width, page_height, symbol, x, y, source_y) == page,
    decreases symbol.height - source_y,
{
    if source_y < symbol.height {
        let dest_y = blit_dest_row(page_height, y as int, source_y);
        lemma_blit_row_without_ink(page, page_width, symbol, x, dest_y, source_y, 0);
        lemma_blit_rows_without_ink(page, page_width, page_height, symbol, x, y, source_y + 1);
    }
}

/// A decoded symbol.
#[derive(Debug, Clone, Eq, PartialEq)]
pub struct Jb2SymbolBitmap {
    pub width: u32,
    pub height: u32,
    pub pixels: Vec<u8>,
}

impl View for Jb2SymbolBitmap {
    type V = Symbol;

    open spec fn view(&self) -> Symbol {
        Symbol { width: self.width as int, height: self.height as int, pixels: self.pixels@ }
    }
}

impl Jb2SymbolBitmap {
    /// There is one pixel to each place, and the size fits a signed number.
    pub open spec fn wf(&self) -> bool {
        symbol_wf(self@)
    }

    /// A copy.
    pub fn duplicate(&self) -> (copy: Self)
        ensures
            copy@ == self@,
    {
        let mut pixels: Vec<u8> = Vec::new();
        crate::text::push_bytes(&mut pixels, self.pixels.as_slice());
        assert(pixels@ =~= self.pixels@);
        Jb2SymbolBitmap { width: self.width, height: self.height, pixels }
    }

    /// What the dictionary keeps of the symbol: its ink, or all of it if it has none.
    pub fn dictionary_symbol(&self) -> (kept: Self)
        requires
            self.wf(),
        ensures
            kept@ == symbol_for_dictionary(self@),
            kept.wf(),
    {
        let cropped = self.crop_to_content();
        if cropped.width == 0 || cropped.height == 0 {
            self.duplicate()
        } else {
            cropped
        }
    }

    /// The symbol cut down to the smallest box around its ink.
    pub fn crop_to_content(&self) -> (cropped: Self)
        requires
            self.wf(),
        ensures
            cropped@ == symbol_crop(self@),
            cropped.wf(),
    {
        let mut found: bool = false;
        let mut min_x: u32 = 0;
        let mut max_x: u32 = 0;
        let mut min_y: u32 = 0;
        let mut max_y: u32 = 0;
        let mut y: u32 = 0;
        while y < self.height
            invariant
                self.wf(),
                y <= self.height,
                !found ==> forall|u: int, v: int| v < y ==> !symbol_ink(self@, u, v),
                found ==> {
                    &&& forall|u: int, v: int| #[trigger]
                        symbol_ink(self@, u, v) && v < y ==> min_x <= u <= max_x && min_y <= v
                            <= max_y
                    &&& exists|v: int| symbol_ink(self@, min_x as int, v)
                    &&& exists|v: int| symbol_ink(self@, max_x as int, v)
                    &&& exists|u: int| symbol_ink(self@, u, min_y as int)
                    &&& exists|u: int| symbol_ink(self@, u, max_y as int)
                },
            decreases self.height - y,
        {
            let mut x: u32 = 0;
            while x < self.width
                invariant
                    self.wf(),
                    x <= self.width,
                    y < self.height,
                    !found ==> forall|u: int, v: int|
                        v < y || (v == y && u < x) ==> !symbol_ink(self@, u, v),
                    found ==> {
                        &&& forall|u: int, v: int| #[trigger]
                            symbol_ink(self@, u, v) && (v < y || (v == y && u < x)) ==> min_x <= u
                                <= max_x && min_y <= v <= max_y
                        &&& exists|v: int| symbol_ink(self@, min_x as int, v)
                        &&& exists|v: int| symbol_ink(self@, max_x as int, v)
                        &&& exists|u: int| symbol_ink(self@, u, min_y as int)
                        &&& exists|u: int| symbol_ink(self@, u, max_y as int)
                    },
                decreases self.width - x,
            {
                if self.pixel(x, y) != 0 {
                    assert(symbol_ink(self@, x as int, y as int));
                    if !found {
                        found = true;
                        min_x = x;
                        max_x = x;
                        min_y = y;
                        max_y = y;
                    } else {
                        if x < min_x {
                            min_x = x;
                        }
                        if x > max_x {
                            max_x = x;
                        }
                        if y < min_y {
                            min_y = y;
                        }
                        if y > max_y {
                            max_y = y;
                        }
                    }
                }
                x = x + 1;
            }
            y = y + 1;
        }
        if !found {
            assert(forall|u: int, v: int| !symbol_ink(self@, u, v));
            let cropped = Jb2SymbolBitmap { width: 0, height: 0, pixels: Vec::new() };
            assert(cropped@ =~= empty_symbol());
            return cropped;
        }
        assert(is_ink_box(self@, min_x as int, max_x as int, min_y as int, max_y as int));
        proof {
            lemma_crop_by_box(self@, min_x as int, max_x as int, min_y as int, max_y as int);
            lemma_ink_box_on_symbol(self@, min_x as int, max_x as int, min_y as int, max_y as int);
        }
        self.part(min_x, max_x, min_y, max_y)
    }

    /// The part of the symbol inside a box.
    fn part(&self, left: u32, right: u32, bottom: u32, top: u32) -> (part: Self)
        requires
            self.wf(),
            left <= right < self.width,
            bottom <= top < self.height,
        ensures
            part@ == symbol_part(self@, left as int, right as int, bottom as int, top as int),
            part.wf(),
    {
        let width: u32 = right - left + 1;
        let height: u32 = top - bottom + 1;
        let ghost whole = symbol_part(
            self@,
            left as int,
            right as int,
            bottom as int,
            top as int,
        ).pixels;
        let mut pixels: Vec<u8> = Vec::new();
        assert(0 <= width * height) by (nonlinear_arith);
        let mut y: u32 = 0;
        while y < height
            invariant
                self.wf(),
                left <= right < self.width,
                bottom <= top < self.height,
                width == right - left + 1,
                height == top - bottom + 1,
                whole == symbol_part(
                    self@,
                    left as int,
                    right as int,
                    bottom as int,
                    top as int,
                ).pixels,
                y <= height,
                pixels@.len() == y * width,
                y * width <= width * height,
                forall|i: int| 0 <= i < pixels@.len() ==> pixels@[i] == whole[i],
            decreases height - y,
        {
            let mut x: u32 = 0;
            while x < width
                invariant
                    self.wf(),
                    left <= right < self.width,
                    bottom <= top < self.height,
                    width == right - left + 1,
                    height == top - bottom + 1,
                    whole == symbol_part(
                        self@,
                        left as int,
                        right as int,
                        bottom as int,
                        top as int,
                    ).pixels,
                    y < height,
                    x <= width,
                    pixels@.len() == y * width + x,
                    forall|i: int| 0 <= i < pixels@.len() ==> pixels@[i] == whole[i],
                decreases width - x,
            {
                proof {
                    let i = y * width + x;
                    lemma_pixel_index(width as int, height as int, x as int, y as int);
                    vstd::arithmetic::div_mod::lemma_fundamental_div_mod_converse(
                        i,
                        width as int,
                        y as int,
                        x as int,
                    );
                }
                pixels.push(self.pixel(left + x, bottom + y));
                x = x + 1;
            }
            proof {
                lemma_pixel_index(width as int, height as int, 0, y as int);
                assert((y + 1) * width <= width * height) by (nonlinear_arith)
                    requires
                        y + 1 <= height,
                ;
            }
            y = y + 1;
        }
        assert(height * width == width * height) by (nonlinear_arith);
        assert(pixels@ =~= whole);
        Jb2SymbolBitmap { width, height, pixels }
    }

    /// The value of a pixel; 0 off the symbol.
    pub fn pixel(&self, x: u32, y: u32) -> (value: u8)
        requires
            self.wf(),
        ensures
            value == symbol_at(self@, x as int, y as int),
    {
        if x >= self.width || y >= self.height {
            return 0;
        }
        proof {
            lemma_pixel_index(self.width as int, self.height as int, x as int, y as int);
            assert(self.pixels@.len() == self.pixels.len());
        }
        self.pixels[y as usize * self.width as usize + x as usize]
    }
}

/// The value of a pixel at a place that may lie off the symbol.
pub fn symbol_pixel_at(symbol: &Jb2SymbolBitmap, x: i64, y: i64) -> (value: u32)
    requires
        symbol.wf(),
    ensures
        value == symbol_at(symbol@, x as int, y as int),
{
    if x < 0 || y < 0 || x >= symbol.width as i64 || y >= symbol.height as i64 {
        return 0;
    }
    symbol.pixel(x as u32, y as u32) as u32
}

/// A number kept within the range of an `i32`.
fn saturating(value: i64) -> (kept: i64)
    ensures
        kept == saturate(value as int),
{
    if value < i32::MIN as i64 {
        i32::MIN as i64
    } else if value > i32::MAX as i64 {
        i32::MAX as i64
    } else {
        value
    }
}

/// Paints a symbol with its lower left corner at column `x` and height `y`.
pub fn blit_symbol(mask: &mut BitonalBitmap, symbol: &Jb2SymbolBitmap, x: i32, y: i32)
    requires
        old(mask).wf(),
        old(mask).height <= 0x7fff_ffff,
        symbol.wf(),
    ensures
        final(mask).wf(),
        final(mask).width == old(mask).width,
        final(mask).height == old(mask).height,
        final(mask)@ == blit(
            old(mask)@,
            old(mask).width as int,
            old(mask).height as int,
            symbol@,
            x,
            y,
        ),
{
    proof {
        reveal(blit);
    }
    let mut source_y: u32 = 0;
    while source_y < symbol.height
        invariant
            mask.wf(),
            mask.width == old(mask).width,
            mask.height == old(mask).height,
            mask.height <= 0x7fff_ffff,
            symbol.wf(),
            source_y <= symbol.height,
            blit_rows(
                mask@,
                mask.width as int,
                mask.height as int,
                symbol@,
                x,
                y,
                source_y as int,
            ) == blit_rows(
                old(mask)@,
                old(mask).width as int,
                old(mask).height as int,
                symbol@,
                x,
                y,
                0,
            ),
        decreases symbol.height - source_y,
    {
        let from_top: i64 = saturating(saturating(mask.height as i64 - y as i64) - 1);
        let dest_y: i64 = saturating(from_top - source_y as i64);
        if 0 <= dest_y && dest_y < mask.height as i64 {
            let ghost start = mask@;
            let mut source_x: u32 = 0;
            while source_x < symbol.width
                invariant
                    mask.wf(),
                    mask.width == old(mask).width,
                    mask.height == old(mask).height,
                    symbol.wf(),
                    source_y < symbol.height,
                    source_x <= symbol.width,
                    0 <= dest_y < mask.height,
                    blit_row(
                        mask@,
                        mask.width as int,
                        symbol@,
                        x,
                        dest_y as int,
                        source_y as int,
                        source_x as int,
                    ) == blit_row(
                        start,
                        mask.width as int,
                        symbol@,
                        x,
                        dest_y as int,
                        source_y as int,
                        0,
                    ),
                decreases symbol.width - source_x,
            {
                let dest_x: i32 = x.wrapping_add(source_x as i32);
                if dest_x >= 0 && symbol.pixel(source_x, source_y) != 0 {
                    mask.set_bit(dest_x as u32, dest_y as u32, true);
                }
                source_x = source_x + 1;
            }
        }
        source_y = source_y + 1;
    }
}

} // verus!
