//! Symbol bitmaps coded pixel by pixel in contexts of their neighbours.

use super::symbol::{symbol_at, symbol_pixel_at, symbol_wf, Jb2SymbolBitmap, Symbol};
use crate::zp::{zp_context_bit, SpecZpDecoder, ZpState};
use vstd::prelude::*;

verus! {

/// The coder, the contexts of one kind of bitmap, and the pixels decoded.
#[verifier::ext_equal]
pub struct Coding {
    pub zp: ZpState,
    pub contexts: Seq<u8>,
    pub pixels: Seq<u8>,
}

/// Every pixel is 0 or 1.
pub open spec fn binary(pixels: Seq<u8>) -> bool {
    forall|i: int| 0 <= i < pixels.len() ==> #[trigger] pixels[i] <= 1
}

/// A pixel of a row; 0 off the row.
pub open spec fn row_at(row: Seq<u8>, x: int) -> int {
    if 0 <= x < row.len() {
        row[x] as int
    } else {
        0
    }
}

/// Decodes one pixel in the context of the given number and appends it.
pub open spec fn code_pixel(coding: Coding, context: int) -> Coding {
    let (bit, zp, state) = zp_context_bit(coding.zp, coding.contexts[context]);
    Coding {
        zp,
        contexts: coding.contexts.update(context, state),
        pixels: coding.pixels.push(if bit { 1 } else { 0 }),
    }
}

/// The context of a pixel of a bitmap coded on its own: three pixels two rows
/// above, five pixels one row above, and the two pixels before it.
pub open spec fn direct_context(above2: Seq<u8>, above1: Seq<u8>, row: Seq<u8>, x: int) -> int {
    512 * row_at(above2, x - 1) + 256 * row_at(above2, x) + 128 * row_at(above2, x + 1) + 64
        * row_at(above1, x - 2) + 32 * row_at(above1, x - 1) + 16 * row_at(above1, x) + 8 * row_at(
        above1,
        x + 1,
    ) + 4 * row_at(above1, x + 2) + 2 * row_at(row, x - 2) + row_at(row, x - 1)
}

/// Decodes the rest of a row, of which `coding` holds the pixels so far.
pub open spec fn direct_row(
    coding: Coding,
    above2: Seq<u8>,
    above1: Seq<u8>,
    width: int,
) -> Coding
    decreases width - coding.pixels.len(),
{
    let x = coding.pixels.len() as int;
    if x >= width {
        coding
    } else {
        direct_row(
            code_pixel(coding, direct_context(above2, above1, coding.pixels, x)),
            above2,
            above1,
            width,
        )
    }
}

/// Decodes `count` rows from the top down below the rows that `coding` holds.
pub open spec fn direct_rows(
    coding: Coding,
    above2: Seq<u8>,
    above1: Seq<u8>,
    width: int,
    count: int,
) -> Coding
    decreases count,
{
    if count <= 0 {
        coding
    } else {
        let row = direct_row(
            Coding { pixels: Seq::empty(), ..coding },
            above2,
            above1,
            width,
        );
        direct_rows(
            Coding { pixels: row.pixels + coding.pixels, ..row },
            above1,
            row.pixels,
            width,
            count - 1,
        )
    }
}

/// Decodes a bitmap on its own.
#[verifier::opaque]
pub open spec fn direct_bitmap(
    zp: ZpState,
    contexts: Seq<u8>,
    width: int,
    height: int,
) -> Coding {
    direct_rows(
        Coding { zp, contexts, pixels: Seq::empty() },
        Seq::empty(),
        Seq::empty(),
        width,
        height,
    )
}

/// The context of a pixel of a bitmap coded as a change of another: three pixels
/// one row above, the pixel before it, and seven pixels of the other around
/// the place `(u, v)` that corresponds to it.
pub open spec fn refined_context(
    above: Seq<u8>,
    row: Seq<u8>,
    x: int,
    reference: Symbol,
    u: int,
    v: int,
) -> int {
    1024 * row_at(above, x - 1) + 512 * row_at(above, x) + 256 * row_at(above, x + 1) + 128
        * row_at(row, x - 1) + 64 * symbol_at(reference, u, v + 1) + 32 * symbol_at(
        reference,
        u - 1,
        v,
    ) + 16 * symbol_at(reference, u, v) + 8 * symbol_at(reference, u + 1, v) + 4 * symbol_at(
        reference,
        u - 1,
        v - 1,
    ) + 2 * symbol_at(reference, u, v - 1) + symbol_at(reference, u + 1, v - 1)
}

/// Decodes the rest of a row that corresponds to row `v` of the other bitmap, of
/// which column `shift` corresponds to the row's first.
pub open spec fn refined_row(
    coding: Coding,
    above: Seq<u8>,
    reference: Symbol,
    shift: int,
    v: int,
    width: int,
) -> Coding
    decreases width - coding.pixels.len(),
{
    let x = coding.pixels.len() as int;
    if x >= width {
        coding
    } else {
        refined_row(
            code_pixel(
                coding,
                refined_context(above, coding.pixels, x, reference, x + shift, v),
            ),
            above,
            reference,
            shift,
            v,
            width,
        )
    }
}

/// Decodes `count` rows from the top down below the rows that `coding` holds; the
/// last of them corresponds to row `row_shift` of the other bitmap.
pub open spec fn refined_rows(
    coding: Coding,
    above: Seq<u8>,
    reference: Symbol,
    col_shift: int,
    row_shift: int,
    width: int,
    count: int,
) -> Coding
    decreases count,
{
    if count <= 0 {
        coding
    } else {
        let row = refined_row(
            Coding { pixels: Seq::empty(), ..coding },
            above,
            reference,
            col_shift,
            count - 1 + row_shift,
            width,
        );
        refined_rows(
            Coding { pixels: row.pixels + coding.pixels, ..row },
            row.pixels,
            reference,
            col_shift,
            row_shift,
            width,
            count - 1,
        )
    }
}

/// The middle of an extent.
pub open spec fn center(extent: int) -> int {
    (extent - 1) / 2
}

/// Decodes a bitmap as a change of another, the centers of both laid together.
#[verifier::opaque]
pub open spec fn refined_bitmap(
    zp: ZpState,
    contexts: Seq<u8>,
    width: int,
    height: int,
    reference: Symbol,
) -> Coding {
    refined_rows(
        Coding { zp, contexts, pixels: Seq::empty() },
        Seq::empty(),
        reference,
        center(reference.width) - center(width),
        center(reference.height) - center(height),
        width,
        height,
    )
}

/// Writes a row over part of a bitmap.
fn copy_row(pixels: &mut Vec<u8>, start: usize, row: &Vec<u8>)
    requires
        start + row@.len() <= old(pixels)@.len(),
    ensures
        final(pixels)@ == old(pixels)@.take(start as int) + row@ + old(pixels)@.skip(
            start + row@.len(),
        ),
{
    let mut x: usize = 0;
    while x < row.len()
        invariant
            x <= row@.len(),
            start + row@.len() <= pixels@.len(),
            pixels@.len() == old(pixels)@.len(),
            forall|i: int|
                0 <= i < pixels@.len() ==> pixels@[i] == if start <= i < start + x {
                    row@[i - start]
                } else {
                    old(pixels)@[i]
                },
        decreases row@.len() - x,
    {
        assert(pixels@.len() == pixels.len());
        pixels[start + x] = row[x];
        x = x + 1;
    }
    assert(pixels@ =~= old(pixels)@.take(start as int) + row@ + old(pixels)@.skip(
        start + row@.len(),
    ));
}

/// A pixel of a row; 0 off the row.
fn pixel(row: &Vec<u8>, x: usize) -> (value: u32)
    ensures
        value == row_at(row@, x as int),
{
    if x < row.len() {
        row[x] as u32
    } else {
        0
    }
}

/// Decodes one pixel in the context of the given number and appends it.
fn decode_pixel(
    decoder: &mut SpecZpDecoder<'_>,
    contexts: &mut Vec<u8>,
    context: usize,
    row: &mut Vec<u8>,
) -> (bit: u32)
    requires
        old(decoder).wf(),
        context < old(contexts)@.len(),
        binary(old(row)@),
    ensures
        final(decoder).wf(),
        binary(final(row)@),
        final(contexts)@.len() == old(contexts)@.len(),
        final(row)@ == old(row)@.push(bit as u8),
        bit <= 1,
        (Coding { zp: final(decoder)@, contexts: final(contexts)@, pixels: final(row)@ })
            == code_pixel(
            Coding { zp: old(decoder)@, contexts: old(contexts)@, pixels: old(row)@ },
            context as int,
        ),
{
    let mut state: u8 = contexts[context];
    let bit: bool = decoder.decode_context_bit(&mut state);
    contexts[context] = state;
    let value: u8 = if bit {
        1
    } else {
        0
    };
    row.push(value);
    value as u32
}

/// Decodes a row of a bitmap coded on its own.
fn decode_direct_row(
    decoder: &mut SpecZpDecoder<'_>,
    contexts: &mut Vec<u8>,
    above2: &Vec<u8>,
    above1: &Vec<u8>,
    width: usize,
) -> (row: Vec<u8>)
    requires
        old(decoder).wf(),
        old(contexts)@.len() == 1024,
        binary(above2@),
        binary(above1@),
        width <= 0x7fff_ffff,
    ensures
        final(decoder).wf(),
        final(contexts)@.len() == 1024,
        row@.len() == width,
        binary(row@),
        (Coding { zp: final(decoder)@, contexts: final(contexts)@, pixels: row@ }) == direct_row(
            Coding { zp: old(decoder)@, contexts: old(contexts)@, pixels: Seq::empty() },
            above2@,
            above1@,
            width as int,
        ),
{
    let mut row: Vec<u8> = Vec::new();
    let mut row2: u32 = 2 * pixel(above2, 0) + pixel(above2, 1);
    let mut row1: u32 = 4 * pixel(above1, 0) + 2 * pixel(above1, 1) + pixel(above1, 2);
    let mut row0: u32 = 0;
    let mut x: usize = 0;
    while x < width
        invariant
            decoder.wf(),
            contexts@.len() == 1024,
            binary(above2@),
            binary(above1@),
            binary(row@),
            width <= 0x7fff_ffff,
            x <= width,
            row@.len() == x,
            row2 == 4 * row_at(above2@, x - 1) + 2 * row_at(above2@, x as int) + row_at(
                above2@,
                x + 1,
            ),
            row1 == 16 * row_at(above1@, x - 2) + 8 * row_at(above1@, x - 1) + 4 * row_at(
                above1@,
                x as int,
            ) + 2 * row_at(above1@, x + 1) + row_at(above1@, x + 2),
            row0 == 2 * row_at(row@, x - 2) + row_at(row@, x - 1),
            direct_row(
                Coding { zp: decoder@, contexts: contexts@, pixels: row@ },
                above2@,
                above1@,
                width as int,
            ) == direct_row(
                Coding { zp: old(decoder)@, contexts: old(contexts)@, pixels: Seq::empty() },
                above2@,
                above1@,
                width as int,
            ),
        decreases width - x,
    {
        let context: usize = (128 * row2 + 4 * row1 + row0) as usize;
        assert(context == direct_context(above2@, above1@, row@, x as int));
        let ghost before = row@;
        let bit: u32 = decode_pixel(decoder, contexts, context, &mut row);
        assert(row_at(row@, x as int) == bit);
        assert(row_at(row@, x - 1) == row_at(before, x - 1));
        row2 = (2 * row2) % 8 + pixel(above2, x + 2);
        row1 = (2 * row1) % 32 + pixel(above1, x + 3);
        row0 = (2 * row0) % 4 + bit;
        x = x + 1;
    }
    row
}

/// Decodes a bitmap on its own.
pub fn decode_direct_bitmap(
    decoder: &mut SpecZpDecoder<'_>,
    contexts: &mut Vec<u8>,
    width: u32,
    height: u32,
) -> (symbol: Jb2SymbolBitmap)
    requires
        old(decoder).wf(),
        old(contexts)@.len() == 1024,
        width <= 0x7fff_ffff,
        height <= 0x7fff_ffff,
        width * height <= usize::MAX,
    ensures
        final(decoder).wf(),
        final(contexts)@.len() == 1024,
        symbol.width == width,
        symbol.height == height,
        symbol.wf(),
        binary(symbol@.pixels),
        (Coding { zp: final(decoder)@, contexts: final(contexts)@, pixels: symbol@.pixels })
            == direct_bitmap(old(decoder)@, old(contexts)@, width as int, height as int),
{
    proof {
        reveal(direct_bitmap);
        assert(0 <= width * height) by (nonlinear_arith);
        assert(height * width == width * height) by (nonlinear_arith);
    }
    let ghost whole = direct_bitmap(old(decoder)@, old(contexts)@, width as int, height as int);
    let row_len: usize = width as usize;
    let size: usize = row_len * height as usize;
    let mut pixels: Vec<u8> = vec![0; size];
    let mut above2: Vec<u8> = Vec::new();
    let mut above1: Vec<u8> = Vec::new();
    let mut count: u32 = height;
    let mut start: usize = size;
    assert(pixels@.skip(start as int) =~= Seq::<u8>::empty());
    while count > 0
        invariant
            decoder.wf(),
            contexts@.len() == 1024,
            binary(above2@),
            binary(above1@),
            row_len == width,
            width <= 0x7fff_ffff,
            size == width * height,
            pixels@.len() == size,
            start <= size,
            start == count * width,
            binary(pixels@.skip(start as int)),
            direct_rows(
                Coding {
                    zp: decoder@,
                    contexts: contexts@,
                    pixels: pixels@.skip(start as int),
                },
                above2@,
                above1@,
                width as int,
                count as int,
            ) == whole,
        decreases count,
    {
        assert(count * width == (count - 1) * width + width) by (nonlinear_arith);
        assert(0 <= (count - 1) * width) by (nonlinear_arith)
            requires
                count >= 1,
        ;
        let ghost below = pixels@.skip(start as int);
        let row = decode_direct_row(decoder, contexts, &above2, &above1, row_len);
        start = start - row_len;
        copy_row(&mut pixels, start, &row);
        assert(pixels@.skip(start as int) =~= row@ + below);
        above2 = above1;
        above1 = row;
        count = count - 1;
    }
    assert(start == 0);
    assert(pixels@.skip(0) =~= pixels@);
    Jb2SymbolBitmap { width, height, pixels }
}

/// Decodes a row of a bitmap coded as a change of another.
#[verifier::rlimit(60)]
#[verifier::spinoff_prover]
fn decode_refined_row(
    decoder: &mut SpecZpDecoder<'_>,
    contexts: &mut Vec<u8>,
    above: &Vec<u8>,
    reference: &Jb2SymbolBitmap,
    shift: i64,
    v: i64,
    width: usize,
) -> (row: Vec<u8>)
    requires
        old(decoder).wf(),
        old(contexts)@.len() == 2048,
        binary(above@),
        reference.wf(),
        binary(reference@.pixels),
        width <= 0x7fff_ffff,
        -0x1_0000_0000 <= shift <= 0x1_0000_0000,
        -0x1_0000_0000 <= v <= 0x2_0000_0000,
    ensures
        final(decoder).wf(),
        final(contexts)@.len() == 2048,
        row@.len() == width,
        binary(row@),
        (Coding { zp: final(decoder)@, contexts: final(contexts)@, pixels: row@ }) == refined_row(
            Coding { zp: old(decoder)@, contexts: old(contexts)@, pixels: Seq::empty() },
            above@,
            reference@,
            shift as int,
            v as int,
            width as int,
        ),
{
    let mut row: Vec<u8> = Vec::new();
    let mut child: u32 = 2 * pixel(above, 0) + pixel(above, 1);
    let mut previous: u32 = 0;
    proof {
        lemma_binary_at(reference@, shift - 1, v as int);
        lemma_binary_at(reference@, shift as int, v as int);
        lemma_binary_at(reference@, shift + 1, v as int);
        lemma_binary_at(reference@, shift - 1, v - 1);
        lemma_binary_at(reference@, shift as int, v - 1);
        lemma_binary_at(reference@, shift + 1, v - 1);
    }
    let mut middle: u32 = 4 * symbol_pixel_at(reference, shift - 1, v) + 2 * symbol_pixel_at(
        reference,
        shift,
        v,
    ) + symbol_pixel_at(reference, shift + 1, v);
    let mut lower: u32 = 4 * symbol_pixel_at(reference, shift - 1, v - 1) + 2 * symbol_pixel_at(
        reference,
        shift,
        v - 1,
    ) + symbol_pixel_at(reference, shift + 1, v - 1);
    let mut x: usize = 0;
    while x < width
        invariant
            decoder.wf(),
            contexts@.len() == 2048,
            binary(above@),
            binary(row@),
            reference.wf(),
            binary(reference@.pixels),
            width <= 0x7fff_ffff,
            -0x1_0000_0000 <= shift <= 0x1_0000_0000,
            -0x1_0000_0000 <= v <= 0x2_0000_0000,
            x <= width,
            row@.len() == x,
            child == 4 * row_at(above@, x - 1) + 2 * row_at(above@, x as int) + row_at(
                above@,
                x + 1,
            ),
            previous == row_at(row@, x - 1),
            middle == 4 * symbol_at(reference@, x + shift - 1, v as int) + 2 * symbol_at(
                reference@,
                x + shift,
                v as int,
            ) + symbol_at(reference@, x + shift + 1, v as int),
            lower == 4 * symbol_at(reference@, x + shift - 1, v - 1) + 2 * symbol_at(
                reference@,
                x + shift,
                v - 1,
            ) + symbol_at(reference@, x + shift + 1, v - 1),
            refined_row(
                Coding { zp: decoder@, contexts: contexts@, pixels: row@ },
                above@,
                reference@,
                shift as int,
                v as int,
                width as int,
            ) == refined_row(
                Coding { zp: old(decoder)@, contexts: old(contexts)@, pixels: Seq::empty() },
                above@,
                reference@,
                shift as int,
                v as int,
                width as int,
            ),
        decreases width - x,
    {
        let u: i64 = x as i64 + shift;
        proof {
            lemma_binary_at(reference@, u as int, v + 1);
            lemma_binary_at(reference@, u - 1, v as int);
            lemma_binary_at(reference@, u as int, v as int);
            lemma_binary_at(reference@, u + 1, v as int);
            lemma_binary_at(reference@, u + 2, v as int);
            lemma_binary_at(reference@, u - 1, v - 1);
            lemma_binary_at(reference@, u as int, v - 1);
            lemma_binary_at(reference@, u + 1, v - 1);
            lemma_binary_at(reference@, u + 2, v - 1);
        }
        let upper: u32 = symbol_pixel_at(reference, u, v + 1);
        let context: usize = (256 * child + 128 * previous + 64 * upper + 8 * middle
            + lower) as usize;
        assert(context == refined_context(above@, row@, x as int, reference@, x + shift, v as int));
        let bit: u32 = decode_pixel(decoder, contexts, context, &mut row);
        assert(row_at(row@, x as int) == bit);
        child = (2 * child) % 8 + pixel(above, x + 2);
        previous = bit;
        middle = (2 * middle) % 8 + symbol_pixel_at(reference, u + 2, v);
        lower = (2 * lower) % 8 + symbol_pixel_at(reference, u + 2, v - 1);
        x = x + 1;
    }
    row
}

/// A pixel of a binary symbol is 0 or 1.
proof fn lemma_binary_at(symbol: Symbol, x: int, y: int)
    requires
        symbol_wf(symbol),
        binary(symbol.pixels),
    ensures
        symbol_at(symbol, x, y) <= 1,
{
    if 0 <= x < symbol.width && 0 <= y < symbol.height {
        crate::bitonal::lemma_pixel_index(symbol.width, symbol.height, x, y);
    }
}

/// The middle of an extent.
fn center_of(extent: u32) -> (middle: i64)
    ensures
        middle == center(extent as int),
        -1 <= middle <= 0x7fff_ffff,
{
    if extent == 0 {
        -1
    } else {
        (extent as i64 - 1) / 2
    }
}

/// Decodes a bitmap as a change of another.
pub fn decode_refined_bitmap(
    decoder: &mut SpecZpDecoder<'_>,
    contexts: &mut Vec<u8>,
    width: u32,
    height: u32,
    reference: &Jb2SymbolBitmap,
) -> (symbol: Jb2SymbolBitmap)
    requires
        old(decoder).wf(),
        old(contexts)@.len() == 2048,
        reference.wf(),
        binary(reference@.pixels),
        width <= 0x7fff_ffff,
        height <= 0x7fff_ffff,
        width * height <= usize::MAX,
    ensures
        final(decoder).wf(),
        final(contexts)@.len() == 2048,
        symbol.width == width,
        symbol.height == height,
        symbol.wf(),
        binary(symbol@.pixels),
        (Coding { zp: final(decoder)@, contexts: final(contexts)@, pixels: symbol@.pixels })
            == refined_bitmap(
            old(decoder)@,
            old(contexts)@,
            width as int,
            height as int,
            reference@,
        ),
{
    proof {
        reveal(refined_bitmap);
        assert(0 <= width * height) by (nonlinear_arith);
        assert(height * width == width * height) by (nonlinear_arith);
    }
    let ghost whole = refined_bitmap(
        old(decoder)@,
        old(contexts)@,
        width as int,
        height as int,
        reference@,
    );
    let row_len: usize = width as usize;
    let size: usize = row_len * height as usize;
    let mut pixels: Vec<u8> = vec![0; size];
    let mut above: Vec<u8> = Vec::new();
    let row_shift: i64 = center_of(reference.height) - center_of(height);
    let col_shift: i64 = center_of(reference.width) - center_of(width);
    let mut count: u32 = height;
    let mut start: usize = size;
    assert(pixels@.skip(start as int) =~= Seq::<u8>::empty());
    while count > 0
        invariant
            decoder.wf(),
            contexts@.len() == 2048,
            binary(above@),
            reference.wf(),
            binary(reference@.pixels),
            row_len == width,
            width <= 0x7fff_ffff,
            count <= 0x7fff_ffff,
            -0x8000_0000 <= row_shift <= 0x8000_0000,
            -0x8000_0000 <= col_shift <= 0x8000_0000,
            size == width * height,
            pixels@.len() == size,
            start <= size,
            start == count * width,
            binary(pixels@.skip(start as int)),
            refined_rows(
                Coding {
                    zp: decoder@,
                    contexts: contexts@,
                    pixels: pixels@.skip(start as int),
                },
                above@,
                reference@,
                col_shift as int,
                row_shift as int,
                width as int,
                count as int,
            ) == whole,
        decreases count,
    {
        assert(count * width == (count - 1) * width + width) by (nonlinear_arith);
        assert(0 <= (count - 1) * width) by (nonlinear_arith)
            requires
                count >= 1,
        ;
        let ghost below = pixels@.skip(start as int);
        let row = decode_refined_row(
            decoder,
            contexts,
            &above,
            reference,
            col_shift,
            count as i64 - 1 + row_shift,
            row_len,
        );
        start = start - row_len;
        copy_row(&mut pixels, start, &row);
        assert(pixels@.skip(start as int) =~= row@ + below);
        above = row;
        count = count - 1;
    }
    assert(start == 0);
    assert(pixels@.skip(0) =~= pixels@);
    Jb2SymbolBitmap { width, height, pixels }
}

} // verus!
