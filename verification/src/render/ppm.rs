//! Bitmaps as binary PPM files.

use crate::number::{lemma_decimal_value, number_of, parse_number, unsigned_digits};
use crate::render::bitmap::{BitmapModel, PageBitmap, PixelFormat};
use crate::render::RenderError;
use crate::text::{
    decimal, decimal_bytes, lemma_decimal_bytes, push_bytes, push_decimal, push_decimal_bytes,
    same_bytes, text_from_utf8, text_of,
};
use vstd::prelude::*;
use vstd::utf8::valid_utf8;

verus! {

/// The bytes of a bitmap as a binary PPM file.
pub open spec fn ppm_bytes(bitmap: BitmapModel) -> Seq<u8> {
    seq![80u8, 54u8, 10u8] + decimal_bytes(bitmap.width as nat) + seq![32u8] + decimal_bytes(
        bitmap.height as nat,
    ) + seq![10u8, 50u8, 53u8, 53u8, 10u8] + bitmap.pixels
}

/// Whether a byte is ASCII white space.
pub open spec fn is_space(byte: u8) -> bool {
    byte == 32 || byte == 9 || byte == 10 || byte == 12 || byte == 13
}

/// The first place from an offset on that is not white space.
pub open spec fn after_space(bytes: Seq<u8>, at: int) -> int
    decreases bytes.len() - at,
{
    if at < bytes.len() && is_space(bytes[at]) {
        after_space(bytes, at + 1)
    } else {
        at
    }
}

/// The first line end from an offset on, or the end.
pub open spec fn line_end(bytes: Seq<u8>, at: int) -> int
    decreases bytes.len() - at,
{
    if at < bytes.len() && bytes[at] != 10 {
        line_end(bytes, at + 1)
    } else {
        at
    }
}

/// Where the next word starts, behind white space and comments.
pub open spec fn word_start(bytes: Seq<u8>, at: int) -> int
    decreases bytes.len() - at,
{
    let start = after_space(bytes, at);
    let next = line_end(bytes, start);
    if start < bytes.len() && bytes[start] == 35 && at < next <= bytes.len() {
        word_start(bytes, next)
    } else {
        start
    }
}

/// Where a word ends.
pub open spec fn word_end(bytes: Seq<u8>, at: int) -> int
    decreases bytes.len() - at,
{
    if at < bytes.len() && !is_space(bytes[at]) {
        word_end(bytes, at + 1)
    } else {
        at
    }
}

/// The next word, and where it ends; or why there is none.
pub open spec fn next_word(bytes: Seq<u8>, at: int) -> Result<(Seq<u8>, int), Seq<char>> {
    let start = word_start(bytes, at);
    let end = word_end(bytes, start);
    if start == end {
        Err("PPM header is truncated"@)
    } else {
        Ok((bytes.subrange(start, end), end))
    }
}

/// The number in a field, or why there is none.
pub open spec fn field_number(word: Seq<u8>, field: Seq<char>) -> Result<nat, Seq<char>> {
    if !valid_utf8(word) {
        Err("PPM "@ + field + " is not UTF-8"@)
    } else {
        match number_of(word, u32::MAX as nat) {
            Some(number) => Ok(number),
            None => Err("PPM "@ + field + " is not an integer"@),
        }
    }
}

/// The number in the next field, and where it ends; or why there is none.
pub open spec fn next_number(bytes: Seq<u8>, at: int, field: Seq<char>) -> Result<
    (nat, int),
    Seq<char>,
> {
    match next_word(bytes, at) {
        Err(message) => Err(message),
        Ok((word, end)) => match field_number(word, field) {
            Err(message) => Err(message),
            Ok(number) => Ok((number, end)),
        },
    }
}

/// The size in a header, and where the header ends; or why it cannot be read.
pub open spec fn ppm_header(bytes: Seq<u8>) -> Result<(nat, nat, int), Seq<char>> {
    match next_word(bytes, 0) {
        Err(message) => Err(message),
        Ok((magic, after_magic)) => if magic != seq![80u8, 54u8] {
            Err("PPM oracle must use binary P6 format"@)
        } else {
            match next_number(bytes, after_magic, "width"@) {
                Err(message) => Err(message),
                Ok((width, after_width)) => match next_number(bytes, after_width, "height"@) {
                    Err(message) => Err(message),
                    Ok((height, after_height)) => match next_number(
                        bytes,
                        after_height,
                        "max value"@,
                    ) {
                        Err(message) => Err(message),
                        Ok((max, end)) => if max != 255 {
                            Err("PPM oracle max value "@ + decimal(max) + " is not supported"@)
                        } else if end >= bytes.len() || !is_space(bytes[end]) {
                            Err("PPM header is missing pixel-data separator"@)
                        } else {
                            Ok((width, height, end + 1))
                        },
                    },
                },
            }
        },
    }
}

/// The bitmap in a binary PPM file, or why there is none.
pub open spec fn ppm_bitmap(bytes: Seq<u8>, dpi: u16) -> Result<BitmapModel, Seq<char>> {
    match ppm_header(bytes) {
        Err(message) => Err(message),
        Ok((width, height, start)) => if width * height > usize::MAX {
            Err("PPM oracle dimensions overflow"@)
        } else if 3 * (width * height) > usize::MAX {
            Err("PPM oracle pixel buffer overflows"@)
        } else if start + 3 * (width * height) > usize::MAX {
            Err("PPM oracle pixel range overflows"@)
        } else if start + 3 * (width * height) > bytes.len() {
            Err("PPM oracle pixel data is truncated"@)
        } else {
            Ok(
                BitmapModel {
                    width: width as u32,
                    height: height as u32,
                    dpi,
                    pixels: bytes.subrange(start, start + 3 * (width * height)),
                },
            )
        },
    }
}

proof fn lemma_after_space_range(bytes: Seq<u8>, at: int)
    requires
        0 <= at <= bytes.len(),
    ensures
        at <= after_space(bytes, at) <= bytes.len(),
    decreases bytes.len() - at,
{
    if at < bytes.len() && is_space(bytes[at]) {
        lemma_after_space_range(bytes, at + 1);
    }
}

proof fn lemma_line_end_range(bytes: Seq<u8>, at: int)
    requires
        0 <= at <= bytes.len(),
    ensures
        at <= line_end(bytes, at) <= bytes.len(),
    decreases bytes.len() - at,
{
    if at < bytes.len() && bytes[at] != 10 {
        lemma_line_end_range(bytes, at + 1);
    }
}

proof fn lemma_word_end(bytes: Seq<u8>, from: int, to: int)
    requires
        0 <= from <= to < bytes.len(),
        forall|i: int| from <= i < to ==> !is_space(#[trigger] bytes[i]),
        is_space(bytes[to]),
    ensures
        word_end(bytes, from) == to,
    decreases to - from,
{
    if from < to {
        lemma_word_end(bytes, from + 1, to);
    }
}

/// A word behind at most one byte of white space is the next word.
proof fn lemma_word_found(bytes: Seq<u8>, at: int, skip: int, word: Seq<u8>)
    requires
        0 <= at,
        0 <= skip <= 1,
        word.len() > 0,
        at + skip + word.len() < bytes.len(),
        skip == 1 ==> is_space(bytes[at]),
        forall|i: int| 0 <= i < word.len() ==> #[trigger] bytes[at + skip + i] == word[i],
        forall|i: int| 0 <= i < word.len() ==> !is_space(#[trigger] word[i]),
        word[0] != 35,
        is_space(bytes[at + skip + word.len()]),
    ensures
        next_word(bytes, at) == Ok::<(Seq<u8>, int), Seq<char>>((word, at + skip + word.len())),
{
    let start = at + skip;
    assert(bytes[start + 0] == word[0]);
    assert(after_space(bytes, start) == start);
    assert(after_space(bytes, at) == start);
    assert forall|i: int| start <= i < start + word.len() implies !is_space(
        #[trigger] bytes[i],
    ) by {
        assert(bytes[at + skip + (i - start)] == word[i - start]);
    }
    lemma_word_end(bytes, start, start + word.len());
    assert(bytes.subrange(start, start + word.len()) =~= word) by {
        assert forall|i: int| 0 <= i < word.len() implies bytes[start + i] == word[i] by {
            assert(bytes[at + skip + i] == word[i]);
        }
    }
}

/// The same of a number that fits 32 bits.
proof fn lemma_number_found(bytes: Seq<u8>, at: int, number: nat, field: Seq<char>)
    requires
        0 <= at,
        number <= u32::MAX,
        at + 1 + decimal_bytes(number).len() < bytes.len(),
        is_space(bytes[at]),
        forall|i: int|
            0 <= i < decimal_bytes(number).len() ==> #[trigger] bytes[at + 1 + i]
                == decimal_bytes(number)[i],
        is_space(bytes[at + 1 + decimal_bytes(number).len()]),
    ensures
        next_number(bytes, at, field) == Ok::<(nat, int), Seq<char>>(
            (number, at + 1 + decimal_bytes(number).len()),
        ),
{
    let word = decimal_bytes(number);
    lemma_decimal_value(number);
    lemma_decimal_bytes(number);
    assert(48 <= word[0] <= 57);
    lemma_word_found(bytes, at, 1, word);
    assert(unsigned_digits(word) == word);
}

/// How many bytes the header of a bitmap takes.
pub open spec fn header_len(bitmap: BitmapModel) -> int {
    9 + (decimal_bytes(bitmap.width as nat).len() + decimal_bytes(bitmap.height as nat).len())
        as int
}

/// The header of a bitmap that is written is read back, whatever follows.
proof fn lemma_header_read_back(bitmap: BitmapModel, bytes: Seq<u8>)
    requires
        bytes.len() >= header_len(bitmap),
        forall|i: int| 0 <= i < header_len(bitmap) ==> bytes[i] == #[trigger] ppm_bytes(bitmap)[i],
    ensures
        ppm_header(bytes) == Ok::<(nat, nat, int), Seq<char>>(
            (bitmap.width as nat, bitmap.height as nat, header_len(bitmap)),
        ),
{
    let whole = ppm_bytes(bitmap);
    let width = decimal_bytes(bitmap.width as nat);
    let height = decimal_bytes(bitmap.height as nat);
    let depth = decimal_bytes(255);
    lemma_decimal_value(bitmap.width as nat);
    lemma_decimal_value(bitmap.height as nat);
    reveal_with_fuel(decimal_bytes, 4);
    assert(depth =~= seq![50u8, 53u8, 53u8]);
    let magic = seq![80u8, 54u8];
    let after_width: int = 3 + width.len() as int;
    let after_height: int = after_width + 1 + height.len() as int;
    assert(whole[0] == 80 && whole[1] == 54 && whole[2] == 10);
    assert forall|i: int| 0 <= i < magic.len() implies #[trigger] bytes[0 + 0 + i] == magic[i] by {
        assert(bytes[i] == whole[i]);
    }
    assert(bytes[2] == whole[2]);
    lemma_word_found(bytes, 0, 0, magic);
    assert forall|i: int| 0 <= i < width.len() implies #[trigger] bytes[2 + 1 + i]
        == width[i] by {
        assert(bytes[3 + i] == whole[3 + i]);
    }
    assert(bytes[after_width] == whole[after_width] && whole[after_width] == 32);
    lemma_number_found(bytes, 2, bitmap.width as nat, "width"@);
    assert forall|i: int| 0 <= i < height.len() implies #[trigger] bytes[after_width + 1 + i]
        == height[i] by {
        assert(bytes[after_width + 1 + i] == whole[after_width + 1 + i]);
    }
    assert(bytes[after_height] == whole[after_height] && whole[after_height] == 10);
    lemma_number_found(bytes, after_width, bitmap.height as nat, "height"@);
    assert(whole[after_height + 1] == 50 && whole[after_height + 2] == 53 && whole[after_height
        + 3] == 53 && whole[after_height + 4] == 10);
    assert forall|i: int| 0 <= i < depth.len() implies #[trigger] bytes[after_height + 1 + i]
        == depth[i] by {
        assert(bytes[after_height + 1 + i] == whole[after_height + 1 + i]);
    }
    assert(bytes[after_height + 4] == whole[after_height + 4]);
    lemma_number_found(bytes, after_height, 255, "max value"@);
}

/// A bitmap that is written is read back, and bytes behind its pixels are ignored.
pub proof fn lemma_ppm_read_back(bitmap: BitmapModel, extra: Seq<u8>)
    requires
        bitmap.pixels.len() == 3 * (bitmap.width * bitmap.height),
        ppm_bytes(bitmap).len() <= usize::MAX,
    ensures
        ppm_bitmap(ppm_bytes(bitmap) + extra, bitmap.dpi) == Ok::<BitmapModel, Seq<char>>(bitmap),
        ppm_bitmap(ppm_bytes(bitmap), bitmap.dpi) == Ok::<BitmapModel, Seq<char>>(bitmap),
{
    lemma_ppm_read_back_before(bitmap, extra);
    lemma_ppm_read_back_before(bitmap, Seq::empty());
    assert(ppm_bytes(bitmap) + Seq::empty() =~= ppm_bytes(bitmap));
}

proof fn lemma_ppm_read_back_before(bitmap: BitmapModel, extra: Seq<u8>)
    requires
        bitmap.pixels.len() == 3 * (bitmap.width * bitmap.height),
        ppm_bytes(bitmap).len() <= usize::MAX,
    ensures
        ppm_bitmap(ppm_bytes(bitmap) + extra, bitmap.dpi) == Ok::<BitmapModel, Seq<char>>(bitmap),
{
    let bytes = ppm_bytes(bitmap) + extra;
    let start = header_len(bitmap);
    lemma_header_read_back(bitmap, bytes);
    assert(bytes.subrange(start, start + bitmap.pixels.len()) =~= bitmap.pixels);
    assert(0 <= bitmap.width * bitmap.height) by (nonlinear_arith);
}

proof fn lemma_word_reaches_end(bytes: Seq<u8>, from: int)
    requires
        0 <= from <= bytes.len(),
        forall|i: int| from <= i < bytes.len() ==> !is_space(#[trigger] bytes[i]),
    ensures
        word_end(bytes, from) == bytes.len(),
    decreases bytes.len() - from,
{
    if from < bytes.len() {
        lemma_word_reaches_end(bytes, from + 1);
    }
}

/// No word is found where nothing, or one byte of white space, is left.
proof fn lemma_nothing_left(bytes: Seq<u8>, at: int)
    requires
        0 <= at <= bytes.len() <= at + 1,
        at < bytes.len() ==> is_space(bytes[at]),
    ensures
        next_word(bytes, at) is Err,
{
    reveal_with_fuel(after_space, 2);
    assert(after_space(bytes, at) == bytes.len());
}

/// A word behind at most one byte of white space that is cut off by the end is found, and
/// nothing behind it is.
proof fn lemma_cut_word(bytes: Seq<u8>, at: int, skip: int)
    requires
        0 <= at,
        0 <= skip <= 1,
        at + skip < bytes.len(),
        skip == 1 ==> is_space(bytes[at]),
        forall|i: int| at + skip <= i < bytes.len() ==> !is_space(#[trigger] bytes[i]),
        bytes[at + skip] != 35,
    ensures
        next_word(bytes, at) == Ok::<(Seq<u8>, int), Seq<char>>(
            (bytes.subrange(at + skip, bytes.len() as int), bytes.len() as int),
        ),
        next_word(bytes, bytes.len() as int) is Err,
{
    let start = at + skip;
    assert(!is_space(bytes[start]));
    assert(after_space(bytes, start) == start);
    assert(after_space(bytes, at) == start);
    lemma_word_reaches_end(bytes, start);
    lemma_nothing_left(bytes, bytes.len() as int);
}

/// The header of a bitmap that is cut off is refused.
proof fn lemma_cut_header(bitmap: BitmapModel, count: int)
    requires
        0 <= count < header_len(bitmap),
    ensures
        ppm_header(ppm_bytes(bitmap).take(count)) is Err,
{
    let whole = ppm_bytes(bitmap);
    let bytes = whole.take(count);
    let width = decimal_bytes(bitmap.width as nat);
    let height = decimal_bytes(bitmap.height as nat);
    lemma_decimal_value(bitmap.width as nat);
    lemma_decimal_value(bitmap.height as nat);
    lemma_decimal_bytes(bitmap.width as nat);
    lemma_decimal_bytes(bitmap.height as nat);
    let after_width: int = 3 + width.len() as int;
    let after_height: int = after_width + 1 + height.len() as int;
    assert(whole[0] == 80 && whole[1] == 54 && whole[2] == 10);
    assert forall|i: int| 0 <= i < width.len() implies #[trigger] whole[3 + i] == width[i] by {}
    assert(whole[after_width] == 32);
    assert forall|i: int| 0 <= i < height.len() implies #[trigger] whole[after_width + 1 + i]
        == height[i] by {}
    assert(whole[after_height] == 10);
    assert(whole[after_height + 1] == 50 && whole[after_height + 2] == 53 && whole[after_height
        + 3] == 53 && whole[after_height + 4] == 10);
    let magic = seq![80u8, 54u8];
    if count == 0 {
        lemma_nothing_left(bytes, 0);
    } else if count <= 2 {
        assert forall|i: int| 0 <= i < bytes.len() implies !is_space(#[trigger] bytes[i]) by {
            assert(bytes[i] == whole[i]);
        }
        lemma_cut_word(bytes, 0, 0);
        if count == 1 {
            assert(bytes.subrange(0, 1).len() == 1);
        }
    } else {
        assert forall|i: int| 0 <= i < magic.len() implies #[trigger] bytes[0 + 0 + i]
            == magic[i] by {
            assert(bytes[i] == whole[i]);
        }
        assert(bytes[2] == whole[2]);
        lemma_word_found(bytes, 0, 0, magic);
        if count == 3 {
            lemma_nothing_left(bytes, 2);
        } else if count <= after_width {
            assert forall|i: int| 3 <= i < bytes.len() implies !is_space(#[trigger] bytes[i])
                && bytes[i] != 35 by {
                assert(whole[3 + (i - 3)] == width[i - 3]);
            }
            assert(bytes[3] != 35);
            lemma_cut_word(bytes, 2, 1);
        } else {
            assert forall|i: int| 0 <= i < width.len() implies #[trigger] bytes[2 + 1 + i]
                == width[i] by {
                assert(whole[3 + i] == width[i]);
            }
            assert(bytes[after_width] == whole[after_width]);
            lemma_number_found(bytes, 2, bitmap.width as nat, "width"@);
            if count == after_width + 1 {
                lemma_nothing_left(bytes, after_width);
            } else if count <= after_height {
                assert forall|i: int| after_width + 1 <= i < bytes.len() implies !is_space(
                    #[trigger] bytes[i],
                ) && bytes[i] != 35 by {
                    let k = i - after_width - 1;
                    assert(whole[after_width + 1 + k] == height[k]);
                }
                assert(bytes[after_width + 1] != 35);
                lemma_cut_word(bytes, after_width, 1);
            } else {
                assert forall|i: int| 0 <= i < height.len() implies #[trigger] bytes[after_width
                    + 1 + i] == height[i] by {
                    assert(whole[after_width + 1 + i] == height[i]);
                }
                assert(bytes[after_height] == whole[after_height]);
                lemma_number_found(bytes, after_width, bitmap.height as nat, "height"@);
                if count == after_height + 1 {
                    lemma_nothing_left(bytes, after_height);
                } else {
                    assert forall|i: int| after_height + 1 <= i < bytes.len() implies !is_space(
                        #[trigger] bytes[i],
                    ) by {
                        assert(bytes[i] == whole[i]);
                    }
                    assert(bytes[after_height + 1] == whole[after_height + 1]);
                    lemma_cut_word(bytes, after_height, 1);
                }
            }
        }
    }
}

/// What is left of a written bitmap when bytes at its end are missing is refused.
pub proof fn lemma_cut_ppm_is_refused(bitmap: BitmapModel, count: int, dpi: u16)
    requires
        bitmap.pixels.len() == 3 * (bitmap.width * bitmap.height),
        0 <= count < ppm_bytes(bitmap).len(),
    ensures
        ppm_bitmap(ppm_bytes(bitmap).take(count), dpi) is Err,
{
    if count < header_len(bitmap) {
        lemma_cut_header(bitmap, count);
    } else {
        lemma_header_read_back(bitmap, ppm_bytes(bitmap).take(count));
        assert(ppm_bytes(bitmap).len() == header_len(bitmap) + bitmap.pixels.len());
    }
}

/// The words of a header.
struct PpmTokenCursor<'a> {
    bytes: &'a [u8],
    offset: usize,
}

fn is_ascii_space(byte: u8) -> (space: bool)
    ensures
        space == is_space(byte),
{
    byte == 32 || byte == 9 || byte == 10 || byte == 12 || byte == 13
}

impl<'a> PpmTokenCursor<'a> {
    spec fn wf(&self) -> bool {
        self.offset <= self.bytes@.len()
    }

    fn new(bytes: &'a [u8]) -> (cursor: Self)
        ensures
            cursor.wf(),
            cursor.bytes@ == bytes@,
            cursor.offset == 0,
    {
        PpmTokenCursor { bytes, offset: 0 }
    }

    fn next_token(&mut self) -> (token: Result<&'a [u8], RenderError>)
        requires
            old(self).wf(),
        ensures
            final(self).wf(),
            final(self).bytes@ == old(self).bytes@,
            match next_word(old(self).bytes@, old(self).offset as int) {
                Err(message) => token is Err && token->Err_0@ == message,
                Ok((word, end)) => token is Ok && token->Ok_0@ == word && final(self).offset
                    == end,
            },
    {
        self.skip_space_and_comments();
        let start: usize = self.offset;
        let mut end: usize = start;
        while end < self.bytes.len() && !is_ascii_space(self.bytes[end])
            invariant
                start <= end <= self.bytes@.len(),
                word_end(self.bytes@, start as int) == word_end(self.bytes@, end as int),
            decreases self.bytes@.len() - end,
        {
            end = end + 1;
        }
        self.offset = end;
        if start == end {
            return Err(RenderError::new("PPM header is truncated"));
        }
        Ok(vstd::slice::slice_subrange(self.bytes, start, end))
    }

    fn next_field(&mut self, field: &str) -> (number: Result<u32, RenderError>)
        requires
            old(self).wf(),
        ensures
            final(self).wf(),
            final(self).bytes@ == old(self).bytes@,
            match next_number(old(self).bytes@, old(self).offset as int, field@) {
                Err(message) => number is Err && number->Err_0@ == message,
                Ok((value, end)) => number is Ok && number->Ok_0 == value && final(self).offset
                    == end,
            },
    {
        match self.next_token() {
            Err(error) => Err(error),
            Ok(token) => parse_ppm_u32(token, field),
        }
    }

    fn pixel_start(&mut self) -> (start: Result<usize, RenderError>)
        requires
            old(self).wf(),
        ensures
            final(self).wf(),
            old(self).offset < old(self).bytes@.len() && is_space(
                old(self).bytes@[old(self).offset as int],
            ) ==> start is Ok && start->Ok_0 == old(self).offset + 1,
            !(old(self).offset < old(self).bytes@.len() && is_space(
                old(self).bytes@[old(self).offset as int],
            )) ==> start is Err && start->Err_0@ == "PPM header is missing pixel-data separator"@,
    {
        if self.offset >= self.bytes.len() || !is_ascii_space(self.bytes[self.offset]) {
            return Err(RenderError::new("PPM header is missing pixel-data separator"));
        }
        self.offset = self.offset + 1;
        Ok(self.offset)
    }

    fn skip_space_and_comments(&mut self)
        requires
            old(self).wf(),
        ensures
            final(self).wf(),
            final(self).bytes@ == old(self).bytes@,
            final(self).offset == word_start(old(self).bytes@, old(self).offset as int),
    {
        let bytes: &'a [u8] = self.bytes;
        let mut at: usize = self.offset;
        let ghost first = at as int;
        loop
            invariant_except_break
                at <= bytes@.len(),
                word_start(bytes@, at as int) == word_start(bytes@, first),
            ensures
                at <= bytes@.len(),
                at == word_start(bytes@, first),
            decreases bytes@.len() - at,
        {
            let ghost began = at as int;
            proof {
                lemma_after_space_range(bytes@, began);
                lemma_line_end_range(bytes@, after_space(bytes@, began));
            }
            while at < bytes.len() && is_ascii_space(bytes[at])
                invariant
                    began <= at <= bytes@.len(),
                    after_space(bytes@, at as int) == after_space(bytes@, began),
                decreases bytes@.len() - at,
            {
                at = at + 1;
            }
            if at >= bytes.len() || bytes[at] != 35 {
                break;
            }
            let ghost start = at as int;
            while at < bytes.len() && bytes[at] != 10
                invariant
                    start <= at <= bytes@.len(),
                    line_end(bytes@, at as int) == line_end(bytes@, start),
                decreases bytes@.len() - at,
            {
                at = at + 1;
            }
            assert(line_end(bytes@, start) == at);
            assert(at > start) by {
                assert(line_end(bytes@, start) == line_end(bytes@, start + 1));
                lemma_line_end_range(bytes@, start + 1);
            }
        }
        self.offset = at;
    }
}

fn parse_ppm_u32(token: &[u8], field: &str) -> (number: Result<u32, RenderError>)
    ensures
        match field_number(token@, field@) {
            Err(message) => number is Err && number->Err_0@ == message,
            Ok(value) => number is Ok && number->Ok_0 == value,
        },
{
    match text_from_utf8(token) {
        Err(_) => {
            let mut message: String = text_of("PPM ");
            message.append(field);
            message.append(" is not UTF-8");
            return Err(RenderError(message));
        },
        Ok(_) => {},
    }
    match parse_number(token, u32::MAX as u64) {
        Some(number) => Ok(number as u32),
        None => {
            let mut message: String = text_of("PPM ");
            message.append(field);
            message.append(" is not an integer");
            Err(RenderError(message))
        },
    }
}

impl PageBitmap {
    /// The bitmap as a binary PPM file.
    #[must_use]
    pub fn to_ppm_bytes(&self) -> (bytes: Vec<u8>)
        ensures
            bytes@ == ppm_bytes(self@),
    {
        let mut bytes: Vec<u8> = vec![80u8, 54u8, 10u8];
        assert(bytes@ =~= seq![80u8, 54u8, 10u8]);
        push_decimal_bytes(&mut bytes, self.width as u64);
        let space: [u8; 1] = [32];
        assert(space@ =~= seq![32u8]);
        push_bytes(&mut bytes, space.as_slice());
        push_decimal_bytes(&mut bytes, self.height as u64);
        let depth: [u8; 5] = [10, 50, 53, 53, 10];
        assert(depth@ =~= seq![10u8, 50u8, 53u8, 53u8, 10u8]);
        push_bytes(&mut bytes, depth.as_slice());
        push_bytes(&mut bytes, self.pixels.as_slice());
        bytes
    }

    /// Reads a binary PPM file.
    pub fn from_ppm_bytes(bytes: &[u8], dpi: u16) -> (bitmap: Result<Self, RenderError>)
        ensures
            match ppm_bitmap(bytes@, dpi) {
                Err(message) => bitmap is Err && bitmap->Err_0@ == message,
                Ok(model) => bitmap is Ok && bitmap->Ok_0@ == model && bitmap->Ok_0.wf(),
            },
    {
        let mut cursor = PpmTokenCursor::new(bytes);
        let magic: &[u8] = match cursor.next_token() {
            Err(error) => {
                return Err(error);
            },
            Ok(magic) => magic,
        };
        let p6: [u8; 2] = [80, 54];
        assert(p6@ =~= seq![80u8, 54u8]);
        if !same_bytes(magic, p6.as_slice()) {
            return Err(RenderError::new("PPM oracle must use binary P6 format"));
        }
        let width: u32 = match cursor.next_field("width") {
            Err(error) => {
                return Err(error);
            },
            Ok(width) => width,
        };
        let height: u32 = match cursor.next_field("height") {
            Err(error) => {
                return Err(error);
            },
            Ok(height) => height,
        };
        let max_value: u32 = match cursor.next_field("max value") {
            Err(error) => {
                return Err(error);
            },
            Ok(max_value) => max_value,
        };
        if max_value != 255 {
            let mut message: String = text_of("PPM oracle max value ");
            push_decimal(&mut message, max_value as u64);
            message.append(" is not supported");
            return Err(RenderError(message));
        }
        let pixel_start: usize = match cursor.pixel_start() {
            Err(error) => {
                return Err(error);
            },
            Ok(start) => start,
        };
        assert(0 <= width * height) by (nonlinear_arith);
        let pixel_count: usize = match (width as usize).checked_mul(height as usize) {
            None => {
                return Err(RenderError::new("PPM oracle dimensions overflow"));
            },
            Some(count) => count,
        };
        let pixel_bytes: usize = match pixel_count.checked_mul(3) {
            None => {
                return Err(RenderError::new("PPM oracle pixel buffer overflows"));
            },
            Some(count) => count,
        };
        let pixel_end: usize = match pixel_start.checked_add(pixel_bytes) {
            None => {
                return Err(RenderError::new("PPM oracle pixel range overflows"));
            },
            Some(end) => end,
        };
        if pixel_end > bytes.len() {
            return Err(RenderError::new("PPM oracle pixel data is truncated"));
        }
        let mut pixels: Vec<u8> = Vec::new();
        push_bytes(&mut pixels, vstd::slice::slice_subrange(bytes, pixel_start, pixel_end));
        assert(pixels@ =~= bytes@.subrange(pixel_start as int, pixel_end as int));
        Ok(PageBitmap { width, height, dpi, format: PixelFormat::Rgb8, pixels })
    }
}

} // verus!
