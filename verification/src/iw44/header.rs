//! Headers of chunks, and how a layer of chunks lies on its page.

use super::Iw44Error;
use crate::text::{decimal, push_decimal, text_of};
use vstd::prelude::*;

verus! {

/// The header of a chunk.
#[derive(Debug, Clone, Copy, Eq, PartialEq)]
pub struct Iw44ChunkHeader {
    pub serial: u8,
    pub slices: u8,
    pub image: Option<Iw44ImageHeader>,
    pub payload_start: usize,
    pub payload_len: usize,
}

/// What the first chunk says of the image.
#[derive(Debug, Clone, Copy, Eq, PartialEq, Structural)]
pub struct Iw44ImageHeader {
    pub major_version: u8,
    pub minor_version: u8,
    pub width: u16,
    pub height: u16,
    pub grayscale: bool,
    pub delay: u8,
    pub chroma_half: bool,
}

/// The headers of the chunks of a layer.
#[derive(Debug, Clone, Eq, PartialEq)]
pub struct Iw44LayerSummary {
    pub image: Iw44ImageHeader,
    pub chunks: Vec<Iw44ChunkHeader>,
    pub total_slices: u32,
    pub total_payload_bytes: usize,
}

/// How a layer is scaled to cover its page.
#[derive(Debug, Clone, Copy, Eq, PartialEq, Structural)]
pub struct Iw44PageMapping {
    pub page_width: u32,
    pub page_height: u32,
    pub layer_width: u32,
    pub layer_height: u32,
    pub subsample: u32,
    pub scaled_width: u32,
    pub scaled_height: u32,
    pub horizontal_overscan: u32,
    pub vertical_overscan: u32,
}

/// What the first chunk says of the image.
pub open spec fn image_header(bytes: Seq<u8>) -> Iw44ImageHeader {
    let grayscale = bytes[2] >= 0x80;
    Iw44ImageHeader {
        major_version: bytes[2],
        minor_version: bytes[3],
        width: (256 * bytes[4] + bytes[5]) as u16,
        height: (256 * bytes[6] + bytes[7]) as u16,
        grayscale,
        delay: if bytes[3] >= 2 {
            bytes[8] % 128
        } else {
            0
        },
        chroma_half: !grayscale && bytes[3] >= 2 && bytes[8] < 0x80,
    }
}

/// The header of a chunk, or why it has none.
pub open spec fn chunk_header(bytes: Seq<u8>) -> Result<Iw44ChunkHeader, Seq<char>> {
    if bytes.len() < 2 {
        Err("IW44 chunk is too short"@)
    } else if bytes[0] != 0 {
        Ok(
            Iw44ChunkHeader {
                serial: bytes[0],
                slices: bytes[1],
                image: None,
                payload_start: 2,
                payload_len: (bytes.len() - 2) as usize,
            },
        )
    } else if bytes.len() < 9 {
        Err("IW44 first chunk header is too short"@)
    } else if image_header(bytes).width == 0 || image_header(bytes).height == 0 {
        Err("IW44 image has zero dimension"@)
    } else {
        Ok(
            Iw44ChunkHeader {
                serial: 0,
                slices: bytes[1],
                image: Some(image_header(bytes)),
                payload_start: 9,
                payload_len: (bytes.len() - 9) as usize,
            },
        )
    }
}

/// What is said of a chunk out of turn.
pub open spec fn serial_message(serial: u8, expected: int) -> Seq<char> {
    "IW44 chunk serial "@ + decimal(serial as nat) + " does not match expected "@ + decimal(
        expected as nat,
    )
}

/// The headers of the first `count` chunks of a layer, or the first that is wrong.
pub open spec fn layer_headers(chunks: Seq<Seq<u8>>, count: int) -> Result<
    Seq<Iw44ChunkHeader>,
    Seq<char>,
>
    decreases count,
{
    if count <= 0 {
        Ok(Seq::empty())
    } else {
        match layer_headers(chunks, count - 1) {
            Err(message) => Err(message),
            Ok(headers) => match chunk_header(chunks[count - 1]) {
                Err(message) => Err(message),
                Ok(header) => if count - 1 > 255 {
                    Err("IW44 layer has more than 256 chunks"@)
                } else if header.serial != count - 1 {
                    Err(serial_message(header.serial, count - 1))
                } else {
                    Ok(headers.push(header))
                },
            },
        }
    }
}

/// The slices of the first `count` chunks.
pub open spec fn slice_total(headers: Seq<Iw44ChunkHeader>, count: int) -> int
    decreases count,
{
    if count <= 0 {
        0
    } else {
        slice_total(headers, count - 1) + headers[count - 1].slices
    }
}

/// The payload bytes of the first `count` chunks, counted as a `usize` counts.
pub open spec fn payload_total(headers: Seq<Iw44ChunkHeader>, count: int) -> usize
    decreases count,
{
    if count <= 0 {
        0
    } else {
        payload_total(headers, count - 1).wrapping_add(headers[count - 1].payload_len)
    }
}

/// The headers of a layer by their values.
#[verifier::ext_equal]
pub struct SummaryModel {
    pub image: Iw44ImageHeader,
    pub chunks: Seq<Iw44ChunkHeader>,
    pub total_slices: int,
    pub total_payload_bytes: usize,
}

impl View for Iw44LayerSummary {
    type V = SummaryModel;

    open spec fn view(&self) -> SummaryModel {
        SummaryModel {
            image: self.image,
            chunks: self.chunks@,
            total_slices: self.total_slices as int,
            total_payload_bytes: self.total_payload_bytes,
        }
    }
}

/// The chunks of a list by their values.
pub open spec fn byte_lists(chunks: Seq<&[u8]>) -> Seq<Seq<u8>> {
    Seq::new(chunks.len(), |i: int| chunks[i]@)
}

/// The headers of the chunks of a layer, or why they are wrong.
pub open spec fn layer_summary(chunks: Seq<Seq<u8>>) -> Result<SummaryModel, Seq<char>> {
    match layer_headers(chunks, chunks.len() as int) {
        Err(message) => Err(message),
        Ok(headers) => if chunks.len() == 0 {
            Err("IW44 layer has no chunks"@)
        } else {
            Ok(
                SummaryModel {
                    image: headers[0].image->0,
                    chunks: headers,
                    total_slices: slice_total(headers, headers.len() as int),
                    total_payload_bytes: payload_total(headers, headers.len() as int),
                },
            )
        },
    }
}

/// A quotient rounded up.
pub open spec fn ceil_div(value: int, divisor: int) -> int {
    (value + divisor - 1) / divisor
}

/// The larger of two numbers.
pub open spec fn larger(left: int, right: int) -> int {
    if left >= right {
        left
    } else {
        right
    }
}

/// A number kept within thirty-two bits.
pub open spec fn saturate_u32(value: int) -> int {
    if value > u32::MAX {
        u32::MAX as int
    } else {
        value
    }
}

/// How a layer is scaled to cover a page: by the smallest whole factor that does.
pub open spec fn mapping_of(image: Iw44ImageHeader, page_width: u32, page_height: u32) ->
    Iw44PageMapping {
    let subsample = larger(
        larger(
            ceil_div(page_width as int, image.width as int),
            ceil_div(page_height as int, image.height as int),
        ),
        1,
    );
    let scaled_width = saturate_u32(image.width * subsample);
    let scaled_height = saturate_u32(image.height * subsample);
    Iw44PageMapping {
        page_width,
        page_height,
        layer_width: image.width as u32,
        layer_height: image.height as u32,
        subsample: subsample as u32,
        scaled_width: scaled_width as u32,
        scaled_height: scaled_height as u32,
        horizontal_overscan: larger(scaled_width - page_width, 0) as u32,
        vertical_overscan: larger(scaled_height - page_height, 0) as u32,
    }
}

/// A quotient rounded up lies within the number divided.
pub proof fn lemma_ceil_div(value: int, divisor: int)
    requires
        0 <= value,
        0 < divisor,
    ensures
        0 <= ceil_div(value, divisor) <= value,
        value <= ceil_div(value, divisor) * divisor,
        value > 0 ==> (ceil_div(value, divisor) - 1) * divisor < value,
{
    let q = ceil_div(value, divisor);
    let n = value + divisor - 1;
    vstd::arithmetic::div_mod::lemma_fundamental_div_mod(n, divisor);
    assert(0 <= q <= value && value <= q * divisor && (value > 0 ==> (q - 1) * divisor < value))
        by (nonlinear_arith)
        requires
            0 <= value,
            0 < divisor,
            n == value + divisor - 1,
            n == divisor * q + n % divisor,
            0 <= n % divisor < divisor,
    ;
}

/// A layer, once scaled, covers its page: its size is at least that of the page, and
/// what it exceeds it by is the overscan.
pub proof fn lemma_mapping_covers_page(
    image: Iw44ImageHeader,
    page_width: u32,
    page_height: u32,
)
    requires
        image.width > 0,
        image.height > 0,
    ensures
        ({
            let mapping = mapping_of(image, page_width, page_height);
            &&& mapping.subsample >= 1
            &&& mapping.scaled_width >= page_width
            &&& mapping.scaled_height >= page_height
            &&& mapping.horizontal_overscan == mapping.scaled_width - page_width
            &&& mapping.vertical_overscan == mapping.scaled_height - page_height
        }),
{
    lemma_ceil_div(page_width as int, image.width as int);
    lemma_ceil_div(page_height as int, image.height as int);
    let across = ceil_div(page_width as int, image.width as int);
    let down = ceil_div(page_height as int, image.height as int);
    let subsample = larger(larger(across, down), 1);
    assert(image.width * subsample >= page_width) by (nonlinear_arith)
        requires
            page_width <= across * image.width,
            across <= subsample,
            0 < image.width,
    ;
    assert(image.height * subsample >= page_height) by (nonlinear_arith)
        requires
            page_height <= down * image.height,
            down <= subsample,
            0 < image.height,
    ;
}

impl Iw44LayerSummary {
    /// How the layer is scaled to cover a page.
    #[must_use]
    pub fn page_mapping(&self, page_width: u32, page_height: u32) -> (mapping: Iw44PageMapping)
        requires
            self.image.width > 0,
            self.image.height > 0,
        ensures
            mapping == mapping_of(self.image, page_width, page_height),
    {
        let layer_width: u32 = self.image.width as u32;
        let layer_height: u32 = self.image.height as u32;
        proof {
            lemma_ceil_div(page_width as int, layer_width as int);
            lemma_ceil_div(page_height as int, layer_height as int);
        }
        let across: u64 = (page_width as u64 + layer_width as u64 - 1) / layer_width as u64;
        let down: u64 = (page_height as u64 + layer_height as u64 - 1) / layer_height as u64;
        let mut subsample: u64 = if across >= down {
            across
        } else {
            down
        };
        if subsample < 1 {
            subsample = 1;
        }
        assert(layer_width * subsample <= 0xffff * 0xffff_ffff && layer_height * subsample <= 0xffff
            * 0xffff_ffff) by (nonlinear_arith)
            requires
                0 <= layer_width <= 0xffff,
                0 <= layer_height <= 0xffff,
                0 <= subsample <= 0xffff_ffff,
        ;
        let scaled_width: u32 = saturating_u32(layer_width as u64 * subsample);
        let scaled_height: u32 = saturating_u32(layer_height as u64 * subsample);
        Iw44PageMapping {
            page_width,
            page_height,
            layer_width,
            layer_height,
            subsample: subsample as u32,
            scaled_width,
            scaled_height,
            horizontal_overscan: scaled_width.saturating_sub(page_width),
            vertical_overscan: scaled_height.saturating_sub(page_height),
        }
    }
}

/// A number kept within thirty-two bits.
fn saturating_u32(value: u64) -> (kept: u32)
    ensures
        kept == saturate_u32(value as int),
{
    if value > u32::MAX as u64 {
        u32::MAX
    } else {
        value as u32
    }
}

/// Reads the header of a chunk.
pub fn read_iw44_chunk_header(bytes: &[u8]) -> (header: Result<Iw44ChunkHeader, Iw44Error>)
    ensures
        match chunk_header(bytes@) {
            Ok(expected) => header is Ok && header->Ok_0 == expected,
            Err(message) => header is Err && header->Err_0@ == message,
        },
{
    if bytes.len() < 2 {
        return Err(Iw44Error::new("IW44 chunk is too short"));
    }
    let serial: u8 = bytes[0];
    let slices: u8 = bytes[1];
    if serial != 0 {
        return Ok(
            Iw44ChunkHeader {
                serial,
                slices,
                image: None,
                payload_start: 2,
                payload_len: bytes.len() - 2,
            },
        );
    }
    if bytes.len() < 9 {
        return Err(Iw44Error::new("IW44 first chunk header is too short"));
    }
    let major_version: u8 = bytes[2];
    let minor_version: u8 = bytes[3];
    let width: u16 = 256 * bytes[4] as u16 + bytes[5] as u16;
    let height: u16 = 256 * bytes[6] as u16 + bytes[7] as u16;
    if width == 0 || height == 0 {
        return Err(Iw44Error::new("IW44 image has zero dimension"));
    }
    let delay_byte: u8 = bytes[8];
    let grayscale: bool = major_version >= 0x80;
    let delay: u8 = if minor_version >= 2 {
        delay_byte % 128
    } else {
        0
    };
    let chroma_half: bool = !grayscale && minor_version >= 2 && delay_byte < 0x80;
    Ok(
        Iw44ChunkHeader {
            serial,
            slices,
            image: Some(
                Iw44ImageHeader {
                    major_version,
                    minor_version,
                    width,
                    height,
                    grayscale,
                    delay,
                    chroma_half,
                },
            ),
            payload_start: 9,
            payload_len: bytes.len() - 9,
        },
    )
}

/// The error of a chunk out of turn.
pub fn serial_error(serial: u8, expected: u8) -> (error: Iw44Error)
    ensures
        error@ == serial_message(serial, expected as int),
{
    let mut message: String = text_of("IW44 chunk serial ");
    push_decimal(&mut message, serial as u64);
    message.append(" does not match expected ");
    push_decimal(&mut message, expected as u64);
    Iw44Error(message)
}

/// The headers of good chunks are as many as the chunks, and the first has an image.
proof fn lemma_layer_headers(chunks: Seq<Seq<u8>>, count: int)
    requires
        0 <= count <= chunks.len(),
    ensures
        layer_headers(chunks, count) matches Ok(headers) ==> {
            &&& headers.len() == count
            &&& count <= 256
            &&& count > 0 ==> headers[0].image is Some && headers[0].image->0.width > 0
                && headers[0].image->0.height > 0
        },
    decreases count,
{
    if count > 0 {
        lemma_layer_headers(chunks, count - 1);
    }
}

/// Once a chunk is wrong, the layer is.
proof fn lemma_layer_error(chunks: Seq<Seq<u8>>, count: int, total: int)
    requires
        0 <= count <= total,
        layer_headers(chunks, count) is Err,
    ensures
        layer_headers(chunks, total) == layer_headers(chunks, count),
    decreases total - count,
{
    if count < total {
        lemma_layer_error(chunks, count, total - 1);
    }
}

/// Reads the headers of the chunks of a layer.
pub fn summarize_iw44_layer(chunks: &[&[u8]]) -> (summary: Result<Iw44LayerSummary, Iw44Error>)
    ensures
        match layer_summary(byte_lists(chunks@)) {
            Err(message) => summary is Err && summary->Err_0@ == message,
            Ok(model) => {
                &&& summary is Ok
                &&& summary->Ok_0@ == model
                &&& model.image.width > 0
                &&& model.image.height > 0
            },
        },
{
    let ghost lists = byte_lists(chunks@);
    let mut headers: Vec<Iw44ChunkHeader> = Vec::new();
    let mut total_slices: u32 = 0;
    let mut total_payload_bytes: usize = 0;
    let mut index: usize = 0;
    while index < chunks.len()
        invariant
            index <= chunks@.len(),
            lists == byte_lists(chunks@),
            layer_headers(lists, index as int) == Ok::<Seq<Iw44ChunkHeader>, Seq<char>>(
                headers@,
            ),
            headers@.len() == index,
            index <= 256,
            total_slices == slice_total(headers@, index as int),
            total_slices <= 255 * index,
            total_payload_bytes == payload_total(headers@, index as int),
        decreases chunks@.len() - index,
    {
        let ghost before = headers@;
        assert(lists[index as int] == chunks@[index as int]@);
        let header = match read_iw44_chunk_header(chunks[index]) {
            Err(error) => {
                proof {
                    lemma_layer_error(lists, index + 1, lists.len() as int);
                }
                return Err(error);
            },
            Ok(header) => header,
        };
        if index > 255 {
            proof {
                lemma_layer_error(lists, index + 1, lists.len() as int);
            }
            return Err(Iw44Error::new("IW44 layer has more than 256 chunks"));
        }
        if header.serial as usize != index {
            proof {
                lemma_layer_error(lists, index + 1, lists.len() as int);
            }
            return Err(serial_error(header.serial, index as u8));
        }
        total_slices = total_slices + header.slices as u32;
        total_payload_bytes = total_payload_bytes.wrapping_add(header.payload_len);
        headers.push(header);
        proof {
            lemma_totals_of_prefix(before, headers@, index as int);
        }
        index = index + 1;
    }
    proof {
        lemma_layer_headers(lists, lists.len() as int);
    }
    if headers.len() == 0 {
        return Err(Iw44Error::new("IW44 layer has no chunks"));
    }
    match headers[0].image {
        None => Err(Iw44Error::new("IW44 layer first chunk has no image header")),
        Some(image) => Ok(
            Iw44LayerSummary { image, chunks: headers, total_slices, total_payload_bytes },
        ),
    }
}

/// Totals over a prefix depend on the prefix alone.
proof fn lemma_totals_of_prefix(
    short: Seq<Iw44ChunkHeader>,
    long: Seq<Iw44ChunkHeader>,
    count: int,
)
    requires
        0 <= count <= short.len() <= long.len(),
        forall|i: int| 0 <= i < count ==> short[i] == long[i],
    ensures
        slice_total(short, count) == slice_total(long, count),
        payload_total(short, count) == payload_total(long, count),
    decreases count,
{
    if count > 0 {
        lemma_totals_of_prefix(short, long, count - 1);
    }
}

} // verus!
