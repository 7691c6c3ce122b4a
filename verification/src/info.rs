//! The `INFO` chunk of a page.

use crate::chunk::{
    chunks_in, chunks_view, lemma_chunks_in_order, parse_chunks, read_u16_be, read_u16_le, u16_be,
    u16_le, ChunkModel, Form,
};
use crate::document::{find_chunk, first_with_id, lemma_first_with_id};
use crate::error::{agrees, ParseError};
use crate::text::same_text;
use vstd::prelude::*;

verus! {

/// What a page says of itself. The gamma correction is kept in tenths, as it is stored.
#[derive(Debug, Clone, Copy, PartialEq, Eq, Structural)]
pub struct PageInfo {
    pub width: u16,
    pub height: u16,
    pub version: u8,
    pub dpi: u16,
    pub gamma_tenths: u8,
    pub rotation: u8,
}

/// The orientation flag, where only four values are valid and any other means 1.
pub open spec fn orientation(rotation: u8) -> u8 {
    if rotation == 1 || rotation == 6 || rotation == 2 || rotation == 5 {
        rotation
    } else {
        1
    }
}

/// The information that starts at an offset.
pub open spec fn info_at(bytes: Seq<u8>, start: int) -> PageInfo {
    PageInfo {
        width: u16_be(bytes, start) as u16,
        height: u16_be(bytes, start + 2) as u16,
        version: bytes[start + 4],
        dpi: u16_le(bytes, start + 6) as u16,
        gamma_tenths: bytes[start + 8],
        rotation: bytes[start + 9],
    }
}

/// What the first `INFO` chunk of a page says, if there is one and it has at least ten
/// bytes.
pub open spec fn info_of_chunks(bytes: Seq<u8>, chunks: Seq<ChunkModel>) -> Option<PageInfo> {
    match first_with_id(chunks, "INFO"@) {
        Some(chunk) => if chunk.size >= 10 {
            Some(info_at(bytes, chunk.data_start as int))
        } else {
            None
        },
        None => None,
    }
}

/// The information of the form with the given kind and extent, or why its chunks cannot
/// be read.
pub open spec fn page_info(bytes: Seq<u8>, kind: Seq<char>, start: int, end: int) -> Result<
    Option<PageInfo>,
    Seq<char>,
> {
    if kind != "DJVU"@ {
        Ok(None)
    } else {
        match chunks_in(bytes, start, end) {
            Err(message) => Err(message),
            Ok(chunks) => Ok(info_of_chunks(bytes, chunks)),
        }
    }
}

impl PageInfo {
    /// The orientation flag, with 1 in place of any value that is not valid.
    #[must_use]
    pub fn normalized_rotation_flag(&self) -> (flag: u8)
        ensures
            flag == orientation(self.rotation),
    {
        match self.rotation {
            1 | 6 | 2 | 5 => self.rotation,
            _ => 1,
        }
    }

    /// Whether the page is shown as it is stored.
    #[must_use]
    pub fn is_rightside_up(&self) -> (upright: bool)
        ensures
            upright == (self.rotation != 6 && self.rotation != 2 && self.rotation != 5),
    {
        self.normalized_rotation_flag() == 1
    }
}

/// Reads the first `INFO` chunk of a page form, if there is one.
pub fn read_page_info(bytes: &[u8], form: &Form<'_>) -> (info: Result<
    Option<PageInfo>,
    ParseError,
>)
    ensures
        agrees(
            info,
            page_info(
                bytes@,
                form.kind@,
                form.children_start as int,
                form.chunk.data_end as int,
            ),
            |info: Option<PageInfo>, expected: Option<PageInfo>| info == expected,
        ),
{
    if !same_text(form.kind, "DJVU") {
        return Ok(None);
    }
    proof {
        lemma_chunks_in_order(bytes@, form.children_start as int, form.chunk.data_end as int);
    }
    let children = match parse_chunks(bytes, form.children_start, form.chunk.data_end) {
        Err(error) => {
            return Err(error);
        },
        Ok(children) => children,
    };
    let ghost models = chunks_view(children@);
    let first = match find_chunk(children.as_slice(), "INFO") {
        None => {
            return Ok(None);
        },
        Some(first) => first,
    };
    if first.size < 10 {
        return Ok(None);
    }
    let start: usize = first.data_start;
    proof {
        let i = choose|i: int| 0 <= i < children@.len() && children@[i] == first;
        assert(models[i] == first@);
    }
    let width: u16 = match read_u16_be(bytes, start) {
        Err(error) => {
            return Err(error);
        },
        Ok(width) => width,
    };
    let height: u16 = match read_u16_be(bytes, start + 2) {
        Err(error) => {
            return Err(error);
        },
        Ok(height) => height,
    };
    let dpi: u16 = match read_u16_le(bytes, start + 6) {
        Err(error) => {
            return Err(error);
        },
        Ok(dpi) => dpi,
    };
    Ok(
        Some(
            PageInfo {
                width,
                height,
                version: bytes[start + 4],
                dpi,
                gamma_tenths: bytes[start + 8],
                rotation: bytes[start + 9],
            },
        ),
    )
}

/// The chunk at a place is the one that is read, if it is an `INFO` chunk and none before it
/// is; and nothing is read where no chunk is.
pub proof fn lemma_first_info(bytes: Seq<u8>, chunks: Seq<ChunkModel>, i: int)
    requires
        0 <= i <= chunks.len(),
        forall|k: int| 0 <= k < i ==> (#[trigger] chunks[k]).id != "INFO"@,
        i < chunks.len() ==> chunks[i].id == "INFO"@,
    ensures
        i == chunks.len() ==> info_of_chunks(bytes, chunks) is None,
        i < chunks.len() ==> info_of_chunks(bytes, chunks) == if chunks[i].size >= 10 {
            Some(info_at(bytes, chunks[i].data_start as int))
        } else {
            None
        },
{
    lemma_first_with_id(chunks, i, "INFO"@);
}

} // verus!
