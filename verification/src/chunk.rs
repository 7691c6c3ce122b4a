//! Chunks and forms: the structure of an IFF file.

use crate::error::{agrees, ParseError};
use crate::text::{decimal, push_decimal, same_text, text_from_utf8, text_of};
use vstd::prelude::*;
use vstd::utf8::{decode_utf8, valid_utf8};

verus! {

/// The bytes that every file starts with.
pub const DJVU_MAGIC: [u8; 4] = [65, 84, 38, 84];

/// A chunk: its tag, the size of its data, where the data starts and ends, and where the
/// next chunk starts.
#[derive(Debug, Clone, Copy)]
pub struct Chunk<'a> {
    pub id: &'a str,
    pub size: u32,
    pub data_start: usize,
    pub data_end: usize,
    pub next_start: usize,
}

/// A chunk that holds chunks: its kind, and where they start.
#[derive(Debug, Clone, Copy)]
pub struct Form<'a> {
    pub chunk: Chunk<'a>,
    pub kind: &'a str,
    pub children_start: usize,
}

/// A chunk by its values.
#[verifier::ext_equal]
pub struct ChunkModel {
    pub id: Seq<char>,
    pub size: u32,
    pub data_start: usize,
    pub data_end: usize,
    pub next_start: usize,
}

/// A form by its values.
#[verifier::ext_equal]
pub struct FormModel {
    pub chunk: ChunkModel,
    pub kind: Seq<char>,
    pub children_start: usize,
}

impl<'a> View for Chunk<'a> {
    type V = ChunkModel;

    open spec fn view(&self) -> ChunkModel {
        ChunkModel {
            id: self.id@,
            size: self.size,
            data_start: self.data_start,
            data_end: self.data_end,
            next_start: self.next_start,
        }
    }
}

impl<'a> View for Form<'a> {
    type V = FormModel;

    open spec fn view(&self) -> FormModel {
        FormModel {
            chunk: self.chunk@,
            kind: self.kind@,
            children_start: self.children_start,
        }
    }
}

/// The chunks of a list by their values.
pub open spec fn chunks_view(chunks: Seq<Chunk<'_>>) -> Seq<ChunkModel> {
    Seq::new(chunks.len(), |i: int| chunks[i]@)
}

/// What is wrong with a range of bytes, if anything.
pub open spec fn range_fault(available: int, start: int, len: int) -> Option<Seq<char>> {
    if start + len > usize::MAX {
        Some("offset overflow"@)
    } else if start + len > available {
        Some(
            "need bytes ["@ + decimal(start as nat) + ".."@ + decimal((start + len) as nat)
                + "), but file only has "@ + decimal(available as nat) + " bytes"@,
        )
    } else {
        None
    }
}

/// Two bytes as a number, high byte first.
pub open spec fn u16_be(bytes: Seq<u8>, start: int) -> int {
    256 * bytes[start] + bytes[start + 1]
}

/// Two bytes as a number, low byte first.
pub open spec fn u16_le(bytes: Seq<u8>, start: int) -> int {
    256 * bytes[start + 1] + bytes[start]
}

/// Four bytes as a number, high byte first.
pub open spec fn u32_be(bytes: Seq<u8>, start: int) -> int {
    65536 * u16_be(bytes, start) + u16_be(bytes, start + 2)
}

/// The chunk at an offset, or why there is none.
pub open spec fn chunk_at(bytes: Seq<u8>, start: int) -> Result<ChunkModel, Seq<char>> {
    let tag = bytes.subrange(start, start + 4);
    let size = u32_be(bytes, start + 4);
    let data_end = start + 8 + size;
    let next_start = data_end + size % 2;
    if range_fault(bytes.len() as int, start, 8) is Some {
        Err(range_fault(bytes.len() as int, start, 8)->0)
    } else if !valid_utf8(tag) {
        Err("non-ASCII chunk tag at offset "@ + decimal(start as nat))
    } else if range_fault(bytes.len() as int, start + 8, size) is Some {
        Err(range_fault(bytes.len() as int, start + 8, size)->0)
    } else if next_start > usize::MAX {
        Err("offset overflow"@)
    } else if next_start > bytes.len() {
        Err(
            "chunk "@ + decode_utf8(tag) + " at offset "@ + decimal(start as nat)
                + " has invalid padding"@,
        )
    } else {
        Ok(
            ChunkModel {
                id: decode_utf8(tag),
                size: size as u32,
                data_start: (start + 8) as usize,
                data_end: data_end as usize,
                next_start: next_start as usize,
            },
        )
    }
}

/// The form at an offset, or why there is none.
pub open spec fn form_at(bytes: Seq<u8>, start: int) -> Result<FormModel, Seq<char>> {
    match chunk_at(bytes, start) {
        Err(message) => Err(message),
        Ok(chunk) => {
            let tag = bytes.subrange(chunk.data_start as int, chunk.data_start + 4);
            if chunk.id != "FORM"@ {
                Err(
                    "expected FORM at offset "@ + decimal(start as nat) + ", found "@ + chunk.id,
                )
            } else if chunk.size < 4 {
                Err(
                    "FORM at offset "@ + decimal(start as nat)
                        + " is too small to contain a form kind"@,
                )
            } else if !valid_utf8(tag) {
                Err("non-ASCII chunk tag at offset "@ + decimal(chunk.data_start as nat))
            } else {
                Ok(
                    FormModel {
                        chunk,
                        kind: decode_utf8(tag),
                        children_start: (chunk.data_start + 4) as usize,
                    },
                )
            }
        },
    }
}

/// The chunks from an offset up to the end of their parent, after those already
/// found; or why they cannot be read.
pub open spec fn chunks_from(
    bytes: Seq<u8>,
    cursor: int,
    end: int,
    found: Seq<ChunkModel>,
) -> Result<Seq<ChunkModel>, Seq<char>>
    decreases bytes.len() + 8 - cursor,
{
    if cursor >= end {
        Ok(found)
    } else {
        match chunk_at(bytes, cursor) {
            Err(message) => Err(message),
            Ok(chunk) => if chunk.data_end > end {
                Err(
                    "chunk "@ + chunk.id + " at offset "@ + decimal(cursor as nat)
                        + " extends past parent end "@ + decimal(end as nat),
                )
            } else if cursor < chunk.next_start <= bytes.len() {
                chunks_from(bytes, chunk.next_start as int, end, found.push(chunk))
            } else {
                Ok(found)
            },
        }
    }
}

/// The chunks between two offsets, or why they cannot be read.
pub open spec fn chunks_in(bytes: Seq<u8>, start: int, end: int) -> Result<
    Seq<ChunkModel>,
    Seq<char>,
> {
    chunks_from(bytes, start, end, Seq::empty())
}

/// The form that a document consists of, or why there is none.
pub open spec fn document_root(bytes: Seq<u8>) -> Result<FormModel, Seq<char>> {
    if range_fault(bytes.len() as int, 0, 4) is Some {
        Err(range_fault(bytes.len() as int, 0, 4)->0)
    } else if bytes.subrange(0, 4) != DJVU_MAGIC@ {
        Err("missing DjVu magic bytes `AT&T`"@)
    } else {
        match form_at(bytes, 4) {
            Err(message) => Err(message),
            Ok(form) => if form.kind == "DJVU"@ || form.kind == "DJVM"@ {
                Ok(form)
            } else {
                Err("unexpected DjVu root FORM kind `"@ + form.kind + "`"@)
            },
        }
    }
}

/// A chunk that was read lies within the file, and the next one starts behind it.
pub proof fn lemma_chunk_in_file(bytes: Seq<u8>, start: int)
    requires
        0 <= start,
    ensures
        chunk_at(bytes, start) matches Ok(chunk) ==> {
            &&& start + 8 == chunk.data_start
            &&& chunk.data_start + chunk.size == chunk.data_end
            &&& chunk.data_end <= chunk.next_start <= chunk.data_end + 1
            &&& chunk.next_start <= bytes.len()
            &&& chunk.next_start % 2 == start % 2
        },
{
    if start + 8 <= bytes.len() {
        let size = u32_be(bytes, start + 4);
        assert(0 <= size <= u32::MAX);
    }
}

/// A form that was read lies within the file, and its chunks start within it.
pub proof fn lemma_form_in_file(bytes: Seq<u8>, start: int)
    requires
        0 <= start,
    ensures
        form_at(bytes, start) matches Ok(form) ==> {
            &&& form.chunk.id == "FORM"@
            &&& form.children_start == form.chunk.data_start + 4
            &&& form.children_start <= form.chunk.data_end <= bytes.len()
            &&& form.chunk.data_start == start + 8
        },
{
    lemma_chunk_in_file(bytes, start);
}

proof fn lemma_chunks_in_order_from(
    bytes: Seq<u8>,
    first: int,
    cursor: int,
    end: int,
    found: Seq<ChunkModel>,
)
    requires
        0 <= first <= cursor,
        forall|i: int|
            0 <= i < found.len() ==> {
                &&& first <= (#[trigger] found[i]).data_start - 8
                &&& found[i].data_end <= end
                &&& found[i].data_end <= bytes.len()
                &&& found[i].data_start + found[i].size == found[i].data_end
                &&& found[i].next_start <= cursor
                &&& found[i].data_end <= found[i].next_start
            },
        forall|i: int, j: int|
            0 <= i < j < found.len() ==> (#[trigger] found[i]).next_start <= (
            #[trigger] found[j]).data_start - 8,
    ensures
        chunks_from(bytes, cursor, end, found) matches Ok(chunks) ==> {
            &&& forall|i: int|
                0 <= i < chunks.len() ==> {
                    &&& first <= (#[trigger] chunks[i]).data_start - 8
                    &&& chunks[i].data_start + chunks[i].size == chunks[i].data_end
                    &&& chunks[i].data_end <= end
                    &&& chunks[i].data_end <= bytes.len()
                }
            &&& forall|i: int, j: int|
                0 <= i < j < chunks.len() ==> (#[trigger] chunks[i]).data_end <= (
                #[trigger] chunks[j]).data_start - 8
        },
    decreases bytes.len() + 8 - cursor,
{
    if cursor < end {
        lemma_chunk_in_file(bytes, cursor);
        match chunk_at(bytes, cursor) {
            Ok(chunk) => {
                if chunk.data_end <= end && cursor < chunk.next_start <= bytes.len() {
                    lemma_chunks_in_order_from(
                        bytes,
                        first,
                        chunk.next_start as int,
                        end,
                        found.push(chunk),
                    );
                }
            },
            Err(_) => {},
        }
    }
}

/// The chunks read between two offsets lie between them, within the file, one after the
/// other without overlap.
pub proof fn lemma_chunks_in_order(bytes: Seq<u8>, start: int, end: int)
    requires
        0 <= start,
    ensures
        chunks_in(bytes, start, end) matches Ok(chunks) ==> {
            &&& forall|i: int|
                0 <= i < chunks.len() ==> {
                    &&& start <= (#[trigger] chunks[i]).data_start - 8
                    &&& chunks[i].data_start + chunks[i].size == chunks[i].data_end
                    &&& chunks[i].data_end <= end
                    &&& chunks[i].data_end <= bytes.len()
                }
            &&& forall|i: int, j: int|
                0 <= i < j < chunks.len() ==> (#[trigger] chunks[i]).data_end <= (
                #[trigger] chunks[j]).data_start - 8
        },
{
    lemma_chunks_in_order_from(bytes, start, start, end, Seq::empty());
}

/// Insists that a range of bytes is there.
pub fn require_range(bytes: &[u8], start: usize, len: usize) -> (result: Result<(), ParseError>)
    ensures
        result is Ok <==> range_fault(bytes@.len() as int, start as int, len as int) is None,
        result is Err ==> result->Err_0@ == range_fault(
            bytes@.len() as int,
            start as int,
            len as int,
        )->0,
{
    let end: usize = match checked_add(start, len) {
        Err(error) => {
            return Err(error);
        },
        Ok(end) => end,
    };
    if end > bytes.len() {
        let mut message: String = text_of("need bytes [");
        push_decimal(&mut message, start as u64);
        message.append("..");
        push_decimal(&mut message, end as u64);
        message.append("), but file only has ");
        push_decimal(&mut message, bytes.len() as u64);
        message.append(" bytes");
        return Err(ParseError(message));
    }
    Ok(())
}

/// A sum of offsets, if it is one.
pub fn checked_add(lhs: usize, rhs: usize) -> (sum: Result<usize, ParseError>)
    ensures
        lhs + rhs <= usize::MAX ==> sum is Ok && sum->Ok_0 == lhs + rhs,
        lhs + rhs > usize::MAX ==> sum is Err && sum->Err_0@ == "offset overflow"@,
{
    match lhs.checked_add(rhs) {
        Some(sum) => Ok(sum),
        None => Err(ParseError::new("offset overflow")),
    }
}

/// Reads two bytes as a number, high byte first.
pub fn read_u16_be(bytes: &[u8], start: usize) -> (value: Result<u16, ParseError>)
    ensures
        match range_fault(bytes@.len() as int, start as int, 2) {
            Some(message) => value is Err && value->Err_0@ == message,
            None => value is Ok && value->Ok_0 == u16_be(bytes@, start as int),
        },
{
    match require_range(bytes, start, 2) {
        Err(error) => Err(error),
        Ok(_) => Ok(256 * bytes[start] as u16 + bytes[start + 1] as u16),
    }
}

/// Reads two bytes as a number, low byte first.
pub fn read_u16_le(bytes: &[u8], start: usize) -> (value: Result<u16, ParseError>)
    ensures
        match range_fault(bytes@.len() as int, start as int, 2) {
            Some(message) => value is Err && value->Err_0@ == message,
            None => value is Ok && value->Ok_0 == u16_le(bytes@, start as int),
        },
{
    match require_range(bytes, start, 2) {
        Err(error) => Err(error),
        Ok(_) => Ok(256 * bytes[start + 1] as u16 + bytes[start] as u16),
    }
}

/// Reads four bytes as a number, high byte first.
pub fn read_u32_be(bytes: &[u8], start: usize) -> (value: Result<u32, ParseError>)
    ensures
        match range_fault(bytes@.len() as int, start as int, 4) {
            Some(message) => value is Err && value->Err_0@ == message,
            None => value is Ok && value->Ok_0 == u32_be(bytes@, start as int),
        },
{
    match require_range(bytes, start, 4) {
        Err(error) => Err(error),
        Ok(_) => Ok(
            16777216 * bytes[start] as u32 + 65536 * bytes[start + 1] as u32 + 256 * bytes[start
                + 2] as u32 + bytes[start + 3] as u32,
        ),
    }
}

/// Reads the tag at an offset.
fn ascii_tag(bytes: &[u8], start: usize) -> (tag: Result<&str, ParseError>)
    ensures
        match range_fault(bytes@.len() as int, start as int, 4) {
            Some(message) => tag is Err && tag->Err_0@ == message,
            None => {
                let bytes4 = bytes@.subrange(start as int, start + 4);
                if valid_utf8(bytes4) {
                    tag is Ok && tag->Ok_0@ == decode_utf8(bytes4)
                } else {
                    tag is Err && tag->Err_0@ == "non-ASCII chunk tag at offset "@ + decimal(
                        start as nat,
                    )
                }
            },
        },
{
    match require_range(bytes, start, 4) {
        Err(error) => {
            return Err(error);
        },
        Ok(_) => {},
    }
    match text_from_utf8(vstd::slice::slice_subrange(bytes, start, start + 4)) {
        Ok(tag) => Ok(tag),
        Err(_) => {
            let mut message: String = text_of("non-ASCII chunk tag at offset ");
            push_decimal(&mut message, start as u64);
            Err(ParseError(message))
        },
    }
}

/// Reads the chunk at an offset.
pub fn parse_chunk_at(bytes: &[u8], start: usize) -> (chunk: Result<Chunk<'_>, ParseError>)
    ensures
        agrees(
            chunk,
            chunk_at(bytes@, start as int),
            |chunk: Chunk<'_>, model: ChunkModel| chunk@ == model,
        ),
{
    match require_range(bytes, start, 8) {
        Err(error) => {
            return Err(error);
        },
        Ok(_) => {},
    }
    let id: &str = match ascii_tag(bytes, start) {
        Err(error) => {
            return Err(error);
        },
        Ok(id) => id,
    };
    let size: u32 = match read_u32_be(bytes, start + 4) {
        Err(error) => {
            return Err(error);
        },
        Ok(size) => size,
    };
    let data_start: usize = start + 8;
    match require_range(bytes, data_start, size as usize) {
        Err(error) => {
            return Err(error);
        },
        Ok(_) => {},
    }
    let data_end: usize = data_start + size as usize;
    let next_start: usize = match checked_add(data_end, (size % 2) as usize) {
        Err(error) => {
            return Err(error);
        },
        Ok(next_start) => next_start,
    };
    if next_start > bytes.len() {
        let mut message: String = text_of("chunk ");
        message.append(id);
        message.append(" at offset ");
        push_decimal(&mut message, start as u64);
        message.append(" has invalid padding");
        return Err(ParseError(message));
    }
    Ok(Chunk { id, size, data_start, data_end, next_start })
}

/// Reads the form at an offset.
pub fn parse_form_at(bytes: &[u8], start: usize) -> (form: Result<Form<'_>, ParseError>)
    ensures
        agrees(
            form,
            form_at(bytes@, start as int),
            |form: Form<'_>, model: FormModel| form@ == model,
        ),
{
    proof {
        lemma_chunk_in_file(bytes@, start as int);
    }
    let chunk = match parse_chunk_at(bytes, start) {
        Err(error) => {
            return Err(error);
        },
        Ok(chunk) => chunk,
    };
    if !same_text(chunk.id, "FORM") {
        let mut message: String = text_of("expected FORM at offset ");
        push_decimal(&mut message, start as u64);
        message.append(", found ");
        message.append(chunk.id);
        return Err(ParseError(message));
    }
    if chunk.size < 4 {
        let mut message: String = text_of("FORM at offset ");
        push_decimal(&mut message, start as u64);
        message.append(" is too small to contain a form kind");
        return Err(ParseError(message));
    }
    let kind: &str = match ascii_tag(bytes, chunk.data_start) {
        Err(error) => {
            return Err(error);
        },
        Ok(kind) => kind,
    };
    Ok(Form { chunk, kind, children_start: chunk.data_start + 4 })
}

/// Reads the chunks between two offsets.
pub fn parse_chunks(bytes: &[u8], start: usize, end: usize) -> (chunks: Result<
    Vec<Chunk<'_>>,
    ParseError,
>)
    ensures
        agrees(
            chunks,
            chunks_in(bytes@, start as int, end as int),
            |chunks: Vec<Chunk<'_>>, models: Seq<ChunkModel>| chunks_view(chunks@) == models,
        ),
{
    let mut chunks: Vec<Chunk<'_>> = Vec::new();
    let mut cursor: usize = start;
    assert(chunks_view(chunks@) =~= Seq::<ChunkModel>::empty());
    while cursor < end
        invariant
            chunks_from(bytes@, cursor as int, end as int, chunks_view(chunks@)) == chunks_in(
                bytes@,
                start as int,
                end as int,
            ),
        decreases bytes@.len() + 8 + end - cursor,
    {
        proof {
            lemma_chunk_in_file(bytes@, cursor as int);
        }
        let chunk = match parse_chunk_at(bytes, cursor) {
            Err(error) => {
                return Err(error);
            },
            Ok(chunk) => chunk,
        };
        if chunk.data_end > end {
            let mut message: String = text_of("chunk ");
            message.append(chunk.id);
            message.append(" at offset ");
            push_decimal(&mut message, cursor as u64);
            message.append(" extends past parent end ");
            push_decimal(&mut message, end as u64);
            return Err(ParseError(message));
        }
        let ghost before = chunks@;
        chunks.push(chunk);
        assert(chunks_view(chunks@) =~= chunks_view(before).push(chunk@));
        cursor = chunk.next_start;
    }
    Ok(chunks)
}

/// Reads the form that a document consists of.
pub fn parse_document_root(bytes: &[u8]) -> (root: Result<Form<'_>, ParseError>)
    ensures
        agrees(
            root,
            document_root(bytes@),
            |form: Form<'_>, model: FormModel| form@ == model,
        ),
{
    match require_range(bytes, 0, 4) {
        Err(error) => {
            return Err(error);
        },
        Ok(_) => {},
    }
    if !crate::text::same_bytes(
        vstd::slice::slice_subrange(bytes, 0, 4),
        DJVU_MAGIC.as_slice(),
    ) {
        return Err(ParseError::new("missing DjVu magic bytes `AT&T`"));
    }
    let root = match parse_form_at(bytes, 4) {
        Err(error) => {
            return Err(error);
        },
        Ok(root) => root,
    };
    if same_text(root.kind, "DJVU") || same_text(root.kind, "DJVM") {
        return Ok(root);
    }
    let mut message: String = text_of("unexpected DjVu root FORM kind `");
    message.append(root.kind);
    message.append("`");
    Err(ParseError(message))
}

} // verus!
