//! The chunks of a page.

use crate::chunk::{
    chunks_in, chunks_view, lemma_chunks_in_order, parse_chunks, Chunk, ChunkModel, Form,
    FormModel,
};
use crate::error::{agrees, ParseError};
use crate::info::{page_info, read_page_info, PageInfo};
use crate::text::{same_text, text_from_utf8};
use vstd::prelude::*;
use vstd::utf8::{decode_utf8, valid_utf8};

verus! {

/// A page: its information and its chunks.
#[derive(Debug, Clone)]
pub struct PageDetails<'a> {
    pub form: Form<'a>,
    pub info: Option<PageInfo>,
    pub chunks: Vec<PageChunk<'a>>,
}

/// A chunk of a page, with what its tag and its data say.
#[derive(Debug, Clone, Copy)]
pub struct PageChunk<'a> {
    pub chunk: Chunk<'a>,
    pub kind: PageChunkKind,
    pub payload: PageChunkPayload<'a>,
}

/// What a chunk is for.
#[derive(Debug, Clone, Copy, PartialEq, Eq, Structural)]
pub enum PageChunkKind {
    Info,
    Include,
    Djbz,
    Sjbz,
    Fg44,
    Bg44,
    Txta,
    Txtz,
    Unknown,
}

/// What the data of a chunk says.
#[derive(Debug, Clone, Copy, PartialEq, Eq)]
pub enum PageChunkPayload<'a> {
    Include { id: &'a str },
    Raw,
}

/// What the data of a chunk says, by its values.
#[verifier::ext_equal]
pub enum PayloadModel {
    Include { id: Seq<char> },
    Raw,
}

/// A chunk of a page by its values.
#[verifier::ext_equal]
pub struct PageChunkModel {
    pub chunk: ChunkModel,
    pub kind: PageChunkKind,
    pub payload: PayloadModel,
}

/// A page by its values.
#[verifier::ext_equal]
pub struct PageDetailsModel {
    pub form: FormModel,
    pub info: Option<PageInfo>,
    pub chunks: Seq<PageChunkModel>,
}

impl<'a> View for PageChunkPayload<'a> {
    type V = PayloadModel;

    open spec fn view(&self) -> PayloadModel {
        match self {
            PageChunkPayload::Include { id } => PayloadModel::Include { id: id@ },
            PageChunkPayload::Raw => PayloadModel::Raw,
        }
    }
}

impl<'a> View for PageChunk<'a> {
    type V = PageChunkModel;

    open spec fn view(&self) -> PageChunkModel {
        PageChunkModel { chunk: self.chunk@, kind: self.kind, payload: self.payload@ }
    }
}

impl<'a> View for PageDetails<'a> {
    type V = PageDetailsModel;

    open spec fn view(&self) -> PageDetailsModel {
        PageDetailsModel {
            form: self.form@,
            info: self.info,
            chunks: page_chunks_view(self.chunks@),
        }
    }
}

/// The chunks of a list by their values.
pub open spec fn page_chunks_view(chunks: Seq<PageChunk<'_>>) -> Seq<PageChunkModel> {
    Seq::new(chunks.len(), |i: int| chunks[i]@)
}

/// What a chunk with the given tag is for.
pub open spec fn chunk_kind(id: Seq<char>) -> PageChunkKind {
    if id == "INFO"@ {
        PageChunkKind::Info
    } else if id == "INCL"@ {
        PageChunkKind::Include
    } else if id == "Djbz"@ {
        PageChunkKind::Djbz
    } else if id == "Sjbz"@ {
        PageChunkKind::Sjbz
    } else if id == "FG44"@ {
        PageChunkKind::Fg44
    } else if id == "BG44"@ {
        PageChunkKind::Bg44
    } else if id == "TXTa"@ {
        PageChunkKind::Txta
    } else if id == "TXTz"@ {
        PageChunkKind::Txtz
    } else {
        PageChunkKind::Unknown
    }
}

/// What the data of a chunk says: of an `INCL` chunk with valid text, what it refers to.
pub open spec fn chunk_payload(bytes: Seq<u8>, chunk: ChunkModel) -> PayloadModel {
    let data = bytes.subrange(chunk.data_start as int, chunk.data_end as int);
    if chunk.id == "INCL"@ && valid_utf8(data) {
        PayloadModel::Include { id: decode_utf8(data) }
    } else {
        PayloadModel::Raw
    }
}

/// A chunk of a page, with what its tag and its data say.
pub open spec fn page_chunk(bytes: Seq<u8>, chunk: ChunkModel) -> PageChunkModel {
    PageChunkModel { chunk, kind: chunk_kind(chunk.id), payload: chunk_payload(bytes, chunk) }
}

/// The chunks of a page, with what their tags and their data say.
pub open spec fn page_chunks(bytes: Seq<u8>, chunks: Seq<ChunkModel>) -> Seq<PageChunkModel> {
    Seq::new(chunks.len(), |i: int| page_chunk(bytes, chunks[i]))
}

/// The page in a form, or why its chunks cannot be read.
pub open spec fn page_details(bytes: Seq<u8>, form: FormModel) -> Result<
    PageDetailsModel,
    Seq<char>,
> {
    let start = form.children_start as int;
    let end = form.chunk.data_end as int;
    match chunks_in(bytes, start, end) {
        Err(message) => Err(message),
        Ok(chunks) => Ok(
            PageDetailsModel {
                form,
                info: page_info(bytes, form.kind, start, end)->Ok_0,
                chunks: page_chunks(bytes, chunks),
            },
        ),
    }
}

/// The chunks of one kind, in order.
pub open spec fn of_kind(chunks: Seq<PageChunkModel>, kind: PageChunkKind) -> Seq<PageChunkModel>
    decreases chunks.len(),
{
    if chunks.len() == 0 {
        Seq::empty()
    } else if chunks.last().kind == kind {
        of_kind(chunks.drop_last(), kind).push(chunks.last())
    } else {
        of_kind(chunks.drop_last(), kind)
    }
}

/// The short name of a kind of chunk.
pub open spec fn kind_name(kind: PageChunkKind) -> Seq<char> {
    match kind {
        PageChunkKind::Info => "info"@,
        PageChunkKind::Include => "include"@,
        PageChunkKind::Djbz => "djbz"@,
        PageChunkKind::Sjbz => "sjbz"@,
        PageChunkKind::Fg44 => "fg44"@,
        PageChunkKind::Bg44 => "bg44"@,
        PageChunkKind::Txta => "txta"@,
        PageChunkKind::Txtz => "txtz"@,
        PageChunkKind::Unknown => "unknown"@,
    }
}

impl PageChunkKind {
    /// What a chunk with the given tag is for.
    #[must_use]
    pub fn from_chunk_id(id: &str) -> (kind: Self)
        ensures
            kind == chunk_kind(id@),
    {
        if same_text(id, "INFO") {
            PageChunkKind::Info
        } else if same_text(id, "INCL") {
            PageChunkKind::Include
        } else if same_text(id, "Djbz") {
            PageChunkKind::Djbz
        } else if same_text(id, "Sjbz") {
            PageChunkKind::Sjbz
        } else if same_text(id, "FG44") {
            PageChunkKind::Fg44
        } else if same_text(id, "BG44") {
            PageChunkKind::Bg44
        } else if same_text(id, "TXTa") {
            PageChunkKind::Txta
        } else if same_text(id, "TXTz") {
            PageChunkKind::Txtz
        } else {
            PageChunkKind::Unknown
        }
    }

    /// The short name of the kind.
    #[must_use]
    pub fn as_str(self) -> (name: &'static str)
        ensures
            name@ == kind_name(self),
    {
        match self {
            PageChunkKind::Info => "info",
            PageChunkKind::Include => "include",
            PageChunkKind::Djbz => "djbz",
            PageChunkKind::Sjbz => "sjbz",
            PageChunkKind::Fg44 => "fg44",
            PageChunkKind::Bg44 => "bg44",
            PageChunkKind::Txta => "txta",
            PageChunkKind::Txtz => "txtz",
            PageChunkKind::Unknown => "unknown",
        }
    }
}

impl<'a> PageChunkPayload<'a> {
    /// What the data of a chunk says.
    #[must_use]
    pub fn from_chunk(bytes: &'a [u8], chunk: &Chunk<'_>) -> (payload: Self)
        requires
            chunk.id@ == "INCL"@ ==> chunk.data_start <= chunk.data_end <= bytes@.len(),
        ensures
            payload@ == chunk_payload(bytes@, chunk@),
    {
        if !same_text(chunk.id, "INCL") {
            return PageChunkPayload::Raw;
        }
        match text_from_utf8(
            vstd::slice::slice_subrange(bytes, chunk.data_start, chunk.data_end),
        ) {
            Ok(id) => PageChunkPayload::Include { id },
            Err(_) => PageChunkPayload::Raw,
        }
    }
}

impl<'a> PageDetails<'a> {
    /// The chunks of one kind, in order.
    pub fn chunks_of_kind(&self, kind: PageChunkKind) -> (chunks: Vec<PageChunk<'a>>)
        ensures
            page_chunks_view(chunks@) == of_kind(self@.chunks, kind),
    {
        let mut chunks: Vec<PageChunk<'a>> = Vec::new();
        let mut i: usize = 0;
        let ghost all = self@.chunks;
        assert(page_chunks_view(chunks@) =~= of_kind(all.take(0), kind));
        while i < self.chunks.len()
            invariant
                i <= self.chunks@.len(),
                all == page_chunks_view(self.chunks@),
                page_chunks_view(chunks@) == of_kind(all.take(i as int), kind),
            decreases self.chunks@.len() - i,
        {
            assert(all.take(i + 1).drop_last() =~= all.take(i as int));
            assert(all.take(i + 1).last() == self.chunks@[i as int]@);
            if self.chunks[i].kind == kind {
                let ghost before = chunks@;
                chunks.push(self.chunks[i]);
                assert(page_chunks_view(chunks@) =~= page_chunks_view(before).push(
                    self.chunks@[i as int]@,
                ));
            }
            i = i + 1;
        }
        assert(all.take(i as int) =~= all);
        chunks
    }
}

/// Reads the chunks between two offsets, with what their tags and their data say.
pub fn read_page_chunks<'a>(bytes: &'a [u8], start: usize, end: usize) -> (chunks: Result<
    Vec<PageChunk<'a>>,
    ParseError,
>)
    ensures
        match chunks_in(bytes@, start as int, end as int) {
            Err(message) => chunks is Err && chunks->Err_0@ == message,
            Ok(models) => chunks is Ok && page_chunks_view(chunks->Ok_0@) == page_chunks(
                bytes@,
                models,
            ),
        },
{
    proof {
        lemma_chunks_in_order(bytes@, start as int, end as int);
    }
    let plain = match parse_chunks(bytes, start, end) {
        Err(error) => {
            return Err(error);
        },
        Ok(plain) => plain,
    };
    let ghost models = chunks_view(plain@);
    let mut chunks: Vec<PageChunk<'a>> = Vec::new();
    let mut i: usize = 0;
    assert(page_chunks_view(chunks@) =~= page_chunks(bytes@, models.take(0)));
    while i < plain.len()
        invariant
            i <= plain@.len(),
            models == chunks_view(plain@),
            forall|k: int|
                0 <= k < models.len() ==> (#[trigger] models[k]).data_start <= models[k].data_end
                    <= bytes@.len(),
            page_chunks_view(chunks@) == page_chunks(bytes@, models.take(i as int)),
        decreases plain@.len() - i,
    {
        let chunk = plain[i];
        assert(models[i as int] == chunk@);
        let ghost before = chunks@;
        let described = PageChunk {
            kind: PageChunkKind::from_chunk_id(chunk.id),
            payload: PageChunkPayload::from_chunk(bytes, &chunk),
            chunk,
        };
        chunks.push(described);
        assert(described@ == page_chunk(bytes@, models[i as int]));
        assert(page_chunks_view(chunks@) =~= page_chunks_view(before).push(described@));
        assert(page_chunks(bytes@, models.take(i + 1)) =~= page_chunks(
            bytes@,
            models.take(i as int),
        ).push(described@));
        i = i + 1;
    }
    assert(models.take(i as int) =~= models);
    Ok(chunks)
}

/// Reads the chunks of a page form.
pub fn read_page_details<'a>(bytes: &'a [u8], form: &Form<'a>) -> (details: Result<
    PageDetails<'a>,
    ParseError,
>)
    ensures
        agrees(
            details,
            page_details(bytes@, form@),
            |details: PageDetails<'a>, model: PageDetailsModel| details@ == model,
        ),
{
    let info: Option<PageInfo> = match read_page_info(bytes, form) {
        Err(error) => {
            return Err(error);
        },
        Ok(info) => info,
    };
    let chunks = match read_page_chunks(bytes, form.children_start, form.chunk.data_end) {
        Err(error) => {
            return Err(error);
        },
        Ok(chunks) => chunks,
    };
    Ok(PageDetails { form: *form, info, chunks })
}

} // verus!
