//! Documents: their forms, their pages and their directory.

use crate::chunk::{
    chunks_in, chunks_view, document_root, form_at, parse_chunks, parse_document_root,
    parse_form_at, Chunk, ChunkModel, Form, FormModel,
};
use crate::dirm::{
    dirm_of, entries_view, parse_dirm, Dirm, DirmModel, DirmTailEntry, TailEntryModel,
};
use crate::error::{agrees, ParseError};
use crate::info::{page_info, read_page_info, PageInfo};
use crate::page::{
    page_chunks, page_chunks_view, page_details, read_page_chunks, read_page_details, PageChunk,
    PageChunkModel, PageChunkPayload, PageDetails, PageDetailsModel, PayloadModel,
};
use crate::text::{decimal, push_decimal, same_text, text_of};
use vstd::prelude::*;

verus! {

/// A document: its root, its directory and its forms.
#[derive(Debug, Clone)]
pub struct Document<'a> {
    pub root: Form<'a>,
    pub root_chunks: Vec<Chunk<'a>>,
    pub directory: Option<Dirm>,
    pub forms: Vec<DocumentForm<'a>>,
    pub unresolved_directory_offsets: usize,
}

/// A form of a document.
#[derive(Debug, Clone, Copy)]
pub struct DocumentForm<'a> {
    pub offset: u32,
    pub form: Form<'a>,
    pub kind: DocumentFormKind,
}

/// What a form is for.
#[derive(Debug, Clone, Copy, PartialEq, Eq, Structural)]
pub enum DocumentFormKind {
    Page,
    Shared,
    Thumbnails,
    Other,
}

/// A page of a document.
#[derive(Debug, Clone, Copy)]
pub struct Page<'a> {
    pub offset: u32,
    pub form: Form<'a>,
    pub info: Option<PageInfo>,
}

/// How many forms there are of each kind.
#[derive(Debug, Default, Clone, Copy, PartialEq, Eq)]
pub struct FormKindCounts {
    pub pages: usize,
    pub shared: usize,
    pub thumbnails: usize,
    pub other: usize,
}

/// How many chunks of the root there are of each role.
#[derive(Debug, Default, Clone, Copy, PartialEq, Eq)]
pub struct RootChunkCounts {
    pub dirm: usize,
    pub navm: usize,
    pub djvu_forms: usize,
    pub djvi_forms: usize,
    pub thum_forms: usize,
    pub other: usize,
}

/// The pages of a document that are still to come.
pub struct Pages<'a> {
    bytes: &'a [u8],
    forms: &'a [DocumentForm<'a>],
}

/// An entry of the directory, with the form that it leads to.
#[derive(Debug, Clone, Copy)]
pub struct DirectoryEntry<'a> {
    pub offset: u32,
    pub size: u32,
    pub flags: u8,
    pub name: &'a str,
    pub form_index: Option<usize>,
    pub kind: Option<DocumentFormKind>,
}

/// Where a chunk of a page comes from: the page, or a form that it refers to.
#[derive(Debug, Clone, Copy, PartialEq, Eq)]
pub enum PageChunkSource<'a> {
    Page,
    Include { id: &'a str, offset: u32 },
}

/// A chunk of a page, with where it comes from.
#[derive(Debug, Clone, Copy)]
pub struct ResolvedPageChunk<'a> {
    pub source: PageChunkSource<'a>,
    pub chunk: PageChunk<'a>,
}

/// A form of a document by its values.
#[verifier::ext_equal]
pub struct DocumentFormModel {
    pub offset: u32,
    pub form: FormModel,
    pub kind: DocumentFormKind,
}

/// A page of a document by its values.
#[verifier::ext_equal]
pub struct PageModel {
    pub offset: u32,
    pub form: FormModel,
    pub info: Option<PageInfo>,
}

/// A document by its values.
#[verifier::ext_equal]
pub struct DocumentModel {
    pub root: FormModel,
    pub root_chunks: Seq<ChunkModel>,
    pub directory: Option<DirmModel>,
    pub forms: Seq<DocumentFormModel>,
    pub unresolved_directory_offsets: int,
}

/// An entry of the directory by its values.
#[verifier::ext_equal]
pub struct DirectoryEntryModel {
    pub entry: TailEntryModel,
    pub form_index: Option<int>,
    pub kind: Option<DocumentFormKind>,
}

/// Where a chunk of a page comes from, by its values.
#[verifier::ext_equal]
pub enum SourceModel {
    Page,
    Include { id: Seq<char>, offset: u32 },
}

/// A chunk of a page with where it comes from, by its values.
#[verifier::ext_equal]
pub struct ResolvedModel {
    pub source: SourceModel,
    pub chunk: PageChunkModel,
}

/// The role of a chunk of the root.
pub enum RootRole {
    Directory,
    Navigation,
    Page,
    Shared,
    Thumbnails,
    Other,
}

impl<'a> View for DocumentForm<'a> {
    type V = DocumentFormModel;

    open spec fn view(&self) -> DocumentFormModel {
        DocumentFormModel { offset: self.offset, form: self.form@, kind: self.kind }
    }
}

impl<'a> View for Page<'a> {
    type V = PageModel;

    open spec fn view(&self) -> PageModel {
        PageModel { offset: self.offset, form: self.form@, info: self.info }
    }
}

impl<'a> View for Document<'a> {
    type V = DocumentModel;

    open spec fn view(&self) -> DocumentModel {
        DocumentModel {
            root: self.root@,
            root_chunks: chunks_view(self.root_chunks@),
            directory: match self.directory {
                Some(directory) => Some(directory@),
                None => None,
            },
            forms: forms_view(self.forms@),
            unresolved_directory_offsets: self.unresolved_directory_offsets as int,
        }
    }
}

impl<'a> View for DirectoryEntry<'a> {
    type V = DirectoryEntryModel;

    open spec fn view(&self) -> DirectoryEntryModel {
        DirectoryEntryModel {
            entry: TailEntryModel {
                offset: self.offset,
                size: self.size,
                flags: self.flags,
                name: self.name@,
            },
            form_index: match self.form_index {
                Some(index) => Some(index as int),
                None => None,
            },
            kind: self.kind,
        }
    }
}

impl<'a> View for PageChunkSource<'a> {
    type V = SourceModel;

    open spec fn view(&self) -> SourceModel {
        match self {
            PageChunkSource::Page => SourceModel::Page,
            PageChunkSource::Include { id, offset } => SourceModel::Include {
                id: id@,
                offset: *offset,
            },
        }
    }
}

impl<'a> View for ResolvedPageChunk<'a> {
    type V = ResolvedModel;

    open spec fn view(&self) -> ResolvedModel {
        ResolvedModel { source: self.source@, chunk: self.chunk@ }
    }
}

/// The forms of a list by their values.
pub open spec fn forms_view(forms: Seq<DocumentForm<'_>>) -> Seq<DocumentFormModel> {
    Seq::new(forms.len(), |i: int| forms[i]@)
}

/// The directory entries of a list by their values.
pub open spec fn directory_view(entries: Seq<DirectoryEntry<'_>>) -> Seq<DirectoryEntryModel> {
    Seq::new(entries.len(), |i: int| entries[i]@)
}

/// The resolved chunks of a list by their values.
pub open spec fn resolved_view(chunks: Seq<ResolvedPageChunk<'_>>) -> Seq<ResolvedModel> {
    Seq::new(chunks.len(), |i: int| chunks[i]@)
}

/// What a form of the given kind is for.
pub open spec fn form_kind(kind: Seq<char>) -> DocumentFormKind {
    if kind == "DJVU"@ {
        DocumentFormKind::Page
    } else if kind == "DJVI"@ {
        DocumentFormKind::Shared
    } else if kind == "THUM"@ {
        DocumentFormKind::Thumbnails
    } else {
        DocumentFormKind::Other
    }
}

/// The first chunk with the given tag.
pub open spec fn first_with_id(chunks: Seq<ChunkModel>, id: Seq<char>) -> Option<ChunkModel>
    decreases chunks.len(),
{
    if chunks.len() == 0 {
        None
    } else if chunks[0].id == id {
        Some(chunks[0])
    } else {
        first_with_id(chunks.drop_first(), id)
    }
}

/// The forms that the offsets of a directory lead to. Offsets without a form are left out.
pub open spec fn forms_at(bytes: Seq<u8>, offsets: Seq<u32>) -> Seq<DocumentFormModel>
    decreases offsets.len(),
{
    if offsets.len() == 0 {
        Seq::empty()
    } else {
        let before = forms_at(bytes, offsets.drop_last());
        match form_at(bytes, offsets.last() as int) {
            Ok(form) => before.push(
                DocumentFormModel { offset: offsets.last(), form, kind: form_kind(form.kind) },
            ),
            Err(_) => before,
        }
    }
}

/// The document in a file, or why there is none.
pub open spec fn document_of(bytes: Seq<u8>) -> Result<DocumentModel, Seq<char>> {
    match document_root(bytes) {
        Err(message) => Err(message),
        Ok(root) => match chunks_in(
            bytes,
            root.children_start as int,
            root.chunk.data_end as int,
        ) {
            Err(message) => Err(message),
            Ok(root_chunks) => match first_with_id(root_chunks, "DIRM"@) {
                Some(chunk) => match dirm_of(bytes, chunk) {
                    Err(message) => Err(message),
                    Ok(dirm) => {
                        let forms = forms_at(bytes, dirm.offsets);
                        Ok(
                            DocumentModel {
                                root,
                                root_chunks,
                                directory: Some(dirm),
                                forms,
                                unresolved_directory_offsets: dirm.offsets.len() - forms.len(),
                            },
                        )
                    },
                },
                None => Ok(
                    DocumentModel {
                        root,
                        root_chunks,
                        directory: None,
                        forms: if root.kind == "DJVU"@ {
                            seq![
                                DocumentFormModel {
                                    offset: 4,
                                    form: root,
                                    kind: DocumentFormKind::Page,
                                },
                            ]
                        } else {
                            Seq::empty()
                        },
                        unresolved_directory_offsets: 0,
                    },
                ),
            },
        },
    }
}

/// The forms that are pages, in order.
pub open spec fn page_forms(forms: Seq<DocumentFormModel>) -> Seq<DocumentFormModel>
    decreases forms.len(),
{
    if forms.len() == 0 {
        Seq::empty()
    } else if forms[0].kind is Page {
        seq![forms[0]] + page_forms(forms.drop_first())
    } else {
        page_forms(forms.drop_first())
    }
}

/// The page in a form, or why its chunks cannot be read.
pub open spec fn page_of(bytes: Seq<u8>, form: DocumentFormModel) -> Result<PageModel, Seq<char>> {
    match page_info(
        bytes,
        form.form.kind,
        form.form.children_start as int,
        form.form.chunk.data_end as int,
    ) {
        Err(message) => Err(message),
        Ok(info) => Ok(PageModel { offset: form.offset, form: form.form, info }),
    }
}

/// How many forms have a kind.
pub open spec fn kind_count(forms: Seq<DocumentFormModel>, kind: DocumentFormKind) -> nat
    decreases forms.len(),
{
    if forms.len() == 0 {
        0
    } else {
        kind_count(forms.drop_first(), kind) + if forms[0].kind == kind {
            1nat
        } else {
            0nat
        }
    }
}

/// The role of a chunk of the root, or why its form cannot be read.
pub open spec fn root_role(bytes: Seq<u8>, chunk: ChunkModel) -> Result<RootRole, Seq<char>> {
    if chunk.id == "DIRM"@ {
        Ok(RootRole::Directory)
    } else if chunk.id == "NAVM"@ {
        Ok(RootRole::Navigation)
    } else if chunk.id == "FORM"@ {
        match form_at(bytes, chunk.data_start - 8) {
            Err(message) => Err(message),
            Ok(form) => Ok(
                match form_kind(form.kind) {
                    DocumentFormKind::Page => RootRole::Page,
                    DocumentFormKind::Shared => RootRole::Shared,
                    DocumentFormKind::Thumbnails => RootRole::Thumbnails,
                    DocumentFormKind::Other => RootRole::Other,
                },
            ),
        }
    } else {
        Ok(RootRole::Other)
    }
}

/// Why the first chunk whose role cannot be told has none.
pub open spec fn root_fault(bytes: Seq<u8>, chunks: Seq<ChunkModel>) -> Option<Seq<char>>
    decreases chunks.len(),
{
    if chunks.len() == 0 {
        None
    } else {
        match root_role(bytes, chunks[0]) {
            Err(message) => Some(message),
            Ok(_) => root_fault(bytes, chunks.drop_first()),
        }
    }
}

/// How many chunks have a role.
pub open spec fn role_count(bytes: Seq<u8>, chunks: Seq<ChunkModel>, role: RootRole) -> nat
    decreases chunks.len(),
{
    if chunks.len() == 0 {
        0
    } else {
        role_count(bytes, chunks.drop_first(), role) + if root_role(bytes, chunks[0]) == Ok::<
            RootRole,
            Seq<char>,
        >(role) {
            1nat
        } else {
            0nat
        }
    }
}

/// The index of the first form at an offset.
pub open spec fn form_index_at(forms: Seq<DocumentFormModel>, offset: u32) -> Option<int>
    decreases forms.len(),
{
    if forms.len() == 0 {
        None
    } else if forms[0].offset == offset {
        Some(0int)
    } else {
        match form_index_at(forms.drop_first(), offset) {
            Some(index) => Some(index + 1),
            None => None,
        }
    }
}

/// An entry of the directory, with the form that it leads to.
pub open spec fn directory_entry(forms: Seq<DocumentFormModel>, entry: TailEntryModel) -> DirectoryEntryModel {
    let form_index = form_index_at(forms, entry.offset);
    DirectoryEntryModel {
        entry,
        form_index,
        kind: match form_index {
            Some(index) => Some(forms[index].kind),
            None => None,
        },
    }
}

/// The first entry with the given name.
pub open spec fn entry_named(entries: Seq<TailEntryModel>, name: Seq<char>) -> Option<TailEntryModel>
    decreases entries.len(),
{
    if entries.len() == 0 {
        None
    } else if entries[0].name == name {
        Some(entries[0])
    } else {
        entry_named(entries.drop_first(), name)
    }
}

/// The form that a reference leads to: the one at the offset of the first entry with its
/// name; or why there is none.
pub open spec fn included_form(
    forms: Seq<DocumentFormModel>,
    entries: Seq<TailEntryModel>,
    id: Seq<char>,
) -> Result<DocumentFormModel, Seq<char>> {
    match entry_named(entries, id) {
        None => Err("included form `"@ + id + "` is not in the directory"@),
        Some(entry) => match form_index_at(forms, entry.offset) {
            None => Err(
                "included form `"@ + id + "` is missing at offset "@ + decimal(
                    entry.offset as nat,
                ),
            ),
            Some(index) => Ok(forms[index]),
        },
    }
}

/// Chunks that all come from one place.
pub open spec fn with_source(chunks: Seq<PageChunkModel>, source: SourceModel) -> Seq<
    ResolvedModel,
> {
    Seq::new(chunks.len(), |i: int| ResolvedModel { source, chunk: chunks[i] })
}

/// The chunks that a chunk of a page brings in from another form, if any.
pub open spec fn brought_in(
    bytes: Seq<u8>,
    forms: Seq<DocumentFormModel>,
    entries: Seq<TailEntryModel>,
    chunk: PageChunkModel,
) -> Result<Seq<ResolvedModel>, Seq<char>> {
    match chunk.payload {
        PayloadModel::Raw => Ok(Seq::empty()),
        PayloadModel::Include { id } => match included_form(forms, entries, id) {
            Err(message) => Err(message),
            Ok(form) => match chunks_in(
                bytes,
                form.form.children_start as int,
                form.form.chunk.data_end as int,
            ) {
                Err(message) => Err(message),
                Ok(chunks) => Ok(
                    with_source(
                        page_chunks(bytes, chunks),
                        SourceModel::Include { id, offset: form.offset },
                    ),
                ),
            },
        },
    }
}

/// The chunks of a page, each followed by those that it brings in from another form.
pub open spec fn resolve(
    bytes: Seq<u8>,
    forms: Seq<DocumentFormModel>,
    entries: Seq<TailEntryModel>,
    chunks: Seq<PageChunkModel>,
) -> Result<Seq<ResolvedModel>, Seq<char>>
    decreases chunks.len(),
{
    if chunks.len() == 0 {
        Ok(Seq::empty())
    } else {
        match resolve(bytes, forms, entries, chunks.drop_last()) {
            Err(message) => Err(message),
            Ok(before) => match brought_in(bytes, forms, entries, chunks.last()) {
                Err(message) => Err(message),
                Ok(more) => Ok(
                    before.push(
                        ResolvedModel { source: SourceModel::Page, chunk: chunks.last() },
                    ) + more,
                ),
            },
        }
    }
}

/// The chunks of the page in a form, with those of the forms that it refers to.
pub open spec fn resolved_chunks(
    bytes: Seq<u8>,
    forms: Seq<DocumentFormModel>,
    entries: Seq<TailEntryModel>,
    form: FormModel,
) -> Result<Seq<ResolvedModel>, Seq<char>> {
    match page_details(bytes, form) {
        Err(message) => Err(message),
        Ok(details) => resolve(bytes, forms, entries, details.chunks),
    }
}

/// A document has as many pages as its counts say.
pub proof fn lemma_page_count(forms: Seq<DocumentFormModel>)
    ensures
        page_forms(forms).len() == kind_count(forms, DocumentFormKind::Page),
    decreases forms.len(),
{
    if forms.len() > 0 {
        lemma_page_count(forms.drop_first());
    }
}

proof fn lemma_forms_at_len(bytes: Seq<u8>, offsets: Seq<u32>)
    ensures
        forms_at(bytes, offsets).len() <= offsets.len(),
    decreases offsets.len(),
{
    if offsets.len() > 0 {
        lemma_forms_at_len(bytes, offsets.drop_last());
    }
}

/// A directory counts its forms in 16 bits, so a document has no more.
pub proof fn lemma_form_limit(bytes: Seq<u8>)
    ensures
        document_of(bytes) matches Ok(document) ==> document.forms.len() <= 0xffff,
{
    match document_of(bytes) {
        Ok(document) => {
            match document.directory {
                Some(dirm) => {
                    lemma_forms_at_len(bytes, dirm.offsets);
                },
                None => {},
            }
        },
        Err(_) => {},
    }
}

/// There are no more pages than forms.
pub proof fn lemma_pages_are_forms(forms: Seq<DocumentFormModel>)
    ensures
        page_forms(forms).len() <= forms.len(),
    decreases forms.len(),
{
    if forms.len() > 0 {
        lemma_pages_are_forms(forms.drop_first());
    }
}

/// Every form is of one of the four kinds, so the counts add up to the number of forms.
pub proof fn lemma_kind_counts_add_up(forms: Seq<DocumentFormModel>)
    ensures
        kind_count(forms, DocumentFormKind::Page) + kind_count(forms, DocumentFormKind::Shared)
            + kind_count(forms, DocumentFormKind::Thumbnails) + kind_count(
            forms,
            DocumentFormKind::Other,
        ) == forms.len(),
    decreases forms.len(),
{
    if forms.len() > 0 {
        lemma_kind_counts_add_up(forms.drop_first());
    }
}

/// Each chunk of a page that could be resolved is there, in its place in the order of the
/// page's own chunks: leaving out what was brought in gives back the page's chunks.
pub proof fn lemma_resolve_keeps_page_chunks(
    bytes: Seq<u8>,
    forms: Seq<DocumentFormModel>,
    entries: Seq<TailEntryModel>,
    chunks: Seq<PageChunkModel>,
)
    ensures
        resolve(bytes, forms, entries, chunks) matches Ok(resolved) ==> own_chunks(resolved)
            == chunks,
    decreases chunks.len(),
{
    if chunks.len() > 0 {
        lemma_resolve_keeps_page_chunks(bytes, forms, entries, chunks.drop_last());
        match resolve(bytes, forms, entries, chunks.drop_last()) {
            Err(_) => {},
            Ok(before) => {
                match brought_in(bytes, forms, entries, chunks.last()) {
                    Err(_) => {},
                    Ok(more) => {
                        let own = ResolvedModel { source: SourceModel::Page, chunk: chunks.last() };
                        lemma_own_chunks_of_foreign(before.push(own), more);
                        assert(before.push(own).drop_last() =~= before);
                        assert(chunks.drop_last().push(chunks.last()) =~= chunks);
                    },
                }
            },
        }
    } else {
        assert(own_chunks(Seq::empty()) =~= chunks);
    }
}

/// The chunks that come from the page itself.
pub open spec fn own_chunks(chunks: Seq<ResolvedModel>) -> Seq<PageChunkModel>
    decreases chunks.len(),
{
    if chunks.len() == 0 {
        Seq::empty()
    } else if chunks.last().source is Page {
        own_chunks(chunks.drop_last()).push(chunks.last().chunk)
    } else {
        own_chunks(chunks.drop_last())
    }
}

proof fn lemma_own_chunks_of_foreign(chunks: Seq<ResolvedModel>, more: Seq<ResolvedModel>)
    requires
        forall|i: int| 0 <= i < more.len() ==> (#[trigger] more[i]).source is Include,
    ensures
        own_chunks(chunks + more) == own_chunks(chunks),
    decreases more.len(),
{
    if more.len() == 0 {
        assert(chunks + more =~= chunks);
    } else {
        lemma_own_chunks_of_foreign(chunks, more.drop_last());
        assert((chunks + more).drop_last() =~= chunks + more.drop_last());
        assert((chunks + more).last() == more.last());
    }
}

/// The chunk that is found is the first with the tag, and none is found where there is none.
pub proof fn lemma_first_with_id(chunks: Seq<ChunkModel>, i: int, id: Seq<char>)
    requires
        0 <= i <= chunks.len(),
        forall|k: int| 0 <= k < i ==> (#[trigger] chunks[k]).id != id,
    ensures
        i == chunks.len() ==> first_with_id(chunks, id) is None,
        i < chunks.len() && chunks[i].id == id ==> first_with_id(chunks, id) == Some(chunks[i]),
    decreases chunks.len(),
{
    if i > 0 {
        assert(forall|k: int|
            0 <= k < i - 1 ==> (#[trigger] chunks.drop_first()[k]) == chunks[k + 1]);
        lemma_first_with_id(chunks.drop_first(), i - 1, id);
    }
}

/// The first chunk with the given tag.
pub fn find_chunk<'a>(chunks: &[Chunk<'a>], id: &str) -> (found: Option<Chunk<'a>>)
    ensures
        match first_with_id(chunks_view(chunks@), id@) {
            Some(model) => found is Some && found->0@ == model && exists|i: int|
                0 <= i < chunks@.len() && chunks@[i] == found->0,
            None => found is None,
        },
{
    let mut i: usize = 0;
    while i < chunks.len()
        invariant
            i <= chunks@.len(),
            forall|k: int| 0 <= k < i ==> (#[trigger] chunks_view(chunks@)[k]).id != id@,
        decreases chunks@.len() - i,
    {
        proof {
            lemma_first_with_id(chunks_view(chunks@), i as int, id@);
        }
        assert(chunks_view(chunks@)[i as int] == chunks@[i as int]@);
        if same_text(chunks[i].id, id) {
            return Some(chunks[i]);
        }
        i = i + 1;
    }
    proof {
        lemma_first_with_id(chunks_view(chunks@), i as int, id@);
    }
    None
}

impl DocumentFormKind {
    /// What a form of the given kind is for.
    #[must_use]
    pub fn from_form_kind(kind: &str) -> (form_kind: Self)
        ensures
            form_kind == crate::document::form_kind(kind@),
    {
        if same_text(kind, "DJVU") {
            DocumentFormKind::Page
        } else if same_text(kind, "DJVI") {
            DocumentFormKind::Shared
        } else if same_text(kind, "THUM") {
            DocumentFormKind::Thumbnails
        } else {
            DocumentFormKind::Other
        }
    }
}

impl<'a> Page<'a> {
    /// Reads the chunks of the page.
    pub fn details(&self, bytes: &'a [u8]) -> (details: Result<PageDetails<'a>, ParseError>)
        ensures
            agrees(
                details,
                page_details(bytes@, self.form@),
                |details: PageDetails<'a>, model: PageDetailsModel| details@ == model,
            ),
    {
        read_page_details(bytes, &self.form)
    }
}

impl<'a> DocumentForm<'a> {
    /// The page in this form, if it is one.
    pub fn page(&self, bytes: &'a [u8]) -> (page: Result<Option<Page<'a>>, ParseError>)
        ensures
            !(self.kind is Page) ==> page is Ok && page->Ok_0 is None,
            self.kind is Page ==> agrees(
                page,
                page_of(bytes@, self@),
                |page: Option<Page<'a>>, model: PageModel| page is Some && page->0@ == model,
            ),
    {
        if self.kind != DocumentFormKind::Page {
            return Ok(None);
        }
        match read_page_info(bytes, &self.form) {
            Err(error) => Err(error),
            Ok(info) => Ok(Some(Page { offset: self.offset, form: self.form, info })),
        }
    }
}

impl<'a> Pages<'a> {
    /// The forms that are still to come.
    pub closed spec fn rest(&self) -> Seq<DocumentFormModel> {
        forms_view(self.forms@)
    }

    /// The file.
    pub closed spec fn file(&self) -> Seq<u8> {
        self.bytes@
    }

    /// The next page.
    pub fn next(&mut self) -> (page: Option<Result<Page<'a>, ParseError>>)
        ensures
            final(self).file() == old(self).file(),
            page is Some <==> page_forms(old(self).rest()).len() > 0,
            page is None ==> page_forms(final(self).rest()).len() == 0,
            page is Some ==> {
                &&& agrees(
                    page->0,
                    page_of(old(self).file(), page_forms(old(self).rest())[0]),
                    |page: Page<'a>, model: PageModel| page@ == model,
                )
                &&& page_forms(final(self).rest()) == page_forms(old(self).rest()).drop_first()
            },
    {
        while self.forms.len() > 0
            invariant
                self.file() == old(self).file(),
                page_forms(self.rest()) == page_forms(old(self).rest()),
            decreases self.forms@.len(),
        {
            let form = self.forms[0];
            let ghost before = self.rest();
            self.forms = vstd::slice::slice_subrange(self.forms, 1, self.forms.len());
            assert(self.rest() =~= before.drop_first());
            assert(before[0] == form@);
            if form.kind != DocumentFormKind::Page {
                continue;
            }
            assert(page_forms(before) == seq![form@] + page_forms(self.rest()));
            assert(page_forms(before).drop_first() =~= page_forms(self.rest()));
            return match read_page_info(self.bytes, &form.form) {
                Err(error) => Some(Err(error)),
                Ok(info) => Some(Ok(Page { offset: form.offset, form: form.form, info })),
            };
        }
        None
    }

    /// The page after the given number of others.
    pub fn nth(&mut self, n: usize) -> (page: Option<Result<Page<'a>, ParseError>>)
        ensures
            final(self).file() == old(self).file(),
            page is Some <==> n < page_forms(old(self).rest()).len(),
            page is Some ==> {
                &&& agrees(
                    page->0,
                    page_of(old(self).file(), page_forms(old(self).rest())[n as int]),
                    |page: Page<'a>, model: PageModel| page@ == model,
                )
                &&& page_forms(final(self).rest()) == page_forms(old(self).rest()).skip(n + 1)
            },
            page is None ==> page_forms(final(self).rest()).len() == 0,
    {
        let mut skipped: usize = 0;
        let ghost all = page_forms(self.rest());
        assert(all.skip(0) =~= all);
        while skipped < n
            invariant
                skipped <= n,
                self.file() == old(self).file(),
                all == page_forms(old(self).rest()),
                skipped <= all.len(),
                page_forms(self.rest()) == all.skip(skipped as int),
            decreases n - skipped,
        {
            match self.next() {
                None => {
                    return None;
                },
                Some(_) => {},
            }
            assert(all.skip(skipped as int).drop_first() =~= all.skip(skipped + 1));
            skipped = skipped + 1;
        }
        let page = self.next();
        assert(page is Some ==> all.skip(n as int).drop_first() =~= all.skip(n + 1));
        page
    }
}

impl<'a> Document<'a> {
    /// Reads a document.
    pub fn parse(bytes: &'a [u8]) -> (document: Result<Self, ParseError>)
        ensures
            agrees(
                document,
                document_of(bytes@),
                |document: Self, model: DocumentModel| document@ == model,
            ),
    {
        let root = match parse_document_root(bytes) {
            Err(error) => {
                return Err(error);
            },
            Ok(root) => root,
        };
        let root_chunks = match parse_chunks(bytes, root.children_start, root.chunk.data_end) {
            Err(error) => {
                return Err(error);
            },
            Ok(root_chunks) => root_chunks,
        };
        let directory: Option<Dirm> = match find_chunk(root_chunks.as_slice(), "DIRM") {
            None => None,
            Some(chunk) => match parse_dirm(bytes, &chunk) {
                Err(error) => {
                    return Err(error);
                },
                Ok(dirm) => Some(dirm),
            },
        };
        let mut forms: Vec<DocumentForm<'a>> = Vec::new();
        let mut unresolved_directory_offsets: usize = 0;
        match &directory {
            Some(directory) => {
                let ghost offsets = directory.offsets@;
                let mut i: usize = 0;
                assert(forms_view(forms@) =~= forms_at(bytes@, offsets.take(0)));
                while i < directory.offsets.len()
                    invariant
                        i <= offsets.len(),
                        offsets == directory.offsets@,
                        forms_view(forms@) == forms_at(bytes@, offsets.take(i as int)),
                        unresolved_directory_offsets + forms@.len() == i,
                    decreases offsets.len() - i,
                {
                    let offset: u32 = directory.offsets[i];
                    assert(offsets.take(i + 1).drop_last() =~= offsets.take(i as int));
                    match parse_form_at(bytes, offset as usize) {
                        Err(_) => {
                            unresolved_directory_offsets = unresolved_directory_offsets + 1;
                        },
                        Ok(form) => {
                            let ghost before = forms@;
                            let found = DocumentForm {
                                offset,
                                kind: DocumentFormKind::from_form_kind(form.kind),
                                form,
                            };
                            forms.push(found);
                            assert(forms_view(forms@) =~= forms_view(before).push(found@));
                        },
                    }
                    i = i + 1;
                }
                assert(offsets.take(i as int) =~= offsets);
            },
            None => {
                if same_text(root.kind, "DJVU") {
                    forms.push(
                        DocumentForm { offset: 4, kind: DocumentFormKind::Page, form: root },
                    );
                }
            },
        }
        let document = Document {
            root,
            root_chunks,
            directory,
            forms,
            unresolved_directory_offsets,
        };
        proof {
            assert(document_of(bytes@) is Ok);
            assert(document@.forms =~= document_of(bytes@)->Ok_0.forms);
            assert(document@ =~= document_of(bytes@)->Ok_0);
        }
        Ok(document)
    }

    /// The pages of the document.
    #[must_use]
    pub fn pages(&'a self, bytes: &'a [u8]) -> (pages: Pages<'a>)
        ensures
            pages.rest() == self@.forms,
            pages.file() == bytes@,
    {
        Pages { bytes, forms: self.forms.as_slice() }
    }

    /// The form of the page after the given number of others.
    #[must_use]
    pub fn page_form(&self, index: usize) -> (form: Option<DocumentForm<'a>>)
        ensures
            form is Some <==> index < page_forms(self@.forms).len(),
            form is Some ==> form->0@ == page_forms(self@.forms)[index as int],
    {
        let ghost all = self@.forms;
        let mut i: usize = 0;
        let mut skipped: usize = 0;
        assert(all.skip(0) =~= all);
        while i < self.forms.len()
            invariant
                i <= all.len(),
                skipped <= i,
                skipped <= index,
                all == forms_view(self.forms@),
                all.len() == self.forms@.len(),
                page_forms(all).len() == skipped + page_forms(all.skip(i as int)).len(),
                forall|k: int|
                    0 <= k < page_forms(all.skip(i as int)).len() ==> #[trigger] page_forms(
                        all.skip(i as int),
                    )[k] == page_forms(all)[skipped + k],
            decreases all.len() - i,
        {
            let ghost rest = all.skip(i as int);
            assert(rest.drop_first() =~= all.skip(i + 1));
            assert(rest[0] == self.forms@[i as int]@);
            if self.forms[i].kind == DocumentFormKind::Page {
                assert(page_forms(rest) == seq![rest[0]] + page_forms(rest.drop_first()));
                if skipped == index {
                    assert(page_forms(rest)[0] == rest[0]);
                    return Some(self.forms[i]);
                }
                proof {
                    assert forall|k: int|
                        0 <= k < page_forms(rest.drop_first()).len() implies #[trigger] page_forms(
                        rest.drop_first(),
                    )[k] == page_forms(all)[skipped + 1 + k] by {
                        assert(page_forms(rest)[k + 1] == page_forms(rest.drop_first())[k]);
                    }
                }
                skipped = skipped + 1;
            }
            i = i + 1;
        }
        assert(all.skip(i as int).len() == 0);
        None
    }

    /// How many forms there are of each kind.
    #[must_use]
    pub fn form_kind_counts(&self) -> (counts: FormKindCounts)
        ensures
            counts.pages == kind_count(self@.forms, DocumentFormKind::Page),
            counts.shared == kind_count(self@.forms, DocumentFormKind::Shared),
            counts.thumbnails == kind_count(self@.forms, DocumentFormKind::Thumbnails),
            counts.other == kind_count(self@.forms, DocumentFormKind::Other),
    {
        let mut counts = FormKindCounts { pages: 0, shared: 0, thumbnails: 0, other: 0 };
        let ghost all = self@.forms;
        let mut i: usize = 0;
        assert(all.skip(0) =~= all);
        proof {
            lemma_kind_counts_add_up(all);
        }
        while i < self.forms.len()
            invariant
                i <= all.len(),
                all == forms_view(self.forms@),
                all.len() == self.forms@.len(),
                kind_count(all, DocumentFormKind::Page) + kind_count(all, DocumentFormKind::Shared)
                    + kind_count(all, DocumentFormKind::Thumbnails) + kind_count(
                    all,
                    DocumentFormKind::Other,
                ) == all.len(),
                counts.pages + kind_count(all.skip(i as int), DocumentFormKind::Page)
                    == kind_count(all, DocumentFormKind::Page),
                counts.shared + kind_count(all.skip(i as int), DocumentFormKind::Shared)
                    == kind_count(all, DocumentFormKind::Shared),
                counts.thumbnails + kind_count(all.skip(i as int), DocumentFormKind::Thumbnails)
                    == kind_count(all, DocumentFormKind::Thumbnails),
                counts.other + kind_count(all.skip(i as int), DocumentFormKind::Other)
                    == kind_count(all, DocumentFormKind::Other),
            decreases all.len() - i,
        {
            assert(all.skip(i as int).drop_first() =~= all.skip(i + 1));
            assert(all.skip(i as int)[0] == self.forms@[i as int]@);
            match self.forms[i].kind {
                DocumentFormKind::Page => {
                    counts.pages = counts.pages + 1;
                },
                DocumentFormKind::Shared => {
                    counts.shared = counts.shared + 1;
                },
                DocumentFormKind::Thumbnails => {
                    counts.thumbnails = counts.thumbnails + 1;
                },
                DocumentFormKind::Other => {
                    counts.other = counts.other + 1;
                },
            }
            i = i + 1;
        }
        assert(all.skip(i as int).len() == 0);
        counts
    }

    /// How many chunks of the root there are of each role.
    pub fn root_chunk_counts(&self, bytes: &[u8]) -> (counts: Result<RootChunkCounts, ParseError>)
        requires
            forall|i: int|
                0 <= i < self.root_chunks@.len() && (#[trigger] self.root_chunks@[i]).id@
                    == "FORM"@ ==> self.root_chunks@[i].data_start >= 8,
        ensures
            match root_fault(bytes@, self@.root_chunks) {
                Some(message) => counts is Err && counts->Err_0@ == message,
                None => {
                    let chunks = self@.root_chunks;
                    &&& counts is Ok
                    &&& counts->Ok_0.dirm == role_count(bytes@, chunks, RootRole::Directory)
                    &&& counts->Ok_0.navm == role_count(bytes@, chunks, RootRole::Navigation)
                    &&& counts->Ok_0.djvu_forms == role_count(bytes@, chunks, RootRole::Page)
                    &&& counts->Ok_0.djvi_forms == role_count(bytes@, chunks, RootRole::Shared)
                    &&& counts->Ok_0.thum_forms == role_count(bytes@, chunks, RootRole::Thumbnails)
                    &&& counts->Ok_0.other == role_count(bytes@, chunks, RootRole::Other)
                },
            },
    {
        let mut counts = RootChunkCounts {
            dirm: 0,
            navm: 0,
            djvu_forms: 0,
            djvi_forms: 0,
            thum_forms: 0,
            other: 0,
        };
        let ghost all = self@.root_chunks;
        let mut i: usize = 0;
        assert(all.skip(0) =~= all);
        while i < self.root_chunks.len()
            invariant
                i <= all.len(),
                all == chunks_view(self.root_chunks@),
                all.len() == self.root_chunks@.len(),
                forall|k: int|
                    0 <= k < self.root_chunks@.len() && (#[trigger] self.root_chunks@[k]).id@
                        == "FORM"@ ==> self.root_chunks@[k].data_start >= 8,
                root_fault(bytes@, all) == root_fault(bytes@, all.skip(i as int)),
                counts.dirm <= i,
                counts.navm <= i,
                counts.djvu_forms <= i,
                counts.djvi_forms <= i,
                counts.thum_forms <= i,
                counts.other <= i,
                counts.dirm + role_count(bytes@, all.skip(i as int), RootRole::Directory)
                    == role_count(bytes@, all, RootRole::Directory),
                counts.navm + role_count(bytes@, all.skip(i as int), RootRole::Navigation)
                    == role_count(bytes@, all, RootRole::Navigation),
                counts.djvu_forms + role_count(bytes@, all.skip(i as int), RootRole::Page)
                    == role_count(bytes@, all, RootRole::Page),
                counts.djvi_forms + role_count(bytes@, all.skip(i as int), RootRole::Shared)
                    == role_count(bytes@, all, RootRole::Shared),
                counts.thum_forms + role_count(bytes@, all.skip(i as int), RootRole::Thumbnails)
                    == role_count(bytes@, all, RootRole::Thumbnails),
                counts.other + role_count(bytes@, all.skip(i as int), RootRole::Other)
                    == role_count(bytes@, all, RootRole::Other),
            decreases all.len() - i,
        {
            let chunk = self.root_chunks[i];
            assert(all.skip(i as int).drop_first() =~= all.skip(i + 1));
            assert(all.skip(i as int)[0] == chunk@);
            if same_text(chunk.id, "DIRM") {
                counts.dirm = counts.dirm + 1;
            } else if same_text(chunk.id, "NAVM") {
                counts.navm = counts.navm + 1;
            } else if same_text(chunk.id, "FORM") {
                let form = match parse_form_at(bytes, chunk.data_start - 8) {
                    Err(error) => {
                        return Err(error);
                    },
                    Ok(form) => form,
                };
                match DocumentFormKind::from_form_kind(form.kind) {
                    DocumentFormKind::Page => {
                        counts.djvu_forms = counts.djvu_forms + 1;
                    },
                    DocumentFormKind::Shared => {
                        counts.djvi_forms = counts.djvi_forms + 1;
                    },
                    DocumentFormKind::Thumbnails => {
                        counts.thum_forms = counts.thum_forms + 1;
                    },
                    DocumentFormKind::Other => {
                        counts.other = counts.other + 1;
                    },
                }
            } else {
                counts.other = counts.other + 1;
            }
            i = i + 1;
        }
        assert(all.skip(i as int).len() == 0);
        Ok(counts)
    }

    /// The index of the first form at an offset.
    fn form_at_offset(&self, offset: u32) -> (index: Option<usize>)
        ensures
            match form_index_at(self@.forms, offset) {
                Some(expected) => index is Some && index->0 == expected && index->0
                    < self.forms@.len(),
                None => index is None,
            },
    {
        let ghost all = self@.forms;
        let mut i: usize = 0;
        assert(all.skip(0) =~= all);
        while i < self.forms.len()
            invariant
                i <= all.len(),
                all == forms_view(self.forms@),
                all.len() == self.forms@.len(),
                match form_index_at(all.skip(i as int), offset) {
                    Some(index) => form_index_at(all, offset) == Some(index + i),
                    None => form_index_at(all, offset) is None,
                },
            decreases all.len() - i,
        {
            assert(all.skip(i as int).drop_first() =~= all.skip(i + 1));
            assert(all.skip(i as int)[0] == self.forms@[i as int]@);
            if self.forms[i].offset == offset {
                return Some(i);
            }
            i = i + 1;
        }
        assert(all.skip(i as int).len() == 0);
        None
    }

    /// The entries of the directory, each with the form that it leads to.
    #[must_use]
    pub fn directory_entries<'b>(&self, entries: &[DirmTailEntry<'b>]) -> (resolved: Vec<
        DirectoryEntry<'b>,
    >)
        ensures
            directory_view(resolved@) == Seq::new(
                entries@.len(),
                |i: int| directory_entry(self@.forms, entries@[i]@),
            ),
    {
        let mut resolved: Vec<DirectoryEntry<'b>> = Vec::new();
        let mut i: usize = 0;
        while i < entries.len()
            invariant
                i <= entries@.len(),
                resolved@.len() == i,
                forall|k: int|
                    0 <= k < i ==> (#[trigger] resolved@[k])@ == directory_entry(
                        self@.forms,
                        entries@[k]@,
                    ),
            decreases entries@.len() - i,
        {
            let entry = entries[i];
            let form_index: Option<usize> = self.form_at_offset(entry.offset);
            let kind: Option<DocumentFormKind> = match form_index {
                Some(index) => Some(self.forms[index].kind),
                None => None,
            };
            resolved.push(
                DirectoryEntry {
                    offset: entry.offset,
                    size: entry.size,
                    flags: entry.flags,
                    name: entry.name,
                    form_index,
                    kind,
                },
            );
            assert(resolved@[i as int]@ =~= directory_entry(self@.forms, entries@[i as int]@));
            i = i + 1;
        }
        assert(directory_view(resolved@) =~= Seq::new(
            entries@.len(),
            |i: int| directory_entry(self@.forms, entries@[i]@),
        ));
        resolved
    }

    /// The form that a reference leads to.
    fn find_included(&self, entries: &[DirmTailEntry<'_>], id: &str) -> (form: Result<
        DocumentForm<'a>,
        ParseError,
    >)
        ensures
            match included_form(self@.forms, entries_view(entries@), id@) {
                Ok(model) => form is Ok && form->Ok_0@ == model,
                Err(message) => form is Err && form->Err_0@ == message,
            },
    {
        let ghost all = entries_view(entries@);
        let mut i: usize = 0;
        assert(all.skip(0) =~= all);
        while i < entries.len()
            invariant
                i <= all.len(),
                all == entries_view(entries@),
                all.len() == entries@.len(),
                entry_named(all, id@) == entry_named(all.skip(i as int), id@),
            decreases all.len() - i,
        {
            assert(all.skip(i as int).drop_first() =~= all.skip(i + 1));
            assert(all.skip(i as int)[0] == entries@[i as int]@);
            if same_text(entries[i].name, id) {
                return match self.form_at_offset(entries[i].offset) {
                    Some(index) => Ok(self.forms[index]),
                    None => {
                        let mut message: String = text_of("included form `");
                        message.append(id);
                        message.append("` is missing at offset ");
                        push_decimal(&mut message, entries[i].offset as u64);
                        Err(ParseError(message))
                    },
                };
            }
            i = i + 1;
        }
        assert(all.skip(i as int).len() == 0);
        let mut message: String = text_of("included form `");
        message.append(id);
        message.append("` is not in the directory");
        Err(ParseError(message))
    }

    /// The chunks of a page, each followed by those of the form that it refers to.
    pub fn resolved_page_chunks<'b>(
        &self,
        bytes: &'b [u8],
        page: &Page<'b>,
        tail_entries: &[DirmTailEntry<'_>],
    ) -> (chunks: Result<Vec<ResolvedPageChunk<'b>>, ParseError>)
        ensures
            agrees(
                chunks,
                resolved_chunks(bytes@, self@.forms, entries_view(tail_entries@), page.form@),
                |chunks: Vec<ResolvedPageChunk<'b>>, models: Seq<ResolvedModel>|
                    resolved_view(chunks@) == models,
            ),
    {
        let details = match page.details(bytes) {
            Err(error) => {
                return Err(error);
            },
            Ok(details) => details,
        };
        let ghost own = details@.chunks;
        let ghost forms = self@.forms;
        let ghost entries = entries_view(tail_entries@);
        let mut chunks: Vec<ResolvedPageChunk<'b>> = Vec::new();
        let mut i: usize = 0;
        assert(resolved_view(chunks@) =~= Seq::<ResolvedModel>::empty());
        assert(own.take(0).len() == 0);
        while i < details.chunks.len()
            invariant
                i <= own.len(),
                own == page_chunks_view(details.chunks@),
                own.len() == details.chunks@.len(),
                forms == self@.forms,
                entries == entries_view(tail_entries@),
                page_details(bytes@, page.form@) is Ok,
                page_details(bytes@, page.form@)->Ok_0.chunks == own,
                resolve(bytes@, forms, entries, own.take(i as int)) == Ok::<
                    Seq<ResolvedModel>,
                    Seq<char>,
                >(resolved_view(chunks@)),
            decreases own.len() - i,
        {
            let chunk = details.chunks[i];
            assert(own.take(i + 1).drop_last() =~= own.take(i as int));
            assert(own.take(i + 1).last() == chunk@);
            let ghost before = chunks@;
            let first = ResolvedPageChunk { source: PageChunkSource::Page, chunk };
            chunks.push(first);
            assert(resolved_view(chunks@) =~= resolved_view(before).push(first@));
            match chunk.payload {
                PageChunkPayload::Raw => {
                    assert(resolved_view(chunks@) + Seq::empty() =~= resolved_view(chunks@));
                },
                PageChunkPayload::Include { id } => {
                    let included = match self.find_included(tail_entries, id) {
                        Err(error) => {
                            proof {
                                lemma_resolve_fault(bytes@, forms, entries, own, i + 1);
                            }
                            return Err(error);
                        },
                        Ok(included) => included,
                    };
                    let more = match read_page_chunks(
                        bytes,
                        included.form.children_start,
                        included.form.chunk.data_end,
                    ) {
                        Err(error) => {
                            proof {
                                lemma_resolve_fault(bytes@, forms, entries, own, i + 1);
                            }
                            return Err(error);
                        },
                        Ok(more) => more,
                    };
                    let source = PageChunkSource::Include { id, offset: included.offset };
                    push_with_source(&mut chunks, &more, source);
                },
            }
            i = i + 1;
        }
        assert(own.take(i as int) =~= own);
        Ok(chunks)
    }
}

proof fn lemma_resolve_fault(
    bytes: Seq<u8>,
    forms: Seq<DocumentFormModel>,
    entries: Seq<TailEntryModel>,
    chunks: Seq<PageChunkModel>,
    i: int,
)
    requires
        0 <= i <= chunks.len(),
        resolve(bytes, forms, entries, chunks.take(i)) is Err,
    ensures
        resolve(bytes, forms, entries, chunks) == resolve(bytes, forms, entries, chunks.take(i)),
    decreases chunks.len(),
{
    if i == chunks.len() {
        assert(chunks.take(i) =~= chunks);
    } else {
        assert(chunks.drop_last().take(i) =~= chunks.take(i));
        lemma_resolve_fault(bytes, forms, entries, chunks.drop_last(), i);
    }
}

/// Appends chunks that all come from one place.
fn push_with_source<'b>(
    chunks: &mut Vec<ResolvedPageChunk<'b>>,
    more: &Vec<PageChunk<'b>>,
    source: PageChunkSource<'b>,
)
    ensures
        resolved_view(final(chunks)@) == resolved_view(old(chunks)@) + with_source(
            page_chunks_view(more@),
            source@,
        ),
{
    let ghost before = chunks@;
    let mut i: usize = 0;
    while i < more.len()
        invariant
            i <= more@.len(),
            chunks@.len() == before.len() + i,
            forall|k: int| 0 <= k < before.len() ==> chunks@[k] == before[k],
            forall|k: int|
                0 <= k < i ==> (#[trigger] chunks@[before.len() + k])@ == (ResolvedModel {
                    source: source@,
                    chunk: more@[k]@,
                }),
        decreases more@.len() - i,
    {
        chunks.push(ResolvedPageChunk { source, chunk: more[i] });
        i = i + 1;
    }
    let ghost expected = resolved_view(before) + with_source(page_chunks_view(more@), source@);
    assert forall|k: int| 0 <= k < expected.len() implies resolved_view(chunks@)[k]
        == expected[k] by {
        if k >= before.len() {
            let j = k - before.len();
            assert(chunks@[before.len() + j]@ == expected[k]);
        }
    }
    assert(resolved_view(chunks@) =~= expected);
}

} // verus!
