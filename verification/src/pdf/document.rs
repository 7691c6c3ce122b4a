//! PDF files of documents.

use crate::bzz::{bzz_message, given, BzzError, BzzFault};
use crate::dirm::{entries_view, tail_entries, TailEntryModel};
use crate::document::{
    document_of, lemma_form_limit, lemma_page_count, lemma_pages_are_forms, page_forms, Document,
    DocumentFormModel,
};
use crate::error::ParseError;
use crate::navm::{document_bookmarks, extract_document_bookmarks, lemma_all_show_values};
use crate::bitonal::mask_rows;
use crate::pdf::image::{image_of, mask_pages, ImageModel, PdfPageImage};
use crate::pdf::outline::{
    lemma_outline_is_no_larger, lemma_outline_stays_in_range, outline_count, outline_models,
    outline_of, pages_fit, pages_in_range, pdf_bookmarks_from_djvu, OutlineModel, PdfBookmark,
};
use crate::pdf::text_layer::{
    all_spans, pdf_text_pages_from_djvu, ExtractedTextZonePage, PdfTextPage, SpanModel,
};
use crate::pdf::writer::{
    add_page, file_start, file_whole, FileModel, PdfFileWriter,
};
use crate::pdf::work::PageWork;
use crate::pdf::PdfError;
use crate::render::dictionaries::Jb2DictionaryCache;
use crate::render::document::{
    checked_document_render_page_range, directory_of, directory_tail, number_given,
    numbered_plan, plan_of_page, range_end, read_directory, DjvuRenderError, RenderFault,
};
use crate::render::plan::{
    base_of, full_render, masks_of, render_shows, with_background, with_masks, LayerModel,
    MaskModel, PageRenderPlan, PartialPageRender, PlanModel, RenderModel,
};
use crate::render::bitmap::BitmapModel;
use crate::render::RenderError;
use crate::text::{decimal, push_decimal, text_of};
use vstd::prelude::*;

verus! {

/// Why a document could not be turned into a PDF file.
#[derive(Debug, Clone, PartialEq, Eq)]
pub enum DjvuPdfError {
    Parse(ParseError),
    Bzz(BzzError),
    Render(RenderError),
    Pdf(PdfError),
    ZeroFromPage,
    ReversedPageRange,
    PageOutOfRange { page: usize, page_count: usize },
}

/// What turning a document into a PDF file gives.
pub type DjvuPdfResult<T> = Result<T, DjvuPdfError>;

/// Why a document could not be turned into a PDF file, by its values.
#[verifier::ext_equal]
pub enum PdfFault {
    Parse(Seq<char>),
    Bzz(BzzFault),
    Render(Seq<char>),
    Pdf(Seq<char>),
    ZeroFromPage,
    ReversedPageRange,
    PageOutOfRange { page: int, page_count: int },
}

/// What is told while a document is turned into a PDF file.
#[derive(Debug, Clone, PartialEq, Eq)]
pub enum DjvuPdfRenderEvent {
    PageStarted { page_number: usize, end_page: usize },
    PageImagePrepared { page_number: usize, image: PdfPageImage },
    PageRendered { page_number: usize, render: PartialPageRender },
}

/// What is told while a document is turned into a PDF file, by its values.
#[verifier::ext_equal]
pub enum EventModel {
    PageStarted { page_number: int, end_page: int },
    PageImagePrepared { page_number: int, image: ImageModel },
    PageRendered { page_number: int, render: RenderModel },
}

impl DjvuPdfRenderEvent {
    /// Whether the event has the given values.
    pub open spec fn shows(&self, model: EventModel) -> bool {
        match (self, model) {
            (
                DjvuPdfRenderEvent::PageStarted { page_number, end_page },
                EventModel::PageStarted { page_number: number, end_page: end },
            ) => page_number == number && end_page == end,
            (
                DjvuPdfRenderEvent::PageImagePrepared { page_number, image },
                EventModel::PageImagePrepared { page_number: number, image: expected },
            ) => page_number == number && image@ == expected,
            (
                DjvuPdfRenderEvent::PageRendered { page_number, render },
                EventModel::PageRendered { page_number: number, render: expected },
            ) => page_number == number && render_shows(*render, expected),
            _ => false,
        }
    }
}

/// Whether the first list of events is followed by events with the given values.
pub open spec fn told_after(
    before: Seq<DjvuPdfRenderEvent>,
    after: Seq<DjvuPdfRenderEvent>,
    told: Seq<EventModel>,
) -> bool {
    &&& after.len() == before.len() + told.len()
    &&& after.take(before.len() as int) == before
    &&& forall|i: int|
        0 <= i < told.len() ==> (#[trigger] after[before.len() + i]).shows(told[i])
}

/// The image of a page: the mask of the page itself, or of the page that was rendered.
#[derive(Debug, Clone, PartialEq, Eq)]
pub enum PreparedPage {
    Direct(PdfPageImage),
    Rendered(PartialPageRender, PdfPageImage),
}

/// The image of a page by its values.
#[verifier::ext_equal]
pub enum PreparedModel {
    Direct(ImageModel),
    Rendered(RenderModel, ImageModel),
}

impl View for DjvuPdfError {
    type V = PdfFault;

    open spec fn view(&self) -> PdfFault {
        match self {
            DjvuPdfError::Parse(error) => PdfFault::Parse(error@),
            DjvuPdfError::Bzz(error) => PdfFault::Bzz(error@),
            DjvuPdfError::Render(error) => PdfFault::Render(error@),
            DjvuPdfError::Pdf(error) => PdfFault::Pdf(error@),
            DjvuPdfError::ZeroFromPage => PdfFault::ZeroFromPage,
            DjvuPdfError::ReversedPageRange => PdfFault::ReversedPageRange,
            DjvuPdfError::PageOutOfRange { page, page_count } => PdfFault::PageOutOfRange {
                page: *page as int,
                page_count: *page_count as int,
            },
        }
    }
}

impl PreparedModel {
    /// The image.
    pub open spec fn image(self) -> ImageModel {
        match self {
            PreparedModel::Direct(image) => image,
            PreparedModel::Rendered(_, image) => image,
        }
    }
}

impl PreparedPage {
    /// Whether the image is the given one.
    pub open spec fn shows(&self, model: PreparedModel) -> bool {
        match (self, model) {
            (PreparedPage::Direct(image), PreparedModel::Direct(expected)) => image@ == expected,
            (PreparedPage::Rendered(render, image), PreparedModel::Rendered(page, expected)) => {
                render_shows(*render, page) && image@ == expected
            },
            _ => false,
        }
    }
}

/// The failure to render as one to write.
pub open spec fn fault_of(fault: RenderFault) -> PdfFault {
    match fault {
        RenderFault::Parse(message) => PdfFault::Parse(message),
        RenderFault::Bzz(fault) => PdfFault::Bzz(fault),
        RenderFault::Render(message) => PdfFault::Render(message),
        RenderFault::ZeroPage => PdfFault::ZeroFromPage,
        RenderFault::ZeroFromPage => PdfFault::ZeroFromPage,
        RenderFault::ReversedPageRange => PdfFault::ReversedPageRange,
        RenderFault::PageOutOfRange { page, page_count } => PdfFault::PageOutOfRange {
            page,
            page_count,
        },
    }
}

/// What is said of a failure.
pub open spec fn pdf_message(fault: PdfFault) -> Seq<char> {
    match fault {
        PdfFault::Parse(message) => message,
        PdfFault::Bzz(fault) => bzz_message(fault),
        PdfFault::Render(message) => message,
        PdfFault::Pdf(message) => message,
        PdfFault::ZeroFromPage => "from page must be 1 or greater"@,
        PdfFault::ReversedPageRange => "to page must be greater than or equal to from page"@,
        PdfFault::PageOutOfRange { page, page_count } => "page "@ + decimal(page as nat)
            + " not found; document has "@ + decimal(page_count as nat) + " pages"@,
    }
}

/// The image of a page that is nothing but one mask of its size, if it is that; or why a
/// mask cannot be decoded.
pub open spec fn direct_image(plan: PlanModel, bytes: Seq<u8>) -> Result<
    Option<ImageModel>,
    Seq<char>,
> {
    if plan.background_layers.len() > 0 || plan.foreground_layers.len() > 0 {
        Ok(None)
    } else {
        match masks_of(plan, bytes) {
            Err(message) => Err(message),
            Ok(masks) => {
                let (width, height) = (plan.info.width as u32, plan.info.height as u32);
                if masks.len() == 1 && masks[0].1.0.width == width && masks[0].1.0.height
                    == height {
                    Ok(
                        Some(
                            ImageModel::BitonalMask {
                                width,
                                height,
                                dpi: plan.info.dpi,
                                mask: mask_rows(masks[0].1.1.page, width as int, height as int),
                            },
                        ),
                    )
                } else {
                    Ok(None)
                }
            },
        }
    }
}

/// The image of a page, or why it cannot be rendered.
#[verifier::opaque]
pub open spec fn prepared(plan: PlanModel, bytes: Seq<u8>) -> Result<PreparedModel, Seq<char>> {
    match direct_image(plan, bytes) {
        Err(message) => Err(message),
        Ok(Some(image)) => Ok(PreparedModel::Direct(image)),
        Ok(None) => match full_render(plan, bytes) {
            Err(message) => Err(message),
            Ok(render) => Ok(
                PreparedModel::Rendered(
                    render,
                    image_of(render.bitmap, render.layers.len(), mask_pages(render.masks)),
                ),
            ),
        },
    }
}

/// The outline of a range of pages of a document, or why its bookmarks cannot be read.
pub open spec fn document_outline(
    bytes: Seq<u8>,
    tool_output: Option<Seq<u8>>,
    from_page: int,
    end_page: int,
) -> Result<Seq<OutlineModel>, Seq<char>> {
    match document_bookmarks(bytes, tool_output) {
        Err(message) => Err(message),
        Ok(None) => Ok(Seq::empty()),
        Ok(Some(bookmarks)) => Ok(outline_of(bookmarks, from_page, end_page)),
    }
}

/// A document that is being turned into a PDF file, by its values.
pub struct ConversionModel {
    pub bytes: Seq<u8>,
    pub forms: Seq<DocumentFormModel>,
    pub entries: Seq<TailEntryModel>,
    pub next_page: int,
    pub end_page: int,
    pub file: FileModel,
}

/// What the `bzz` tool makes of the parts of a document that need it.
pub struct ToolOutputs {
    pub directory: Option<Seq<u8>>,
    pub bookmarks: Option<Seq<u8>>,
}

/// The start of turning a range of pages into a PDF file, or why that cannot be done.
#[verifier::opaque]
pub open spec fn conversion_start(
    bytes: Seq<u8>,
    from_page: int,
    to_page: Option<int>,
    tools: ToolOutputs,
    texts: Seq<Seq<SpanModel>>,
) -> Result<ConversionModel, PdfFault> {
    match document_of(bytes) {
        Err(message) => Err(PdfFault::Parse(message)),
        Ok(document) => match directory_of(bytes, document, tools.directory) {
            Err(fault) => Err(fault_of(fault)),
            Ok(entries) => match range_end(
                page_forms(document.forms).len() as int,
                from_page,
                to_page,
            ) {
                Err(fault) => Err(fault_of(fault)),
                Ok(end) => match document_outline(bytes, tools.bookmarks, from_page, end) {
                    Err(message) => Err(PdfFault::Parse(message)),
                    Ok(outline) => match file_start(
                        (end - from_page + 1) as nat,
                        outline,
                        Some(texts),
                    ) {
                        Err(message) => Err(PdfFault::Pdf(message)),
                        Ok(file) => Ok(
                            ConversionModel {
                                bytes,
                                forms: document.forms,
                                entries,
                                next_page: from_page,
                                end_page: end,
                                file,
                            },
                        ),
                    },
                },
            },
        },
    }
}

/// The next page, or why it cannot be rendered.
pub open spec fn next_prepared(state: ConversionModel) -> Result<PreparedModel, PdfFault> {
    match numbered_plan(state.bytes, state.forms, state.entries, state.next_page) {
        Err(message) => Err(PdfFault::Parse(message)),
        Ok(plan) => match prepared(plan, state.bytes) {
            Err(message) => Err(PdfFault::Render(message)),
            Ok(page) => Ok(page),
        },
    }
}

/// The next page and what is left to do after it, or why it cannot be added.
#[verifier::opaque]
pub open spec fn conversion_step(state: ConversionModel) -> Result<
    (ConversionModel, PreparedModel),
    PdfFault,
> {
    match next_prepared(state) {
        Err(fault) => Err(fault),
        Ok(page) => match add_page(state.file, page.image()) {
            Err(message) => Err(PdfFault::Pdf(message)),
            Ok(file) => Ok(
                (ConversionModel { next_page: state.next_page + 1, file, ..state }, page),
            ),
        },
    }
}

/// The whole file, or why it is not whole.
pub open spec fn conversion_end(state: ConversionModel) -> Result<Seq<u8>, PdfFault> {
    match file_whole(state.file) {
        Err(message) => Err(PdfFault::Pdf(message)),
        Ok(bytes) => Ok(bytes),
    }
}

/// What is told of a page.
pub open spec fn page_told(page: PreparedModel, page_number: int) -> EventModel {
    match page {
        PreparedModel::Direct(image) => EventModel::PageImagePrepared { page_number, image },
        PreparedModel::Rendered(render, _) => EventModel::PageRendered { page_number, render },
    }
}

/// What turning the rest of a document into a PDF file gives.
pub open spec fn conversion_rest(state: ConversionModel) -> Result<Seq<u8>, PdfFault>
    decreases state.end_page + 1 - state.next_page,
{
    if state.next_page > state.end_page {
        conversion_end(state)
    } else {
        match conversion_step(state) {
            Err(fault) => Err(fault),
            Ok((next, page)) => {
                proof {
                    reveal(conversion_step);
                }
                conversion_rest(next)
            },
        }
    }
}

/// What is told while the rest of a document is turned into a PDF file.
pub open spec fn conversion_told(state: ConversionModel) -> Seq<EventModel>
    decreases state.end_page + 1 - state.next_page,
{
    if state.next_page > state.end_page {
        Seq::empty()
    } else {
        let started = EventModel::PageStarted {
            page_number: state.next_page,
            end_page: state.end_page,
        };
        match conversion_step(state) {
            Err(fault) => seq![started],
            Ok((next, page)) => {
                proof {
                    reveal(conversion_step);
                }
                seq![started, page_told(page, state.next_page)] + conversion_told(next)
            },
        }
    }
}

/// What turning a range of pages of a document into a PDF file gives.
pub open spec fn converted(
    bytes: Seq<u8>,
    from_page: int,
    to_page: Option<int>,
    tools: ToolOutputs,
    texts: Seq<Seq<SpanModel>>,
) -> Result<Seq<u8>, PdfFault> {
    match conversion_start(bytes, from_page, to_page, tools, texts) {
        Err(fault) => Err(fault),
        Ok(state) => conversion_rest(state),
    }
}

/// What is told while a range of pages of a document is turned into a PDF file.
pub open spec fn told(
    bytes: Seq<u8>,
    from_page: int,
    to_page: Option<int>,
    tools: ToolOutputs,
    texts: Seq<Seq<SpanModel>>,
) -> Seq<EventModel> {
    match conversion_start(bytes, from_page, to_page, tools, texts) {
        Err(fault) => Seq::empty(),
        Ok(state) => conversion_told(state),
    }
}

proof fn lemma_masks_keep_size(
    bitmap: BitmapModel,
    masks: Seq<(usize, MaskModel)>,
    foreground: Option<LayerModel>,
    count: int,
)
    ensures
        with_masks(bitmap, masks, foreground, count) matches Ok(painted) ==> painted.width
            == bitmap.width && painted.height == bitmap.height,
    decreases count,
{
    if count > 0 {
        lemma_masks_keep_size(bitmap, masks, foreground, count - 1);
    }
}

/// A page that is rendered in full has the size that its information says.
pub proof fn lemma_full_render_size(plan: PlanModel, bytes: Seq<u8>)
    ensures
        full_render(plan, bytes) matches Ok(render) ==> render.bitmap.width == plan.info.width
            && render.bitmap.height == plan.info.height,
{
    match full_render(plan, bytes) {
        Err(_) => {},
        Ok(_) => {
            let base = base_of(plan.info)->Ok_0;
            let background = crate::render::plan::background_of(plan, bytes)->Ok_0;
            let foreground = crate::render::plan::foreground_of(plan, bytes)->Ok_0;
            let masks = masks_of(plan, bytes)->Ok_0;
            let behind = with_background(base, background)->Ok_0;
            assert(behind.width == base.width && behind.height == base.height);
            lemma_masks_keep_size(behind, masks, foreground, masks.len() as int);
        },
    }
}

/// The image of a page is as wide as its information says.
pub proof fn lemma_prepared_width(plan: PlanModel, bytes: Seq<u8>)
    ensures
        prepared(plan, bytes) matches Ok(page) ==> page.image().width() == plan.info.width,
{
    reveal(prepared);
    lemma_full_render_size(plan, bytes);
}

proof fn lemma_range_fits(outline: Seq<OutlineModel>, page_count: int)
    requires
        pages_in_range(outline, page_count),
        3 + page_count <= usize::MAX,
    ensures
        pages_fit(outline, 3),
    decreases outline,
{
    if outline.len() > 0 {
        lemma_range_fits(outline.drop_last(), page_count);
        lemma_range_fits(outline.last().children, page_count);
    }
}

impl DjvuPdfError {
    /// What is said of the failure.
    #[must_use]
    pub fn message(&self) -> (message: String)
        ensures
            message@ == pdf_message(self@),
    {
        match self {
            DjvuPdfError::Parse(error) => text_of(error.message()),
            DjvuPdfError::Bzz(error) => error.message(),
            DjvuPdfError::Render(error) => text_of(error.message()),
            DjvuPdfError::Pdf(error) => text_of(error.message()),
            DjvuPdfError::ZeroFromPage => text_of("from page must be 1 or greater"),
            DjvuPdfError::ReversedPageRange => text_of(
                "to page must be greater than or equal to from page",
            ),
            DjvuPdfError::PageOutOfRange { page, page_count } => {
                let mut message: String = text_of("page ");
                push_decimal(&mut message, *page as u64);
                message.append(" not found; document has ");
                push_decimal(&mut message, *page_count as u64);
                message.append(" pages");
                message
            },
        }
    }
}

/// The error of rendering as one of writing.
pub open spec fn error_of(error: DjvuRenderError) -> DjvuPdfError {
    match error {
        DjvuRenderError::Parse(error) => DjvuPdfError::Parse(error),
        DjvuRenderError::Bzz(error) => DjvuPdfError::Bzz(error),
        DjvuRenderError::Render(error) => DjvuPdfError::Render(error),
        DjvuRenderError::ZeroPage => DjvuPdfError::ZeroFromPage,
        DjvuRenderError::ZeroFromPage => DjvuPdfError::ZeroFromPage,
        DjvuRenderError::ReversedPageRange => DjvuPdfError::ReversedPageRange,
        DjvuRenderError::PageOutOfRange { page, page_count } => DjvuPdfError::PageOutOfRange {
            page,
            page_count,
        },
    }
}

impl From<DjvuRenderError> for DjvuPdfError {
    fn from(error: DjvuRenderError) -> (converted: Self) {
        match error {
            DjvuRenderError::Parse(error) => DjvuPdfError::Parse(error),
            DjvuRenderError::Bzz(error) => DjvuPdfError::Bzz(error),
            DjvuRenderError::Render(error) => DjvuPdfError::Render(error),
            DjvuRenderError::ZeroPage => DjvuPdfError::ZeroFromPage,
            DjvuRenderError::ZeroFromPage => DjvuPdfError::ZeroFromPage,
            DjvuRenderError::ReversedPageRange => DjvuPdfError::ReversedPageRange,
            DjvuRenderError::PageOutOfRange { page, page_count } => DjvuPdfError::PageOutOfRange {
                page,
                page_count,
            },
        }
    }
}

impl vstd::std_specs::convert::FromSpecImpl<DjvuRenderError> for DjvuPdfError {
    open spec fn obeys_from_spec() -> bool {
        true
    }

    open spec fn from_spec(error: DjvuRenderError) -> DjvuPdfError {
        error_of(error)
    }
}

/// A document that is being turned into a PDF file, page by page.
pub struct DocumentConversion<'a> {
    pub bytes: &'a [u8],
    pub document: Document<'a>,
    pub tail: Vec<u8>,
    pub next_page: usize,
    pub end_page: usize,
    pub file: PdfFileWriter,
    pub cache: Jb2DictionaryCache,
}

impl<'a> DocumentConversion<'a> {
    /// The entries of the directory, if the document has one.
    pub open spec fn entries(&self) -> Seq<TailEntryModel> {
        match self.document@.directory {
            None => Seq::empty(),
            Some(dirm) => tail_entries(dirm, self.tail@)->Ok_0,
        }
    }

    /// The pages that are left are pages of the document, and its directory can be read.
    pub open spec fn wf(&self) -> bool {
        &&& self.file.wf()
        &&& self.cache.holds(self.bytes@)
        &&& self.document@.directory matches Some(dirm) ==> tail_entries(dirm, self.tail@) is Ok
        &&& 1 <= self.next_page <= self.end_page + 1
        &&& self.end_page <= page_forms(self.document@.forms).len()
        &&& self.end_page < usize::MAX
    }
}

impl<'a> View for DocumentConversion<'a> {
    type V = ConversionModel;

    open spec fn view(&self) -> ConversionModel {
        ConversionModel {
            bytes: self.bytes@,
            forms: self.document@.forms,
            entries: self.entries(),
            next_page: self.next_page as int,
            end_page: self.end_page as int,
            file: self.file@,
        }
    }
}

/// The outline of a range of pages of a document.
fn outline_bookmarks(bytes: &[u8], tool_output: Option<&[u8]>, from_page: usize, end_page: usize) -> (
    bookmarks: Result<Vec<PdfBookmark>, ParseError>)
    ensures
        match document_outline(bytes@, given(tool_output), from_page as int, end_page as int) {
            Ok(expected) => {
                &&& bookmarks is Ok
                &&& outline_models(bookmarks->Ok_0@) == expected
                &&& 7 * outline_count(expected) <= usize::MAX
                &&& from_page <= end_page ==> pages_in_range(expected, end_page - from_page + 1)
            },
            Err(message) => bookmarks is Err && bookmarks->Err_0@ == message,
        },
{
    match extract_document_bookmarks(bytes, tool_output) {
        Err(error) => Err(error),
        Ok(None) => {
            let bookmarks: Vec<PdfBookmark> = Vec::new();
            assert(outline_models(bookmarks@) =~= Seq::<OutlineModel>::empty());
            assert(outline_count(Seq::<OutlineModel>::empty()) == 0);
            Ok(bookmarks)
        },
        Ok(Some(bookmarks)) => {
            proof {
                let models = document_bookmarks(bytes@, given(tool_output))->Ok_0->0;
                lemma_all_show_values(bookmarks@, models);
                lemma_outline_is_no_larger(models, from_page as int, end_page as int);
                lemma_outline_stays_in_range(models, from_page as int, end_page as int);
            }
            Ok(pdf_bookmarks_from_djvu(bookmarks.as_slice(), from_page, end_page))
        },
    }
}

impl<'a> DocumentConversion<'a> {
    /// Starts to turn a range of pages, counted from one, into a PDF file; without an end, up
    /// to the last page. What the `bzz` tool makes of the tail of the directory and of the
    /// bookmarks is used where it is needed and given.
    pub fn start(
        bytes: &'a [u8],
        from_page: usize,
        to_page: Option<usize>,
        directory_output: Option<&[u8]>,
        bookmark_output: Option<&[u8]>,
        text: &[ExtractedTextZonePage],
    ) -> (conversion: DjvuPdfResult<Self>)
        ensures
            match conversion_start(
                bytes@,
                from_page as int,
                number_given(to_page),
                (ToolOutputs {
                    directory: given(directory_output),
                    bookmarks: given(bookmark_output),
                }),
                all_spans(text@),
            ) {
                Ok(expected) => conversion is Ok && conversion->Ok_0@ == expected
                    && conversion->Ok_0.wf(),
                Err(fault) => conversion is Err && conversion->Err_0@ == fault,
            },
    {
        reveal(conversion_start);
        let document = match Document::parse(bytes) {
            Err(error) => {
                return Err(DjvuPdfError::Parse(error));
            },
            Ok(document) => document,
        };
        let tail: Vec<u8> = match directory_tail(bytes, &document, directory_output) {
            Err(error) => {
                return Err(DjvuPdfError::from(error));
            },
            Ok(tail) => tail,
        };
        match read_directory(&document, tail.as_slice()) {
            Err(error) => {
                return Err(DjvuPdfError::from(error));
            },
            Ok(_) => {},
        }
        proof {
            lemma_page_count(document@.forms);
            lemma_pages_are_forms(document@.forms);
            lemma_form_limit(bytes@);
        }
        let page_count: usize = document.form_kind_counts().pages;
        let end_page: usize = match checked_document_render_page_range(
            page_count,
            from_page,
            to_page,
        ) {
            Err(error) => {
                return Err(DjvuPdfError::from(error));
            },
            Ok(end_page) => end_page,
        };
        let bookmarks: Vec<PdfBookmark> = match outline_bookmarks(
            bytes,
            bookmark_output,
            from_page,
            end_page,
        ) {
            Err(error) => {
                return Err(DjvuPdfError::Parse(error));
            },
            Ok(bookmarks) => bookmarks,
        };
        let text_pages: Vec<PdfTextPage> = pdf_text_pages_from_djvu(text);
        let selected_page_count: usize = end_page - from_page + 1;
        proof {
            lemma_range_fits(outline_models(bookmarks@), selected_page_count as int);
        }
        match PdfFileWriter::start(selected_page_count, bookmarks, Some(text_pages)) {
            Err(error) => Err(DjvuPdfError::Pdf(error)),
            Ok(file) => Ok(
                DocumentConversion {
                    bytes,
                    document,
                    tail,
                    next_page: from_page,
                    end_page,
                    file,
                    cache: Jb2DictionaryCache::new(),
                },
            ),
        }
    }

    /// Adds the next page.
    pub fn add_next_page(&mut self) -> (page: DjvuPdfResult<PreparedPage>)
        requires
            old(self).wf(),
            old(self).next_page <= old(self).end_page,
        ensures
            match conversion_step(old(self)@) {
                Ok((expected, model)) => page is Ok && page->Ok_0.shows(model) && final(self)@
                    == expected && final(self).wf(),
                Err(fault) => page is Err && page->Err_0@ == fault,
            },
    {
        let mut work: PageWork<'a> = PageWork::Unplanned;
        loop
            invariant
                self.wf(),
                self.next_page <= self.end_page,
                self@ == old(self)@,
                work.fits(self@),
                work !is Added,
            decreases work.rank(), work.rendering().0, work.rendering().1,
        {
            work = match self.advance(work) {
                Err(error) => {
                    return Err(error);
                },
                Ok(PageWork::Added(page)) => {
                    return Ok(page);
                },
                Ok(next) => next,
            };
        }
    }

    /// The plan of the next page.
    pub fn plan_next_page(&self) -> (plan: Result<PageRenderPlan<'a>, ParseError>)
        requires
            self.wf(),
            self.next_page <= self.end_page,
        ensures
            match numbered_plan(self@.bytes, self@.forms, self@.entries, self@.next_page) {
                Ok(expected) => plan is Ok && plan->Ok_0@ == expected,
                Err(message) => plan is Err && plan->Err_0@ == message,
            },
    {
        match read_directory(&self.document, self.tail.as_slice()) {
            Err(_) => Err(ParseError::new("")),
            Ok(entries) => {
                assert(entries_view(entries@) == self.entries());
                plan_of_page(&self.document, self.bytes, entries.as_slice(), self.next_page)
            },
        }
    }

    /// Finishes the file.
    pub fn finish(self) -> (file: DjvuPdfResult<Vec<u8>>)
        requires
            self.wf(),
        ensures
            match conversion_end(self@) {
                Ok(expected) => file is Ok && file->Ok_0@ == expected,
                Err(fault) => file is Err && file->Err_0@ == fault,
            },
    {
        match self.file.finish() {
            Err(error) => Err(DjvuPdfError::Pdf(error)),
            Ok(file) => Ok(file),
        }
    }
}

/// Turns a range of pages of a document into a PDF file, and tells of the pages meanwhile.
pub fn render_document_pdf_with_events(
    bytes: &[u8],
    from_page: usize,
    to_page: Option<usize>,
    directory_output: Option<&[u8]>,
    bookmark_output: Option<&[u8]>,
    text: &[ExtractedTextZonePage],
    events: &mut Vec<DjvuPdfRenderEvent>,
) -> (file: DjvuPdfResult<Vec<u8>>)
    ensures
        ({
            let tools = ToolOutputs {
                directory: given(directory_output),
                bookmarks: given(bookmark_output),
            };
            let (from, to) = (from_page as int, number_given(to_page));
            &&& told_after(
                old(events)@,
                final(events)@,
                told(bytes@, from, to, tools, all_spans(text@)),
            )
            &&& match converted(bytes@, from, to, tools, all_spans(text@)) {
                Ok(written) => file is Ok && file->Ok_0@ == written,
                Err(fault) => file is Err && file->Err_0@ == fault,
            }
        }),
{
    let mut conversion = match DocumentConversion::start(
        bytes,
        from_page,
        to_page,
        directory_output,
        bookmark_output,
        text,
    ) {
        Err(error) => {
            assert(events@.take(events@.len() as int) =~= events@);
            return Err(error);
        },
        Ok(conversion) => conversion,
    };
    let ghost first = conversion@;
    let ghost mut done: Seq<EventModel> = Seq::empty();
    assert(events@.take(events@.len() as int) =~= events@);
    assert(done + conversion_told(first) =~= conversion_told(first));
    while conversion.next_page <= conversion.end_page
        invariant
            conversion.wf(),
            conversion_rest(conversion@) == conversion_rest(first),
            done + conversion_told(conversion@) == conversion_told(first),
            told_after(old(events)@, events@, done),
            conversion_start(
                bytes@,
                from_page as int,
                number_given(to_page),
                ToolOutputs {
                    directory: given(directory_output),
                    bookmarks: given(bookmark_output),
                },
                all_spans(text@),
            ) == Ok::<ConversionModel, PdfFault>(first),
        decreases conversion.end_page + 1 - conversion.next_page,
    {
        let page_number: usize = conversion.next_page;
        let ghost before = conversion@;
        let ghost started = EventModel::PageStarted {
            page_number: before.next_page,
            end_page: before.end_page,
        };
        note_event(
            events,
            DjvuPdfRenderEvent::PageStarted { page_number, end_page: conversion.end_page },
            Ghost(old(events)@),
            Ghost(done),
            Ghost(started),
        );
        match conversion.add_next_page() {
            Err(error) => {
                assert(done.push(started) =~= done + conversion_told(before));
                return Err(error);
            },
            Ok(page) => {
                let ghost model = conversion_step(before)->Ok_0.1;
                proof {
                    lemma_step_goes_on(before);
                    done = done.push(started);
                }
                note_event(
                    events,
                    match page {
                        PreparedPage::Direct(image) => DjvuPdfRenderEvent::PageImagePrepared {
                            page_number,
                            image,
                        },
                        PreparedPage::Rendered(render, _) => DjvuPdfRenderEvent::PageRendered {
                            page_number,
                            render,
                        },
                    },
                    Ghost(old(events)@),
                    Ghost(done),
                    Ghost(page_told(model, before.next_page)),
                );
                proof {
                    done = done.push(page_told(model, before.next_page));
                    assert(done + conversion_told(conversion@) =~= conversion_told(first));
                }
            },
        }
    }
    assert(done =~= conversion_told(first));
    conversion.finish()
}

/// Adds an event to those that were told.
fn note_event(
    events: &mut Vec<DjvuPdfRenderEvent>,
    event: DjvuPdfRenderEvent,
    Ghost(first): Ghost<Seq<DjvuPdfRenderEvent>>,
    Ghost(told): Ghost<Seq<EventModel>>,
    Ghost(model): Ghost<EventModel>,
)
    requires
        told_after(first, old(events)@, told),
        event.shows(model),
    ensures
        told_after(first, final(events)@, told.push(model)),
{
    let ghost before = events@;
    events.push(event);
    proof {
        assert(events@.take(first.len() as int) =~= before.take(first.len() as int));
        assert forall|i: int| 0 <= i < told.push(model).len() implies (
        #[trigger] events@[first.len() + i]).shows(told.push(model)[i]) by {
            if i < told.len() {
                assert(events@[first.len() + i] == before[first.len() + i]);
            }
        }
    }
}

proof fn lemma_step_goes_on(state: ConversionModel)
    ensures
        conversion_step(state) matches Ok((next, _)) ==> next.next_page == state.next_page + 1
            && next.end_page == state.end_page,
{
    reveal(conversion_step);
}

/// Turns a range of pages of a document into a PDF file.
pub fn render_document_pdf(
    bytes: &[u8],
    from_page: usize,
    to_page: Option<usize>,
    directory_output: Option<&[u8]>,
    bookmark_output: Option<&[u8]>,
    text: &[ExtractedTextZonePage],
) -> (file: DjvuPdfResult<Vec<u8>>)
    ensures
        match converted(
            bytes@,
            from_page as int,
            number_given(to_page),
            (ToolOutputs {
                directory: given(directory_output),
                bookmarks: given(bookmark_output),
            }),
            all_spans(text@),
        ) {
            Ok(written) => file is Ok && file->Ok_0@ == written,
            Err(fault) => file is Err && file->Err_0@ == fault,
        },
{
    let mut conversion = match DocumentConversion::start(
        bytes,
        from_page,
        to_page,
        directory_output,
        bookmark_output,
        text,
    ) {
        Err(error) => {
            return Err(error);
        },
        Ok(conversion) => conversion,
    };
    let ghost first = conversion@;
    while conversion.next_page <= conversion.end_page
        invariant
            conversion.wf(),
            conversion_rest(conversion@) == conversion_rest(first),
            conversion_start(
                bytes@,
                from_page as int,
                number_given(to_page),
                ToolOutputs {
                    directory: given(directory_output),
                    bookmarks: given(bookmark_output),
                },
                all_spans(text@),
            ) == Ok::<ConversionModel, PdfFault>(first),
        decreases conversion.end_page + 1 - conversion.next_page,
    {
        let ghost before = conversion@;
        match conversion.add_next_page() {
            Err(error) => {
                return Err(error);
            },
            Ok(_) => {
                proof {
                    lemma_step_goes_on(before);
                }
            },
        }
    }
    conversion.finish()
}

} // verus!
