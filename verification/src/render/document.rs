//! Pages of a document, rendered.

use crate::bzz::{
    bzz_message, decode_dirm_tail, dirm_tail_decoded, given, BzzError, BzzFault,
};
use crate::dirm::{entries_view, parse_dirm_tail, tail_entries, DirmTailEntry, TailEntryModel};
use crate::document::{
    document_of, lemma_page_count, page_forms, page_of, resolved_chunks, Document,
    DocumentFormModel, DocumentModel, Page, PageModel,
};
use crate::error::{agrees, ParseError};
use crate::render::copy::copy_render;
use crate::render::plan::{
    plan_of, render_in_mode, render_shows, PageRenderMode, PageRenderPlan, PartialPageRender,
    PlanModel, RenderModel,
};
use crate::render::RenderError;
use crate::text::{decimal, push_decimal, text_of};
use vstd::prelude::*;

verus! {

/// Why pages of a document could not be rendered.
#[derive(Debug, Clone, PartialEq, Eq)]
pub enum DjvuRenderError {
    Parse(ParseError),
    Bzz(BzzError),
    Render(RenderError),
    ZeroPage,
    ZeroFromPage,
    ReversedPageRange,
    PageOutOfRange { page: usize, page_count: usize },
}

/// What rendering pages of a document gives.
pub type DjvuRenderResult<T> = Result<T, DjvuRenderError>;

/// Why pages of a document could not be rendered, by its values.
#[verifier::ext_equal]
pub enum RenderFault {
    Parse(Seq<char>),
    Bzz(BzzFault),
    Render(Seq<char>),
    ZeroPage,
    ZeroFromPage,
    ReversedPageRange,
    PageOutOfRange { page: int, page_count: int },
}

/// What is told while pages are rendered.
#[derive(Debug, Clone, PartialEq, Eq)]
pub enum DjvuPageRenderEvent {
    PageStarted { page_number: usize, end_page: usize },
    PageRendered { page_number: usize, render: PartialPageRender },
}

/// What is told while pages are rendered, by its values.
#[verifier::ext_equal]
pub enum PageEventModel {
    PageStarted { page_number: int, end_page: int },
    PageRendered { page_number: int, render: RenderModel },
}

impl DjvuPageRenderEvent {
    /// Whether the event has the given values.
    pub open spec fn shows(&self, model: PageEventModel) -> bool {
        match (self, model) {
            (
                DjvuPageRenderEvent::PageStarted { page_number, end_page },
                PageEventModel::PageStarted { page_number: number, end_page: end },
            ) => page_number == number && end_page == end,
            (
                DjvuPageRenderEvent::PageRendered { page_number, render },
                PageEventModel::PageRendered { page_number: number, render: expected },
            ) => page_number == number && render_shows(*render, expected),
            _ => false,
        }
    }
}

/// Whether the first list of events is followed by events with the given values.
pub open spec fn told_after(
    before: Seq<DjvuPageRenderEvent>,
    after: Seq<DjvuPageRenderEvent>,
    told: Seq<PageEventModel>,
) -> bool {
    &&& after.len() == before.len() + told.len()
    &&& after.take(before.len() as int) == before
    &&& forall|i: int|
        0 <= i < told.len() ==> (#[trigger] after[before.len() + i]).shows(told[i])
}

/// A page that was rendered.
#[derive(Debug, Clone, PartialEq, Eq)]
pub struct RenderedDocumentPage {
    pub page_number: usize,
    pub render: PartialPageRender,
}

impl View for DjvuRenderError {
    type V = RenderFault;

    open spec fn view(&self) -> RenderFault {
        match self {
            DjvuRenderError::Parse(error) => RenderFault::Parse(error@),
            DjvuRenderError::Bzz(error) => RenderFault::Bzz(error@),
            DjvuRenderError::Render(error) => RenderFault::Render(error@),
            DjvuRenderError::ZeroPage => RenderFault::ZeroPage,
            DjvuRenderError::ZeroFromPage => RenderFault::ZeroFromPage,
            DjvuRenderError::ReversedPageRange => RenderFault::ReversedPageRange,
            DjvuRenderError::PageOutOfRange { page, page_count } => RenderFault::PageOutOfRange {
                page: *page as int,
                page_count: *page_count as int,
            },
        }
    }
}

/// What is said of a failure.
pub open spec fn render_message(fault: RenderFault) -> Seq<char> {
    match fault {
        RenderFault::Parse(message) => message,
        RenderFault::Bzz(fault) => bzz_message(fault),
        RenderFault::Render(message) => message,
        RenderFault::ZeroPage => "page number must be 1 or greater"@,
        RenderFault::ZeroFromPage => "from page must be 1 or greater"@,
        RenderFault::ReversedPageRange =>
        "to page must be greater than or equal to from page"@,
        RenderFault::PageOutOfRange { page, page_count } => "page "@ + decimal(page as nat)
            + " not found; document has "@ + decimal(page_count as nat) + " pages"@,
    }
}

/// The entries of the directory of a document, if it has one; or why they cannot be read.
pub open spec fn directory_of(
    bytes: Seq<u8>,
    document: DocumentModel,
    tool_output: Option<Seq<u8>>,
) -> Result<Seq<TailEntryModel>, RenderFault> {
    match document.directory {
        None => Ok(Seq::empty()),
        Some(dirm) => match dirm_tail_decoded(bytes, dirm, tool_output) {
            Err(fault) => Err(RenderFault::Bzz(fault)),
            Ok(raw) => match tail_entries(dirm, raw) {
                Err(message) => Err(RenderFault::Parse(message)),
                Ok(entries) => Ok(entries),
            },
        },
    }
}

/// The plan of a page, or why there is none.
pub open spec fn page_plan(
    bytes: Seq<u8>,
    forms: Seq<DocumentFormModel>,
    entries: Seq<TailEntryModel>,
    page: PageModel,
) -> Result<PlanModel, Seq<char>> {
    match page.info {
        None => Err("page at offset "@ + decimal(page.offset as nat) + " has no INFO metadata"@),
        Some(info) => match resolved_chunks(bytes, forms, entries, page.form) {
            Err(message) => Err(message),
            Ok(chunks) => Ok(plan_of(info, chunks)),
        },
    }
}

/// The plan of the page with the given number, counted from one, or why there is none.
#[verifier::opaque]
pub open spec fn numbered_plan(
    bytes: Seq<u8>,
    forms: Seq<DocumentFormModel>,
    entries: Seq<TailEntryModel>,
    number: int,
) -> Result<PlanModel, Seq<char>> {
    match page_of(bytes, page_forms(forms)[number - 1]) {
        Err(message) => Err(message),
        Ok(page) => page_plan(bytes, forms, entries, page),
    }
}

/// The last page of a range, or what is wrong with the range.
pub open spec fn range_end(page_count: int, from_page: int, to_page: Option<int>) -> Result<
    int,
    RenderFault,
> {
    let end = match to_page {
        Some(to_page) => to_page,
        None => page_count,
    };
    if from_page == 0 {
        Err(RenderFault::ZeroFromPage)
    } else if to_page is Some && to_page->0 < from_page {
        Err(RenderFault::ReversedPageRange)
    } else if from_page > page_count {
        Err(RenderFault::PageOutOfRange { page: from_page, page_count })
    } else if end > page_count {
        Err(RenderFault::PageOutOfRange { page: end, page_count })
    } else {
        Ok(end)
    }
}

/// A number that may be there, by its value.
pub open spec fn number_given(number: Option<usize>) -> Option<int> {
    match number {
        Some(number) => Some(number as int),
        None => None,
    }
}

/// What rendering pages up to the last gives, after those already rendered, and what is
/// told meanwhile.
pub open spec fn rendered_range(
    bytes: Seq<u8>,
    forms: Seq<DocumentFormModel>,
    entries: Seq<TailEntryModel>,
    mode: PageRenderMode,
    number: int,
    end: int,
    done: Seq<(int, RenderModel)>,
    told: Seq<PageEventModel>,
) -> (Result<Seq<(int, RenderModel)>, RenderFault>, Seq<PageEventModel>)
    decreases end + 1 - number,
{
    if number > end {
        (Ok(done), told)
    } else {
        match numbered_plan(bytes, forms, entries, number) {
            Err(message) => (Err(RenderFault::Parse(message)), told),
            Ok(plan) => {
                let started = told.push(
                    PageEventModel::PageStarted { page_number: number, end_page: end },
                );
                match render_in_mode(plan, bytes, mode) {
                    Err(message) => (Err(RenderFault::Render(message)), started),
                    Ok(render) => rendered_range(
                        bytes,
                        forms,
                        entries,
                        mode,
                        number + 1,
                        end,
                        done.push((number, render)),
                        started.push(
                            PageEventModel::PageRendered { page_number: number, render },
                        ),
                    ),
                }
            },
        }
    }
}

/// What rendering a range of pages of a document gives, and what is told meanwhile.
pub open spec fn rendered_pages(
    bytes: Seq<u8>,
    from_page: int,
    to_page: Option<int>,
    mode: PageRenderMode,
    tool_output: Option<Seq<u8>>,
) -> (Result<Seq<(int, RenderModel)>, RenderFault>, Seq<PageEventModel>) {
    match document_of(bytes) {
        Err(message) => (Err(RenderFault::Parse(message)), Seq::empty()),
        Ok(document) => match directory_of(bytes, document, tool_output) {
            Err(fault) => (Err(fault), Seq::empty()),
            Ok(entries) => match range_end(
                page_forms(document.forms).len() as int,
                from_page,
                to_page,
            ) {
                Err(fault) => (Err(fault), Seq::empty()),
                Ok(end) => rendered_range(
                    bytes,
                    document.forms,
                    entries,
                    mode,
                    from_page,
                    end,
                    Seq::empty(),
                    Seq::empty(),
                ),
            },
        },
    }
}

/// Whether pages that were rendered have the given values.
pub open spec fn pages_show(
    pages: Seq<RenderedDocumentPage>,
    models: Seq<(int, RenderModel)>,
) -> bool {
    &&& pages.len() == models.len()
    &&& forall|i: int|
        0 <= i < pages.len() ==> (#[trigger] pages[i]).page_number == models[i].0
            && render_shows(pages[i].render, models[i].1)
}

proof fn lemma_rendered_range(
    bytes: Seq<u8>,
    forms: Seq<DocumentFormModel>,
    entries: Seq<TailEntryModel>,
    mode: PageRenderMode,
    number: int,
    end: int,
    done: Seq<(int, RenderModel)>,
    told: Seq<PageEventModel>,
)
    requires
        number <= end + 1,
    ensures
        rendered_range(bytes, forms, entries, mode, number, end, done, told).0 matches Ok(pages)
            ==> {
            &&& pages.len() == done.len() + (end + 1 - number)
            &&& forall|i: int| 0 <= i < done.len() ==> pages[i] == done[i]
            &&& forall|i: int|
                done.len() <= i < pages.len() ==> (#[trigger] pages[i]).0 == number + i
                    - done.len()
        },
    decreases end + 1 - number,
{
    if number <= end {
        match numbered_plan(bytes, forms, entries, number) {
            Err(_) => {},
            Ok(plan) => {
                match render_in_mode(plan, bytes, mode) {
                    Err(_) => {},
                    Ok(render) => {
                        let both = told.push(
                            PageEventModel::PageStarted { page_number: number, end_page: end },
                        ).push(PageEventModel::PageRendered { page_number: number, render });
                        let next = done.push((number, render));
                        lemma_rendered_range(
                            bytes,
                            forms,
                            entries,
                            mode,
                            number + 1,
                            end,
                            next,
                            both,
                        );
                        match rendered_range(
                            bytes,
                            forms,
                            entries,
                            mode,
                            number + 1,
                            end,
                            next,
                            both,
                        ).0 {
                            Ok(pages) => {
                                assert forall|i: int| 0 <= i < done.len() implies pages[i]
                                    == done[i] by {
                                    assert(pages[i] == next[i]);
                                }
                                assert(pages[done.len() as int] == next[done.len() as int]);
                            },
                            Err(_) => {},
                        }
                    },
                }
            },
        }
    }
}

/// Where a range of pages can be rendered, every page of it is there once, in order, under
/// its own number.
pub proof fn lemma_every_page_of_the_range(
    bytes: Seq<u8>,
    from_page: int,
    to_page: Option<int>,
    mode: PageRenderMode,
    tool_output: Option<Seq<u8>>,
)
    requires
        0 <= from_page,
    ensures
        rendered_pages(bytes, from_page, to_page, mode, tool_output).0 matches Ok(pages) ==> {
            &&& pages.len() > 0
            &&& forall|i: int| 0 <= i < pages.len() ==> (#[trigger] pages[i]).0 == from_page + i
            &&& to_page matches Some(to_page) ==> pages.len() == to_page + 1 - from_page
        },
{
    match document_of(bytes) {
        Err(_) => {},
        Ok(document) => {
            match directory_of(bytes, document, tool_output) {
                Err(_) => {},
                Ok(entries) => {
                    match range_end(page_forms(document.forms).len() as int, from_page, to_page) {
                        Err(_) => {},
                        Ok(end) => {
                            lemma_rendered_range(
                                bytes,
                                document.forms,
                                entries,
                                mode,
                                from_page,
                                end,
                                Seq::empty(),
                                Seq::empty(),
                            );
                        },
                    }
                },
            }
        },
    }
}

impl DjvuRenderError {
    /// What is said of the failure.
    #[must_use]
    pub fn message(&self) -> (message: String)
        ensures
            message@ == render_message(self@),
    {
        match self {
            DjvuRenderError::Parse(error) => text_of(error.message()),
            DjvuRenderError::Bzz(error) => error.message(),
            DjvuRenderError::Render(error) => text_of(error.message()),
            DjvuRenderError::ZeroPage => text_of("page number must be 1 or greater"),
            DjvuRenderError::ZeroFromPage => text_of("from page must be 1 or greater"),
            DjvuRenderError::ReversedPageRange => text_of(
                "to page must be greater than or equal to from page",
            ),
            DjvuRenderError::PageOutOfRange { page, page_count } => {
                let mut message: String = text_of("page ");
                push_decimal(&mut message, *page as u64);
                message.append(" not found; document has ");
                push_decimal(&mut message, *page_count as u64);
                message.append(" pages");
                message
            },
        }
    }
}

/// Checks a range of pages, and says which is the last.
pub fn checked_document_render_page_range(
    page_count: usize,
    from_page: usize,
    to_page: Option<usize>,
) -> (end: DjvuRenderResult<usize>)
    ensures
        match range_end(page_count as int, from_page as int, number_given(to_page)) {
            Ok(expected) => end is Ok && end->Ok_0 == expected,
            Err(fault) => end is Err && end->Err_0@ == fault,
        },
{
    if from_page == 0 {
        return Err(DjvuRenderError::ZeroFromPage);
    }
    let end_page: usize = match to_page {
        Some(to_page) => {
            if to_page < from_page {
                return Err(DjvuRenderError::ReversedPageRange);
            }
            to_page
        },
        None => page_count,
    };
    if from_page > page_count {
        return Err(DjvuRenderError::PageOutOfRange { page: from_page, page_count });
    }
    if end_page > page_count {
        return Err(DjvuRenderError::PageOutOfRange { page: end_page, page_count });
    }
    Ok(end_page)
}

/// Decodes the tail of the directory of a document, if it has one.
pub fn directory_tail(bytes: &[u8], document: &Document<'_>, tool_output: Option<&[u8]>) -> (tail:
    DjvuRenderResult<Vec<u8>>)
    ensures
        match document@.directory {
            None => tail is Ok && tail->Ok_0@ == Seq::<u8>::empty(),
            Some(dirm) => match dirm_tail_decoded(bytes@, dirm, given(tool_output)) {
                Ok(raw) => tail is Ok && tail->Ok_0@ == raw,
                Err(fault) => tail is Err && tail->Err_0@ == RenderFault::Bzz(fault),
            },
        },
{
    match &document.directory {
        None => Ok(Vec::new()),
        Some(dirm) => match decode_dirm_tail(bytes, dirm, tool_output) {
            Err(error) => Err(DjvuRenderError::Bzz(error)),
            Ok(tail) => Ok(tail),
        },
    }
}

/// Reads the decoded tail of the directory of a document, if it has one.
pub fn read_directory<'t>(document: &Document<'_>, tail: &'t [u8]) -> (entries: DjvuRenderResult<
    Vec<DirmTailEntry<'t>>,
>)
    ensures
        match document@.directory {
            None => entries is Ok && entries_view(entries->Ok_0@) == Seq::<
                TailEntryModel,
            >::empty(),
            Some(dirm) => match tail_entries(dirm, tail@) {
                Ok(models) => entries is Ok && entries_view(entries->Ok_0@) == models,
                Err(message) => entries is Err && entries->Err_0@ == RenderFault::Parse(message),
            },
        },
{
    match &document.directory {
        None => {
            let entries: Vec<DirmTailEntry<'t>> = Vec::new();
            assert(entries_view(entries@) =~= Seq::<TailEntryModel>::empty());
            Ok(entries)
        },
        Some(dirm) => match parse_dirm_tail(dirm, tail) {
            Err(error) => Err(DjvuRenderError::Parse(error)),
            Ok(entries) => Ok(entries),
        },
    }
}

impl<'a> Document<'a> {
    /// The plan of a page.
    pub fn page_render_plan<'b>(
        &self,
        bytes: &'b [u8],
        page: &Page<'b>,
        tail_entries: &[DirmTailEntry<'_>],
    ) -> (plan: Result<PageRenderPlan<'b>, ParseError>)
        ensures
            agrees(
                plan,
                page_plan(bytes@, self@.forms, entries_view(tail_entries@), page@),
                |plan: PageRenderPlan<'b>, model: PlanModel| plan@ == model,
            ),
    {
        match page.info {
            None => {
                let mut message: String = text_of("page at offset ");
                push_decimal(&mut message, page.offset as u64);
                message.append(" has no INFO metadata");
                Err(ParseError(message))
            },
            Some(info) => match self.resolved_page_chunks(bytes, page, tail_entries) {
                Err(error) => Err(error),
                Ok(chunks) => Ok(PageRenderPlan::new(info, chunks)),
            },
        }
    }
}

/// The plan of the page with the given number, counted from one.
pub fn plan_of_page<'a>(
    document: &Document<'a>,
    bytes: &'a [u8],
    tail_entries: &[DirmTailEntry<'_>],
    number: usize,
) -> (plan: Result<PageRenderPlan<'a>, ParseError>)
    requires
        1 <= number <= page_forms(document@.forms).len(),
    ensures
        agrees(
            plan,
            numbered_plan(
                bytes@,
                document@.forms,
                entries_view(tail_entries@),
                number as int,
            ),
            |plan: PageRenderPlan<'a>, model: PlanModel| plan@ == model,
        ),
{
    reveal(numbered_plan);
    match document.page_form(number - 1) {
        None => Err(ParseError::new("")),
        Some(form) => {
            match crate::info::read_page_info(bytes, &form.form) {
                Err(error) => Err(error),
                Ok(info) => {
                    let page = Page { offset: form.offset, form: form.form, info };
                    assert(page_of(bytes@, form@) == Ok::<PageModel, Seq<char>>(page@));
                    document.page_render_plan(bytes, &page, tail_entries)
                },
            }
        },
    }
}

/// Adds an event to those that were told.
fn note_event(
    events: &mut Vec<DjvuPageRenderEvent>,
    event: DjvuPageRenderEvent,
    Ghost(first): Ghost<Seq<DjvuPageRenderEvent>>,
    Ghost(told): Ghost<Seq<PageEventModel>>,
    Ghost(model): Ghost<PageEventModel>,
)
    requires
        told_after(first, old(events)@, told),
        event.shows(model),
    ensures
        told_after(first, final(events)@, told.push(model)),
{
    let ghost before = events@;
    events.push(event);
    proof {
        assert(events@.take(first.len() as int) =~= before.take(first.len() as int));
        assert forall|i: int| 0 <= i < told.push(model).len() implies (
        #[trigger] events@[first.len() + i]).shows(told.push(model)[i]) by {
            if i < told.len() {
                assert(events@[first.len() + i] == before[first.len() + i]);
            }
        }
    }
}

/// Renders a range of pages, counted from one; without an end, up to the last page. What
/// the `bzz` tool makes of the tail of the directory is used where it is needed and given.
pub fn render_document_pages_with_events(
    bytes: &[u8],
    from_page: usize,
    to_page: Option<usize>,
    mode: PageRenderMode,
    tool_output: Option<&[u8]>,
    events: &mut Vec<DjvuPageRenderEvent>,
) -> (pages: DjvuRenderResult<Vec<RenderedDocumentPage>>)
    ensures
        ({
            let (expected, told) = rendered_pages(
                bytes@,
                from_page as int,
                number_given(to_page),
                mode,
                given(tool_output),
            );
            &&& told_after(old(events)@, final(events)@, told)
            &&& match expected {
                Ok(models) => pages is Ok && pages_show(pages->Ok_0@, models),
                Err(fault) => pages is Err && pages->Err_0@ == fault,
            }
        }),
{
    assert(events@.take(events@.len() as int) =~= events@);
    let document = match Document::parse(bytes) {
        Err(error) => {
            return Err(DjvuRenderError::Parse(error));
        },
        Ok(document) => document,
    };
    let tail: Vec<u8> = match directory_tail(bytes, &document, tool_output) {
        Err(error) => {
            return Err(error);
        },
        Ok(tail) => tail,
    };
    let entries = match read_directory(&document, tail.as_slice()) {
        Err(error) => {
            return Err(error);
        },
        Ok(entries) => entries,
    };
    let ghost models = entries_view(entries@);
    proof {
        lemma_page_count(document@.forms);
    }
    let page_count: usize = document.form_kind_counts().pages;
    let end_page: usize = match checked_document_render_page_range(
        page_count,
        from_page,
        to_page,
    ) {
        Err(error) => {
            return Err(error);
        },
        Ok(end_page) => end_page,
    };
    let ghost expected = rendered_pages(
        bytes@,
        from_page as int,
        number_given(to_page),
        mode,
        given(tool_output),
    );
    let ghost mut done: Seq<(int, RenderModel)> = Seq::empty();
    let ghost mut told: Seq<PageEventModel> = Seq::empty();
    let mut pages: Vec<RenderedDocumentPage> = Vec::new();
    let mut next: usize = 0;
    let count: usize = end_page - from_page + 1;
    while next < count
        invariant
            next <= count,
            from_page >= 1,
            count == end_page - from_page + 1,
            end_page <= page_forms(document@.forms).len(),
            models == entries_view(entries@),
            pages_show(pages@, done),
            expected == rendered_pages(
                bytes@,
                from_page as int,
                number_given(to_page),
                mode,
                given(tool_output),
            ),
            told_after(old(events)@, events@, told),
            rendered_range(
                bytes@,
                document@.forms,
                models,
                mode,
                from_page + next,
                end_page as int,
                done,
                told,
            ) == expected,
        decreases count - next,
    {
        let page_number: usize = from_page + next;
        let plan = match plan_of_page(&document, bytes, entries.as_slice(), page_number) {
            Err(error) => {
                return Err(DjvuRenderError::Parse(error));
            },
            Ok(plan) => plan,
        };
        let ghost started = PageEventModel::PageStarted {
            page_number: page_number as int,
            end_page: end_page as int,
        };
        note_event(
            events,
            DjvuPageRenderEvent::PageStarted { page_number, end_page },
            Ghost(old(events)@),
            Ghost(told),
            Ghost(started),
        );
        match plan.render_bitmap_with_mode(bytes, mode) {
            Err(error) => {
                return Err(DjvuRenderError::Render(error));
            },
            Ok(render) => {
                let ghost model = render_in_mode(plan@, bytes@, mode)->Ok_0;
                let copy = copy_render(&render, Ghost(model));
                let ghost finished = PageEventModel::PageRendered {
                    page_number: page_number as int,
                    render: model,
                };
                note_event(
                    events,
                    DjvuPageRenderEvent::PageRendered { page_number, render: copy },
                    Ghost(old(events)@),
                    Ghost(told.push(started)),
                    Ghost(finished),
                );
                proof {
                    done = done.push((page_number as int, model));
                    told = told.push(started).push(finished);
                }
                pages.push(RenderedDocumentPage { page_number, render });
            },
        }
        next = next + 1;
    }
    Ok(pages)
}

/// Renders a range of pages.
pub fn render_document_pages(
    bytes: &[u8],
    from_page: usize,
    to_page: Option<usize>,
    mode: PageRenderMode,
    tool_output: Option<&[u8]>,
) -> (pages: DjvuRenderResult<Vec<RenderedDocumentPage>>)
    ensures
        match rendered_pages(
            bytes@,
            from_page as int,
            number_given(to_page),
            mode,
            given(tool_output),
        ).0 {
            Ok(models) => pages is Ok && pages_show(pages->Ok_0@, models),
            Err(fault) => pages is Err && pages->Err_0@ == fault,
        },
{
    let document = match Document::parse(bytes) {
        Err(error) => {
            return Err(DjvuRenderError::Parse(error));
        },
        Ok(document) => document,
    };
    let tail: Vec<u8> = match directory_tail(bytes, &document, tool_output) {
        Err(error) => {
            return Err(error);
        },
        Ok(tail) => tail,
    };
    let entries = match read_directory(&document, tail.as_slice()) {
        Err(error) => {
            return Err(error);
        },
        Ok(entries) => entries,
    };
    let ghost models = entries_view(entries@);
    proof {
        lemma_page_count(document@.forms);
    }
    let page_count: usize = document.form_kind_counts().pages;
    let end_page: usize = match checked_document_render_page_range(
        page_count,
        from_page,
        to_page,
    ) {
        Err(error) => {
            return Err(error);
        },
        Ok(end_page) => end_page,
    };
    let ghost expected = rendered_pages(
        bytes@,
        from_page as int,
        number_given(to_page),
        mode,
        given(tool_output),
    );
    let ghost mut done: Seq<(int, RenderModel)> = Seq::empty();
    let ghost mut told: Seq<PageEventModel> = Seq::empty();
    let mut pages: Vec<RenderedDocumentPage> = Vec::new();
    let mut next: usize = 0;
    let count: usize = end_page - from_page + 1;
    while next < count
        invariant
            next <= count,
            from_page >= 1,
            count == end_page - from_page + 1,
            end_page <= page_forms(document@.forms).len(),
            models == entries_view(entries@),
            pages_show(pages@, done),
            expected == rendered_pages(
                bytes@,
                from_page as int,
                number_given(to_page),
                mode,
                given(tool_output),
            ),
            rendered_range(
                bytes@,
                document@.forms,
                models,
                mode,
                from_page + next,
                end_page as int,
                done,
                told,
            ) == expected,
        decreases count - next,
    {
        let page_number: usize = from_page + next;
        let plan = match plan_of_page(&document, bytes, entries.as_slice(), page_number) {
            Err(error) => {
                return Err(DjvuRenderError::Parse(error));
            },
            Ok(plan) => plan,
        };
        match plan.render_bitmap_with_mode(bytes, mode) {
            Err(error) => {
                return Err(DjvuRenderError::Render(error));
            },
            Ok(render) => {
                proof {
                    let model = render_in_mode(plan@, bytes@, mode)->Ok_0;
                    done = done.push((page_number as int, model));
                    told = told.push(
                        PageEventModel::PageStarted {
                            page_number: page_number as int,
                            end_page: end_page as int,
                        },
                    ).push(
                        PageEventModel::PageRendered {
                            page_number: page_number as int,
                            render: model,
                        },
                    );
                }
                pages.push(RenderedDocumentPage { page_number, render });
            },
        }
        next = next + 1;
    }
    Ok(pages)
}

/// Renders one page, counted from one.
pub fn render_document_page(
    bytes: &[u8],
    page_number: usize,
    mode: PageRenderMode,
    tool_output: Option<&[u8]>,
) -> (page: DjvuRenderResult<PartialPageRender>)
    ensures
        page_number == 0 ==> page is Err && page->Err_0@ == RenderFault::ZeroPage,
        page_number > 0 ==> match rendered_pages(
            bytes@,
            page_number as int,
            Some(page_number as int),
            mode,
            given(tool_output),
        ).0 {
            Ok(models) => page is Ok && models.len() == 1 && render_shows(
                page->Ok_0,
                models[0].1,
            ),
            Err(fault) => page is Err && page->Err_0@ == fault,
        },
{
    if page_number == 0 {
        return Err(DjvuRenderError::ZeroPage);
    }
    proof {
        lemma_every_page_of_the_range(
            bytes@,
            page_number as int,
            Some(page_number as int),
            mode,
            given(tool_output),
        );
    }
    match render_document_pages(bytes, page_number, Some(page_number), mode, tool_output) {
        Err(error) => Err(error),
        Ok(mut pages) => match pages.pop() {
            Some(page) => Ok(page.render),
            None => Err(
                DjvuRenderError::Render(
                    RenderError::new("validated page range did not render the requested page"),
                ),
            ),
        },
    }
}

} // verus!
