//! What is shown of a document: names, lines of text and numbers.

pub mod inspect_text;
pub mod plan_text;
pub mod render_text;
pub mod words;

use crate::document::{
    directory_view, forms_view, DirectoryEntry, DirectoryEntryModel, Document, DocumentFormKind,
    DocumentFormModel, PageChunkSource, SourceModel,
};
use crate::iw44::blocks::{magnitude_of, magnitude_sum};
use crate::iw44::decoder::{plane_samples, planes_of, reconstruction_shows, Iw44Decoder};
use crate::iw44::slice::PlaneModel;
use crate::iw44::{
    Iw44Plane, Iw44ReconstructionExtent, Iw44ReconstructionOrder, Iw44ReconstructionPlane,
    Iw44RgbImage,
};
use crate::jb2::Jb2RecordSummary;
use crate::navm::{bookmark_models, Bookmark, BookmarkModel};
use crate::render::layer::{image_of, Image};
use crate::report::words::{push_signed, signed_text};
use crate::text::{
    decimal, decimal_bytes, digit, push_bytes, push_decimal, push_decimal_bytes, same_text,
    text_of, utf8,
};
use vstd::prelude::*;

verus! {

/// The name of a kind of form.
pub open spec fn form_kind_name(kind: DocumentFormKind) -> Seq<char> {
    match kind {
        DocumentFormKind::Page => "page"@,
        DocumentFormKind::Shared => "shared"@,
        DocumentFormKind::Thumbnails => "thumbs"@,
        DocumentFormKind::Other => "other"@,
    }
}

/// The name of a kind of form.
#[must_use]
pub fn display_form_kind(kind: DocumentFormKind) -> (name: &'static str)
    ensures
        name@ == form_kind_name(kind),
{
    match kind {
        DocumentFormKind::Page => "page",
        DocumentFormKind::Shared => "shared",
        DocumentFormKind::Thumbnails => "thumbs",
        DocumentFormKind::Other => "other",
    }
}

/// What a chunk is for, by its tag and, of a form, its kind.
pub open spec fn chunk_role(id: Seq<char>, form_kind: Option<Seq<char>>) -> Seq<char> {
    if id == "FORM"@ {
        if form_kind == Some("DJVU"@) {
            "page"@
        } else if form_kind == Some("DJVI"@) {
            "shared"@
        } else if form_kind == Some("THUM"@) {
            "thumbs"@
        } else {
            "form"@
        }
    } else if id == "DIRM"@ {
        "directory"@
    } else if id == "NAVM"@ {
        "nav"@
    } else if id == "INFO"@ {
        "info"@
    } else if id == "INCL"@ {
        "include"@
    } else if id == "Djbz"@ {
        "djbz"@
    } else if id == "Sjbz"@ {
        "sjbz"@
    } else if id == "FG44"@ {
        "fg44"@
    } else if id == "BG44"@ {
        "bg44"@
    } else if id == "TXTa"@ {
        "txta"@
    } else if id == "TXTz"@ {
        "txtz"@
    } else {
        "unknown"@
    }
}

/// Whether a text is there and is the given one.
fn is_text(text: Option<&str>, wanted: &str) -> (same: bool)
    ensures
        same == (text is Some && text->0@ == wanted@),
{
    match text {
        Some(text) => same_text(text, wanted),
        None => false,
    }
}

/// What a chunk is for, by its tag and, of a form, its kind.
#[must_use]
pub fn display_chunk_role(id: &str, form_kind: Option<&str>) -> (role: &'static str)
    ensures
        role@ == chunk_role(
            id@,
            match form_kind {
                Some(kind) => Some(kind@),
                None => None,
            },
        ),
{
    if same_text(id, "FORM") {
        if is_text(form_kind, "DJVU") {
            "page"
        } else if is_text(form_kind, "DJVI") {
            "shared"
        } else if is_text(form_kind, "THUM") {
            "thumbs"
        } else {
            "form"
        }
    } else if same_text(id, "DIRM") {
        "directory"
    } else if same_text(id, "NAVM") {
        "nav"
    } else if same_text(id, "INFO") {
        "info"
    } else if same_text(id, "INCL") {
        "include"
    } else if same_text(id, "Djbz") {
        "djbz"
    } else if same_text(id, "Sjbz") {
        "sjbz"
    } else if same_text(id, "FG44") {
        "fg44"
    } else if same_text(id, "BG44") {
        "bg44"
    } else if same_text(id, "TXTa") {
        "txta"
    } else if same_text(id, "TXTz") {
        "txtz"
    } else {
        "unknown"
    }
}

/// Where a chunk comes from, in words.
pub open spec fn source_text(source: SourceModel) -> Seq<char> {
    match source {
        SourceModel::Page => "page"@,
        SourceModel::Include { id, .. } => "include:"@ + id,
    }
}

/// Where a chunk comes from, in words.
#[must_use]
pub fn format_page_chunk_source(source: PageChunkSource<'_>) -> (text: String)
    ensures
        text@ == source_text(source@),
{
    match source {
        PageChunkSource::Page => text_of("page"),
        PageChunkSource::Include { id, .. } => {
            let mut text: String = text_of("include:");
            text.append(id);
            text
        },
    }
}

/// The first entry of a directory with the given name.
pub open spec fn named_entry(entries: Seq<DirectoryEntryModel>, name: Seq<char>) -> Option<
    DirectoryEntryModel,
>
    decreases entries.len(),
{
    if entries.len() == 0 {
        None
    } else if entries[0].entry.name == name {
        Some(entries[0])
    } else {
        named_entry(entries.drop_first(), name)
    }
}

/// The entry of a directory that an included form is found by, and where it leads.
pub open spec fn include_text(
    id: Seq<char>,
    directory: Option<(Seq<DocumentFormModel>, Seq<DirectoryEntryModel>)>,
) -> Seq<char> {
    match directory {
        None => " id="@ + id,
        Some((forms, entries)) => match named_entry(entries, id) {
            None => " id="@ + id + " -> unresolved"@,
            Some(found) => {
                let place = " id="@ + id + " -> @"@ + decimal(found.entry.offset as nat);
                match found.form_index {
                    None => place + " unresolved-form"@,
                    Some(index) => place + " FORM:"@ + forms[index].form.kind + " size="@
                        + decimal(forms[index].form.chunk.size as nat),
                }
            },
        },
    }
}

/// Finds the first entry of a directory with the given name.
fn find_named<'e, 'd>(entries: &'e [DirectoryEntry<'d>], name: &str) -> (found: Option<
    &'e DirectoryEntry<'d>,
>)
    ensures
        match named_entry(directory_view(entries@), name@) {
            None => found is None,
            Some(expected) => found is Some && (*found->0)@ == expected && exists|i: int|
                0 <= i < entries@.len() && entries@[i] == *found->0,
        },
{
    let ghost all = directory_view(entries@);
    let mut i: usize = 0;
    assert(all.skip(0) =~= all);
    while i < entries.len()
        invariant
            i <= entries@.len(),
            all == directory_view(entries@),
            named_entry(all, name@) == named_entry(all.skip(i as int), name@),
        decreases entries@.len() - i,
    {
        assert(all.skip(i as int)[0] == entries@[i as int]@);
        if same_text(entries[i].name, name) {
            return Some(&entries[i]);
        }
        assert(all.skip(i as int).drop_first() =~= all.skip(i + 1));
        i = i + 1;
    }
    None
}

/// Where entries of a directory lead to a form, it is there.
pub open spec fn entries_lead_to_forms(entries: Seq<DirectoryEntry<'_>>, count: nat) -> bool {
    forall|i: int|
        0 <= i < entries.len() && (#[trigger] entries[i]).form_index is Some
            ==> entries[i].form_index->0 < count
}

/// The entry of a directory that an included form is found by, and where it leads.
#[must_use]
pub fn format_include_payload(
    id: &str,
    directory: Option<(&Document<'_>, &[DirectoryEntry<'_>])>,
) -> (text: String)
    requires
        match directory {
            Some((document, entries)) => entries_lead_to_forms(entries@, document.forms@.len()),
            None => true,
        },
    ensures
        text@ == include_text(
            id@,
            match directory {
                Some((document, entries)) => Some(
                    (forms_view(document.forms@), directory_view(entries@)),
                ),
                None => None,
            },
        ),
{
    let mut text: String = text_of(" id=");
    text.append(id);
    match directory {
        None => {},
        Some((document, entries)) => match find_named(entries, id) {
            None => {
                text.append(" -> unresolved");
            },
            Some(found) => {
                text.append(" -> @");
                push_decimal(&mut text, found.offset as u64);
                match found.form_index {
                    None => {
                        text.append(" unresolved-form");
                    },
                    Some(index) => {
                        assert(forms_view(document.forms@)[index as int]
                            == document.forms@[index as int]@);
                        text.append(" FORM:");
                        text.append(document.forms[index].form.kind);
                        text.append(" size=");
                        push_decimal(&mut text, document.forms[index].form.chunk.size as u64);
                    },
                }
            },
        },
    }
    text
}

/// The size and the place of a record, as far as it has them.
pub open spec fn geometry_text(record: Jb2RecordSummary) -> Seq<char> {
    (if record.symbol_width is Some && record.symbol_height is Some {
        " "@ + decimal(record.symbol_width->0 as nat) + "x"@ + decimal(
            record.symbol_height->0 as nat,
        )
    } else {
        Seq::empty()
    }) + (if record.x is Some && record.y is Some {
        " at ("@ + signed_text(record.x->0 as int) + ", "@ + signed_text(record.y->0 as int) + ")"@
    } else {
        Seq::empty()
    })
}

/// The size and the place of a record, as far as it has them.
#[must_use]
pub fn format_jb2_record_geometry(record: &Jb2RecordSummary) -> (text: String)
    ensures
        text@ == geometry_text(*record),
{
    let mut text: String = text_of("");
    proof {
        reveal_strlit("");
        assert(text@ =~= Seq::empty());
    }
    match (record.symbol_width, record.symbol_height) {
        (Some(width), Some(height)) => {
            text.append(" ");
            push_decimal(&mut text, width as u64);
            text.append("x");
            push_decimal(&mut text, height as u64);
        },
        _ => {},
    }
    match (record.x, record.y) {
        (Some(x), Some(y)) => {
            text.append(" at (");
            push_signed(&mut text, x);
            text.append(", ");
            push_signed(&mut text, y);
            text.append(")");
        },
        _ => {},
    }
    assert(text@ =~= geometry_text(*record));
    text
}

/// A byte of a quoted text: printable ASCII as it is, but for quotes and backslashes; other
/// bytes in three octal digits.
pub open spec fn escaped_byte(byte: u8) -> Seq<char> {
    if byte == 34 {
        "\\\""@
    } else if byte == 92 {
        "\\\\"@
    } else if 32 <= byte <= 126 {
        seq![byte as char]
    } else {
        "\\"@ + seq![
            digit((byte / 64) as nat),
            digit(((byte / 8) % 8) as nat),
            digit((byte % 8) as nat),
        ]
    }
}

/// The first `count` bytes of a quoted text.
pub open spec fn escaped_bytes(bytes: Seq<u8>, count: int) -> Seq<char>
    decreases count,
{
    if count <= 0 {
        Seq::empty()
    } else {
        escaped_bytes(bytes, count - 1) + escaped_byte(bytes[count - 1])
    }
}

/// A text as it stands between quotes.
pub open spec fn escaped_text(text: Seq<char>) -> Seq<char> {
    escaped_bytes(utf8(text), utf8(text).len() as int)
}

/// Appends a byte as it stands between quotes.
fn push_escaped_byte(escaped: &mut String, byte: u8)
    ensures
        final(escaped)@ == old(escaped)@ + escaped_byte(byte),
{
    if byte == 34 {
        escaped.append("\\\"");
    } else if byte == 92 {
        escaped.append("\\\\");
    } else if byte >= 32 && byte <= 126 {
        escaped.push(byte as char);
    } else {
        escaped.append("\\");
        push_decimal(escaped, (byte / 64) as u64);
        push_decimal(escaped, ((byte / 8) % 8) as u64);
        push_decimal(escaped, (byte % 8) as u64);
        proof {
            reveal_with_fuel(decimal, 2);
        }
    }
    assert(escaped@ =~= old(escaped)@ + escaped_byte(byte));
}

/// A text as it stands between quotes.
#[must_use]
pub fn escape_bookmark_string(value: &str) -> (escaped: String)
    ensures
        escaped@ == escaped_text(value@),
{
    let bytes: &[u8] = value.as_bytes();
    let mut escaped: String = text_of("");
    proof {
        reveal_strlit("");
        assert(escaped@ =~= Seq::empty());
    }
    let mut i: usize = 0;
    while i < bytes.len()
        invariant
            i <= bytes@.len(),
            escaped@ == escaped_bytes(bytes@, i as int),
        decreases bytes@.len() - i,
    {
        push_escaped_byte(&mut escaped, bytes[i]);
        i = i + 1;
    }
    escaped
}

/// The lines of bookmarks: each stands in a list of its title, its address, and those below
/// it. Behind the last stand the brackets that close the lists round it.
pub open spec fn outline_lines(
    bookmarks: Seq<BookmarkModel>,
    indent: Seq<char>,
    closing: Seq<char>,
) -> Seq<char>
    decreases bookmarks,
{
    if bookmarks.len() == 0 {
        Seq::empty()
    } else {
        let last = bookmarks.last();
        let head = bookmark_head(indent, last.title, last.url);
        outline_lines(bookmarks.drop_last(), indent, Seq::empty()) + if last.children.len() == 0 {
            head + " )"@ + closing + "\n"@
        } else {
            head + "\n"@ + outline_lines(last.children, indent + " "@, closing + " )"@)
        }
    }
}

/// The title of a bookmark and its address.
pub open spec fn bookmark_head(indent: Seq<char>, title: Seq<char>, url: Seq<char>) -> Seq<char> {
    indent + "(\""@ + escaped_text(title) + "\"\n"@ + indent + " \""@ + escaped_text(url) + "\""@
}

/// The lines of one bookmark, with those below it.
#[verifier::opaque]
pub open spec fn bookmark_lines(
    bookmark: BookmarkModel,
    indent: Seq<char>,
    closing: Seq<char>,
) -> Seq<char> {
    let head = bookmark_head(indent, bookmark.title, bookmark.url);
    if bookmark.children.len() == 0 {
        head + " )"@ + closing + "\n"@
    } else {
        head + "\n"@ + outline_lines(bookmark.children, indent + " "@, closing + " )"@)
    }
}

/// The outline of a document.
pub open spec fn outline_text(bookmarks: Seq<BookmarkModel>) -> Seq<char> {
    "(bookmarks\n"@ + outline_lines(bookmarks, " "@, " )"@)
}

/// One bookmark more adds its lines, with the brackets where it is the last.
proof fn lemma_outline_push(
    bookmarks: Seq<Bookmark>,
    index: int,
    indent: Seq<char>,
    closing: Seq<char>,
)
    requires
        0 <= index < bookmarks.len(),
    ensures
        outline_lines(bookmark_models(bookmarks.take(index + 1)), indent, closing)
            == outline_lines(bookmark_models(bookmarks.take(index)), indent, Seq::empty())
            + bookmark_lines(bookmark_model(bookmarks[index]), indent, closing),
{
    reveal(bookmark_lines);
    let models = bookmark_models(bookmarks.take(index + 1));
    assert(bookmarks.take(index + 1).drop_last() =~= bookmarks.take(index));
    assert(bookmarks.take(index + 1).last() == bookmarks[index]);
    assert(models.drop_last() =~= bookmark_models(bookmarks.take(index)));
    assert(models.last() == bookmark_model(bookmarks[index]));
}

/// A bookmark by its values.
pub open spec fn bookmark_model(bookmark: Bookmark) -> BookmarkModel {
    BookmarkModel {
        title: bookmark.title@,
        url: bookmark.url@,
        children: bookmark_models(bookmark.children@),
    }
}

proof fn lemma_models_len(bookmarks: Seq<Bookmark>)
    ensures
        bookmark_models(bookmarks).len() == bookmarks.len(),
    decreases bookmarks.len(),
{
    if bookmarks.len() > 0 {
        lemma_models_len(bookmarks.drop_last());
    }
}

/// Appends the title of a bookmark and its address.
fn push_bookmark_head(text: &mut String, bookmark: &Bookmark, indent: &str)
    ensures
        final(text)@ == old(text)@ + bookmark_head(indent@, bookmark.title@, bookmark.url@),
{
    let title = escape_bookmark_string(bookmark.title.as_str());
    let url = escape_bookmark_string(bookmark.url.as_str());
    text.append(indent);
    text.append("(\"");
    text.append(title.as_str());
    text.append("\"\n");
    text.append(indent);
    text.append(" \"");
    text.append(url.as_str());
    text.append("\"");
    assert(text@ =~= old(text)@ + bookmark_head(indent@, bookmark.title@, bookmark.url@));
}

/// Appends the lines of one bookmark, with those below it.
fn push_bookmark(text: &mut String, bookmark: &Bookmark, indent: &str, closing: &str)
    ensures
        final(text)@ == old(text)@ + bookmark_lines(bookmark_model(*bookmark), indent@, closing@),
    decreases bookmark,
{
    reveal(bookmark_lines);
    proof {
        lemma_models_len(bookmark.children@);
    }
    let ghost before = text@;
    let ghost head = bookmark_head(indent@, bookmark.title@, bookmark.url@);
    push_bookmark_head(text, bookmark, indent);
    if bookmark.children.len() == 0 {
        text.append(" )");
        text.append(closing);
        text.append("\n");
        assert(text@ =~= before + (head + " )"@ + closing@ + "\n"@));
    } else {
        text.append("\n");
        let mut deeper: String = text_of(indent);
        deeper.append(" ");
        let mut inner: String = text_of(closing);
        inner.append(" )");
        let ghost below = outline_lines(
            bookmark_models(bookmark.children@),
            indent@ + " "@,
            closing@ + " )"@,
        );
        push_outline(text, bookmark.children.as_slice(), deeper.as_str(), inner.as_str());
        assert(text@ =~= before + (head + "\n"@ + below));
    }
}

/// Appends the lines of bookmarks.
fn push_outline(text: &mut String, bookmarks: &[Bookmark], indent: &str, closing: &str)
    ensures
        final(text)@ == old(text)@ + outline_lines(
            bookmark_models(bookmarks@),
            indent@,
            closing@,
        ),
    decreases bookmarks@,
{
    let ghost first = text@;
    let mut index: usize = 0;
    assert(bookmarks@.take(0) =~= Seq::<Bookmark>::empty());
    assert(text@ =~= first + outline_lines(bookmark_models(bookmarks@.take(0)), indent@, Seq::empty()));
    proof {
        reveal_strlit("");
        assert(""@ =~= Seq::<char>::empty());
        if bookmarks@.len() == 0 {
            assert(bookmarks@.take(0) =~= bookmarks@);
        }
    }
    while index < bookmarks.len()
        invariant
            index <= bookmarks@.len(),
            first == old(text)@,
            ""@ == Seq::<char>::empty(),
            index < bookmarks@.len() ==> text@ == first + outline_lines(
                bookmark_models(bookmarks@.take(index as int)),
                indent@,
                Seq::empty(),
            ),
            index == bookmarks@.len() ==> text@ == first + outline_lines(
                bookmark_models(bookmarks@),
                indent@,
                closing@,
            ),
        decreases bookmarks@.len() - index,
    {
        let last: bool = index + 1 == bookmarks.len();
        let closes: &str = if last {
            closing
        } else {
            ""
        };
        let ghost before = outline_lines(
            bookmark_models(bookmarks@.take(index as int)),
            indent@,
            Seq::empty(),
        );
        proof {
            lemma_outline_push(bookmarks@, index as int, indent@, closes@);
            if last {
                assert(bookmarks@.take(index + 1) =~= bookmarks@);
            }
        }
        assert(decreases_to!(bookmarks@ => bookmarks@[index as int]));
        push_bookmark(text, &bookmarks[index], indent, closes);
        assert(text@ =~= first + (before + bookmark_lines(
            bookmark_model(bookmarks@[index as int]),
            indent@,
            closes@,
        )));
        index = index + 1;
    }
}

/// The outline of a document.
#[must_use]
pub fn format_outline(bookmarks: &[Bookmark]) -> (text: String)
    ensures
        text@ == outline_text(bookmark_models(bookmarks@)),
{
    let mut text: String = text_of("(bookmarks\n");
    push_outline(&mut text, bookmarks, " ", " )");
    text
}

/// How much is told while a PDF file is made.
#[derive(Debug, Clone, Copy, Eq, PartialEq, Structural)]
pub enum RenderPdfProgress {
    Sparse,
    PerPage,
    Quiet,
}

impl Default for RenderPdfProgress {
    fn default() -> (progress: Self)
        ensures
            progress == RenderPdfProgress::Sparse,
    {
        RenderPdfProgress::Sparse
    }
}

/// What is told while a PDF file is made, and when it is done.
#[derive(Debug, Clone, Copy, Eq, PartialEq, Structural)]
pub struct RenderPdfOptions {
    pub progress: RenderPdfProgress,
    pub verbose: bool,
    pub timings: bool,
}

impl Default for RenderPdfOptions {
    fn default() -> (options: Self)
        ensures
            options == (RenderPdfOptions {
                progress: RenderPdfProgress::Sparse,
                verbose: false,
                timings: false,
            }),
    {
        RenderPdfOptions { progress: RenderPdfProgress::Sparse, verbose: false, timings: false }
    }
}

/// How much is told: nothing if quiet is asked for, and then each page if that is.
#[must_use]
pub fn render_pdf_progress(quiet: bool, progress: bool) -> (chosen: RenderPdfProgress)
    ensures
        chosen == if quiet {
            RenderPdfProgress::Quiet
        } else if progress {
            RenderPdfProgress::PerPage
        } else {
            RenderPdfProgress::Sparse
        },
{
    if quiet {
        RenderPdfProgress::Quiet
    } else if progress {
        RenderPdfProgress::PerPage
    } else {
        RenderPdfProgress::Sparse
    }
}

/// How many pages a range has, where its end is given and not before its start.
#[must_use]
pub fn selected_page_count(from_page: usize, to_page: Option<usize>) -> (count: Option<usize>)
    requires
        to_page is Some ==> to_page->0 - from_page < usize::MAX,
    ensures
        count == if to_page is Some && from_page <= to_page->0 {
            Some((to_page->0 - from_page + 1) as usize)
        } else {
            None
        },
{
    match to_page {
        Some(to_page) => if from_page <= to_page {
            Some(to_page - from_page + 1)
        } else {
            None
        },
        None => None,
    }
}

/// Whether a line is due after a page: after every fiftieth and after the last.
#[must_use]
pub fn sparse_progress_is_due(
    render_count: usize,
    selected_page_count: Option<usize>,
    progress: RenderPdfProgress,
) -> (due: bool)
    ensures
        due == (progress == RenderPdfProgress::Sparse && (render_count % 50 == 0
            || selected_page_count == Some(render_count))),
{
    if progress != RenderPdfProgress::Sparse {
        return false;
    }
    let last: bool = match selected_page_count {
        Some(count) => count == render_count,
        None => false,
    };
    render_count % 50 == 0 || last
}

/// The samples of a plane in numbers.
#[derive(Debug, Clone, Copy, Eq, PartialEq, Structural)]
pub struct Iw44ReconstructionSummary {
    pub plane: Iw44Plane,
    pub width: usize,
    pub height: usize,
    pub sample_count: usize,
    pub min_sample: i16,
    pub max_sample: i16,
    pub sample_abs_sum: u64,
}

/// The smallest of the first `count` samples.
pub open spec fn lowest(samples: Seq<i16>, count: int) -> i16
    decreases count,
{
    if count <= 0 {
        i16::MAX
    } else if samples[count - 1] < lowest(samples, count - 1) {
        samples[count - 1]
    } else {
        lowest(samples, count - 1)
    }
}

/// The largest of the first `count` samples.
pub open spec fn highest(samples: Seq<i16>, count: int) -> i16
    decreases count,
{
    if count <= 0 {
        i16::MIN
    } else if samples[count - 1] > highest(samples, count - 1) {
        samples[count - 1]
    } else {
        highest(samples, count - 1)
    }
}

/// The samples of a plane in numbers.
pub open spec fn samples_summary(which: Iw44Plane, plane: PlaneModel) -> Iw44ReconstructionSummary {
    let samples = plane_samples(
        plane,
        Iw44ReconstructionOrder::ColumnsThenRows,
        Iw44ReconstructionExtent::Visible,
    );
    let count = samples.len() as int;
    Iw44ReconstructionSummary {
        plane: which,
        width: plane.width as usize,
        height: plane.height as usize,
        sample_count: count as usize,
        min_sample: lowest(samples, count),
        max_sample: highest(samples, count),
        sample_abs_sum: magnitude_sum(samples, count) as u64,
    }
}

/// The samples of a plane in numbers.
fn summarize_samples(shown: &Iw44ReconstructionPlane, Ghost(plane): Ghost<PlaneModel>) -> (summary:
    Iw44ReconstructionSummary)
    requires
        reconstruction_shows(
            *shown,
            shown.plane,
            plane,
            Iw44ReconstructionOrder::ColumnsThenRows,
            Iw44ReconstructionExtent::Visible,
        ),
        shown.width <= 0xffff,
        shown.height <= 0xffff,
    ensures
        summary == samples_summary(shown.plane, plane),
{
    let mut min_sample: i16 = i16::MAX;
    let mut max_sample: i16 = i16::MIN;
    let mut sample_abs_sum: u64 = 0;
    let mut i: usize = 0;
    assert(shown.width * shown.height <= 0xffff * 0xffff) by (nonlinear_arith)
        requires
            0 <= shown.width <= 0xffff,
            0 <= shown.height <= 0xffff,
    ;
    while i < shown.samples.len()
        invariant
            i <= shown.samples@.len(),
            shown.samples@.len() <= 0xffff * 0xffff,
            min_sample == lowest(shown.samples@, i as int),
            max_sample == highest(shown.samples@, i as int),
            sample_abs_sum == magnitude_sum(shown.samples@, i as int),
            sample_abs_sum <= 0x8000 * i,
        decreases shown.samples@.len() - i,
    {
        let sample: i16 = shown.samples[i];
        if sample < min_sample {
            min_sample = sample;
        }
        if sample > max_sample {
            max_sample = sample;
        }
        sample_abs_sum = sample_abs_sum + magnitude_of(sample) as u64;
        i = i + 1;
    }
    Iw44ReconstructionSummary {
        plane: shown.plane,
        width: shown.width,
        height: shown.height,
        sample_count: shown.samples.len(),
        min_sample,
        max_sample,
        sample_abs_sum,
    }
}

/// The samples of the planes of an image in numbers.
#[must_use]
pub fn reconstruction_summaries(decoder: &Iw44Decoder) -> (summaries: Vec<
    Iw44ReconstructionSummary,
>)
    requires
        decoder.wf(),
    ensures
        summaries@ == Seq::new(
            planes_of(decoder@).len(),
            |i: int| samples_summary(planes_of(decoder@)[i].0, planes_of(decoder@)[i].1),
        ),
{
    let planes = decoder.reconstruct_planes();
    let ghost models = planes_of(decoder@);
    let mut summaries: Vec<Iw44ReconstructionSummary> = Vec::new();
    let mut i: usize = 0;
    while i < planes.len()
        invariant
            i <= planes@.len(),
            models == planes_of(decoder@),
            planes@.len() == models.len(),
            decoder.wf(),
            forall|k: int|
                0 <= k < planes@.len() ==> reconstruction_shows(
                    #[trigger] planes@[k],
                    models[k].0,
                    models[k].1,
                    Iw44ReconstructionOrder::ColumnsThenRows,
                    Iw44ReconstructionExtent::Visible,
                ),
            summaries@ == Seq::new(
                i as nat,
                |k: int| samples_summary(models[k].0, models[k].1),
            ),
        decreases planes@.len() - i,
    {
        summaries.push(summarize_samples(&planes[i], Ghost(models[i as int].1)));
        i = i + 1;
        assert(summaries@ =~= Seq::new(
            i as nat,
            |k: int| samples_summary(models[k].0, models[k].1),
        ));
    }
    summaries
}

/// The bytes of an image as a binary PPM file.
pub open spec fn image_ppm(image: Image) -> Seq<u8> {
    seq![80u8, 54u8, 10u8] + decimal_bytes(image.width as nat) + seq![32u8] + decimal_bytes(
        image.height as nat,
    ) + seq![10u8, 50u8, 53u8, 53u8, 10u8] + image.pixels
}

/// An image as a binary PPM file.
#[must_use]
pub fn iw44_rgb_image_ppm_bytes(image: &Iw44RgbImage) -> (bytes: Vec<u8>)
    ensures
        bytes@ == image_ppm(image_of(*image)),
{
    let mut bytes: Vec<u8> = vec![80u8, 54u8, 10u8];
    assert(bytes@ =~= seq![80u8, 54u8, 10u8]);
    push_decimal_bytes(&mut bytes, image.width as u64);
    let space: [u8; 1] = [32];
    assert(space@ =~= seq![32u8]);
    push_bytes(&mut bytes, space.as_slice());
    push_decimal_bytes(&mut bytes, image.height as u64);
    let depth: [u8; 5] = [10, 50, 53, 53, 10];
    assert(depth@ =~= seq![10u8, 50u8, 53u8, 53u8, 10u8]);
    push_bytes(&mut bytes, depth.as_slice());
    push_bytes(&mut bytes, image.pixels.as_slice());
    bytes
}

} // verus!
