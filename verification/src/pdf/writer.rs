//! PDF files with one image to the page.

use crate::pdf::image::{
    bitmap_fault, image_fault, image_object, image_of, mask_images, validate_bitmap,
    validate_page_image, ImageModel, PdfPageImage,
};
use crate::pdf::objects::{
    consistent, empty_file, finished, lemma_empty_file_consistent, lemma_object_extends,
    with_object, PdfModel, PdfObjectWriter,
};
use crate::pdf::outline::{
    count_pdf_bookmarks, has_room, lemma_items_extend, lemma_outline_models, outline_count,
    outline_models, outline_object, pages_fit, push_reference, reference, with_outline,
    write_pdf_outlines, OutlineModel, PdfBookmark,
};
use crate::pdf::stream::{points_from_pixels, points_text, stream_bytes, stream_object};
use crate::pdf::text_layer::{
    append_pdf_text_layer, cmap_of, encoding_of, layer_content, lemma_pages_have_codes,
    pages_view, pdf_to_unicode_cmap, spans_view, PdfTextEncoding, PdfTextPage, SpanModel,
};
use crate::pdf::{PdfError, PdfResult};
use crate::render::bitmap::PageBitmap;
use crate::render::plan::PartialPageRender;
use crate::text::{
    decimal, decimal_bytes, push_bytes, push_decimal, push_decimal_bytes, push_text, text_of,
    utf8,
};
use vstd::prelude::*;
use vstd::std_specs::iter::IteratorSpec;

verus! {

/// The numbers of the objects of a file.
#[derive(Debug, Clone, Copy, PartialEq, Eq, Structural)]
pub struct PdfObjectIds {
    pub catalog: usize,
    pub pages: usize,
    pub first_page: usize,
    pub first_content: usize,
    pub first_image: usize,
    pub font: usize,
    pub to_unicode: usize,
    pub outline_root: usize,
    pub first_outline_item: usize,
    pub max_object: usize,
}

/// A file that pages are added to, by its values.
pub struct FileModel {
    pub pdf: PdfModel,
    pub page_count: nat,
    pub written: nat,
    pub texts: Option<Seq<Seq<SpanModel>>>,
    pub encoding: Option<Seq<char>>,
    pub outline: Seq<OutlineModel>,
}

/// A file that pages are added to.
pub struct PdfFileWriter {
    pub pdf: PdfObjectWriter,
    pub ids: PdfObjectIds,
    pub page_count: usize,
    pub written: usize,
    pub text_pages: Option<Vec<PdfTextPage>>,
    pub encoding: Option<PdfTextEncoding>,
    pub bookmarks: Vec<PdfBookmark>,
}

/// The text of pages, if there is any, by its values.
pub open spec fn texts_view(text_pages: Option<Vec<PdfTextPage>>) -> Option<Seq<Seq<SpanModel>>> {
    match text_pages {
        Some(pages) => Some(pages_view(pages@)),
        None => None,
    }
}

/// Codes of characters, if there are any, by their values.
pub open spec fn encoding_view(encoding: Option<PdfTextEncoding>) -> Option<Seq<char>> {
    match encoding {
        Some(encoding) => Some(encoding.characters@),
        None => None,
    }
}

impl View for PdfFileWriter {
    type V = FileModel;

    open spec fn view(&self) -> FileModel {
        FileModel {
            pdf: self.pdf@,
            page_count: self.page_count as nat,
            written: self.written as nat,
            texts: texts_view(self.text_pages),
            encoding: encoding_view(self.encoding),
            outline: outline_models(self.bookmarks@),
        }
    }
}

/// Whether there is any text.
pub open spec fn has_text(texts: Option<Seq<Seq<SpanModel>>>) -> bool {
    texts is Some && exists|i: int|
        0 <= i < texts->0.len() && (#[trigger] texts->0[i]).len() > 0
}

/// How many objects the text takes that all pages share.
pub open spec fn text_objects(text: bool) -> int {
    if text {
        2
    } else {
        0
    }
}

/// The number of the outline.
pub open spec fn outline_root(page_count: int, text: bool) -> int {
    3 + 3 * page_count + text_objects(text)
}

/// The last number of an object.
pub open spec fn max_object(page_count: int, text: bool, outline: nat) -> int {
    if outline > 0 {
        outline_root(page_count, text) + outline
    } else {
        outline_root(page_count, text) - 1
    }
}

/// The catalog.
pub open spec fn catalog_object(page_count: int, text: bool, outline: nat) -> Seq<u8> {
    utf8("<< /Type /Catalog"@) + reference(" /Pages "@, 2) + (if outline > 0 {
        reference(" /Outlines "@, outline_root(page_count, text)) + utf8(
            " /PageMode /UseOutlines"@,
        )
    } else {
        Seq::empty()
    }) + utf8(" >>"@)
}

/// References to the first `count` pages.
pub open spec fn kids(count: int) -> Seq<u8>
    decreases count,
{
    if count <= 0 {
        Seq::empty()
    } else if count == 1 {
        reference(""@, 3)
    } else {
        kids(count - 1) + reference(" "@, 2 + count)
    }
}

/// The list of the pages.
pub open spec fn page_tree_object(page_count: int) -> Seq<u8> {
    utf8("<< /Type /Pages /Count "@) + decimal_bytes(page_count as nat) + utf8(" /Kids ["@)
        + kids(page_count) + utf8("] >>"@)
}

/// A page: how large it is, and what it shows.
#[verifier::opaque]
pub open spec fn page_object(page_count: int, text: bool, index: int, image: ImageModel) -> Seq<
    u8,
> {
    utf8("<< /Type /Page"@) + reference(" /Parent "@, 2) + utf8(" /MediaBox [0 0 "@)
        + points_text(image.width() as nat, image.dpi() as nat) + utf8(" "@) + points_text(
        image.height() as nat,
        image.dpi() as nat,
    ) + utf8("] /Resources << /XObject << /Im"@) + decimal_bytes((index + 1) as nat) + reference(
        " "@,
        3 + 2 * page_count + index,
    ) + utf8(" >>"@) + (if text {
        reference(" /Font << /Ftxt "@, 3 + 3 * page_count) + utf8(" >>"@)
    } else {
        Seq::empty()
    }) + reference(" >> /Contents "@, 3 + page_count + index) + utf8(" >>"@)
}

/// What puts the image on the page; behind one in black on white stands white.
#[verifier::opaque]
pub open spec fn image_content(index: int, image: ImageModel) -> Seq<u8> {
    let width = points_text(image.width() as nat, image.dpi() as nat);
    let height = points_text(image.height() as nat, image.dpi() as nat);
    utf8("q\n"@) + (if image is BitonalMask {
        utf8("1 g\n0 0 "@) + width + utf8(" "@) + height + utf8(" re f\n0 g\n"@)
    } else {
        Seq::empty()
    }) + width + utf8(" 0 0 "@) + height + utf8(" 0 0 cm\n/Im"@) + decimal_bytes(
        (index + 1) as nat,
    ) + utf8(" Do\nQ\n"@)
}

/// What a page shows: the image, and the text over it.
pub open spec fn page_content(
    texts: Option<Seq<Seq<SpanModel>>>,
    encoding: Option<Seq<char>>,
    index: int,
    image: ImageModel,
) -> Seq<u8> {
    image_content(index, image) + (if texts is Some && encoding is Some {
        layer_content(texts->0[index], image.dpi() as nat, encoding->0)
    } else {
        Seq::empty()
    })
}

/// A file with the objects of one more page.
pub open spec fn with_page(file: FileModel, image: ImageModel) -> FileModel {
    let (n, i) = (file.page_count as int, file.written as int);
    let page = with_object(
        file.pdf,
        3 + i,
        page_object(n, file.encoding is Some, i, image),
    );
    let content = with_object(
        page,
        3 + n + i,
        stream_bytes(Seq::empty(), page_content(file.texts, file.encoding, i, image)),
    );
    FileModel {
        pdf: with_object(content, 3 + 2 * n + i, image_object(image)),
        written: file.written + 1,
        ..file
    }
}

/// A file with one more page, or why the page cannot be added.
#[verifier::opaque]
pub open spec fn add_page(file: FileModel, image: ImageModel) -> Result<FileModel, Seq<char>> {
    if file.written >= file.page_count {
        Err(too_many_pages(file.page_count))
    } else {
        match image_fault(image) {
            Some(message) => Err(message),
            None => Ok(with_page(file, image)),
        }
    }
}

/// What is said of too many pages.
pub open spec fn too_many_pages(page_count: nat) -> Seq<char> {
    "PDF page iterator produced more than "@ + decimal(page_count) + " pages"@
}

/// A file without pages, or why it cannot be written.
#[verifier::opaque]
pub open spec fn file_start(
    page_count: nat,
    outline: Seq<OutlineModel>,
    texts: Option<Seq<Seq<SpanModel>>>,
) -> Result<FileModel, Seq<char>> {
    let text = has_text(texts);
    let count = outline_count(outline);
    let catalog = with_object(
        empty_file(max_object(page_count as int, text, count) as nat),
        1,
        catalog_object(page_count as int, text, count),
    );
    let file = FileModel {
        pdf: with_object(catalog, 2, page_tree_object(page_count as int)),
        page_count,
        written: 0,
        texts,
        encoding: None,
        outline,
    };
    if page_count == 0 {
        Err("cannot write a PDF with no pages"@)
    } else if texts is Some && texts->0.len() != page_count {
        Err(
            "PDF text layer has "@ + decimal(texts->0.len()) + " pages, expected "@ + decimal(
                page_count,
            ),
        )
    } else if text {
        match encoding_of(texts->0) {
            Err(message) => Err(message),
            Ok(characters) => Ok(FileModel { encoding: Some(characters), ..file }),
        }
    } else {
        Ok(file)
    }
}

/// The font of the text.
pub open spec fn font_object(page_count: int) -> Seq<u8> {
    utf8(
        "<< /Type /Font /Subtype /Type1 /BaseFont /Helvetica /Encoding /WinAnsiEncoding"@,
    ) + reference(" /ToUnicode "@, 4 + 3 * page_count) + utf8(" >>"@)
}

/// A file with the objects of the text that all pages share.
pub open spec fn with_text_objects(file: FileModel) -> PdfModel {
    let n = file.page_count as int;
    match file.encoding {
        Some(characters) => with_object(
            with_object(file.pdf, 3 + 3 * n, font_object(n)),
            4 + 3 * n,
            stream_bytes(Seq::empty(), cmap_of(characters)),
        ),
        None => file.pdf,
    }
}

/// A file with all its objects.
pub open spec fn with_all_objects(file: FileModel) -> PdfModel {
    let pdf = with_text_objects(file);
    if outline_count(file.outline) > 0 {
        with_outline(
            pdf,
            outline_root(file.page_count as int, file.encoding is Some),
            3,
            file.outline,
        )
    } else {
        pdf
    }
}

/// The whole file, or why it is not whole.
#[verifier::opaque]
pub open spec fn file_whole(file: FileModel) -> Result<Seq<u8>, Seq<char>> {
    if file.written != file.page_count {
        Err(
            "PDF page iterator produced "@ + decimal(file.written) + " pages, expected "@
                + decimal(file.page_count),
        )
    } else {
        Ok(finished(with_all_objects(file), 1))
    }
}

/// Why a file of pages that come one after the other cannot be written: the error that came
/// in place of a page, or what is wrong with the file.
#[verifier::ext_equal]
pub enum PageFault<E> {
    Given(E),
    Refused(Seq<char>),
}

/// A file with one more of some pages, or why it cannot be added.
pub open spec fn add_drawn<E>(file: FileModel, page: Result<ImageModel, E>) -> Result<
    FileModel,
    PageFault<E>,
> {
    if file.written >= file.page_count {
        Err(PageFault::Refused(too_many_pages(file.page_count)))
    } else {
        match page {
            Err(error) => Err(PageFault::Given(error)),
            Ok(image) => match add_page(file, image) {
                Err(message) => Err(PageFault::Refused(message)),
                Ok(longer) => Ok(longer),
            },
        }
    }
}

/// A file with the first `count` of some pages, or why one of them cannot be added.
pub open spec fn add_pages<E>(
    file: FileModel,
    pages: Seq<Result<ImageModel, E>>,
    count: int,
) -> Result<FileModel, PageFault<E>>
    decreases count,
{
    if count <= 0 {
        Ok(file)
    } else {
        match add_pages(file, pages, count - 1) {
            Err(fault) => Err(fault),
            Ok(before) => add_drawn(before, pages[count - 1]),
        }
    }
}

/// The file of so many pages, or why it cannot be written.
pub open spec fn pdf_file<E>(
    page_count: nat,
    pages: Seq<Result<ImageModel, E>>,
    outline: Seq<OutlineModel>,
    texts: Option<Seq<Seq<SpanModel>>>,
) -> Result<Seq<u8>, PageFault<E>> {
    match file_start(page_count, outline, texts) {
        Err(message) => Err(PageFault::Refused(message)),
        Ok(start) => match add_pages(start, pages, pages.len() as int) {
            Err(fault) => Err(fault),
            Ok(file) => match file_whole(file) {
                Err(message) => Err(PageFault::Refused(message)),
                Ok(bytes) => Ok(bytes),
            },
        },
    }
}

/// How many of the first `count` pages are drawn: all up to the first that cannot be added.
pub open spec fn drawn<E>(file: FileModel, pages: Seq<Result<ImageModel, E>>, count: int) -> int
    decreases count,
{
    if count <= 0 {
        0
    } else if add_pages(file, pages, count - 1) is Err {
        drawn(file, pages, count - 1)
    } else {
        count
    }
}

/// How many pages are drawn for a file; none, if it cannot be started.
pub open spec fn pages_drawn<E>(
    page_count: nat,
    pages: Seq<Result<ImageModel, E>>,
    outline: Seq<OutlineModel>,
    texts: Option<Seq<Seq<SpanModel>>>,
) -> int {
    match file_start(page_count, outline, texts) {
        Err(_) => 0,
        Ok(start) => drawn(start, pages, pages.len() as int),
    }
}

/// What a file that pages are added to keeps.
pub open spec fn valid(file: FileModel) -> bool {
    let n = file.page_count as int;
    &&& 0 <= file.written <= n
    &&& 0 < n
    &&& 3 * n + 6 + outline_count(file.outline) <= usize::MAX
    &&& file.pdf.offsets.len() == max_object(
        n,
        file.encoding is Some,
        outline_count(file.outline),
    ) + 1
    &&& file.texts is Some ==> file.texts->0.len() == n
    &&& has_text(file.texts) == (file.encoding is Some)
    &&& file.encoding is Some ==> encoding_of(file.texts->0) == Ok::<Seq<char>, Seq<char>>(
        file.encoding->0,
    )
    &&& pages_fit(file.outline, 3)
}

impl PdfObjectIds {
    /// The numbers of the objects of a file.
    pub fn new(page_count: usize, has_text_layer: bool, outline_item_count: usize) -> (ids: Self)
        requires
            3 * page_count + 6 + outline_item_count <= usize::MAX,
        ensures
            ids.catalog == 1,
            ids.pages == 2,
            ids.first_page == 3,
            ids.first_content == 3 + page_count,
            ids.first_image == 3 + 2 * page_count,
            ids.font == 3 + 3 * page_count,
            ids.to_unicode == 4 + 3 * page_count,
            ids.outline_root == outline_root(page_count as int, has_text_layer),
            ids.first_outline_item == outline_root(page_count as int, has_text_layer) + 1,
            ids.max_object == max_object(
                page_count as int,
                has_text_layer,
                outline_item_count as nat,
            ),
    {
        let first_page: usize = 3;
        let first_content: usize = first_page + page_count;
        let first_image: usize = first_content + page_count;
        let font: usize = first_image + page_count;
        let to_unicode: usize = font + 1;
        let text_object_count: usize = if has_text_layer {
            2
        } else {
            0
        };
        let outline_root: usize = first_image + page_count + text_object_count;
        let first_outline_item: usize = outline_root + 1;
        let max_object: usize = if outline_item_count != 0 {
            first_outline_item + outline_item_count - 1
        } else if has_text_layer {
            to_unicode
        } else {
            first_image + page_count - 1
        };
        PdfObjectIds {
            catalog: 1,
            pages: 2,
            first_page,
            first_content,
            first_image,
            font,
            to_unicode,
            outline_root,
            first_outline_item,
            max_object,
        }
    }
}

/// Whether there is any text.
fn has_text_layer(text_pages: &Option<Vec<PdfTextPage>>) -> (text: bool)
    ensures
        text == has_text(texts_view(*text_pages)),
{
    match text_pages {
        None => false,
        Some(pages) => {
            let ghost models = pages_view(pages@);
            let mut index: usize = 0;
            while index < pages.len()
                invariant
                    index <= pages@.len(),
                    models == pages_view(pages@),
                    texts_view(*text_pages) == Some(models),
                    forall|i: int| 0 <= i < index ==> (#[trigger] models[i]).len() == 0,
                decreases pages@.len() - index,
            {
                if pages[index].spans.len() > 0 {
                    assert(models[index as int].len() > 0);
                    assert(texts_view(*text_pages)->0[index as int].len() > 0);
                    return true;
                }
                assert(models[index as int].len() == 0);
                index = index + 1;
            }
            false
        },
    }
}

/// The catalog.
fn catalog(ids: PdfObjectIds, has_outline: bool) -> (object: Vec<u8>)
    ensures
        object@ == utf8("<< /Type /Catalog"@) + reference(" /Pages "@, ids.pages as int) + (if
            has_outline {
            reference(" /Outlines "@, ids.outline_root as int) + utf8(" /PageMode /UseOutlines"@)
        } else {
            Seq::empty()
        }) + utf8(" >>"@),
{
    let mut object: Vec<u8> = Vec::new();
    push_text(&mut object, "<< /Type /Catalog");
    push_reference(&mut object, " /Pages ", ids.pages);
    if has_outline {
        push_reference(&mut object, " /Outlines ", ids.outline_root);
        push_text(&mut object, " /PageMode /UseOutlines");
    }
    push_text(&mut object, " >>");
    assert(object@ =~= utf8("<< /Type /Catalog"@) + reference(" /Pages "@, ids.pages as int) + (if
        has_outline {
        reference(" /Outlines "@, ids.outline_root as int) + utf8(" /PageMode /UseOutlines"@)
    } else {
        Seq::empty()
    }) + utf8(" >>"@));
    object
}

/// The list of the pages.
fn page_tree(page_count: usize) -> (object: Vec<u8>)
    requires
        page_count + 3 <= usize::MAX,
    ensures
        object@ == page_tree_object(page_count as int),
{
    let mut object: Vec<u8> = Vec::new();
    push_text(&mut object, "<< /Type /Pages /Count ");
    push_decimal_bytes(&mut object, page_count as u64);
    push_text(&mut object, " /Kids [");
    let ghost start = object@;
    assert(start =~= utf8("<< /Type /Pages /Count "@) + decimal_bytes(page_count as nat) + utf8(
        " /Kids ["@,
    ));
    let mut index: usize = 0;
    assert(object@ =~= start + kids(0));
    while index < page_count
        invariant
            index <= page_count,
            page_count + 3 <= usize::MAX,
            object@ == start + kids(index as int),
        decreases page_count - index,
    {
        if index == 0 {
            push_reference(&mut object, "", 3);
        } else {
            push_reference(&mut object, " ", 3 + index);
        }
        index = index + 1;
        assert(object@ =~= start + kids(index as int));
    }
    push_text(&mut object, "] >>");
    object
}

/// A page: how large it is, and what it shows.
fn page(ids: PdfObjectIds, index: usize, image: &PdfPageImage, text: bool, page_count: usize) -> (
    object: Vec<u8>)
    requires
        index < page_count,
        3 * page_count + 6 <= usize::MAX,
        ids.pages == 2,
        ids.first_content == 3 + page_count,
        ids.first_image == 3 + 2 * page_count,
        ids.font == 3 + 3 * page_count,
    ensures
        object@ == page_object(page_count as int, text, index as int, image@),
{
    reveal(page_object);
    let mut object: Vec<u8> = Vec::new();
    push_text(&mut object, "<< /Type /Page");
    assert(object@ =~= utf8("<< /Type /Page"@));
    push_reference(&mut object, " /Parent ", ids.pages);
    push_text(&mut object, " /MediaBox [0 0 ");
    push_bytes(&mut object, points_from_pixels(image.width(), image.dpi()).as_slice());
    push_text(&mut object, " ");
    push_bytes(&mut object, points_from_pixels(image.height(), image.dpi()).as_slice());
    push_text(&mut object, "] /Resources << /XObject << /Im");
    push_decimal_bytes(&mut object, (index + 1) as u64);
    push_reference(&mut object, " ", ids.first_image + index);
    push_text(&mut object, " >>");
    let ghost start = object@;
    if text {
        push_reference(&mut object, " /Font << /Ftxt ", ids.font);
        push_text(&mut object, " >>");
    }
    assert(object@ =~= start + if text {
        reference(" /Font << /Ftxt "@, 3 + 3 * page_count) + utf8(" >>"@)
    } else {
        Seq::empty()
    });
    push_reference(&mut object, " >> /Contents ", ids.first_content + index);
    push_text(&mut object, " >>");
    object
}

/// What puts the image on the page; behind one in black on white stands white.
fn image_commands(index: usize, image: &PdfPageImage) -> (content: Vec<u8>)
    requires
        index < usize::MAX,
    ensures
        content@ == image_content(index as int, image@),
{
    reveal(image_content);
    let width: Vec<u8> = points_from_pixels(image.width(), image.dpi());
    let height: Vec<u8> = points_from_pixels(image.height(), image.dpi());
    let mut content: Vec<u8> = Vec::new();
    push_text(&mut content, "q\n");
    let ghost start = content@;
    assert(start =~= utf8("q\n"@));
    if image.is_bitonal_mask() {
        push_text(&mut content, "1 g\n0 0 ");
        push_bytes(&mut content, width.as_slice());
        push_text(&mut content, " ");
        push_bytes(&mut content, height.as_slice());
        push_text(&mut content, " re f\n0 g\n");
    }
    assert(content@ =~= start + if image@ is BitonalMask {
        utf8("1 g\n0 0 "@) + width@ + utf8(" "@) + height@ + utf8(" re f\n0 g\n"@)
    } else {
        Seq::empty()
    });
    push_bytes(&mut content, width.as_slice());
    push_text(&mut content, " 0 0 ");
    push_bytes(&mut content, height.as_slice());
    push_text(&mut content, " 0 0 cm\n/Im");
    push_decimal_bytes(&mut content, (index + 1) as u64);
    push_text(&mut content, " Do\nQ\n");
    content
}

/// An error about a number of pages.
fn page_count_error(before: &str, count: usize, after: &str) -> (error: PdfError)
    ensures
        error@ == before@ + decimal(count as nat) + after@,
{
    let mut message: String = text_of(before);
    push_decimal(&mut message, count as u64);
    message.append(after);
    PdfError(message)
}

/// An error about a number of pages where another was expected.
fn expected_pages_error(before: &str, count: usize, expected: usize) -> (error: PdfError)
    ensures
        error@ == before@ + decimal(count as nat) + " pages, expected "@ + decimal(
            expected as nat,
        ),
{
    let mut error: PdfError = page_count_error(before, count, " pages, expected ");
    push_decimal(&mut error.0, expected as u64);
    error
}

impl PdfFileWriter {
    /// The numbers of the objects are those of the file.
    pub open spec fn wf(&self) -> bool {
        let n = self.page_count as int;
        &&& valid(self@)
        &&& self.ids.catalog == 1
        &&& self.ids.pages == 2
        &&& self.ids.first_page == 3
        &&& self.ids.first_content == 3 + n
        &&& self.ids.first_image == 3 + 2 * n
        &&& self.ids.font == 3 + 3 * n
        &&& self.ids.to_unicode == 4 + 3 * n
        &&& self.ids.outline_root == outline_root(n, self.encoding is Some)
    }

    /// Starts a file of so many pages.
    pub fn start(
        page_count: usize,
        bookmarks: Vec<PdfBookmark>,
        text_pages: Option<Vec<PdfTextPage>>,
    ) -> (file: PdfResult<Self>)
        requires
            3 * page_count + 6 + outline_count(outline_models(bookmarks@)) <= usize::MAX,
            pages_fit(outline_models(bookmarks@), 3),
        ensures
            match file_start(
                page_count as nat,
                outline_models(bookmarks@),
                texts_view(text_pages),
            ) {
                Ok(expected) => file is Ok && file->Ok_0@ == expected && file->Ok_0.wf(),
                Err(message) => file is Err && file->Err_0@ == message,
            },
    {
        reveal(file_start);
        if page_count == 0 {
            return Err(PdfError::new("cannot write a PDF with no pages"));
        }
        let ghost texts = texts_view(text_pages);
        let text: bool = has_text_layer(&text_pages);
        let encoding: Option<PdfTextEncoding> = match &text_pages {
            None => None,
            Some(pages) => {
                if pages.len() != page_count {
                    return Err(
                        expected_pages_error("PDF text layer has ", pages.len(), page_count),
                    );
                }
                if text {
                    match PdfTextEncoding::from_pages(pages.as_slice()) {
                        Err(error) => {
                            return Err(error);
                        },
                        Ok(encoding) => Some(encoding),
                    }
                } else {
                    None
                }
            },
        };
        let outline_item_count: usize = count_pdf_bookmarks(bookmarks.as_slice());
        let ids: PdfObjectIds = PdfObjectIds::new(page_count, text, outline_item_count);
        let mut pdf: PdfObjectWriter = PdfObjectWriter::new(ids.max_object);
        let catalog_bytes: Vec<u8> = catalog(ids, outline_item_count != 0);
        assert(catalog_bytes@ == catalog_object(
            page_count as int,
            text,
            outline_item_count as nat,
        ));
        match pdf.write_object(ids.catalog, catalog_bytes.as_slice()) {
            Err(error) => {
                return Err(error);
            },
            Ok(_) => {},
        }
        match pdf.write_object(ids.pages, page_tree(page_count).as_slice()) {
            Err(error) => {
                return Err(error);
            },
            Ok(_) => {},
        }
        Ok(
            PdfFileWriter {
                pdf,
                ids,
                page_count,
                written: 0,
                text_pages,
                encoding,
                bookmarks,
            },
        )
    }

    /// Adds a page.
    pub fn add_page(&mut self, image: &PdfPageImage) -> (done: PdfResult<()>)
        requires
            old(self).wf(),
            image@ is BitonalMask ==> image@.width() < usize::MAX,
        ensures
            match add_page(old(self)@, image@) {
                Ok(expected) => done is Ok && final(self)@ == expected && final(self).wf(),
                Err(message) => done is Err && done->Err_0@ == message,
            },
    {
        match self.encode_image(image) {
            Err(error) => Err(error),
            Ok(object) => self.write_page(image, object.as_slice()),
        }
    }

    /// Makes the object of the image of the next page.
    pub fn encode_image(&self, image: &PdfPageImage) -> (object: PdfResult<Vec<u8>>)
        requires
            self.wf(),
            image@ is BitonalMask ==> image@.width() < usize::MAX,
        ensures
            match add_page(self@, image@) {
                Ok(_) => object is Ok && object->Ok_0@ == image_object(image@),
                Err(message) => object is Err && object->Err_0@ == message,
            },
    {
        reveal(add_page);
        if self.written >= self.page_count {
            return Err(
                page_count_error(
                    "PDF page iterator produced more than ",
                    self.page_count,
                    " pages",
                ),
            );
        }
        match validate_page_image(image) {
            Err(error) => Err(error),
            Ok(_) => Ok(image.image_stream_object()),
        }
    }

    /// Writes the next page, the object of its image given.
    pub fn write_page(&mut self, image: &PdfPageImage, object: &[u8]) -> (done: PdfResult<()>)
        requires
            old(self).wf(),
            add_page(old(self)@, image@) is Ok,
            object@ == image_object(image@),
        ensures
            done is Ok,
            add_page(old(self)@, image@) == Ok::<FileModel, Seq<char>>(final(self)@),
            final(self).wf(),
    {
        reveal(add_page);
        let ghost before = self@;
        let index: usize = self.written;
        let text: bool = self.encoding.is_some();
        let page_bytes: Vec<u8> = page(self.ids, index, image, text, self.page_count);
        match self.pdf.write_object(self.ids.first_page + index, page_bytes.as_slice()) {
            Err(error) => {
                return Err(error);
            },
            Ok(_) => {},
        }
        let mut content: Vec<u8> = image_commands(index, image);
        match (&self.text_pages, &self.encoding) {
            (Some(pages), Some(encoding)) => {
                let text_page: &PdfTextPage = &pages[index];
                proof {
                    let models = pages_view(pages@);
                    assert(models[index as int] == spans_view(text_page.spans@));
                    lemma_pages_have_codes(models, index as int);
                }
                append_pdf_text_layer(&mut content, text_page, image.dpi(), encoding);
            },
            _ => {},
        }
        assert(content@ =~= page_content(before.texts, before.encoding, index as int, image@));
        let nothing: [u8; 0] = [];
        assert(nothing@ =~= Seq::<u8>::empty());
        let content_stream: Vec<u8> = stream_object(nothing.as_slice(), content.as_slice());
        match self.pdf.write_object(self.ids.first_content + index, content_stream.as_slice()) {
            Err(error) => {
                return Err(error);
            },
            Ok(_) => {},
        }
        match self.pdf.write_object(self.ids.first_image + index, object) {
            Err(error) => {
                return Err(error);
            },
            Ok(_) => {},
        }
        self.written = index + 1;
        Ok(())
    }

    /// Finishes the file.
    pub fn finish(self) -> (file: PdfResult<Vec<u8>>)
        requires
            self.wf(),
        ensures
            match file_whole(self@) {
                Ok(expected) => file is Ok && file->Ok_0@ == expected,
                Err(message) => file is Err && file->Err_0@ == message,
            },
    {
        reveal(file_whole);
        let ghost model = self@;
        if self.written != self.page_count {
            return Err(
                expected_pages_error(
                    "PDF page iterator produced ",
                    self.written,
                    self.page_count,
                ),
            );
        }
        let mut pdf: PdfObjectWriter = self.pdf;
        let ids: PdfObjectIds = self.ids;
        match &self.encoding {
            None => {},
            Some(encoding) => {
                let mut font: Vec<u8> = Vec::new();
                push_text(
                    &mut font,
                    "<< /Type /Font /Subtype /Type1 /BaseFont /Helvetica /Encoding /WinAnsiEncoding",
                );
                push_reference(&mut font, " /ToUnicode ", ids.to_unicode);
                push_text(&mut font, " >>");
                assert(font@ =~= font_object(model.page_count as int));
                match pdf.write_object(ids.font, font.as_slice()) {
                    Err(error) => {
                        return Err(error);
                    },
                    Ok(_) => {},
                }
                let nothing: [u8; 0] = [];
                assert(nothing@ =~= Seq::<u8>::empty());
                let cmap: Vec<u8> = stream_object(
                    nothing.as_slice(),
                    pdf_to_unicode_cmap(encoding).as_slice(),
                );
                match pdf.write_object(ids.to_unicode, cmap.as_slice()) {
                    Err(error) => {
                        return Err(error);
                    },
                    Ok(_) => {},
                }
            },
        }
        assert(pdf@ == with_text_objects(model));
        proof {
            lemma_outline_models(self.bookmarks@);
        }
        if self.bookmarks.len() > 0 {
            match write_pdf_outlines(
                &mut pdf,
                ids.outline_root,
                ids.first_page,
                self.bookmarks.as_slice(),
            ) {
                Err(error) => {
                    return Err(error);
                },
                Ok(_) => {},
            }
        }
        Ok(pdf.finish(ids.catalog))
    }
}

/// A page that may be there, by its values.
pub open spec fn page_result<E>(page: Result<PdfPageImage, E>) -> Result<ImageModel, E> {
    match page {
        Ok(image) => Ok(image@),
        Err(error) => Err(error),
    }
}

/// The pages of a list by their values.
pub open spec fn page_results<E>(pages: Seq<Result<PdfPageImage, E>>) -> Seq<
    Result<ImageModel, E>,
> {
    Seq::new(pages.len(), |i: int| page_result(pages[i]))
}

/// Pages that are there, by their values.
pub open spec fn page_images(pages: Seq<PdfPageImage>) -> Seq<Result<ImageModel, PdfError>> {
    Seq::new(pages.len(), |i: int| Ok(pages[i]@))
}

/// A page that may have been rendered, by the values of its image.
pub open spec fn render_result<E>(render: Result<PartialPageRender, E>) -> Result<ImageModel, E> {
    match render {
        Ok(render) => Ok(
            image_of(
                render.bitmap@,
                render.iw44_layers@.len(),
                mask_images(render.bitonal_masks@),
            ),
        ),
        Err(error) => Err(error),
    }
}

/// Pages that were rendered, by the values of their images.
pub open spec fn render_results<E>(renders: Seq<Result<PartialPageRender, E>>) -> Seq<
    Result<ImageModel, E>,
> {
    Seq::new(renders.len(), |i: int| render_result(renders[i]))
}

/// Bitmaps by the values of their images.
pub open spec fn bitmap_images(bitmaps: Seq<PageBitmap>) -> Seq<Result<ImageModel, PdfError>> {
    Seq::new(
        bitmaps.len(),
        |i: int|
            Ok(
                ImageModel::Rgb8 {
                    width: bitmaps[i].width,
                    height: bitmaps[i].height,
                    dpi: bitmaps[i].dpi,
                    pixels: bitmaps[i].pixels@,
                },
            ),
    )
}

/// What is wrong with the first of some bitmaps that cannot be a page, if there is one.
pub open spec fn first_fault(bitmaps: Seq<PageBitmap>) -> Option<Seq<char>>
    decreases bitmaps.len(),
{
    if bitmaps.len() == 0 {
        None
    } else {
        match first_fault(bitmaps.drop_last()) {
            Some(message) => Some(message),
            None => bitmap_fault(bitmaps.last()@),
        }
    }
}

/// A page in black on white is narrow enough to be encoded.
pub open spec fn narrow<E>(page: Result<ImageModel, E>) -> bool {
    page matches Ok(image) ==> image is BitonalMask ==> image.width() < usize::MAX
}

/// Pages in black on white are narrow enough to be encoded.
pub open spec fn all_narrow<E>(pages: Seq<Result<ImageModel, E>>) -> bool {
    forall|i: int| 0 <= i < pages.len() ==> narrow(#[trigger] pages[i])
}

/// Whether the outcome of writing is the given one.
pub open spec fn pdf_agrees(
    result: PdfResult<Vec<u8>>,
    expected: Result<Seq<u8>, PageFault<PdfError>>,
) -> bool {
    match expected {
        Ok(bytes) => result is Ok && result->Ok_0@ == bytes,
        Err(PageFault::Given(error)) => result == Err::<Vec<u8>, PdfError>(error),
        Err(PageFault::Refused(message)) => result is Err && result->Err_0@ == message,
    }
}

/// Whether an error is made of that of a PDF file with the given message.
pub open spec fn raised<E: From<PdfError>>(error: E, message: Seq<char>) -> bool {
    exists|cause: PdfError|
        cause@ == message && #[trigger] call_ensures(
            <E as From<PdfError>>::from,
            (cause,),
            error,
        )
}

/// Makes an error of that of a PDF file.
fn raise<E: From<PdfError>>(cause: PdfError) -> (error: E)
    ensures
        raised(error, cause@),
{
    E::from(cause)
}

/// Whether the outcome of writing is the given one, with errors of the caller.
pub open spec fn written_as<E: From<PdfError>>(
    result: Result<Vec<u8>, E>,
    expected: Result<Seq<u8>, PageFault<E>>,
) -> bool {
    match expected {
        Ok(bytes) => result is Ok && result->Ok_0@ == bytes,
        Err(PageFault::Given(error)) => result == Err::<Vec<u8>, E>(error),
        Err(PageFault::Refused(message)) => result is Err && raised(result->Err_0, message),
    }
}

proof fn lemma_add_pages_fault<E>(
    file: FileModel,
    pages: Seq<Result<ImageModel, E>>,
    count: int,
    total: int,
)
    requires
        0 <= count <= total,
        add_pages(file, pages, count) is Err,
    ensures
        add_pages(file, pages, total) == add_pages(file, pages, count),
        drawn(file, pages, total) == drawn(file, pages, count),
    decreases total - count,
{
    if count < total {
        lemma_add_pages_fault(file, pages, count, total - 1);
    }
}

proof fn lemma_started(
    page_count: nat,
    outline: Seq<OutlineModel>,
    texts: Option<Seq<Seq<SpanModel>>>,
)
    ensures
        file_start(page_count, outline, texts) matches Ok(start) ==> start.written == 0
            && start.page_count == page_count,
{
    reveal(file_start);
}

/// What is left of a list after one more.
proof fn lemma_skip<T>(list: Seq<T>, count: int)
    ensures
        0 <= count < list.len() ==> list.skip(count).drop_first() == list.skip(count + 1)
            && list.skip(count)[0] == list[count],
{
    if 0 <= count < list.len() {
        assert(list.skip(count).drop_first() =~= list.skip(count + 1));
    }
}

/// Adds a page that may be there, where there is room for it.
fn add_drawn_page<E: From<PdfError>>(
    file: &mut PdfFileWriter,
    page: Result<PdfPageImage, E>,
) -> (done: Result<(), E>)
    requires
        old(file).wf(),
        narrow(page_result(page)),
    ensures
        match add_drawn(old(file)@, page_result(page)) {
            Ok(expected) => done is Ok && final(file)@ == expected && final(file).wf(),
            Err(PageFault::Given(error)) => done == Err::<(), E>(error),
            Err(PageFault::Refused(message)) => done is Err && raised(done->Err_0, message),
        },
{
    if file.written >= file.page_count {
        return Err(
            raise(
                page_count_error(
                    "PDF page iterator produced more than ",
                    file.page_count,
                    " pages",
                ),
            ),
        );
    }
    match page {
        Err(error) => Err(error),
        Ok(image) => match file.add_page(&image) {
            Err(error) => Err(raise(error)),
            Ok(_) => Ok(()),
        },
    }
}

/// Writes a PDF file of so many pages that are drawn one after the other, with an outline and
/// text. No page is drawn behind one that cannot be added.
pub fn write_drawn_page_images<E: From<PdfError>, I: Iterator<Item = Result<PdfPageImage, E>>>(
    page_count: usize,
    pages: &mut I,
    bookmarks: Vec<PdfBookmark>,
    text_pages: Option<Vec<PdfTextPage>>,
) -> (written: Result<Vec<u8>, E>)
    requires
        (*old(pages)).obeys_prophetic_iter_laws(),
        3 * page_count + 6 + outline_count(outline_models(bookmarks@)) <= usize::MAX,
        pages_fit(outline_models(bookmarks@), 3),
        all_narrow(page_results((*old(pages)).remaining())),
    ensures
        written_as(
            written,
            pdf_file(
                page_count as nat,
                page_results((*old(pages)).remaining()),
                outline_models(bookmarks@),
                texts_view(text_pages),
            ),
        ),
        (*final(pages)).remaining() == (*old(pages)).remaining().skip(
            pages_drawn(
                page_count as nat,
                page_results((*old(pages)).remaining()),
                outline_models(bookmarks@),
                texts_view(text_pages),
            ),
        ),
{
    assert((*pages).remaining().skip(0) =~= (*pages).remaining());
    let ghost outline = outline_models(bookmarks@);
    let ghost texts = texts_view(text_pages);
    let mut file: PdfFileWriter = match PdfFileWriter::start(page_count, bookmarks, text_pages) {
        Err(error) => {
            return Err(raise(error));
        },
        Ok(file) => file,
    };
    let ghost start = file@;
    proof {
        lemma_started(page_count as nat, outline, texts);
    }
    let mut index: usize = 0;
    loop
        invariant
            index <= page_count,
            file.wf(),
            file@.written == index,
            file@.page_count == page_count,
            file_start(page_count as nat, outline, texts) == Ok::<FileModel, Seq<char>>(start),
            (*pages).obeys_prophetic_iter_laws(),
            index <= (*old(pages)).remaining().len(),
            (*pages).remaining() == (*old(pages)).remaining().skip(index as int),
            all_narrow(page_results((*old(pages)).remaining())),
            add_pages(start, page_results((*old(pages)).remaining()), index as int) == Ok::<
                FileModel,
                PageFault<E>,
            >(file@),
            outline == outline_models(bookmarks@),
            texts == texts_view(text_pages),
        decreases page_count - index,
    {
        proof {
            lemma_skip((*old(pages)).remaining(), index as int);
        }
        match pages.next() {
            None => {
                proof {
                    lemma_drawn_so_far(
                        start,
                        page_results((*old(pages)).remaining()),
                        index as int,
                    );
                }
                return match file.finish() {
                    Err(error) => Err(raise(error)),
                    Ok(bytes) => Ok(bytes),
                };
            },
            Some(page) => {
                assert(page_result(page) == page_results((*old(pages)).remaining())[index as int]);
                match add_drawn_page(&mut file, page) {
                    Err(error) => {
                        proof {
                            lemma_add_pages_fault(
                                start,
                                page_results((*old(pages)).remaining()),
                                index + 1,
                                (*old(pages)).remaining().len() as int,
                            );
                        }
                        return Err(error);
                    },
                    Ok(_) => {},
                }
                proof {
                    reveal(add_page);
                }
            },
        }
        index = index + 1;
    }
}

/// All pages that can be added are drawn.
proof fn lemma_drawn_so_far<E>(file: FileModel, pages: Seq<Result<ImageModel, E>>, count: int)
    requires
        0 <= count,
        add_pages(file, pages, count) is Ok,
    ensures
        drawn(file, pages, count) == count,
{
}

proof fn lemma_drawn_at_most<E>(file: FileModel, pages: Seq<Result<ImageModel, E>>, count: int)
    requires
        file.written == 0,
        0 <= count,
    ensures
        add_pages(file, pages, count) matches Ok(longer) ==> longer.written == count
            && longer.page_count == file.page_count && count <= file.page_count,
        drawn(file, pages, count) <= file.page_count + 1,
    decreases count,
{
    reveal(add_page);
    if count > 0 {
        lemma_drawn_at_most(file, pages, count - 1);
    }
}

/// No more pages are drawn for a file than it has, and one more to see that there are no
/// more.
pub proof fn lemma_few_pages_are_drawn<E>(
    page_count: nat,
    pages: Seq<Result<ImageModel, E>>,
    outline: Seq<OutlineModel>,
    texts: Option<Seq<Seq<SpanModel>>>,
)
    ensures
        0 <= pages_drawn(page_count, pages, outline, texts) <= page_count + 1,
        pages_drawn(page_count, pages, outline, texts) <= pages.len(),
{
    lemma_started(page_count, outline, texts);
    match file_start(page_count, outline, texts) {
        Err(_) => {},
        Ok(start) => {
            lemma_drawn_at_most(start, pages, pages.len() as int);
            lemma_drawn_bounds(start, pages, pages.len() as int);
        },
    }
}

proof fn lemma_drawn_bounds<E>(file: FileModel, pages: Seq<Result<ImageModel, E>>, count: int)
    requires
        0 <= count,
    ensures
        0 <= drawn(file, pages, count) <= count,
    decreases count,
{
    if count > 0 {
        lemma_drawn_bounds(file, pages, count - 1);
    }
}

/// Writes a PDF file of so many pages, with an outline and text.
pub fn write_page_image_pdf_iter_with_bookmarks_and_text<
    E: From<PdfError>,
    I: Iterator<Item = Result<PdfPageImage, E>>,
>(
    page_count: usize,
    pages: I,
    bookmarks: Vec<PdfBookmark>,
    text_pages: Option<Vec<PdfTextPage>>,
) -> (written: Result<Vec<u8>, E>)
    requires
        pages.obeys_prophetic_iter_laws(),
        3 * page_count + 6 + outline_count(outline_models(bookmarks@)) <= usize::MAX,
        pages_fit(outline_models(bookmarks@), 3),
        all_narrow(page_results(pages.remaining())),
    ensures
        written_as(
            written,
            pdf_file(
                page_count as nat,
                page_results(pages.remaining()),
                outline_models(bookmarks@),
                texts_view(text_pages),
            ),
        ),
{
    let mut pages = pages;
    write_drawn_page_images(page_count, &mut pages, bookmarks, text_pages)
}

/// Writes a PDF file of so many pages, with an outline.
pub fn write_page_image_pdf_iter_with_bookmarks<
    E: From<PdfError>,
    I: Iterator<Item = Result<PdfPageImage, E>>,
>(
    page_count: usize,
    pages: I,
    bookmarks: Vec<PdfBookmark>,
) -> (written: Result<Vec<u8>, E>)
    requires
        pages.obeys_prophetic_iter_laws(),
        3 * page_count + 6 + outline_count(outline_models(bookmarks@)) <= usize::MAX,
        pages_fit(outline_models(bookmarks@), 3),
        all_narrow(page_results(pages.remaining())),
    ensures
        written_as(
            written,
            pdf_file(
                page_count as nat,
                page_results(pages.remaining()),
                outline_models(bookmarks@),
                None,
            ),
        ),
{
    write_page_image_pdf_iter_with_bookmarks_and_text(page_count, pages, bookmarks, None)
}

/// Writes a PDF file of so many pages.
pub fn write_page_image_pdf_iter<E: From<PdfError>, I: Iterator<Item = Result<PdfPageImage, E>>>(
    page_count: usize,
    pages: I,
) -> (written: Result<Vec<u8>, E>)
    requires
        pages.obeys_prophetic_iter_laws(),
        3 * page_count + 6 <= usize::MAX,
        all_narrow(page_results(pages.remaining())),
    ensures
        written_as(
            written,
            pdf_file(page_count as nat, page_results(pages.remaining()), Seq::empty(), None),
        ),
{
    let nothing: Vec<PdfBookmark> = Vec::new();
    assert(outline_models(nothing@) =~= Seq::<OutlineModel>::empty());
    write_page_image_pdf_iter_with_bookmarks_and_text(page_count, pages, nothing, None)
}

/// Writes a PDF file of pages.
pub fn write_page_image_pdf(pages: &[PdfPageImage]) -> (written: PdfResult<Vec<u8>>)
    requires
        3 * pages@.len() + 6 <= usize::MAX,
        all_narrow(page_images(pages@)),
    ensures
        pdf_agrees(
            written,
            pdf_file(pages@.len(), page_images(pages@), Seq::empty(), None),
        ),
{
    let nothing: Vec<PdfBookmark> = Vec::new();
    assert(outline_models(nothing@) =~= Seq::<OutlineModel>::empty());
    let ghost models = page_images(pages@);
    let mut file: PdfFileWriter = match PdfFileWriter::start(
        pages.len(),
        nothing,
        None,
    ) {
        Err(error) => {
            return Err(error);
        },
        Ok(file) => file,
    };
    let ghost start = file@;
    proof {
        lemma_started(pages@.len(), Seq::empty(), None);
    }
    let mut index: usize = 0;
    while index < pages.len()
        invariant
            index <= pages@.len(),
            models == page_images(pages@),
            all_narrow(models),
            file.wf(),
            add_pages(start, models, index as int) == Ok::<FileModel, PageFault<PdfError>>(file@),
            file_start(pages@.len(), Seq::empty(), None) == Ok::<FileModel, Seq<char>>(start),
            start.page_count == pages@.len(),
            file@.page_count == pages@.len(),
            file@.written == index,
        decreases pages@.len() - index,
    {
        assert(narrow(models[index as int]));
        match file.add_page(&pages[index]) {
            Err(error) => {
                proof {
                    lemma_add_pages_fault(start, models, index + 1, models.len() as int);
                }
                return Err(error);
            },
            Ok(_) => {},
        }
        proof {
            reveal(add_page);
        }
        index = index + 1;
    }
    file.finish()
}

/// The masks of a page that was rendered have the bits that their sizes ask for.
pub open spec fn render_wf<E>(render: Result<PartialPageRender, E>) -> bool {
    render matches Ok(render) ==> forall|k: int|
        0 <= k < render.bitonal_masks@.len() ==> (#[trigger] render.bitonal_masks@[k]).1.mask.wf()
}

/// The masks of pages that were rendered have the bits that their sizes ask for.
pub open spec fn renders_wf<E>(renders: Seq<Result<PartialPageRender, E>>) -> bool {
    forall|i: int| 0 <= i < renders.len() ==> render_wf(#[trigger] renders[i])
}

/// Writes a PDF file of so many pages that were rendered and are drawn one after the other,
/// with an outline. No page is drawn behind one that cannot be added.
pub fn write_drawn_renders<E: From<PdfError>, I: Iterator<Item = Result<PartialPageRender, E>>>(
    page_count: usize,
    renders: &mut I,
    bookmarks: Vec<PdfBookmark>,
) -> (written: Result<Vec<u8>, E>)
    requires
        (*old(renders)).obeys_prophetic_iter_laws(),
        3 * page_count + 6 + outline_count(outline_models(bookmarks@)) <= usize::MAX,
        pages_fit(outline_models(bookmarks@), 3),
        all_narrow(render_results((*old(renders)).remaining())),
        renders_wf((*old(renders)).remaining()),
    ensures
        written_as(
            written,
            pdf_file(
                page_count as nat,
                render_results((*old(renders)).remaining()),
                outline_models(bookmarks@),
                None,
            ),
        ),
        (*final(renders)).remaining() == (*old(renders)).remaining().skip(
            pages_drawn(
                page_count as nat,
                render_results((*old(renders)).remaining()),
                outline_models(bookmarks@),
                None,
            ),
        ),
{
    assert((*renders).remaining().skip(0) =~= (*renders).remaining());
    let ghost outline = outline_models(bookmarks@);
    let mut file: PdfFileWriter = match PdfFileWriter::start(page_count, bookmarks, None) {
        Err(error) => {
            return Err(raise(error));
        },
        Ok(file) => file,
    };
    let ghost start = file@;
    proof {
        lemma_started(page_count as nat, outline, None);
    }
    let mut index: usize = 0;
    loop
        invariant
            index <= page_count,
            file.wf(),
            file@.written == index,
            file@.page_count == page_count,
            file_start(page_count as nat, outline, None) == Ok::<FileModel, Seq<char>>(start),
            (*renders).obeys_prophetic_iter_laws(),
            index <= (*old(renders)).remaining().len(),
            (*renders).remaining() == (*old(renders)).remaining().skip(index as int),
            all_narrow(render_results((*old(renders)).remaining())),
            renders_wf((*old(renders)).remaining()),
            add_pages(start, render_results((*old(renders)).remaining()), index as int) == Ok::<
                FileModel,
                PageFault<E>,
            >(file@),
            outline == outline_models(bookmarks@),
        decreases page_count - index,
    {
        proof {
            lemma_skip((*old(renders)).remaining(), index as int);
        }
        match renders.next() {
            None => {
                proof {
                    lemma_drawn_so_far(
                        start,
                        render_results((*old(renders)).remaining()),
                        index as int,
                    );
                }
                return match file.finish() {
                    Err(error) => Err(raise(error)),
                    Ok(bytes) => Ok(bytes),
                };
            },
            Some(render) => {
                assert(render_result(render) == render_results(
                    (*old(renders)).remaining(),
                )[index as int]);
                assert(render_wf(render));
                let page: Result<PdfPageImage, E> = match render {
                    Ok(render) => Ok(PdfPageImage::from_render(&render)),
                    Err(error) => Err(error),
                };
                match add_drawn_page(&mut file, page) {
                    Err(error) => {
                        proof {
                            lemma_add_pages_fault(
                                start,
                                render_results((*old(renders)).remaining()),
                                index + 1,
                                (*old(renders)).remaining().len() as int,
                            );
                        }
                        return Err(error);
                    },
                    Ok(_) => {},
                }
                proof {
                    reveal(add_page);
                }
            },
        }
        index = index + 1;
    }
}

/// Writes a PDF file of so many pages that were rendered, with an outline.
pub fn write_rendered_pages_pdf_iter_with_bookmarks<
    E: From<PdfError>,
    I: Iterator<Item = Result<PartialPageRender, E>>,
>(
    page_count: usize,
    renders: I,
    bookmarks: Vec<PdfBookmark>,
) -> (written: Result<Vec<u8>, E>)
    requires
        renders.obeys_prophetic_iter_laws(),
        3 * page_count + 6 + outline_count(outline_models(bookmarks@)) <= usize::MAX,
        pages_fit(outline_models(bookmarks@), 3),
        all_narrow(render_results(renders.remaining())),
        renders_wf(renders.remaining()),
    ensures
        written_as(
            written,
            pdf_file(
                page_count as nat,
                render_results(renders.remaining()),
                outline_models(bookmarks@),
                None,
            ),
        ),
{
    let mut renders = renders;
    write_drawn_renders(page_count, &mut renders, bookmarks)
}

/// Writes a PDF file of so many pages that were rendered.
pub fn write_rendered_pages_pdf_iter<
    E: From<PdfError>,
    I: Iterator<Item = Result<PartialPageRender, E>>,
>(page_count: usize, renders: I) -> (written: Result<Vec<u8>, E>)
    requires
        renders.obeys_prophetic_iter_laws(),
        3 * page_count + 6 <= usize::MAX,
        all_narrow(render_results(renders.remaining())),
        renders_wf(renders.remaining()),
    ensures
        written_as(
            written,
            pdf_file(page_count as nat, render_results(renders.remaining()), Seq::empty(), None),
        ),
{
    let nothing: Vec<PdfBookmark> = Vec::new();
    assert(outline_models(nothing@) =~= Seq::<OutlineModel>::empty());
    write_rendered_pages_pdf_iter_with_bookmarks(page_count, renders, nothing)
}

/// Writes a PDF file of bitmaps.
pub fn write_bitmap_pdf(bitmaps: &[PageBitmap]) -> (written: PdfResult<Vec<u8>>)
    requires
        3 * bitmaps@.len() + 6 <= usize::MAX,
    ensures
        pdf_agrees(
            written,
            match first_fault(bitmaps@) {
                Some(message) => Err(PageFault::Refused(message)),
                None => pdf_file(bitmaps@.len(), bitmap_images(bitmaps@), Seq::empty(), None),
            },
        ),
{
    let mut pages: Vec<PdfPageImage> = Vec::new();
    let mut index: usize = 0;
    assert(bitmaps@.take(0) =~= Seq::<PageBitmap>::empty());
    while index < bitmaps.len()
        invariant
            index <= bitmaps@.len(),
            pages@.len() == index,
            first_fault(bitmaps@.take(index as int)) is None,
            forall|i: int|
                0 <= i < index ==> #[trigger] page_images(pages@)[i] == bitmap_images(
                    bitmaps@,
                )[i],
        decreases bitmaps@.len() - index,
    {
        let ghost before = pages@;
        let bitmap: &PageBitmap = &bitmaps[index];
        assert(bitmaps@.take(index + 1).drop_last() =~= bitmaps@.take(index as int));
        match validate_bitmap(bitmap) {
            Err(error) => {
                proof {
                    lemma_first_fault(bitmaps@, index + 1);
                }
                return Err(error);
            },
            Ok(_) => {},
        }
        let mut pixels: Vec<u8> = Vec::new();
        push_bytes(&mut pixels, bitmap.pixels.as_slice());
        assert(pixels@ =~= bitmap.pixels@);
        pages.push(
            PdfPageImage::Rgb8 {
                width: bitmap.width,
                height: bitmap.height,
                dpi: bitmap.dpi,
                pixels,
            },
        );
        assert forall|i: int| 0 <= i <= index implies #[trigger] page_images(pages@)[i]
            == bitmap_images(bitmaps@)[i] by {
            if i < index {
                assert(page_images(before)[i] == bitmap_images(bitmaps@)[i]);
            }
        }
        index = index + 1;
    }
    assert(bitmaps@.take(index as int) =~= bitmaps@);
    assert(page_images(pages@) =~= bitmap_images(bitmaps@));
    write_page_image_pdf(pages.as_slice())
}

proof fn lemma_first_fault(bitmaps: Seq<PageBitmap>, count: int)
    requires
        0 <= count <= bitmaps.len(),
        first_fault(bitmaps.take(count)) is Some,
    ensures
        first_fault(bitmaps) == first_fault(bitmaps.take(count)),
    decreases bitmaps.len() - count,
{
    if count == bitmaps.len() {
        assert(bitmaps.take(count) =~= bitmaps);
    } else {
        assert(bitmaps.take(count + 1).drop_last() =~= bitmaps.take(count));
        lemma_first_fault(bitmaps, count + 1);
    }
}

/// Every number has an object, and the table says where it stands.
pub open spec fn complete(pdf: PdfModel) -> bool {
    &&& consistent(pdf)
    &&& forall|id: int| 1 <= id < pdf.offsets.len() ==> #[trigger] pdf.offsets[id] != 0
}

/// The objects that a file with some of its pages has.
pub open spec fn in_progress(file: FileModel) -> bool {
    let n = file.page_count as int;
    let offsets = file.pdf.offsets;
    &&& 0 <= file.written <= n
    &&& 0 < n
    &&& offsets.len() == max_object(n, file.encoding is Some, outline_count(file.outline)) + 1
    &&& consistent(file.pdf)
    &&& file.pdf.bytes.len() > 0
    &&& offsets[1] != 0
    &&& offsets[2] != 0
    &&& forall|id: int| 3 <= id < 3 + file.written ==> #[trigger] offsets[id] != 0
    &&& forall|id: int| 3 + n <= id < 3 + n + file.written ==> #[trigger] offsets[id] != 0
    &&& forall|id: int|
        3 + 2 * n <= id < 3 + 2 * n + file.written ==> #[trigger] offsets[id] != 0
}

proof fn lemma_start_in_progress(
    page_count: nat,
    outline: Seq<OutlineModel>,
    texts: Option<Seq<Seq<SpanModel>>>,
)
    ensures
        file_start(page_count, outline, texts) matches Ok(file) ==> in_progress(file)
            && file.written == 0 && file.page_count == page_count && file.outline == outline,
{
    reveal(file_start);
    let text = has_text(texts);
    let count = outline_count(outline);
    let empty = empty_file(max_object(page_count as int, text, count) as nat);
    let catalog = catalog_object(page_count as int, text, count);
    lemma_empty_file_consistent(max_object(page_count as int, text, count) as nat);
    if page_count > 0 {
        lemma_object_extends(empty, 1, catalog);
        lemma_object_extends(
            with_object(empty, 1, catalog),
            2,
            page_tree_object(page_count as int),
        );
    }
}

proof fn lemma_page_in_progress(file: FileModel, image: ImageModel)
    requires
        in_progress(file),
        file.written < file.page_count,
    ensures
        in_progress(with_page(file, image)),
{
    let (n, i) = (file.page_count as int, file.written as int);
    let page = page_object(n, file.encoding is Some, i, image);
    let one = with_object(file.pdf, 3 + i, page);
    let content = stream_bytes(
        Seq::empty(),
        page_content(file.texts, file.encoding, i, image),
    );
    let two = with_object(one, 3 + n + i, content);
    let three = with_object(two, 3 + 2 * n + i, image_object(image));
    lemma_object_extends(file.pdf, 3 + i, page);
    lemma_object_extends(one, 3 + n + i, content);
    lemma_object_extends(two, 3 + 2 * n + i, image_object(image));
    let longer = with_page(file, image);
    assert(longer.pdf == three);
    assert forall|id: int| 3 <= id < 4 + i implies #[trigger] three.offsets[id] != 0 by {
        assert(id < 3 + i ==> file.pdf.offsets[id] != 0);
        assert(one.offsets[id] != 0);
        assert(two.offsets[id] != 0);
    }
    assert forall|id: int| 3 + n <= id < 4 + n + i implies #[trigger] three.offsets[id] != 0 by {
        assert(id < 3 + n + i ==> file.pdf.offsets[id] != 0);
        assert(id < 3 + n + i ==> one.offsets[id] != 0);
        assert(two.offsets[id] != 0);
    }
    assert forall|id: int| 3 + 2 * n <= id < 4 + 2 * n + i implies #[trigger] three.offsets[id]
        != 0 by {
        assert(id < 3 + 2 * n + i ==> file.pdf.offsets[id] != 0);
        assert(id < 3 + 2 * n + i ==> one.offsets[id] != 0);
        assert(id < 3 + 2 * n + i ==> two.offsets[id] != 0);
    }
}

proof fn lemma_pages_in_progress<E>(
    file: FileModel,
    pages: Seq<Result<ImageModel, E>>,
    count: int,
)
    requires
        in_progress(file),
    ensures
        add_pages(file, pages, count) matches Ok(longer) ==> in_progress(longer)
            && longer.outline == file.outline && longer.page_count == file.page_count,
    decreases count,
{
    if count > 0 {
        lemma_pages_in_progress(file, pages, count - 1);
        match add_pages(file, pages, count - 1) {
            Err(_) => {},
            Ok(before) => {
                reveal(add_page);
                if before.written < before.page_count {
                    match pages[count - 1] {
                        Err(_) => {},
                        Ok(image) => {
                            lemma_page_in_progress(before, image);
                        },
                    }
                }
            },
        }
    }
}

/// In a whole file every number has an object, and the table says where it stands.
pub proof fn lemma_every_object_is_found<E>(
    page_count: nat,
    pages: Seq<Result<ImageModel, E>>,
    outline: Seq<OutlineModel>,
    texts: Option<Seq<Seq<SpanModel>>>,
)
    requires
        3 * page_count + 6 + outline_count(outline) <= usize::MAX,
    ensures
        pdf_file(page_count, pages, outline, texts) matches Ok(bytes) ==> {
            let start = file_start(page_count, outline, texts)->Ok_0;
            let pdf = with_all_objects(add_pages(start, pages, pages.len() as int)->Ok_0);
            bytes == finished(pdf, 1) && complete(pdf)
        },
{
    lemma_start_in_progress(page_count, outline, texts);
    match file_start(page_count, outline, texts) {
        Err(_) => {},
        Ok(start) => {
            lemma_pages_in_progress(start, pages, pages.len() as int);
            match add_pages(start, pages, pages.len() as int) {
                Err(_) => {},
                Ok(file) => {
                    reveal(file_whole);
                    if file.written == file.page_count {
                        lemma_whole_file_complete(file);
                    }
                },
            }
        },
    }
}

proof fn lemma_whole_file_complete(file: FileModel)
    requires
        in_progress(file),
        file.written == file.page_count,
        3 * file.page_count + 6 + outline_count(file.outline) <= usize::MAX,
    ensures
        complete(with_all_objects(file)),
{
    let n = file.page_count as int;
    let text = file.encoding is Some;
    let offsets = file.pdf.offsets;
    assert forall|id: int| 1 <= id < 3 + 3 * n implies #[trigger] offsets[id] != 0 by {
        if id >= 3 + 2 * n {
            assert(offsets[id] != 0);
        } else if id >= 3 + n {
            assert(offsets[id] != 0);
        }
    }
    let pdf = with_text_objects(file);
    match file.encoding {
        Some(characters) => {
            let font = with_object(file.pdf, 3 + 3 * n, font_object(n));
            let cmap = stream_bytes(Seq::empty(), cmap_of(characters));
            lemma_object_extends(file.pdf, 3 + 3 * n, font_object(n));
            lemma_object_extends(font, 4 + 3 * n, cmap);
        },
        None => {},
    }
    let root = outline_root(n, text);
    assert(consistent(pdf) && pdf.bytes.len() > 0);
    assert(forall|id: int| 1 <= id < root ==> #[trigger] pdf.offsets[id] != 0);
    if outline_count(file.outline) > 0 {
        let object = outline_object(file.outline, root + 1);
        let listed = with_object(pdf, root, object);
        lemma_object_extends(pdf, root, object);
        lemma_items_extend(
            listed,
            root,
            root + 1,
            3,
            file.outline,
            file.outline.len() as int,
        );
        assert(file.outline.take(file.outline.len() as int) =~= file.outline);
        assert(has_room(listed, root + 1, outline_count(file.outline)));
    }
}

} // verus!
