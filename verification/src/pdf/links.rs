//! Under which numbers the parts of a page stand in a file, and that what refers to them uses
//! the same numbers.

use super::image::{image_object, ImageModel};
use super::objects::{
    finished, object_bytes, offset_lines, ten_digits, with_object, PdfModel,
};
use super::outline::reference;
use super::stream::{points_text, stream_bytes};
use super::text_layer::cmap_of;
use super::writer::{
    catalog_object, font_object, kids, page_content, page_object, page_tree_object, with_page,
    with_text_objects, FileModel,
};
use crate::text::{decimal_bytes, utf8};
use vstd::prelude::*;

verus! {

/// Whether an object stands in a file under a number, where the table says.
pub open spec fn stands_under(pdf: PdfModel, id: int, object: Seq<u8>) -> bool {
    let at = pdf.offsets[id] as int;
    let whole = object_bytes(id, object);
    &&& 0 <= id < pdf.offsets.len()
    &&& 0 <= at
    &&& at + whole.len() <= pdf.bytes.len()
    &&& pdf.bytes.subrange(at, at + whole.len()) == whole
}

/// An object that is added stands under its number.
pub proof fn lemma_object_stands(pdf: PdfModel, id: int, object: Seq<u8>)
    requires
        0 <= id < pdf.offsets.len(),
    ensures
        stands_under(with_object(pdf, id, object), id, object),
{
    let longer = with_object(pdf, id, object);
    let at = pdf.bytes.len() as int;
    let whole = object_bytes(id, object);
    assert(longer.offsets[id] == at);
    assert(longer.bytes.subrange(at, at + whole.len()) =~= whole);
}

/// Objects stay where they stand when others are added.
pub proof fn lemma_object_stays(
    pdf: PdfModel,
    id: int,
    object: Seq<u8>,
    other: int,
    more: Seq<u8>,
)
    requires
        stands_under(pdf, id, object),
        other != id,
        0 <= other < pdf.offsets.len(),
    ensures
        stands_under(with_object(pdf, other, more), id, object),
{
    let longer = with_object(pdf, other, more);
    let at = pdf.offsets[id] as int;
    let whole = object_bytes(id, object);
    assert(longer.offsets[id] == pdf.offsets[id]);
    assert(longer.bytes.subrange(at, at + whole.len()) =~= pdf.bytes.subrange(
        at,
        at + whole.len(),
    ));
}

/// The parts of a page stand under three numbers: the page, what it shows, and its image.
pub proof fn lemma_page_stands(file: FileModel, image: ImageModel)
    requires
        file.written < file.page_count,
        file.pdf.offsets.len() >= 3 + 3 * file.page_count,
    ensures
        ({
            let pdf = with_page(file, image).pdf;
            let page = 3 + file.written as int;
            &&& stands_under(
                pdf,
                page,
                page_object(
                    file.page_count as int,
                    file.encoding is Some,
                    file.written as int,
                    image,
                ),
            )
            &&& stands_under(
                pdf,
                page + file.page_count,
                stream_bytes(
                    Seq::empty(),
                    page_content(file.texts, file.encoding, file.written as int, image),
                ),
            )
            &&& stands_under(pdf, page + file.page_count + file.page_count, image_object(image))
        }),
{
    let (n, i) = (file.page_count as int, file.written as int);
    let page_bytes = page_object(n, file.encoding is Some, i, image);
    let content_bytes = stream_bytes(
        Seq::empty(),
        page_content(file.texts, file.encoding, i, image),
    );
    let page = with_object(file.pdf, 3 + i, page_bytes);
    let content = with_object(page, 3 + n + i, content_bytes);
    lemma_object_stands(file.pdf, 3 + i, page_bytes);
    lemma_object_stays(page, 3 + i, page_bytes, 3 + n + i, content_bytes);
    lemma_object_stands(page, 3 + n + i, content_bytes);
    lemma_object_stays(content, 3 + i, page_bytes, 3 + 2 * n + i, image_object(image));
    lemma_object_stays(content, 3 + n + i, content_bytes, 3 + 2 * n + i, image_object(image));
    lemma_object_stands(content, 3 + 2 * n + i, image_object(image));
}

/// A page names its image, and refers to what it shows, by the numbers under which those
/// stand: so many behind its own as there are pages, and twice as many.
pub proof fn lemma_page_refers(page_count: int, text: bool, index: int, image: ImageModel)
    ensures
        ({
            let page = 3 + index;
            let object = page_object(page_count, text, index, image);
            let width = points_text(image.width() as nat, image.dpi() as nat);
            let height = points_text(image.height() as nat, image.dpi() as nat);
            let opened = utf8("<< /Type /Page"@) + reference(" /Parent "@, 2) + utf8(
                " /MediaBox [0 0 "@,
            ) + width + utf8(" "@) + height;
            let pictured = utf8("] /Resources << /XObject << /Im"@) + decimal_bytes(
                (index + 1) as nat,
            ) + reference(" "@, page + page_count + page_count) + utf8(" >>"@);
            let lettered = if text {
                reference(" /Font << /Ftxt "@, 3 + page_count + page_count + page_count) + utf8(
                    " >>"@,
                )
            } else {
                Seq::<u8>::empty()
            };
            object == opened + pictured + lettered + reference(
                " >> /Contents "@,
                page + page_count,
            ) + utf8(" >>"@)
        }),
{
    reveal(page_object);
    let opened = utf8("<< /Type /Page"@) + reference(" /Parent "@, 2) + utf8(" /MediaBox [0 0 "@)
        + points_text(image.width() as nat, image.dpi() as nat) + utf8(" "@) + points_text(
        image.height() as nat,
        image.dpi() as nat,
    );
    lemma_four_behind(
        opened,
        utf8("] /Resources << /XObject << /Im"@),
        decimal_bytes((index + 1) as nat),
        reference(" "@, 3 + index + page_count + page_count),
        utf8(" >>"@),
    );
}

proof fn lemma_four_behind(head: Seq<u8>, a: Seq<u8>, b: Seq<u8>, c: Seq<u8>, d: Seq<u8>)
    ensures
        head + a + b + c + d == head + (a + b + c + d),
{
    assert(head + a + b + c + d =~= head + (a + b + c + d));
}

/// The list of pages has each page once, in order, under its number; and it stands where the
/// catalog says.
pub proof fn lemma_pages_listed(page_count: int, text: bool, outline: nat)
    requires
        page_count > 0,
    ensures
        kids(1) == reference(""@, 3),
        kids(page_count + 1) == kids(page_count) + reference(" "@, 3 + page_count),
        page_tree_object(page_count) == utf8("<< /Type /Pages /Count "@) + decimal_bytes(
            page_count as nat,
        ) + utf8(" /Kids ["@) + kids(page_count) + utf8("] >>"@),
        (utf8("<< /Type /Catalog"@) + reference(" /Pages "@, 2)).is_prefix_of(
            catalog_object(page_count, text, outline),
        ),
{
    let opened = utf8("<< /Type /Catalog"@) + reference(" /Pages "@, 2);
    let catalog = catalog_object(page_count, text, outline);
    assert(catalog.take(opened.len() as int) =~= opened);
}

/// The font stands under the number that the pages give for it, behind all their parts, and
/// what its codes stand for under the number that the font gives.
pub proof fn lemma_font_stands(file: FileModel, characters: Seq<char>)
    requires
        file.encoding == Some(characters),
        file.pdf.offsets.len() >= 5 + 3 * file.page_count,
    ensures
        ({
            let n = file.page_count as int;
            let font = 3 + n + n + n;
            &&& stands_under(with_text_objects(file), font, font_object(n))
            &&& stands_under(
                with_text_objects(file),
                font + 1,
                stream_bytes(Seq::empty(), cmap_of(characters)),
            )
            &&& (reference(" /ToUnicode "@, font + 1) + utf8(" >>"@)).is_suffix_of(font_object(n))
        }),
{
    let n = file.page_count as int;
    let font = with_object(file.pdf, 3 + 3 * n, font_object(n));
    let codes = stream_bytes(Seq::empty(), cmap_of(characters));
    lemma_object_stands(file.pdf, 3 + 3 * n, font_object(n));
    lemma_object_stays(font, 3 + 3 * n, font_object(n), 4 + 3 * n, codes);
    lemma_object_stands(font, 4 + 3 * n, codes);
    let end = reference(" /ToUnicode "@, 4 + 3 * n) + utf8(" >>"@);
    let object = font_object(n);
    assert(object.skip(object.len() - end.len()) =~= end);
}

/// A number of up to ten digits takes ten places, with zeros before its digits.
pub proof fn lemma_ten_places(n: nat)
    requires
        decimal_bytes(n).len() <= 10,
    ensures
        ten_digits(n).len() == 10,
        decimal_bytes(n).is_suffix_of(ten_digits(n)),
        forall|i: int|
            0 <= i < 10 - decimal_bytes(n).len() ==> #[trigger] ten_digits(n)[i] == 48,
{
    let digits = decimal_bytes(n);
    let padded = ten_digits(n);
    assert(padded.skip(padded.len() - digits.len()) =~= digits);
}

proof fn lemma_line_end()
    ensures
        utf8(" 00000 n \n"@).len() == 10,
{
    let end = " 00000 n \n"@;
    reveal_strlit(" 00000 n \n");
    assert forall|i: int| 0 <= i < end.len() implies #[trigger] end[i] as nat <= 127 by {}
    assert(vstd::utf8::is_ascii_chars(end));
    vstd::utf8::is_ascii_chars_encode_utf8(end);
}

/// The lines of the table are twenty bytes long, one for each number from one on, and each
/// begins with where the object of its number stands.
pub proof fn lemma_table_lines(offsets: Seq<nat>, count: int, id: int)
    requires
        1 <= id < count <= offsets.len(),
        forall|i: int| 0 <= i < count ==> decimal_bytes(#[trigger] offsets[i]).len() <= 10,
    ensures
        offset_lines(offsets, count).len() == 20 * (count - 1),
        offset_lines(offsets, count).subrange(20 * (id - 1), 20 * (id - 1) + 10) == ten_digits(
            offsets[id],
        ),
    decreases count,
{
    let lines = offset_lines(offsets, count);
    let before = offset_lines(offsets, count - 1);
    lemma_line_end();
    lemma_ten_places(offsets[count - 1]);
    if count > 2 {
        if id < count - 1 {
            lemma_table_lines(offsets, count - 1, id);
        } else {
            lemma_table_lines(offsets, count - 1, 1);
        }
    } else {
        assert(before =~= Seq::<u8>::empty());
    }
    assert(before.len() == 20 * (count - 2));
    if id < count - 1 {
        assert(lines.subrange(20 * (id - 1), 20 * (id - 1) + 10) =~= before.subrange(
            20 * (id - 1),
            20 * (id - 1) + 10,
        ));
    } else {
        assert(lines.subrange(20 * (id - 1), 20 * (id - 1) + 10) =~= ten_digits(offsets[id]));
    }
}

/// The end of a file says where its table begins: there stands the word for it, behind all
/// objects.
pub proof fn lemma_table_is_found(pdf: PdfModel, root: int)
    ensures
        ({
            let bytes = finished(pdf, root);
            let at = pdf.bytes.len() as int;
            let word = utf8("xref\n0 "@);
            let end = utf8(" 0 R >>\nstartxref\n"@) + decimal_bytes(at as nat) + utf8(
                "\n%%EOF\n"@,
            );
            &&& bytes.take(at) == pdf.bytes
            &&& at + word.len() <= bytes.len()
            &&& bytes.subrange(at, at + word.len()) == word
            &&& end.is_suffix_of(bytes)
        }),
{
    let bytes = finished(pdf, root);
    let at = pdf.bytes.len() as int;
    let word = utf8("xref\n0 "@);
    let end = utf8(" 0 R >>\nstartxref\n"@) + decimal_bytes(at as nat) + utf8("\n%%EOF\n"@);
    assert(bytes.take(at) =~= pdf.bytes);
    assert(bytes.subrange(at, at + word.len()) =~= word);
    assert(bytes.skip(bytes.len() - end.len()) =~= end);
}

} // verus!
