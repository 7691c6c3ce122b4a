//! Outlines: the bookmarks of a PDF file.

use crate::navm::{bookmark_count, bookmark_models, Bookmark, BookmarkModel};
use crate::number::{number_of, parse_number};
use crate::pdf::objects::{
    consistent, extends, lemma_object_extends, with_object, PdfModel, PdfObjectWriter,
};
use crate::pdf::PdfResult;
use crate::text::{
    chars_of, decimal_bytes, push_bytes, push_decimal_bytes, push_text, text_of, utf8,
};
use vstd::prelude::*;

verus! {

/// A bookmark: its title, the page that it leads to, counted from zero, and those below it.
#[derive(Debug, PartialEq, Eq)]
pub struct PdfBookmark {
    pub title: String,
    pub page_index: usize,
    pub children: Vec<PdfBookmark>,
}

/// A bookmark by its values.
pub struct OutlineModel {
    pub title: Seq<char>,
    pub page_index: int,
    pub children: Seq<OutlineModel>,
}

/// The bookmarks of a list by their values.
pub open spec fn outline_models(bookmarks: Seq<PdfBookmark>) -> Seq<OutlineModel>
    decreases bookmarks,
{
    if bookmarks.len() == 0 {
        Seq::empty()
    } else {
        outline_models(bookmarks.drop_last()).push(
            OutlineModel {
                title: bookmarks.last().title@,
                page_index: bookmarks.last().page_index as int,
                children: outline_models(bookmarks.last().children@),
            },
        )
    }
}

/// How many bookmarks there are, with all below them.
pub open spec fn outline_count(bookmarks: Seq<OutlineModel>) -> nat
    decreases bookmarks,
{
    if bookmarks.len() == 0 {
        0
    } else {
        outline_count(bookmarks.drop_last()) + 1 + outline_count(bookmarks.last().children)
    }
}

/// The page that a bookmark leads to, counted from one, if it leads to one.
pub open spec fn bookmark_page(url: Seq<char>) -> Option<nat> {
    let bytes = utf8(url);
    if bytes.len() > 0 && bytes[0] == 35 {
        number_of(bytes.skip(1), usize::MAX as nat)
    } else {
        None
    }
}

/// The bookmarks that lead to pages of a range; in place of one that does not stand those
/// below it.
pub open spec fn outline_of(bookmarks: Seq<BookmarkModel>, from_page: int, end_page: int) -> Seq<
    OutlineModel,
>
    decreases bookmarks,
{
    if bookmarks.len() == 0 {
        Seq::empty()
    } else {
        let before = outline_of(bookmarks.drop_last(), from_page, end_page);
        let children = outline_of(bookmarks.last().children, from_page, end_page);
        match bookmark_page(bookmarks.last().url) {
            Some(page) => if from_page <= page <= end_page {
                before.push(
                    OutlineModel {
                        title: bookmarks.last().title,
                        page_index: page - from_page,
                        children,
                    },
                )
            } else {
                before + children
            },
            None => before + children,
        }
    }
}

/// A digit in base 16.
pub open spec fn hex_digit(value: int) -> u8 {
    if value < 10 {
        (48 + value) as u8
    } else {
        (55 + value) as u8
    }
}

/// A number of 16 bits in base 16.
pub open spec fn hex16(value: int) -> Seq<u8> {
    seq![
        hex_digit((value / 4096) % 16),
        hex_digit((value / 256) % 16),
        hex_digit((value / 16) % 16),
        hex_digit(value % 16),
    ]
}

/// A character in UTF-16, in base 16.
pub open spec fn char_hex(character: char) -> Seq<u8> {
    let code = character as int;
    if code < 0x10000 {
        hex16(code)
    } else {
        hex16(0xd800 + (code - 0x10000) / 0x400) + hex16(0xdc00 + (code - 0x10000) % 0x400)
    }
}

/// A text in UTF-16, in base 16.
pub open spec fn utf16_hex(text: Seq<char>) -> Seq<u8>
    decreases text.len(),
{
    if text.len() == 0 {
        Seq::empty()
    } else {
        utf16_hex(text.drop_last()) + char_hex(text.last())
    }
}

/// A text string.
pub open spec fn text_string(text: Seq<char>) -> Seq<u8> {
    utf8("<FEFF"@) + utf16_hex(text) + utf8(">"@)
}

/// An entry that refers to an object.
pub open spec fn reference(name: Seq<char>, id: int) -> Seq<u8> {
    utf8(name) + decimal_bytes(id as nat) + utf8(" 0 R"@)
}

/// The number of the bookmark at a place of a list whose first has the given number.
pub open spec fn item_id(bookmarks: Seq<OutlineModel>, first: int, index: int) -> int {
    first + outline_count(bookmarks.take(index))
}

/// The entries of those below a bookmark or an outline.
pub open spec fn below(children: Seq<OutlineModel>, first: int) -> Seq<u8> {
    reference(" /First "@, first) + reference(
        " /Last "@,
        item_id(children, first, children.len() - 1),
    ) + utf8(" /Count "@) + decimal_bytes(outline_count(children))
}

/// The object of the bookmark at a place of a list.
#[verifier::opaque]
pub open spec fn item_object(
    bookmarks: Seq<OutlineModel>,
    parent: int,
    first: int,
    first_page: int,
    index: int,
) -> Seq<u8> {
    let bookmark = bookmarks[index];
    utf8("<< /Title "@) + text_string(bookmark.title) + reference(" /Parent "@, parent)
        + reference(" /Dest ["@, first_page + bookmark.page_index) + utf8(" /Fit]"@) + (if index
        > 0 {
        reference(" /Prev "@, item_id(bookmarks, first, index - 1))
    } else {
        Seq::empty()
    }) + (if index + 1 < bookmarks.len() {
        reference(" /Next "@, item_id(bookmarks, first, index + 1))
    } else {
        Seq::empty()
    }) + (if bookmark.children.len() > 0 {
        below(bookmark.children, item_id(bookmarks, first, index) + 1)
    } else {
        Seq::empty()
    }) + utf8(" >>"@)
}

/// A file with the first `count` bookmarks of a list, each before those below it.
pub open spec fn with_items(
    pdf: PdfModel,
    parent: int,
    first: int,
    first_page: int,
    bookmarks: Seq<OutlineModel>,
    count: int,
) -> PdfModel
    decreases bookmarks, count,
{
    if count <= 0 || count > bookmarks.len() {
        pdf
    } else {
        let before = with_items(pdf, parent, first, first_page, bookmarks, count - 1);
        let id = item_id(bookmarks, first, count - 1);
        let children = bookmarks[count - 1].children;
        with_items(
            with_object(
                before,
                id,
                item_object(bookmarks, parent, first, first_page, count - 1),
            ),
            id,
            id + 1,
            first_page,
            children,
            children.len() as int,
        )
    }
}

/// The object of an outline.
pub open spec fn outline_object(bookmarks: Seq<OutlineModel>, first: int) -> Seq<u8> {
    utf8("<< /Type /Outlines"@) + below(bookmarks, first) + utf8(" >>"@)
}

/// A file with an outline.
pub open spec fn with_outline(
    pdf: PdfModel,
    root: int,
    first_page: int,
    bookmarks: Seq<OutlineModel>,
) -> PdfModel {
    with_items(
        with_object(pdf, root, outline_object(bookmarks, root + 1)),
        root,
        root + 1,
        first_page,
        bookmarks,
        bookmarks.len() as int,
    )
}

/// The bookmarks of a list by their values, one by one.
pub proof fn lemma_outline_models(bookmarks: Seq<PdfBookmark>)
    ensures
        outline_models(bookmarks).len() == bookmarks.len(),
        forall|i: int|
            0 <= i < bookmarks.len() ==> (#[trigger] outline_models(bookmarks)[i]) == (
            OutlineModel {
                title: bookmarks[i].title@,
                page_index: bookmarks[i].page_index as int,
                children: outline_models(bookmarks[i].children@),
            }),
    decreases bookmarks.len(),
{
    if bookmarks.len() > 0 {
        lemma_outline_models(bookmarks.drop_last());
        assert forall|i: int| 0 <= i < bookmarks.len() implies (#[trigger] outline_models(
            bookmarks,
        )[i]) == (OutlineModel {
            title: bookmarks[i].title@,
            page_index: bookmarks[i].page_index as int,
            children: outline_models(bookmarks[i].children@),
        }) by {
            if i < bookmarks.len() - 1 {
                assert(bookmarks.drop_last()[i] == bookmarks[i]);
                assert(outline_models(bookmarks)[i] == outline_models(bookmarks.drop_last())[i]);
            }
        }
    }
}

proof fn lemma_outline_models_push(bookmarks: Seq<PdfBookmark>, more: PdfBookmark)
    ensures
        outline_models(bookmarks.push(more)) == outline_models(bookmarks).push(
            OutlineModel {
                title: more.title@,
                page_index: more.page_index as int,
                children: outline_models(more.children@),
            },
        ),
{
    assert(bookmarks.push(more).drop_last() =~= bookmarks);
}

proof fn lemma_count_step(bookmarks: Seq<OutlineModel>, index: int)
    requires
        0 <= index < bookmarks.len(),
    ensures
        outline_count(bookmarks.take(index + 1)) == outline_count(bookmarks.take(index)) + 1
            + outline_count(bookmarks[index].children),
{
    assert(bookmarks.take(index + 1).drop_last() =~= bookmarks.take(index));
}

/// Bookmarks are numbered from the first on: each has the number behind all that lie below
/// those before it, and the number behind the last and all below it is behind the whole list.
pub proof fn lemma_bookmarks_numbered(bookmarks: Seq<OutlineModel>, first: int, index: int)
    requires
        0 <= index < bookmarks.len(),
    ensures
        item_id(bookmarks, first, 0) == first,
        item_id(bookmarks, first, index + 1) == item_id(bookmarks, first, index) + 1
            + outline_count(bookmarks[index].children),
        item_id(bookmarks, first, bookmarks.len() as int) == first + outline_count(bookmarks),
{
    lemma_count_step(bookmarks, index);
    assert(bookmarks.take(0) =~= Seq::<OutlineModel>::empty());
    assert(bookmarks.take(bookmarks.len() as int) =~= bookmarks);
}

/// What lies below is told by its first and last bookmark and by how many there are in all.
pub proof fn lemma_ends_of_list_told(children: Seq<OutlineModel>, first: int, last: int)
    requires
        children.len() > 0,
        last + 1 + outline_count(children.last().children) == first + outline_count(children),
    ensures
        below(children, first) == reference(" /First "@, first) + reference(" /Last "@, last)
            + utf8(" /Count "@) + decimal_bytes((last - first + 1 + outline_count(
            children.last().children,
        )) as nat),
{
    lemma_bookmarks_numbered(children, first, children.len() - 1);
}

/// A bookmark tells the one above it, its page, and its neighbours in the list: the first has
/// none before it, the last none behind it. Those below it, if any, begin with the next number.
pub proof fn lemma_bookmark_links(
    bookmarks: Seq<OutlineModel>,
    parent: int,
    first: int,
    first_page: int,
    index: int,
    before: int,
)
    requires
        0 <= index < bookmarks.len(),
        index > 0 ==> before + 1 + outline_count(bookmarks[index - 1].children) == item_id(
            bookmarks,
            first,
            index,
        ),
    ensures
        ({
            let bookmark = bookmarks[index];
            let own = item_id(bookmarks, first, index);
            let behind = own + 1 + outline_count(bookmark.children);
            let previous = if index == 0 {
                Seq::<u8>::empty()
            } else {
                reference(" /Prev "@, before)
            };
            let next = if index == bookmarks.len() - 1 {
                Seq::<u8>::empty()
            } else {
                reference(" /Next "@, behind)
            };
            let children = if bookmark.children.len() == 0 {
                Seq::<u8>::empty()
            } else {
                below(bookmark.children, own + 1)
            };
            item_object(bookmarks, parent, first, first_page, index) == utf8("<< /Title "@)
                + text_string(bookmark.title) + reference(" /Parent "@, parent) + reference(
                " /Dest ["@,
                first_page + bookmark.page_index,
            ) + utf8(" /Fit]"@) + previous + next + children + utf8(" >>"@)
        }),
{
    reveal(item_object);
    lemma_bookmarks_numbered(bookmarks, first, index);
    if index > 0 {
        lemma_bookmarks_numbered(bookmarks, first, index - 1);
    }
}

proof fn lemma_count_part(bookmarks: Seq<OutlineModel>, index: int)
    requires
        0 <= index <= bookmarks.len(),
    ensures
        outline_count(bookmarks.take(index)) <= outline_count(bookmarks),
    decreases bookmarks.len() - index,
{
    if index == bookmarks.len() {
        assert(bookmarks.take(index) =~= bookmarks);
    } else {
        lemma_count_step(bookmarks, index);
        lemma_count_part(bookmarks, index + 1);
    }
}

proof fn lemma_count_joined(left: Seq<OutlineModel>, right: Seq<OutlineModel>)
    ensures
        outline_count(left + right) == outline_count(left) + outline_count(right),
    decreases right.len(),
{
    if right.len() == 0 {
        assert(left + right =~= left);
    } else {
        lemma_count_joined(left, right.drop_last());
        assert((left + right).drop_last() =~= left + right.drop_last());
    }
}

/// An outline has no more bookmarks than the document.
pub proof fn lemma_outline_is_no_larger(
    bookmarks: Seq<BookmarkModel>,
    from_page: int,
    end_page: int,
)
    ensures
        outline_count(outline_of(bookmarks, from_page, end_page)) <= bookmark_count(bookmarks),
    decreases bookmarks,
{
    if bookmarks.len() > 0 {
        let before = outline_of(bookmarks.drop_last(), from_page, end_page);
        let children = outline_of(bookmarks.last().children, from_page, end_page);
        lemma_outline_is_no_larger(bookmarks.drop_last(), from_page, end_page);
        lemma_outline_is_no_larger(bookmarks.last().children, from_page, end_page);
        lemma_count_joined(before, children);
        match bookmark_page(bookmarks.last().url) {
            Some(page) => {
                let item = OutlineModel {
                    title: bookmarks.last().title,
                    page_index: page - from_page,
                    children,
                };
                assert(before.push(item).drop_last() =~= before);
            },
            None => {},
        }
    }
}

/// Every bookmark of an outline leads to one of so many pages.
pub open spec fn pages_in_range(bookmarks: Seq<OutlineModel>, page_count: int) -> bool
    decreases bookmarks,
{
    bookmarks.len() == 0 || {
        &&& pages_in_range(bookmarks.drop_last(), page_count)
        &&& 0 <= bookmarks.last().page_index < page_count
        &&& pages_in_range(bookmarks.last().children, page_count)
    }
}

proof fn lemma_range_joined(left: Seq<OutlineModel>, right: Seq<OutlineModel>, page_count: int)
    requires
        pages_in_range(left, page_count),
        pages_in_range(right, page_count),
    ensures
        pages_in_range(left + right, page_count),
    decreases right.len(),
{
    if right.len() == 0 {
        assert(left + right =~= left);
    } else {
        lemma_range_joined(left, right.drop_last(), page_count);
        assert((left + right).drop_last() =~= left + right.drop_last());
    }
}

/// Every bookmark of the outline of a range leads to a page of the range.
pub proof fn lemma_outline_stays_in_range(
    bookmarks: Seq<BookmarkModel>,
    from_page: int,
    end_page: int,
)
    ensures
        pages_in_range(
            outline_of(bookmarks, from_page, end_page),
            end_page - from_page + 1,
        ),
    decreases bookmarks,
{
    if bookmarks.len() > 0 {
        let before = outline_of(bookmarks.drop_last(), from_page, end_page);
        let children = outline_of(bookmarks.last().children, from_page, end_page);
        lemma_outline_stays_in_range(bookmarks.drop_last(), from_page, end_page);
        lemma_outline_stays_in_range(bookmarks.last().children, from_page, end_page);
        lemma_range_joined(before, children, end_page - from_page + 1);
        match bookmark_page(bookmarks.last().url) {
            Some(page) => {
                let item = OutlineModel {
                    title: bookmarks.last().title,
                    page_index: page - from_page,
                    children,
                };
                assert(before.push(item).drop_last() =~= before);
            },
            None => {},
        }
    }
}

/// The page that a bookmark leads to, counted from one, if it leads to one.
pub fn djvu_bookmark_page(url: &str) -> (page: Option<usize>)
    ensures
        match bookmark_page(url@) {
            Some(expected) => page is Some && page->0 == expected,
            None => page is None,
        },
{
    let bytes: &[u8] = url.as_bytes();
    if bytes.len() == 0 || bytes[0] != 35 {
        return None;
    }
    let digits: &[u8] = vstd::slice::slice_subrange(bytes, 1, bytes.len());
    assert(digits@ =~= utf8(url@).skip(1));
    match parse_number(digits, usize::MAX as u64) {
        Some(page) => Some(page as usize),
        None => None,
    }
}

/// The bookmarks that lead to pages of a range; in place of one that does not stand those
/// below it.
pub fn pdf_bookmarks_from_djvu(bookmarks: &[Bookmark], from_page: usize, end_page: usize) -> (
    outline: Vec<PdfBookmark>)
    ensures
        outline_models(outline@) == outline_of(
            bookmark_models(bookmarks@),
            from_page as int,
            end_page as int,
        ),
    decreases bookmarks@,
{
    let mut outline: Vec<PdfBookmark> = Vec::new();
    let mut index: usize = 0;
    assert(bookmarks@.take(0) =~= Seq::<Bookmark>::empty());
    while index < bookmarks.len()
        invariant
            index <= bookmarks@.len(),
            outline_models(outline@) == outline_of(
                bookmark_models(bookmarks@.take(index as int)),
                from_page as int,
                end_page as int,
            ),
        decreases bookmarks@.len() - index,
    {
        let bookmark: &Bookmark = &bookmarks[index];
        assert(bookmark == bookmarks@[index as int]);
        assert(bookmarks@.take(index + 1).drop_last() =~= bookmarks@.take(index as int));
        assert(bookmarks@.take(index + 1).last() == bookmarks@[index as int]);
        let ghost models = bookmark_models(bookmarks@.take(index + 1));
        assert(models.drop_last() =~= bookmark_models(bookmarks@.take(index as int)));
        assert(decreases_to!(bookmarks@ => bookmarks@[index as int].children@));
        let mut children: Vec<PdfBookmark> = pdf_bookmarks_from_djvu(
            bookmark.children.as_slice(),
            from_page,
            end_page,
        );
        let page: Option<usize> = djvu_bookmark_page(bookmark.url.as_str());
        let inside: Option<usize> = match page {
            Some(page) => if from_page <= page && page <= end_page {
                Some(page - from_page)
            } else {
                None
            },
            None => None,
        };
        match inside {
            Some(page_index) => {
                let item = PdfBookmark {
                    title: text_of(bookmark.title.as_str()),
                    page_index,
                    children,
                };
                proof {
                    lemma_outline_models_push(outline@, item);
                }
                outline.push(item);
            },
            None => {
                proof {
                    lemma_outline_models_joined(outline@, children@);
                }
                outline.append(&mut children);
            },
        }
        index = index + 1;
    }
    assert(bookmarks@.take(index as int) =~= bookmarks@);
    outline
}

proof fn lemma_outline_models_joined(left: Seq<PdfBookmark>, right: Seq<PdfBookmark>)
    ensures
        outline_models(left + right) == outline_models(left) + outline_models(right),
    decreases right.len(),
{
    if right.len() == 0 {
        assert(left + right =~= left);
        assert(outline_models(left) + outline_models(right) =~= outline_models(left));
    } else {
        lemma_outline_models_joined(left, right.drop_last());
        assert((left + right).drop_last() =~= left + right.drop_last());
        assert(outline_models(left + right) =~= outline_models(left) + outline_models(right));
    }
}

/// How many bookmarks there are, with all below them.
pub fn count_pdf_bookmarks(bookmarks: &[PdfBookmark]) -> (count: usize)
    requires
        outline_count(outline_models(bookmarks@)) <= usize::MAX,
    ensures
        count == outline_count(outline_models(bookmarks@)),
    decreases bookmarks@,
{
    let ghost models = outline_models(bookmarks@);
    proof {
        lemma_outline_models(bookmarks@);
    }
    let mut count: usize = 0;
    let mut index: usize = 0;
    assert(outline_count(models.take(0)) == 0);
    while index < bookmarks.len()
        invariant
            index <= bookmarks@.len(),
            models == outline_models(bookmarks@),
            models.len() == bookmarks@.len(),
            forall|i: int|
                0 <= i < bookmarks@.len() ==> (#[trigger] models[i]).children == outline_models(
                    bookmarks@[i].children@,
                ),
            outline_count(models) <= usize::MAX,
            count == outline_count(models.take(index as int)),
        decreases bookmarks@.len() - index,
    {
        proof {
            lemma_count_step(models, index as int);
            lemma_count_part(models, index + 1);
            assert(models[index as int].children == outline_models(
                bookmarks@[index as int].children@,
            ));
        }
        assert(decreases_to!(bookmarks@ => bookmarks@[index as int].children@));
        let bookmark: &PdfBookmark = &bookmarks[index];
        count = count + 1 + count_pdf_bookmarks(bookmark.children.as_slice());
        index = index + 1;
    }
    assert(models.take(index as int) =~= models);
    count
}

/// Appends a number of 16 bits in base 16.
fn push_hex16(bytes: &mut Vec<u8>, value: u32)
    ensures
        final(bytes)@ == old(bytes)@ + hex16(value as int),
{
    push_hex_digit(bytes, (value / 4096) % 16);
    push_hex_digit(bytes, (value / 256) % 16);
    push_hex_digit(bytes, (value / 16) % 16);
    push_hex_digit(bytes, value % 16);
    assert(bytes@ =~= old(bytes)@ + hex16(value as int));
}

/// Appends a digit in base 16.
pub fn push_hex_digit(bytes: &mut Vec<u8>, value: u32)
    requires
        value < 16,
    ensures
        final(bytes)@ == old(bytes)@.push(hex_digit(value as int)),
{
    if value < 10 {
        bytes.push(48 + value as u8);
    } else {
        bytes.push(55 + value as u8);
    }
}

/// Appends a character in UTF-16, in base 16.
pub fn push_char_hex(bytes: &mut Vec<u8>, character: char)
    ensures
        final(bytes)@ == old(bytes)@ + char_hex(character),
{
    let code: u32 = character as u32;
    if code < 0x10000 {
        push_hex16(bytes, code);
    } else {
        push_hex16(bytes, 0xd800 + (code - 0x10000) / 0x400);
        push_hex16(bytes, 0xdc00 + (code - 0x10000) % 0x400);
        assert(bytes@ =~= old(bytes)@ + char_hex(character));
    }
}

/// A text string.
pub fn pdf_text_string(value: &str) -> (string: Vec<u8>)
    ensures
        string@ == text_string(value@),
{
    let characters: Vec<char> = chars_of(value);
    let mut string: Vec<u8> = Vec::new();
    push_text(&mut string, "<FEFF");
    let mut index: usize = 0;
    assert(string@ =~= utf8("<FEFF"@) + utf16_hex(value@.take(0)));
    while index < characters.len()
        invariant
            index <= characters@.len(),
            characters@ == value@,
            string@ == utf8("<FEFF"@) + utf16_hex(value@.take(index as int)),
        decreases characters@.len() - index,
    {
        push_char_hex(&mut string, characters[index]);
        assert(value@.take(index + 1).drop_last() =~= value@.take(index as int));
        index = index + 1;
        assert(string@ =~= utf8("<FEFF"@) + utf16_hex(value@.take(index as int)));
    }
    assert(value@.take(index as int) =~= value@);
    push_text(&mut string, ">");
    string
}

/// Appends an entry that refers to an object.
pub fn push_reference(bytes: &mut Vec<u8>, name: &str, id: usize)
    ensures
        final(bytes)@ == old(bytes)@ + reference(name@, id as int),
{
    push_text(bytes, name);
    push_decimal_bytes(bytes, id as u64);
    push_text(bytes, " 0 R");
    assert(bytes@ =~= old(bytes)@ + reference(name@, id as int));
}

/// Appends the entries of those below a bookmark or an outline, and gives the number
/// behind the last of them.
fn push_below(bytes: &mut Vec<u8>, children: &[PdfBookmark], first: usize)
    requires
        children@.len() > 0,
        first + outline_count(outline_models(children@)) <= usize::MAX,
    ensures
        final(bytes)@ == old(bytes)@ + below(outline_models(children@), first as int),
{
    let ghost models = outline_models(children@);
    proof {
        lemma_outline_models(children@);
        lemma_count_step(models, models.len() - 1);
        assert(models.take(models.len() as int) =~= models);
        assert(models.take(models.len() - 1) =~= outline_models(children@.drop_last()));
    }
    let count: usize = count_pdf_bookmarks(children);
    let before_last: usize = count_pdf_bookmarks(
        vstd::slice::slice_subrange(children, 0, children.len() - 1),
    );
    assert(children@.subrange(0, children@.len() - 1) =~= children@.drop_last());
    push_reference(bytes, " /First ", first);
    push_reference(bytes, " /Last ", first + before_last);
    push_text(bytes, " /Count ");
    push_decimal_bytes(bytes, count as u64);
    assert(bytes@ =~= old(bytes)@ + below(models, first as int));
}

/// The object of the bookmark at a place of a list, given the numbers of its neighbours.
fn outline_item(
    bookmarks: &[PdfBookmark],
    parent_id: usize,
    ids: (usize, usize, usize),
    first_page_id: usize,
    index: usize,
    Ghost(first): Ghost<int>,
) -> (object: Vec<u8>)
    requires
        index < bookmarks@.len(),
        first_page_id + bookmarks@[index as int].page_index <= usize::MAX,
        first + outline_count(outline_models(bookmarks@)) <= usize::MAX,
        index > 0 ==> ids.0 == item_id(outline_models(bookmarks@), first, index - 1),
        ids.1 == item_id(outline_models(bookmarks@), first, index as int),
        ids.2 == item_id(outline_models(bookmarks@), first, index + 1),
    ensures
        object@ == item_object(
            outline_models(bookmarks@),
            parent_id as int,
            first,
            first_page_id as int,
            index as int,
        ),
{
    reveal(item_object);
    let ghost models = outline_models(bookmarks@);
    proof {
        lemma_outline_models(bookmarks@);
        lemma_count_step(models, index as int);
        lemma_count_part(models, index + 1);
        assert(models[index as int].title == bookmarks@[index as int].title@);
    }
    let bookmark: &PdfBookmark = &bookmarks[index];
    let mut object: Vec<u8> = Vec::new();
    push_text(&mut object, "<< /Title ");
    push_bytes(&mut object, pdf_text_string(bookmark.title.as_str()).as_slice());
    push_reference(&mut object, " /Parent ", parent_id);
    push_reference(&mut object, " /Dest [", first_page_id + bookmark.page_index);
    push_text(&mut object, " /Fit]");
    assert(Seq::<u8>::empty() + utf8("<< /Title "@) =~= utf8("<< /Title "@));
    let ghost start = object@;
    if index > 0 {
        push_reference(&mut object, " /Prev ", ids.0);
    }
    assert(object@ =~= start + if index > 0 {
        reference(" /Prev "@, item_id(models, first, index - 1))
    } else {
        Seq::empty()
    });
    let ghost linked = object@;
    if index + 1 < bookmarks.len() {
        push_reference(&mut object, " /Next ", ids.2);
    }
    assert(object@ =~= linked + if index + 1 < models.len() {
        reference(" /Next "@, item_id(models, first, index + 1))
    } else {
        Seq::empty()
    });
    let ghost joined = object@;
    if bookmark.children.len() > 0 {
        push_below(&mut object, bookmark.children.as_slice(), ids.1 + 1);
    }
    proof {
        lemma_outline_models(bookmark.children@);
    }
    assert(object@ =~= joined + if models[index as int].children.len() > 0 {
        below(models[index as int].children, ids.1 + 1)
    } else {
        Seq::empty()
    });
    push_text(&mut object, " >>");
    object
}

/// The pages that bookmarks lead to have numbers.
pub open spec fn pages_fit(bookmarks: Seq<OutlineModel>, first_page: int) -> bool
    decreases bookmarks,
{
    bookmarks.len() == 0 || {
        &&& pages_fit(bookmarks.drop_last(), first_page)
        &&& first_page + bookmarks.last().page_index <= usize::MAX
        &&& pages_fit(bookmarks.last().children, first_page)
    }
}

proof fn lemma_pages_fit(bookmarks: Seq<OutlineModel>, first_page: int, index: int)
    requires
        pages_fit(bookmarks, first_page),
        0 <= index < bookmarks.len(),
    ensures
        first_page + bookmarks[index].page_index <= usize::MAX,
        pages_fit(bookmarks[index].children, first_page),
    decreases bookmarks.len(),
{
    if index < bookmarks.len() - 1 {
        lemma_pages_fit(bookmarks.drop_last(), first_page, index);
    }
}

/// Whether the table of a file has room for some objects.
pub open spec fn has_room(pdf: PdfModel, first: int, count: nat) -> bool {
    0 < first && first + count <= pdf.offsets.len() <= usize::MAX
}

/// The bookmarks of a list extend a file, and each of them is there.
pub proof fn lemma_items_extend(
    pdf: PdfModel,
    parent: int,
    first: int,
    first_page: int,
    bookmarks: Seq<OutlineModel>,
    count: int,
)
    requires
        has_room(pdf, first, outline_count(bookmarks)),
        0 <= count <= bookmarks.len(),
    ensures
        extends(pdf, with_items(pdf, parent, first, first_page, bookmarks, count)),
        pdf.bytes.len() > 0 && consistent(pdf) ==> forall|id: int|
            first <= id < item_id(bookmarks, first, count) ==> #[trigger] with_items(
                pdf,
                parent,
                first,
                first_page,
                bookmarks,
                count,
            ).offsets[id] != 0,
    decreases bookmarks, count,
{
    if count > 0 {
        let before = with_items(pdf, parent, first, first_page, bookmarks, count - 1);
        let id = item_id(bookmarks, first, count - 1);
        let children = bookmarks[count - 1].children;
        let object = item_object(bookmarks, parent, first, first_page, count - 1);
        let listed = with_object(before, id, object);
        lemma_count_step(bookmarks, count - 1);
        lemma_count_part(bookmarks, count);
        lemma_items_extend(pdf, parent, first, first_page, bookmarks, count - 1);
        lemma_object_extends(before, id, object);
        lemma_items_extend(listed, id, id + 1, first_page, children, children.len() as int);
        assert(children.take(children.len() as int) =~= children);
    } else {
        assert(outline_count(bookmarks.take(0)) == 0);
    }
}

/// Writes the bookmarks of a list, each before those below it.
fn write_pdf_outline_items(
    pdf: &mut PdfObjectWriter,
    parent_id: usize,
    first_id: usize,
    first_page_id: usize,
    bookmarks: &[PdfBookmark],
) -> (done: PdfResult<()>)
    requires
        has_room(old(pdf)@, first_id as int, outline_count(outline_models(bookmarks@))),
        pages_fit(outline_models(bookmarks@), first_page_id as int),
    ensures
        done is Ok,
        final(pdf)@ == with_items(
            old(pdf)@,
            parent_id as int,
            first_id as int,
            first_page_id as int,
            outline_models(bookmarks@),
            bookmarks@.len() as int,
        ),
    decreases bookmarks@,
{
    let ghost models = outline_models(bookmarks@);
    let ghost start = pdf@;
    proof {
        lemma_outline_models(bookmarks@);
        assert(outline_count(models.take(0)) == 0);
    }
    let mut previous: usize = first_id;
    let mut id: usize = first_id;
    let mut index: usize = 0;
    while index < bookmarks.len()
        invariant
            index <= bookmarks@.len(),
            models == outline_models(bookmarks@),
            models.len() == bookmarks@.len(),
            forall|i: int|
                0 <= i < bookmarks@.len() ==> (#[trigger] models[i]).children == outline_models(
                    bookmarks@[i].children@,
                ) && models[i].page_index == bookmarks@[i].page_index,
            has_room(start, first_id as int, outline_count(models)),
            pages_fit(models, first_page_id as int),
            id == item_id(models, first_id as int, index as int),
            index > 0 ==> previous == item_id(models, first_id as int, index - 1),
            pdf@ == with_items(
                start,
                parent_id as int,
                first_id as int,
                first_page_id as int,
                models,
                index as int,
            ),
        decreases bookmarks@.len() - index,
    {
        let bookmark: &PdfBookmark = &bookmarks[index];
        proof {
            lemma_count_step(models, index as int);
            lemma_count_part(models, index + 1);
            lemma_pages_fit(models, first_page_id as int, index as int);
            lemma_items_extend(
                start,
                parent_id as int,
                first_id as int,
                first_page_id as int,
                models,
                index as int,
            );
            assert(models[index as int].children == outline_models(
                bookmarks@[index as int].children@,
            ));
            lemma_outline_models(bookmark.children@);
        }
        let below: usize = count_pdf_bookmarks(bookmark.children.as_slice());
        let next: usize = id + 1 + below;
        let object: Vec<u8> = outline_item(
            bookmarks,
            parent_id,
            (previous, id, next),
            first_page_id,
            index,
            Ghost(first_id as int),
        );
        match pdf.write_object(id, object.as_slice()) {
            Err(error) => {
                return Err(error);
            },
            Ok(_) => {},
        }
        assert(decreases_to!(bookmarks@ => bookmarks@[index as int].children@));
        match write_pdf_outline_items(
            pdf,
            id,
            id + 1,
            first_page_id,
            bookmark.children.as_slice(),
        ) {
            Err(error) => {
                return Err(error);
            },
            Ok(_) => {},
        }
        previous = id;
        id = next;
        index = index + 1;
    }
    Ok(())
}

/// Writes an outline.
pub fn write_pdf_outlines(
    pdf: &mut PdfObjectWriter,
    root_id: usize,
    first_page_id: usize,
    bookmarks: &[PdfBookmark],
) -> (done: PdfResult<()>)
    requires
        bookmarks@.len() > 0,
        has_room(old(pdf)@, root_id as int, 1 + outline_count(outline_models(bookmarks@))),
        pages_fit(outline_models(bookmarks@), first_page_id as int),
    ensures
        done is Ok,
        final(pdf)@ == with_outline(
            old(pdf)@,
            root_id as int,
            first_page_id as int,
            outline_models(bookmarks@),
        ),
{
    proof {
        lemma_outline_models(bookmarks@);
    }
    let mut object: Vec<u8> = Vec::new();
    push_text(&mut object, "<< /Type /Outlines");
    push_below(&mut object, bookmarks, root_id + 1);
    push_text(&mut object, " >>");
    assert(object@ =~= outline_object(outline_models(bookmarks@), root_id + 1));
    match pdf.write_object(root_id, object.as_slice()) {
        Err(error) => {
            return Err(error);
        },
        Ok(_) => {},
    }
    write_pdf_outline_items(pdf, root_id, root_id + 1, first_page_id, bookmarks)
}

} // verus!
