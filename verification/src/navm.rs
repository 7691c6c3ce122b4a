//! Bookmarks.

use crate::bzz::{bzz_decoded, bzz_message, decode_bzz, given};
use crate::chunk::chunks_view;
use crate::document::{document_of, find_chunk, first_with_id, Document};
use crate::error::{agrees, ParseError};
use crate::text::{
    debug_text, decimal, push_decimal, quoted, text_from_utf8, text_of, utf8,
    utf8_error_text,
};
use vstd::prelude::*;
use vstd::utf8::{decode_utf8, valid_utf8};

verus! {

/// A bookmark: its title, where it leads, and those below it.
#[derive(Debug, PartialEq, Eq)]
pub struct Bookmark {
    pub title: String,
    pub url: String,
    pub children: Vec<Bookmark>,
}

/// A bookmark by its values.
pub struct BookmarkModel {
    pub title: Seq<char>,
    pub url: Seq<char>,
    pub children: Seq<BookmarkModel>,
}

impl Bookmark {
    /// Whether the bookmark has the given values.
    pub open spec fn shows(&self, model: BookmarkModel) -> bool
        decreases self,
    {
        &&& self.title@ == model.title
        &&& self.url@ == model.url
        &&& self.children@.len() == model.children.len()
        &&& forall|i: int|
            0 <= i < self.children@.len() ==> (#[trigger] self.children@[i]).shows(
                model.children[i],
            )
    }
}

impl Clone for Bookmark {
    /// A bookmark with the same values.
    fn clone(&self) -> (copy: Self)
        ensures
            forall|model: BookmarkModel| self.shows(model) ==> #[trigger] copy.shows(model),
    {
        copy_bookmark(self)
    }
}

/// A copy of a bookmark, with all below it.
fn copy_bookmark(bookmark: &Bookmark) -> (copy: Bookmark)
    ensures
        forall|model: BookmarkModel| bookmark.shows(model) ==> #[trigger] copy.shows(model),
    decreases bookmark,
{
    let mut children: Vec<Bookmark> = Vec::new();
    while children.len() < bookmark.children.len()
        invariant
            children@.len() <= bookmark.children@.len(),
            forall|i: int, model: BookmarkModel|
                0 <= i < children@.len() && bookmark.children@[i].shows(model)
                    ==> #[trigger] children@[i].shows(model),
        decreases bookmark.children@.len() - children@.len(),
    {
        let copy = copy_bookmark(&bookmark.children[children.len()]);
        children.push(copy);
    }
    let copy = Bookmark {
        title: text_of(bookmark.title.as_str()),
        url: text_of(bookmark.url.as_str()),
        children,
    };
    proof {
        assert forall|model: BookmarkModel| bookmark.shows(model) implies
        #[trigger] copy.shows(model) by {
            assert forall|i: int| 0 <= i < copy.children@.len() implies (
            #[trigger] copy.children@[i]).shows(model.children[i]) by {
                assert(bookmark.children@[i].shows(model.children[i]));
                assert(children@[i].shows(model.children[i]));
            }
        }
    }
    copy
}

/// Whether bookmarks have the given values.
pub open spec fn all_show(bookmarks: Seq<Bookmark>, models: Seq<BookmarkModel>) -> bool {
    &&& bookmarks.len() == models.len()
    &&& forall|i: int|
        0 <= i < bookmarks.len() ==> (#[trigger] bookmarks[i]).shows(models[i])
}

/// The bookmarks of a document by their values.
pub open spec fn bookmark_models(bookmarks: Seq<Bookmark>) -> Seq<BookmarkModel>
    decreases bookmarks,
{
    if bookmarks.len() == 0 {
        Seq::empty()
    } else {
        bookmark_models(bookmarks.drop_last()).push(
            BookmarkModel {
                title: bookmarks.last().title@,
                url: bookmarks.last().url@,
                children: bookmark_models(bookmarks.last().children@),
            },
        )
    }
}

/// How many bookmarks of a document there are, with all below them.
pub open spec fn bookmark_count(bookmarks: Seq<BookmarkModel>) -> nat
    decreases bookmarks,
{
    if bookmarks.len() == 0 {
        0
    } else {
        bookmark_count(bookmarks.drop_last()) + 1 + bookmark_count(bookmarks.last().children)
    }
}

/// Why a number of the given size cannot be read, if it cannot.
pub open spec fn number_fault(len: int, cursor: int, size: int) -> Option<Seq<char>> {
    if cursor + size > usize::MAX {
        Some("NAVM offset overflow"@)
    } else if cursor + size > len {
        Some("NAVM payload is truncated"@)
    } else {
        None
    }
}

/// Why a text of the given length cannot be read, if it cannot.
pub open spec fn string_fault(bytes: Seq<u8>, cursor: int, len: int, field: Seq<char>) -> Option<
    Seq<char>,
> {
    if cursor + len > usize::MAX {
        Some("NAVM "@ + field + " length overflow"@)
    } else if cursor + len > bytes.len() {
        Some(
            "NAVM "@ + field + " is truncated at offset "@ + decimal(cursor as nat)
                + " with length "@ + decimal(len as nat),
        )
    } else if !valid_utf8(bytes.subrange(cursor, cursor + len)) {
        Some(
            "NAVM "@ + field + " is not valid UTF-8: "@ + utf8_error_text(
                bytes.subrange(cursor, cursor + len),
            ),
        )
    } else {
        None
    }
}

/// What stands at the start of a bookmark: how many bookmarks are below it, its title,
/// where it leads, and where the first bookmark below it starts.
#[verifier::ext_equal]
pub struct BookmarkHead {
    pub child_count: nat,
    pub title: Seq<char>,
    pub url: Seq<char>,
    pub end: int,
}

/// What stands at the start of the bookmark at an offset, or why it cannot be read.
pub open spec fn head_at(bytes: Seq<u8>, cursor: int) -> Result<BookmarkHead, Seq<char>> {
    let len = bytes.len() as int;
    let title_len = 256 * bytes[cursor + 2] + bytes[cursor + 3];
    let title_end = cursor + 4 + title_len;
    let title = decode_utf8(bytes.subrange(cursor + 4, title_end));
    let url_len = 65536 * bytes[title_end] + 256 * bytes[title_end + 1] + bytes[title_end + 2];
    let url_start = title_end + 3;
    if number_fault(len, cursor, 2) is Some {
        Err(number_fault(len, cursor, 2)->0)
    } else if number_fault(len, cursor + 2, 2) is Some {
        Err(number_fault(len, cursor + 2, 2)->0)
    } else if string_fault(bytes, cursor + 4, title_len, "title"@) is Some {
        Err(string_fault(bytes, cursor + 4, title_len, "title"@)->0)
    } else if number_fault(len, title_end, 3) is Some {
        Err(number_fault(len, title_end, 3)->0)
    } else if string_fault(bytes, url_start, url_len, "URL"@) is Some {
        Err(
            string_fault(bytes, url_start, url_len, "URL"@)->0 + " after NAVM title "@
                + debug_text(title),
        )
    } else {
        Ok(
            BookmarkHead {
                child_count: (256 * bytes[cursor + 1] + bytes[cursor]) as nat,
                title,
                url: decode_utf8(bytes.subrange(url_start, url_start + url_len)),
                end: url_start + url_len,
            },
        )
    }
}

/// The bookmark at an offset with all below it, and where it ends; or why it cannot be
/// read.
pub open spec fn bookmark_at(bytes: Seq<u8>, cursor: int, depth: nat) -> Result<
    (BookmarkModel, int),
    Seq<char>,
>
    decreases bytes.len() - cursor, 0nat,
{
    match head_at(bytes, cursor) {
        Err(message) => Err(message),
        Ok(head) => if cursor < head.end <= bytes.len() {
            match bookmarks_at(
                bytes,
                head.end,
                head.child_count,
                depth + 1,
                Seq::empty(),
            ) {
                Err(message) => Err(message + " under NAVM title "@ + debug_text(head.title)),
                Ok((children, end)) => Ok(
                    (BookmarkModel { title: head.title, url: head.url, children }, end),
                ),
            }
        } else {
            Err(Seq::empty())
        },
    }
}

/// So many bookmarks from an offset on, after those already found, and where they end; or
/// why they cannot be read.
pub open spec fn bookmarks_at(
    bytes: Seq<u8>,
    cursor: int,
    count: nat,
    depth: nat,
    found: Seq<BookmarkModel>,
) -> Result<(Seq<BookmarkModel>, int), Seq<char>>
    decreases bytes.len() - cursor, (count - found.len()) + 1,
{
    if found.len() >= count {
        Ok((found, cursor))
    } else {
        match bookmark_at(bytes, cursor, depth) {
            Err(message) => Err(
                message + " while parsing NAVM bookmark "@ + decimal(found.len() + 1) + " of "@
                    + decimal(count) + " at depth "@ + decimal(depth),
            ),
            Ok((bookmark, end)) => if cursor < end <= bytes.len() {
                bookmarks_at(bytes, end, count, depth, found.push(bookmark))
            } else {
                Err(Seq::empty())
            },
        }
    }
}

/// All bookmarks from an offset to the end, after those already found; or why they cannot
/// be read.
pub open spec fn bookmarks_to_end(
    bytes: Seq<u8>,
    cursor: int,
    found: Seq<BookmarkModel>,
) -> Result<Seq<BookmarkModel>, Seq<char>>
    decreases bytes.len() - cursor,
{
    if cursor >= bytes.len() {
        Ok(found)
    } else {
        match bookmark_at(bytes, cursor, 0) {
            Err(message) => Err(
                message + " while parsing top-level NAVM bookmark "@ + decimal(found.len() + 1),
            ),
            Ok((bookmark, end)) => if cursor < end <= bytes.len() {
                bookmarks_to_end(bytes, end, found.push(bookmark))
            } else {
                Err(Seq::empty())
            },
        }
    }
}

/// The bookmarks of a payload, or why they cannot be read.
pub open spec fn navm_bookmarks(bytes: Seq<u8>) -> Result<Seq<BookmarkModel>, Seq<char>> {
    if bytes.len() == 0 {
        Err("NAVM payload is truncated"@)
    } else if bytes[0] != 1 {
        Err("unsupported NAVM version "@ + decimal(bytes[0] as nat))
    } else if bytes.len() == 1 {
        Err("NAVM payload is truncated"@)
    } else {
        bookmarks_to_end(bytes, 2, Seq::empty())
    }
}

/// The compressed payload of the bookmarks of a document, if it has any; or why the
/// document cannot be read.
pub open spec fn navm_data(bytes: Seq<u8>) -> Result<Option<Seq<u8>>, Seq<char>> {
    match document_of(bytes) {
        Err(message) => Err(message),
        Ok(document) => match first_with_id(document.root_chunks, "NAVM"@) {
            None => Ok(None),
            Some(chunk) => Ok(
                Some(bytes.subrange(chunk.data_start as int, chunk.data_end as int)),
            ),
        },
    }
}

/// The bookmarks of a document, if it has any, given what the `bzz` tool makes of their
/// payload; or why they cannot be read.
pub open spec fn document_bookmarks(bytes: Seq<u8>, tool_output: Option<Seq<u8>>) -> Result<
    Option<Seq<BookmarkModel>>,
    Seq<char>,
> {
    match navm_data(bytes) {
        Err(message) => Err(message),
        Ok(None) => Ok(None),
        Ok(Some(data)) => match bzz_decoded(data, tool_output) {
            Err(fault) => Err("failed to decode NAVM payload: "@ + bzz_message(fault)),
            Ok(decoded) => match navm_bookmarks(decoded) {
                Err(message) => Err(message),
                Ok(bookmarks) => Ok(Some(bookmarks)),
            },
        },
    }
}

proof fn lemma_head_end(bytes: Seq<u8>, cursor: int)
    requires
        0 <= cursor,
    ensures
        head_at(bytes, cursor) matches Ok(head) ==> cursor + 7 <= head.end <= bytes.len()
            && head.child_count <= u16::MAX,
{
}

proof fn lemma_bookmark_end(bytes: Seq<u8>, cursor: int, depth: nat)
    requires
        0 <= cursor,
    ensures
        bookmark_at(bytes, cursor, depth) matches Ok((_, end)) ==> cursor + 7 <= end
            <= bytes.len(),
    decreases bytes.len() - cursor, 0nat,
{
    lemma_head_end(bytes, cursor);
    match head_at(bytes, cursor) {
        Ok(head) => {
            if cursor < head.end <= bytes.len() {
                lemma_bookmarks_end(bytes, head.end, head.child_count, depth + 1, Seq::empty());
            }
        },
        Err(_) => {},
    }
}

proof fn lemma_bookmarks_end(
    bytes: Seq<u8>,
    cursor: int,
    count: nat,
    depth: nat,
    found: Seq<BookmarkModel>,
)
    requires
        0 <= cursor <= bytes.len(),
    ensures
        bookmarks_at(bytes, cursor, count, depth, found) matches Ok((_, end)) ==> cursor <= end
            <= bytes.len(),
    decreases bytes.len() - cursor, (count - found.len()) + 1,
{
    if found.len() < count {
        lemma_bookmark_end(bytes, cursor, depth);
        match bookmark_at(bytes, cursor, depth) {
            Ok((bookmark, end)) => {
                if cursor < end <= bytes.len() {
                    lemma_bookmarks_end(bytes, end, count, depth, found.push(bookmark));
                }
            },
            Err(_) => {},
        }
    }
}

proof fn lemma_count_push(bookmarks: Seq<BookmarkModel>, more: BookmarkModel)
    ensures
        bookmark_count(bookmarks.push(more)) == bookmark_count(bookmarks) + 1 + bookmark_count(
            more.children,
        ),
{
    assert(bookmarks.push(more).drop_last() =~= bookmarks);
}

proof fn lemma_bookmark_size(bytes: Seq<u8>, cursor: int, depth: nat)
    requires
        0 <= cursor,
    ensures
        bookmark_at(bytes, cursor, depth) matches Ok((bookmark, end)) ==> cursor + 7 * (1
            + bookmark_count(bookmark.children)) <= end,
    decreases bytes.len() - cursor, 0nat,
{
    lemma_head_end(bytes, cursor);
    match head_at(bytes, cursor) {
        Ok(head) => {
            if cursor < head.end <= bytes.len() {
                lemma_bookmarks_size(bytes, head.end, head.child_count, depth + 1, Seq::empty());
            }
        },
        Err(_) => {},
    }
}

proof fn lemma_bookmarks_size(
    bytes: Seq<u8>,
    cursor: int,
    count: nat,
    depth: nat,
    found: Seq<BookmarkModel>,
)
    requires
        0 <= cursor <= bytes.len(),
    ensures
        bookmarks_at(bytes, cursor, count, depth, found) matches Ok((bookmarks, end)) ==> cursor
            + 7 * (bookmark_count(bookmarks) - bookmark_count(found)) <= end,
    decreases bytes.len() - cursor, (count - found.len()) + 1,
{
    if found.len() < count {
        lemma_bookmark_size(bytes, cursor, depth);
        match bookmark_at(bytes, cursor, depth) {
            Ok((bookmark, end)) => {
                if cursor < end <= bytes.len() {
                    lemma_count_push(found, bookmark);
                    lemma_bookmarks_size(bytes, end, count, depth, found.push(bookmark));
                }
            },
            Err(_) => {},
        }
    }
}

proof fn lemma_all_size(bytes: Seq<u8>, cursor: int, found: Seq<BookmarkModel>)
    requires
        0 <= cursor,
        7 * bookmark_count(found) <= cursor <= bytes.len(),
    ensures
        bookmarks_to_end(bytes, cursor, found) matches Ok(bookmarks) ==> 7 * bookmark_count(
            bookmarks,
        ) <= bytes.len(),
    decreases bytes.len() - cursor,
{
    if cursor < bytes.len() {
        lemma_bookmark_size(bytes, cursor, 0);
        match bookmark_at(bytes, cursor, 0) {
            Ok((bookmark, end)) => {
                if cursor < end <= bytes.len() {
                    lemma_count_push(found, bookmark);
                    lemma_all_size(bytes, end, found.push(bookmark));
                }
            },
            Err(_) => {},
        }
    }
}

/// Every bookmark takes at least seven bytes.
pub proof fn lemma_bookmarks_take_bytes(bytes: Seq<u8>)
    ensures
        navm_bookmarks(bytes) matches Ok(bookmarks) ==> 7 * bookmark_count(bookmarks)
            <= bytes.len(),
{
    if bytes.len() >= 2 {
        lemma_all_size(bytes, 2, Seq::empty());
    }
}

/// Bookmarks have the given values where their values are those.
pub proof fn lemma_all_show_values(bookmarks: Seq<Bookmark>, models: Seq<BookmarkModel>)
    requires
        all_show(bookmarks, models),
    ensures
        bookmark_models(bookmarks) == models,
    decreases bookmarks,
{
    if bookmarks.len() > 0 {
        let last = bookmarks.last();
        assert(last == bookmarks[bookmarks.len() - 1]);
        assert(last.shows(models[models.len() - 1]));
        assert(all_show(bookmarks.drop_last(), models.drop_last()));
        lemma_all_show_values(bookmarks.drop_last(), models.drop_last());
        assert(all_show(last.children@, models.last().children));
        lemma_all_show_values(last.children@, models.last().children);
        assert(bookmark_models(bookmarks) =~= models);
    } else {
        assert(bookmark_models(bookmarks) =~= models);
    }
}

/// The bytes in which a bookmark is stored.
pub open spec fn bookmark_bytes(bookmark: BookmarkModel) -> Seq<u8>
    decreases bookmark,
{
    let count = bookmark.children.len();
    let title = utf8(bookmark.title);
    let url = utf8(bookmark.url);
    seq![
        (count % 256) as u8,
        (count / 256) as u8,
        (title.len() / 256) as u8,
        (title.len() % 256) as u8,
    ] + title + seq![
        (url.len() / 65536) as u8,
        ((url.len() / 256) % 256) as u8,
        (url.len() % 256) as u8,
    ] + url + bookmarks_bytes(bookmark.children)
}

/// The bytes in which bookmarks are stored.
pub open spec fn bookmarks_bytes(bookmarks: Seq<BookmarkModel>) -> Seq<u8>
    decreases bookmarks,
{
    if bookmarks.len() == 0 {
        Seq::empty()
    } else {
        bookmark_bytes(bookmarks[0]) + bookmarks_bytes(bookmarks.drop_first())
    }
}

/// The counts and lengths of a bookmark fit the fields in which they are stored.
pub open spec fn bookmark_fits(bookmark: BookmarkModel) -> bool
    decreases bookmark,
{
    &&& bookmark.children.len() <= 0xffff
    &&& utf8(bookmark.title).len() <= 0xffff
    &&& utf8(bookmark.url).len() <= 0xff_ffff
    &&& bookmarks_fit(bookmark.children)
}

/// The counts and lengths of bookmarks fit the fields in which they are stored.
pub open spec fn bookmarks_fit(bookmarks: Seq<BookmarkModel>) -> bool
    decreases bookmarks,
{
    bookmarks.len() == 0 || (bookmark_fits(bookmarks[0]) && bookmarks_fit(bookmarks.drop_first()))
}

proof fn lemma_bookmark_read_back(
    bytes: Seq<u8>,
    cursor: int,
    depth: nat,
    bookmark: BookmarkModel,
)
    requires
        0 <= cursor,
        cursor + bookmark_bytes(bookmark).len() <= bytes.len() <= usize::MAX,
        bytes.subrange(cursor, cursor + bookmark_bytes(bookmark).len()) == bookmark_bytes(
            bookmark,
        ),
        bookmark_fits(bookmark),
    ensures
        bookmark_at(bytes, cursor, depth) == Ok::<(BookmarkModel, int), Seq<char>>(
            (bookmark, cursor + bookmark_bytes(bookmark).len()),
        ),
    decreases bookmark,
{
    let stored = bookmark_bytes(bookmark);
    let title = utf8(bookmark.title);
    let url = utf8(bookmark.url);
    let below = bookmarks_bytes(bookmark.children);
    let part = bytes.subrange(cursor, cursor + stored.len());
    let title_end = cursor + 4 + title.len();
    let url_start = title_end + 3;
    let url_end = url_start + url.len();
    assert(stored.len() == 7 + title.len() + url.len() + below.len());
    assert forall|i: int| 0 <= i < stored.len() implies #[trigger] bytes[cursor + i]
        == stored[i] by {
        assert(part[i] == bytes[cursor + i]);
    }
    assert(bytes[cursor + 0] == stored[0] && bytes[cursor + 1] == stored[1]);
    assert(bytes[cursor + 2] == stored[2] && bytes[cursor + 3] == stored[3]);
    assert(256 * bytes[cursor + 2] + bytes[cursor + 3] == title.len());
    assert(256 * bytes[cursor + 1] + bytes[cursor] == bookmark.children.len());
    assert(bytes.subrange(cursor + 4, title_end) =~= title) by {
        assert forall|i: int| 0 <= i < title.len() implies bytes[cursor + 4 + i] == title[i] by {
            assert(bytes[cursor + (4 + i)] == stored[4 + i]);
        }
    }
    let at: int = 4 + title.len() as int;
    assert(bytes[cursor + at] == stored[at]);
    assert(bytes[cursor + (at + 1)] == stored[at + 1]);
    assert(bytes[cursor + (at + 2)] == stored[at + 2]);
    assert(65536 * bytes[title_end] + 256 * bytes[title_end + 1] + bytes[title_end + 2]
        == url.len());
    assert(bytes.subrange(url_start, url_end) =~= url) by {
        assert forall|i: int| 0 <= i < url.len() implies bytes[url_start + i] == url[i] by {
            assert(bytes[cursor + (at + 3 + i)] == stored[at + 3 + i]);
        }
    }
    assert(bytes.subrange(url_end, url_end + below.len()) =~= below) by {
        assert forall|i: int| 0 <= i < below.len() implies bytes[url_end + i] == below[i] by {
            assert(bytes[cursor + (at + 3 + url.len() + i)] == stored[at + 3 + url.len() + i]);
        }
    }
    vstd::utf8::encode_utf8_decode_utf8(bookmark.title);
    vstd::utf8::encode_utf8_decode_utf8(bookmark.url);
    vstd::utf8::encode_utf8_valid_utf8(bookmark.title);
    vstd::utf8::encode_utf8_valid_utf8(bookmark.url);
    lemma_bookmarks_read_back(
        bytes,
        url_end,
        bookmark.children.len(),
        depth + 1,
        Seq::empty(),
        bookmark.children,
    );
    assert(Seq::empty() + bookmark.children =~= bookmark.children);
}

proof fn lemma_bookmarks_read_back(
    bytes: Seq<u8>,
    cursor: int,
    count: nat,
    depth: nat,
    found: Seq<BookmarkModel>,
    rest: Seq<BookmarkModel>,
)
    requires
        0 <= cursor,
        count == found.len() + rest.len(),
        cursor + bookmarks_bytes(rest).len() <= bytes.len() <= usize::MAX,
        bytes.subrange(cursor, cursor + bookmarks_bytes(rest).len()) == bookmarks_bytes(rest),
        bookmarks_fit(rest),
    ensures
        bookmarks_at(bytes, cursor, count, depth, found) == Ok::<
            (Seq<BookmarkModel>, int),
            Seq<char>,
        >((found + rest, cursor + bookmarks_bytes(rest).len())),
    decreases rest,
{
    if rest.len() == 0 {
        assert(found + rest =~= found);
    } else {
        let first = bookmark_bytes(rest[0]);
        let later = bookmarks_bytes(rest.drop_first());
        let part = bytes.subrange(cursor, cursor + bookmarks_bytes(rest).len());
        let end = cursor + first.len();
        assert(bytes.subrange(cursor, end) =~= part.subrange(0, first.len() as int));
        assert(part.subrange(0, first.len() as int) =~= first);
        assert(bytes.subrange(end, end + later.len()) =~= part.subrange(
            first.len() as int,
            part.len() as int,
        ));
        assert(part.subrange(first.len() as int, part.len() as int) =~= later);
        lemma_bookmark_read_back(bytes, cursor, depth, rest[0]);
        lemma_bookmarks_read_back(
            bytes,
            end,
            count,
            depth,
            found.push(rest[0]),
            rest.drop_first(),
        );
        assert(found.push(rest[0]) + rest.drop_first() =~= found + rest);
    }
}

proof fn lemma_bookmarks_to_end(
    bytes: Seq<u8>,
    cursor: int,
    found: Seq<BookmarkModel>,
    rest: Seq<BookmarkModel>,
)
    requires
        0 <= cursor,
        cursor + bookmarks_bytes(rest).len() == bytes.len() <= usize::MAX,
        bytes.subrange(cursor, bytes.len() as int) == bookmarks_bytes(rest),
        bookmarks_fit(rest),
    ensures
        bookmarks_to_end(bytes, cursor, found) == Ok::<Seq<BookmarkModel>, Seq<char>>(
            found + rest,
        ),
    decreases rest,
{
    if rest.len() == 0 {
        assert(found + rest =~= found);
    } else {
        let first = bookmark_bytes(rest[0]);
        let later = bookmarks_bytes(rest.drop_first());
        let part = bytes.subrange(cursor, bytes.len() as int);
        let end = cursor + first.len();
        assert(bytes.subrange(cursor, end) =~= part.subrange(0, first.len() as int));
        assert(part.subrange(0, first.len() as int) =~= first);
        assert(bytes.subrange(end, bytes.len() as int) =~= part.subrange(
            first.len() as int,
            part.len() as int,
        ));
        assert(part.subrange(first.len() as int, part.len() as int) =~= later);
        lemma_bookmark_read_back(bytes, cursor, 0, rest[0]);
        lemma_bookmarks_to_end(bytes, end, found.push(rest[0]), rest.drop_first());
        assert(found.push(rest[0]) + rest.drop_first() =~= found + rest);
    }
}

/// Bookmarks that are stored are read back, whatever stands in the second byte.
pub proof fn lemma_stored_bookmarks_are_read_back(bookmarks: Seq<BookmarkModel>, header: u8)
    requires
        bookmarks_fit(bookmarks),
        2 + bookmarks_bytes(bookmarks).len() <= usize::MAX,
    ensures
        navm_bookmarks(seq![1u8, header] + bookmarks_bytes(bookmarks)) == Ok::<
            Seq<BookmarkModel>,
            Seq<char>,
        >(bookmarks),
{
    let bytes = seq![1u8, header] + bookmarks_bytes(bookmarks);
    assert(bytes.subrange(2, bytes.len() as int) =~= bookmarks_bytes(bookmarks));
    lemma_bookmarks_to_end(bytes, 2, Seq::empty(), bookmarks);
    assert(Seq::empty() + bookmarks =~= bookmarks);
}

/// The bytes in which a bookmark is stored, up to the bookmarks below it.
spec fn head_bytes(count: nat, title: Seq<u8>, url: Seq<u8>) -> Seq<u8> {
    seq![
        (count % 256) as u8,
        (count / 256) as u8,
        (title.len() / 256) as u8,
        (title.len() % 256) as u8,
    ] + title + seq![
        (url.len() / 65536) as u8,
        ((url.len() / 256) % 256) as u8,
        (url.len() % 256) as u8,
    ] + url
}

/// What the start of a bookmark was read of is what it is stored in.
#[verifier::spinoff_prover]
proof fn lemma_head_was_stored(bytes: Seq<u8>, cursor: int)
    requires
        0 <= cursor,
        head_at(bytes, cursor) is Ok,
    ensures
        ({
            let head = head_at(bytes, cursor)->Ok_0;
            &&& head.child_count <= 0xffff
            &&& utf8(head.title).len() <= 0xffff
            &&& utf8(head.url).len() <= 0xff_ffff
            &&& cursor < head.end <= bytes.len()
            &&& bytes.subrange(cursor, head.end) == head_bytes(
                head.child_count,
                utf8(head.title),
                utf8(head.url),
            )
        }),
{
    let head = head_at(bytes, cursor)->Ok_0;
    let title_len = 256 * bytes[cursor + 2] + bytes[cursor + 3];
    let title_end = cursor + 4 + title_len;
    let url_start = title_end + 3;
    let title = bytes.subrange(cursor + 4, title_end);
    let url = bytes.subrange(url_start, head.end);
    vstd::utf8::decode_utf8_encode_utf8(title);
    vstd::utf8::decode_utf8_encode_utf8(url);
    let first = bytes.subrange(cursor, cursor + 4);
    let middle = bytes.subrange(title_end, url_start);
    let count = head.child_count;
    assert(first =~= seq![
        (count % 256) as u8,
        (count / 256) as u8,
        (title.len() / 256) as u8,
        (title.len() % 256) as u8,
    ]);
    assert(middle =~= seq![
        (url.len() / 65536) as u8,
        ((url.len() / 256) % 256) as u8,
        (url.len() % 256) as u8,
    ]);
    lemma_joined(bytes, cursor, cursor + 4, title_end);
    lemma_joined(bytes, cursor, title_end, url_start);
    lemma_joined(bytes, cursor, url_start, head.end);
}

proof fn lemma_joined(bytes: Seq<u8>, start: int, middle: int, end: int)
    requires
        0 <= start <= middle <= end <= bytes.len(),
    ensures
        bytes.subrange(start, end) == bytes.subrange(start, middle) + bytes.subrange(middle, end),
{
    assert(bytes.subrange(start, end) =~= bytes.subrange(start, middle) + bytes.subrange(
        middle,
        end,
    ));
}

/// What a bookmark was read of is what it is stored in.
proof fn lemma_bookmark_was_stored(bytes: Seq<u8>, cursor: int, depth: nat)
    requires
        0 <= cursor,
    ensures
        bookmark_at(bytes, cursor, depth) matches Ok((bookmark, end)) ==> {
            &&& cursor < end <= bytes.len()
            &&& bookmark_fits(bookmark)
            &&& bytes.subrange(cursor, end) == bookmark_bytes(bookmark)
        },
    decreases bytes.len() - cursor, 0nat,
{
    lemma_bookmark_end(bytes, cursor, depth);
    if bookmark_at(bytes, cursor, depth) is Ok {
        lemma_head_was_stored(bytes, cursor);
        let head = head_at(bytes, cursor)->Ok_0;
        let (bookmark, end) = bookmark_at(bytes, cursor, depth)->Ok_0;
        lemma_bookmarks_were_stored(bytes, head.end, head.child_count, depth + 1, Seq::empty());
        assert(bookmark.children.skip(0) =~= bookmark.children);
        lemma_joined(bytes, cursor, head.end, end);
    }
}

proof fn lemma_bookmarks_were_stored(
    bytes: Seq<u8>,
    cursor: int,
    count: nat,
    depth: nat,
    found: Seq<BookmarkModel>,
)
    requires
        0 <= cursor <= bytes.len(),
        found.len() <= count,
    ensures
        bookmarks_at(bytes, cursor, count, depth, found) matches Ok((all, end)) ==> {
            &&& cursor <= end <= bytes.len()
            &&& all.len() == count
            &&& all.take(found.len() as int) == found
            &&& bookmarks_fit(all.skip(found.len() as int))
            &&& bytes.subrange(cursor, end) == bookmarks_bytes(all.skip(found.len() as int))
        },
    decreases bytes.len() - cursor, (count - found.len()) + 1,
{
    if bookmarks_at(bytes, cursor, count, depth, found) is Ok {
        let (all, end) = bookmarks_at(bytes, cursor, count, depth, found)->Ok_0;
        let from = found.len() as int;
        if from >= count {
            assert(all.take(from) =~= found);
            assert(all.skip(from) =~= Seq::empty());
            assert(bytes.subrange(cursor, end) =~= Seq::empty());
        } else {
            let (bookmark, next) = bookmark_at(bytes, cursor, depth)->Ok_0;
            let more = found.push(bookmark);
            lemma_bookmark_was_stored(bytes, cursor, depth);
            lemma_bookmarks_were_stored(bytes, next, count, depth, more);
            assert(all.take(from + 1)[from] == bookmark);
            assert(all.take(from) =~= all.take(from + 1).take(from));
            assert(more.take(from) =~= found);
            assert(all.skip(from)[0] == bookmark);
            assert(all.skip(from).drop_first() =~= all.skip(from + 1));
            assert(bytes.subrange(cursor, end) =~= bytes.subrange(cursor, next) + bytes.subrange(
                next,
                end,
            ));
        }
    }
}

proof fn lemma_all_were_stored(bytes: Seq<u8>, cursor: int, found: Seq<BookmarkModel>)
    requires
        0 <= cursor <= bytes.len(),
    ensures
        bookmarks_to_end(bytes, cursor, found) matches Ok(all) ==> {
            &&& found.len() <= all.len()
            &&& all.take(found.len() as int) == found
            &&& bookmarks_fit(all.skip(found.len() as int))
            &&& bytes.skip(cursor) == bookmarks_bytes(all.skip(found.len() as int))
        },
    decreases bytes.len() - cursor,
{
    if bookmarks_to_end(bytes, cursor, found) is Ok {
        let all = bookmarks_to_end(bytes, cursor, found)->Ok_0;
        let from = found.len() as int;
        if cursor >= bytes.len() {
            assert(all.take(from) =~= found);
            assert(all.skip(from) =~= Seq::empty());
            assert(bytes.skip(cursor) =~= Seq::empty());
        } else {
            let (bookmark, next) = bookmark_at(bytes, cursor, 0)->Ok_0;
            let more = found.push(bookmark);
            lemma_bookmark_was_stored(bytes, cursor, 0);
            lemma_all_were_stored(bytes, next, more);
            assert(all.take(from + 1)[from] == bookmark);
            assert(all.take(from) =~= all.take(from + 1).take(from));
            assert(more.take(from) =~= found);
            assert(all.skip(from)[0] == bookmark);
            assert(all.skip(from).drop_first() =~= all.skip(from + 1));
            assert(bytes.skip(cursor) =~= bytes.subrange(cursor, next) + bytes.skip(next));
        }
    }
}

/// Bookmarks are read of a payload exactly if it is a version of 1, any byte, and the bytes
/// in which these bookmarks are stored. Any other payload is refused.
pub proof fn lemma_bookmarks_exactly(bytes: Seq<u8>, bookmarks: Seq<BookmarkModel>)
    requires
        bytes.len() <= usize::MAX,
    ensures
        navm_bookmarks(bytes) == Ok::<Seq<BookmarkModel>, Seq<char>>(bookmarks) <==> {
            &&& bytes.len() >= 2
            &&& bytes[0] == 1
            &&& bookmarks_fit(bookmarks)
            &&& bytes.skip(2) == bookmarks_bytes(bookmarks)
        },
{
    if bytes.len() >= 2 {
        if navm_bookmarks(bytes) is Ok {
            lemma_all_were_stored(bytes, 2, Seq::empty());
            let all = navm_bookmarks(bytes)->Ok_0;
            assert(all.skip(0) =~= all);
        }
        if bytes[0] == 1 && bookmarks_fit(bookmarks) && bytes.skip(2) == bookmarks_bytes(
            bookmarks,
        ) {
            assert(bytes =~= seq![1u8, bytes[1]] + bookmarks_bytes(bookmarks)) by {
                assert(bytes =~= seq![bytes[0], bytes[1]] + bytes.skip(2));
            }
            assert(bytes.len() == 2 + bytes.skip(2).len());
            lemma_stored_bookmarks_are_read_back(bookmarks, bytes[1]);
        }
    }
}

/// Insists that a number of the given size is there, and says where it ends.
fn number_end(bytes: &[u8], cursor: usize, size: usize) -> (end: Result<usize, ParseError>)
    ensures
        match number_fault(bytes@.len() as int, cursor as int, size as int) {
            Some(message) => end is Err && end->Err_0@ == message,
            None => end is Ok && end->Ok_0 == cursor + size && end->Ok_0 <= bytes@.len(),
        },
{
    match cursor.checked_add(size) {
        None => Err(ParseError::new("NAVM offset overflow")),
        Some(end) => if end > bytes.len() {
            Err(ParseError::new("NAVM payload is truncated"))
        } else {
            Ok(end)
        },
    }
}

/// Reads a text of the given length.
fn read_string(bytes: &[u8], cursor: usize, len: usize, field: &str) -> (text: Result<
    String,
    ParseError,
>)
    ensures
        match string_fault(bytes@, cursor as int, len as int, field@) {
            Some(message) => text is Err && text->Err_0@ == message,
            None => text is Ok && text->Ok_0@ == decode_utf8(
                bytes@.subrange(cursor as int, cursor + len),
            ),
        },
{
    let end: usize = match cursor.checked_add(len) {
        None => {
            let mut message: String = text_of("NAVM ");
            message.append(field);
            message.append(" length overflow");
            return Err(ParseError(message));
        },
        Some(end) => end,
    };
    if end > bytes.len() {
        let mut message: String = text_of("NAVM ");
        message.append(field);
        message.append(" is truncated at offset ");
        push_decimal(&mut message, cursor as u64);
        message.append(" with length ");
        push_decimal(&mut message, len as u64);
        return Err(ParseError(message));
    }
    match text_from_utf8(vstd::slice::slice_subrange(bytes, cursor, end)) {
        Ok(text) => Ok(text_of(text)),
        Err(error) => {
            let mut message: String = text_of("NAVM ");
            message.append(field);
            message.append(" is not valid UTF-8: ");
            message.append(error.as_str());
            Err(ParseError(message))
        },
    }
}

/// Adds a remark and a quoted title to an error.
fn with_title(error: ParseError, remark: &str, title: &str) -> (longer: ParseError)
    ensures
        longer@ == error@ + remark@ + debug_text(title@),
{
    let mut message: String = error.0;
    message.append(remark);
    message.append(quoted(title).as_str());
    ParseError(message)
}

/// Reads the bookmark at an offset, and says where it ends.
fn parse_bookmark(bytes: &[u8], cursor: usize, depth: usize) -> (bookmark: Result<
    (Bookmark, usize),
    ParseError,
>)
    requires
        cursor <= bytes@.len(),
        depth <= cursor,
    ensures
        match bookmark_at(bytes@, cursor as int, depth as nat) {
            Err(message) => bookmark is Err && bookmark->Err_0@ == message,
            Ok((model, end)) => bookmark is Ok && bookmark->Ok_0.0.shows(model)
                && bookmark->Ok_0.1 == end && cursor < end <= bytes@.len(),
        },
    decreases bytes@.len() - cursor, 0nat,
{
    proof {
        lemma_head_end(bytes@, cursor as int);
        lemma_bookmark_end(bytes@, cursor as int, depth as nat);
    }
    let after_count: usize = match number_end(bytes, cursor, 2) {
        Err(error) => {
            return Err(error);
        },
        Ok(end) => end,
    };
    let child_count: usize = 256 * bytes[cursor + 1] as usize + bytes[cursor] as usize;
    let title_start: usize = match number_end(bytes, after_count, 2) {
        Err(error) => {
            return Err(error);
        },
        Ok(end) => end,
    };
    let title_len: usize = 256 * bytes[after_count] as usize + bytes[after_count + 1] as usize;
    let title: String = match read_string(bytes, title_start, title_len, "title") {
        Err(error) => {
            return Err(error);
        },
        Ok(title) => title,
    };
    let title_end: usize = title_start + title_len;
    let url_start: usize = match number_end(bytes, title_end, 3) {
        Err(error) => {
            return Err(error);
        },
        Ok(end) => end,
    };
    let url_len: usize = 65536 * bytes[title_end] as usize + 256 * bytes[title_end + 1] as usize
        + bytes[title_end + 2] as usize;
    let url: String = match read_string(bytes, url_start, url_len, "URL") {
        Err(error) => {
            return Err(with_title(error, " after NAVM title ", title.as_str()));
        },
        Ok(url) => url,
    };
    let url_end: usize = url_start + url_len;
    assert(head_at(bytes@, cursor as int) is Ok);
    assert(head_at(bytes@, cursor as int)->Ok_0.end == url_end);
    match parse_bookmark_list(bytes, url_end, child_count, depth + 1) {
        Err(error) => Err(with_title(error, " under NAVM title ", title.as_str())),
        Ok((children, end)) => Ok((Bookmark { title, url, children }, end)),
    }
}

/// Reads so many bookmarks from an offset on, and says where they end.
fn parse_bookmark_list(bytes: &[u8], cursor: usize, count: usize, depth: usize) -> (bookmarks:
    Result<(Vec<Bookmark>, usize), ParseError>)
    requires
        cursor <= bytes@.len(),
        depth <= cursor,
    ensures
        match bookmarks_at(
            bytes@,
            cursor as int,
            count as nat,
            depth as nat,
            Seq::empty(),
        ) {
            Err(message) => bookmarks is Err && bookmarks->Err_0@ == message,
            Ok((models, end)) => bookmarks is Ok && all_show(bookmarks->Ok_0.0@, models)
                && bookmarks->Ok_0.1 == end && cursor <= end <= bytes@.len(),
        },
    decreases bytes@.len() - cursor, count + 1,
{
    let mut at: usize = cursor;
    let mut bookmarks: Vec<Bookmark> = Vec::new();
    let mut index: usize = 0;
    let ghost mut models: Seq<BookmarkModel> = Seq::empty();
    while index < count
        invariant
            index <= count,
            cursor <= at <= bytes@.len(),
            depth <= cursor,
            models.len() == index,
            all_show(bookmarks@, models),
            bookmarks_at(
                bytes@,
                cursor as int,
                count as nat,
                depth as nat,
                Seq::empty(),
            ) == bookmarks_at(bytes@, at as int, count as nat, depth as nat, models),
        decreases count - index,
    {
        match parse_bookmark(bytes, at, depth) {
            Err(error) => {
                let mut message: String = error.0;
                message.append(" while parsing NAVM bookmark ");
                push_decimal(&mut message, (index + 1) as u64);
                message.append(" of ");
                push_decimal(&mut message, count as u64);
                message.append(" at depth ");
                push_decimal(&mut message, depth as u64);
                return Err(ParseError(message));
            },
            Ok((bookmark, end)) => {
                proof {
                    let model = bookmark_at(bytes@, at as int, depth as nat)->Ok_0.0;
                    models = models.push(model);
                }
                bookmarks.push(bookmark);
                at = end;
            },
        }
        index = index + 1;
    }
    Ok((bookmarks, at))
}

/// Reads the bookmarks of a decoded payload.
pub fn parse_navm_bookmarks(bytes: &[u8]) -> (bookmarks: Result<Vec<Bookmark>, ParseError>)
    ensures
        agrees(
            bookmarks,
            navm_bookmarks(bytes@),
            |bookmarks: Vec<Bookmark>, models: Seq<BookmarkModel>| all_show(bookmarks@, models),
        ),
{
    if bytes.len() == 0 {
        return Err(ParseError::new("NAVM payload is truncated"));
    }
    let version: u8 = bytes[0];
    if version != 1 {
        let mut message: String = text_of("unsupported NAVM version ");
        push_decimal(&mut message, version as u64);
        return Err(ParseError(message));
    }
    if bytes.len() == 1 {
        return Err(ParseError::new("NAVM payload is truncated"));
    }
    let mut cursor: usize = 2;
    let mut bookmarks: Vec<Bookmark> = Vec::new();
    let ghost mut models: Seq<BookmarkModel> = Seq::empty();
    while cursor < bytes.len()
        invariant
            cursor <= bytes@.len(),
            bytes@.len() <= usize::MAX,
            bookmarks@.len() < cursor,
            all_show(bookmarks@, models),
            bookmarks_to_end(bytes@, cursor as int, models) == navm_bookmarks(bytes@),
        decreases bytes@.len() - cursor,
    {
        match parse_bookmark(bytes, cursor, 0) {
            Err(error) => {
                let mut message: String = error.0;
                message.append(" while parsing top-level NAVM bookmark ");
                push_decimal(&mut message, (bookmarks.len() + 1) as u64);
                return Err(ParseError(message));
            },
            Ok((bookmark, end)) => {
                proof {
                    let model = bookmark_at(bytes@, cursor as int, 0)->Ok_0.0;
                    models = models.push(model);
                }
                bookmarks.push(bookmark);
                cursor = end;
            },
        }
    }
    Ok(bookmarks)
}

/// The compressed payload of the bookmarks of a document, if it has any.
pub fn navm_payload(bytes: &[u8]) -> (payload: Result<Option<&[u8]>, ParseError>)
    ensures
        match navm_data(bytes@) {
            Err(message) => payload is Err && payload->Err_0@ == message,
            Ok(data) => payload is Ok && given(payload->Ok_0) == data,
        },
{
    let document = match Document::parse(bytes) {
        Err(error) => {
            return Err(error);
        },
        Ok(document) => document,
    };
    proof {
        let root = document@.root;
        crate::chunk::lemma_chunks_in_order(
            bytes@,
            root.children_start as int,
            root.chunk.data_end as int,
        );
    }
    match find_chunk(document.root_chunks.as_slice(), "NAVM") {
        None => Ok(None),
        Some(chunk) => {
            proof {
                let i = choose|i: int|
                    0 <= i < document.root_chunks@.len() && document.root_chunks@[i] == chunk;
                assert(chunks_view(document.root_chunks@)[i] == chunk@);
            }
            Ok(Some(vstd::slice::slice_subrange(bytes, chunk.data_start, chunk.data_end)))
        },
    }
}

/// Reads the bookmarks of a document, if it has any. What the `bzz` tool makes of their
/// payload is used where it is needed and given.
pub fn extract_document_bookmarks(bytes: &[u8], tool_output: Option<&[u8]>) -> (bookmarks: Result<
    Option<Vec<Bookmark>>,
    ParseError,
>)
    ensures
        agrees(
            bookmarks,
            document_bookmarks(bytes@, given(tool_output)),
            |bookmarks: Option<Vec<Bookmark>>, models: Option<Seq<BookmarkModel>>|
                match models {
                    None => bookmarks is None,
                    Some(models) => bookmarks is Some && all_show(bookmarks->0@, models),
                },
        ),
        bookmarks matches Ok(Some(bookmarks)) ==> 7 * bookmark_count(
            bookmark_models(bookmarks@),
        ) <= usize::MAX,
{
    let payload: Option<&[u8]> = match navm_payload(bytes) {
        Err(error) => {
            return Err(error);
        },
        Ok(payload) => payload,
    };
    match payload {
        None => Ok(None),
        Some(payload) => match decode_bzz(payload, tool_output) {
            Err(error) => {
                let mut message: String = text_of("failed to decode NAVM payload: ");
                message.append(error.message().as_str());
                Err(ParseError(message))
            },
            Ok(decoded) => match parse_navm_bookmarks(decoded.as_slice()) {
                Err(error) => Err(error),
                Ok(bookmarks) => {
                    proof {
                        assert(decoded@.len() == decoded.len());
                        lemma_bookmarks_take_bytes(decoded@);
                        lemma_all_show_values(bookmarks@, navm_bookmarks(decoded@)->Ok_0);
                    }
                    Ok(Some(bookmarks))
                },
            },
        },
    }
}

} // verus!
