//! The text layer of a PDF file: invisible text over the images of the pages.

use crate::pdf::outline::{
    char_hex, hex_digit, pdf_text_string, push_char_hex, push_hex_digit, text_string,
};
use crate::pdf::stream::{points_from_signed_pixels, signed_points_text};
use crate::pdf::{PdfError, PdfResult};
use crate::text::{
    chars_of, decimal_bytes, push_bytes, push_decimal_bytes, push_text, text_from_utf8, text_of,
    utf8,
};
use vstd::prelude::*;
use vstd::utf8::{decode_utf8, valid_utf8};

verus! {

/// What a zone of text is.
#[derive(Debug, Clone, Copy, PartialEq, Eq, Structural)]
pub enum TextZoneKind {
    Page,
    Column,
    Region,
    Paragraph,
    Line,
    Word,
    Character,
}

/// A zone of text: where it is on the page, which bytes of the text of the page it holds,
/// and the zones in it.
#[derive(Debug, PartialEq, Eq)]
pub struct TextZone {
    pub kind: TextZoneKind,
    pub x_min: i32,
    pub y_min: i32,
    pub width: i32,
    pub height: i32,
    pub text_start: usize,
    pub text_end: usize,
    pub children: Vec<TextZone>,
}

/// The text of a page, and the zone of the page, if it has one.
#[derive(Debug, PartialEq, Eq)]
pub struct ExtractedTextZonePage {
    pub text: String,
    pub zone: Option<TextZone>,
}

/// A piece of text, and where it is on the page.
#[derive(Debug, Clone, PartialEq, Eq)]
pub struct PdfTextSpan {
    pub text: String,
    pub x: i32,
    pub y: i32,
    pub width: i32,
    pub height: i32,
}

/// The text of a page.
#[derive(Debug, Clone, PartialEq, Eq)]
pub struct PdfTextPage {
    pub spans: Vec<PdfTextSpan>,
}

/// The codes of characters: those from space to tilde have their own, and the others have
/// codes from 128 on, in the order in which they come up.
#[derive(Debug, Clone, PartialEq, Eq)]
pub struct PdfTextEncoding {
    pub characters: Vec<char>,
}

/// A piece of text by its values.
#[verifier::ext_equal]
pub struct SpanModel {
    pub text: Seq<char>,
    pub x: int,
    pub y: int,
    pub width: int,
    pub height: int,
}

impl View for PdfTextSpan {
    type V = SpanModel;

    open spec fn view(&self) -> SpanModel {
        SpanModel {
            text: self.text@,
            x: self.x as int,
            y: self.y as int,
            width: self.width as int,
            height: self.height as int,
        }
    }
}

/// The pieces of a list by their values.
pub open spec fn spans_view(spans: Seq<PdfTextSpan>) -> Seq<SpanModel> {
    Seq::new(spans.len(), |i: int| spans[i]@)
}

/// The text of pages by its values.
pub open spec fn pages_view(pages: Seq<PdfTextPage>) -> Seq<Seq<SpanModel>> {
    Seq::new(pages.len(), |i: int| spans_view(pages[i].spans@))
}

/// Whether a character is white space.
pub open spec fn is_white(character: char) -> bool {
    let code = character as int;
    9 <= code <= 13 || code == 32 || code == 0x85 || code == 0xa0 || code == 0x1680 || 0x2000
        <= code <= 0x200a || code == 0x2028 || code == 0x2029 || code == 0x202f || code == 0x205f
        || code == 0x3000
}

/// A text without the white space at its end.
pub open spec fn trimmed(text: Seq<char>) -> Seq<char>
    decreases text.len(),
{
    if text.len() > 0 && is_white(text.last()) {
        trimmed(text.drop_last())
    } else {
        text
    }
}

/// The text of a range of bytes, or none where the range does not hold whole characters.
pub open spec fn range_text(bytes: Seq<u8>, start: int, end: int) -> Seq<char> {
    if start <= end <= bytes.len() && valid_utf8(bytes.subrange(start, end)) {
        decode_utf8(bytes.subrange(start, end))
    } else {
        Seq::empty()
    }
}

/// The text of a zone, without the white space at its end.
pub open spec fn zone_word(zone: TextZone, text: Seq<u8>) -> Seq<char> {
    trimmed(range_text(text, zone.text_start as int, zone.text_end as int))
}

/// Words with one more, parted by a space.
pub open spec fn with_word(line: Option<Seq<char>>, word: Seq<char>) -> Option<Seq<char>> {
    match line {
        Some(line) => Some(line + " "@ + word),
        None => Some(word),
    }
}

/// The words of zones behind those of a line, if there are any.
pub open spec fn line_words(zones: Seq<TextZone>, text: Seq<u8>, line: Option<Seq<char>>) -> Option<
    Seq<char>,
>
    decreases zones,
{
    if zones.len() == 0 {
        line
    } else {
        let before = line_words(zones.drop_last(), text, line);
        let zone = zones.last();
        let word = zone_word(zone, text);
        if zone.kind is Word {
            if word.len() > 0 {
                with_word(before, word)
            } else {
                before
            }
        } else {
            line_words(zone.children@, text, before)
        }
    }
}

/// The text of a line, with its words parted by spaces.
pub open spec fn line_text(zone: TextZone, text: Seq<u8>) -> Seq<char> {
    match line_words(zone.children@, text, None) {
        Some(line) => line,
        None => Seq::empty(),
    }
}

/// A piece of text in the place of a zone, unless it is empty.
pub open spec fn span_in(zone: TextZone, text: Seq<char>) -> Seq<SpanModel> {
    if text.len() > 0 {
        seq![
            SpanModel {
                text,
                x: zone.x_min as int,
                y: zone.y_min as int,
                width: zone.width as int,
                height: zone.height as int,
            },
        ]
    } else {
        Seq::empty()
    }
}

/// The pieces of text of zones: one for each line, and one for each word outside of lines.
pub open spec fn zone_spans(zones: Seq<TextZone>, text: Seq<u8>) -> Seq<SpanModel>
    decreases zones,
{
    if zones.len() == 0 {
        Seq::empty()
    } else {
        let zone = zones.last();
        zone_spans(zones.drop_last(), text) + (if zone.kind is Line {
            span_in(zone, line_text(zone, text))
        } else if zone.kind is Word {
            span_in(zone, zone_word(zone, text))
        } else {
            zone_spans(zone.children@, text)
        })
    }
}

/// The pieces of text of a page.
pub open spec fn page_spans(page: ExtractedTextZonePage) -> Seq<SpanModel> {
    match page.zone {
        Some(zone) => zone_spans(seq![zone], utf8(page.text@)),
        None => Seq::empty(),
    }
}

/// The pieces of text of pages.
pub open spec fn all_spans(pages: Seq<ExtractedTextZonePage>) -> Seq<Seq<SpanModel>> {
    Seq::new(pages.len(), |i: int| page_spans(pages[i]))
}

/// The text of pieces, one behind the other.
pub open spec fn spans_text(spans: Seq<SpanModel>) -> Seq<char>
    decreases spans.len(),
{
    if spans.len() == 0 {
        Seq::empty()
    } else {
        spans_text(spans.drop_last()) + spans.last().text
    }
}

/// The text of pages, one behind the other.
pub open spec fn pages_text(pages: Seq<Seq<SpanModel>>) -> Seq<char>
    decreases pages.len(),
{
    if pages.len() == 0 {
        Seq::empty()
    } else {
        pages_text(pages.drop_last()) + spans_text(pages.last())
    }
}

/// Whether a character has its own code.
pub open spec fn is_plain(character: char) -> bool {
    0x20 <= character as int <= 0x7e
}

/// The characters of a text without a code of their own, each once.
pub open spec fn custom_characters(text: Seq<char>) -> Seq<char>
    decreases text.len(),
{
    if text.len() == 0 {
        Seq::empty()
    } else {
        let before = custom_characters(text.drop_last());
        if is_plain(text.last()) || before.contains(text.last()) {
            before
        } else {
            before.push(text.last())
        }
    }
}

/// The characters that get codes, or what is said where there are too many.
pub open spec fn encoding_of(pages: Seq<Seq<SpanModel>>) -> Result<Seq<char>, Seq<char>> {
    let characters = custom_characters(pages_text(pages));
    if characters.len() >= 128 {
        Err("PDF text layer uses more than 128 non-ASCII characters"@)
    } else {
        Ok(characters)
    }
}

/// The first place of a character from a place on.
pub open spec fn place_from(characters: Seq<char>, character: char, from: int) -> int
    decreases characters.len() - from,
{
    if from >= characters.len() || characters[from] == character {
        from
    } else {
        place_from(characters, character, from + 1)
    }
}

/// The code of a character.
pub open spec fn code_of(characters: Seq<char>, character: char) -> u8 {
    if is_plain(character) {
        character as u8
    } else {
        (0x80 + place_from(characters, character, 0)) as u8
    }
}

/// Whether a character has a code.
pub open spec fn has_code(characters: Seq<char>, character: char) -> bool {
    is_plain(character) || characters.contains(character)
}

/// The codes of a text.
pub open spec fn encoded(characters: Seq<char>, text: Seq<char>) -> Seq<u8> {
    Seq::new(text.len(), |i: int| code_of(characters, text[i]))
}

/// The codes with their characters.
pub open spec fn entries_of(characters: Seq<char>) -> Seq<(u8, char)> {
    Seq::new(
        95 + characters.len(),
        |i: int|
            if i < 95 {
                ((0x20 + i) as u8, (0x20 + i) as char)
            } else {
                ((0x80 + i - 95) as u8, characters[i - 95])
            },
    )
}

/// The line of an entry: a code, and the character that it stands for.
#[verifier::opaque]
pub open spec fn entry_line(entry: (u8, char)) -> Seq<u8> {
    utf8("<"@) + seq![hex_digit(entry.0 as int / 16), hex_digit(entry.0 as int % 16)] + utf8(
        "> <"@,
    ) + char_hex(entry.1) + utf8(">\n"@)
}

/// The lines of the first `count` entries from a place on.
pub open spec fn entry_lines(entries: Seq<(u8, char)>, from: int, count: int) -> Seq<u8>
    decreases count,
{
    if count <= 0 {
        Seq::empty()
    } else {
        entry_lines(entries, from, count - 1) + entry_line(entries[from + count - 1])
    }
}

/// So many entries from a place on, as a group.
#[verifier::opaque]
pub open spec fn entry_group(entries: Seq<(u8, char)>, from: int, count: int) -> Seq<u8> {
    decimal_bytes(count as nat) + utf8(" beginbfchar\n"@) + entry_lines(entries, from, count)
        + utf8("endbfchar\n"@)
}

/// The entries from a place on, in groups of at most a hundred.
pub open spec fn entry_groups(entries: Seq<(u8, char)>, from: int) -> Seq<u8>
    decreases entries.len() - from,
{
    if from >= entries.len() {
        Seq::empty()
    } else {
        let count = if entries.len() - from < 100 {
            entries.len() - from
        } else {
            100
        };
        entry_group(entries, from, count) + entry_groups(entries, from + count)
    }
}

/// What stands before the entries of a character map.
pub open spec fn cmap_start() -> Seq<u8> {
    utf8(
        "/CIDInit /ProcSet findresource begin\n12 dict begin\nbegincmap\n/CIDSystemInfo << /Registry (Adobe) /Ordering (UCS) /Supplement 0 >> def\n/CMapName /DjvulpesText def\n/CMapType 2 def\n1 begincodespacerange\n<20> <FF>\nendcodespacerange\n"@,
    )
}

/// What stands behind the entries of a character map.
pub open spec fn cmap_end() -> Seq<u8> {
    utf8("endcmap\nCMapName currentdict /CMap defineresource pop\nend\nend"@)
}

/// The map from codes to characters.
pub open spec fn cmap_of(characters: Seq<char>) -> Seq<u8> {
    cmap_start() + entry_groups(entries_of(characters), 0) + cmap_end()
}

/// A byte of a literal string.
pub open spec fn literal_byte(byte: u8) -> Seq<u8> {
    if byte == 40 || byte == 41 || byte == 92 {
        seq![92u8, byte]
    } else if byte == 10 {
        seq![92u8, 110u8]
    } else if byte == 13 {
        seq![92u8, 114u8]
    } else if byte == 9 {
        seq![92u8, 116u8]
    } else if 0x20 <= byte <= 0x7e {
        seq![byte]
    } else {
        seq![
            92u8,
            (48 + byte as int / 64) as u8,
            (48 + (byte as int / 8) % 8) as u8,
            (48 + byte as int % 8) as u8,
        ]
    }
}

/// The bytes of a literal string.
pub open spec fn literal_bytes(bytes: Seq<u8>) -> Seq<u8>
    decreases bytes.len(),
{
    if bytes.len() == 0 {
        Seq::empty()
    } else {
        literal_bytes(bytes.drop_last()) + literal_byte(bytes.last())
    }
}

/// A literal string.
pub open spec fn literal_string(bytes: Seq<u8>) -> Seq<u8> {
    utf8("("@) + literal_bytes(bytes) + utf8(")"@)
}

/// What shows a piece of text.
pub open spec fn span_content(span: SpanModel, dpi: nat, characters: Seq<char>) -> Seq<u8> {
    let height = signed_points_text(
        if span.height < 1 {
            1
        } else {
            span.height
        },
        dpi,
    );
    utf8("/Span << /ActualText "@) + text_string(span.text) + utf8(" >> BDC\n"@) + height + utf8(
        " 0 0 "@,
    ) + height + utf8(" "@) + signed_points_text(span.x, dpi) + utf8(" "@) + signed_points_text(
        span.y,
        dpi,
    ) + utf8(" Tm\n"@) + literal_string(encoded(characters, span.text)) + utf8(" Tj\nEMC\n"@)
}

/// What shows pieces of text.
pub open spec fn spans_content(spans: Seq<SpanModel>, dpi: nat, characters: Seq<char>) -> Seq<u8>
    decreases spans.len(),
{
    if spans.len() == 0 {
        Seq::empty()
    } else {
        spans_content(spans.drop_last(), dpi, characters) + span_content(
            spans.last(),
            dpi,
            characters,
        )
    }
}

/// What shows the text of a page, if it has any.
pub open spec fn layer_content(spans: Seq<SpanModel>, dpi: nat, characters: Seq<char>) -> Seq<u8> {
    if spans.len() == 0 {
        Seq::empty()
    } else {
        utf8("q\nBT\n3 Tr\n/Ftxt 1 Tf\n"@) + spans_content(spans, dpi, characters) + utf8(
            "ET\nQ\n"@,
        )
    }
}

/// Whether a character is white space.
fn white(character: char) -> (white: bool)
    ensures
        white == is_white(character),
{
    let code: u32 = character as u32;
    (9 <= code && code <= 13) || code == 32 || code == 0x85 || code == 0xa0 || code == 0x1680 || (
    0x2000 <= code && code <= 0x200a) || code == 0x2028 || code == 0x2029 || code == 0x202f || code
        == 0x205f || code == 0x3000
}

/// A text without the white space at its end.
fn trim_end(text: &str) -> (shorter: String)
    ensures
        shorter@ == trimmed(text@),
{
    let characters: Vec<char> = chars_of(text);
    let mut len: usize = characters.len();
    assert(text@.take(len as int) =~= text@);
    while len > 0 && white(characters[len - 1])
        invariant
            len <= characters@.len(),
            characters@ == text@,
            trimmed(text@) == trimmed(text@.take(len as int)),
        decreases len,
    {
        assert(text@.take(len as int).drop_last() =~= text@.take(len - 1));
        len = len - 1;
    }
    let shorter: &str = text.substring_char(0, len);
    assert(shorter@ =~= text@.take(len as int));
    text_of(shorter)
}

/// The text of a zone, without the white space at its end.
fn pdf_text_zone_word(zone: &TextZone, text: &str) -> (word: String)
    ensures
        word@ == zone_word(*zone, utf8(text@)),
{
    let bytes: &[u8] = text.as_bytes();
    if zone.text_start <= zone.text_end && zone.text_end <= bytes.len() {
        match text_from_utf8(
            vstd::slice::slice_subrange(bytes, zone.text_start, zone.text_end),
        ) {
            Ok(range) => {
                return trim_end(range);
            },
            Err(_) => {},
        }
    }
    assert(trimmed(Seq::<char>::empty()) =~= Seq::empty());
    String::new()
}

/// A line that may be there, by its characters.
pub open spec fn line_view(line: Option<String>) -> Option<Seq<char>> {
    match line {
        Some(line) => Some(line@),
        None => None,
    }
}

/// Adds the words of zones to those of a line.
fn collect_pdf_line_words(zones: &[TextZone], text: &str, line: Option<String>) -> (longer: Option<
    String,
>)
    ensures
        line_view(longer) == line_words(zones@, utf8(text@), line_view(line)),
    decreases zones@,
{
    let ghost start = line_view(line);
    let mut words: Option<String> = line;
    let mut index: usize = 0;
    assert(zones@.take(0) =~= Seq::<TextZone>::empty());
    while index < zones.len()
        invariant
            index <= zones@.len(),
            line_view(words) == line_words(zones@.take(index as int), utf8(text@), start),
        decreases zones@.len() - index,
    {
        let zone: &TextZone = &zones[index];
        assert(zones@.take(index + 1).drop_last() =~= zones@.take(index as int));
        assert(zones@.take(index + 1).last() == zones@[index as int]);
        if zone.kind == TextZoneKind::Word {
            let word: String = pdf_text_zone_word(zone, text);
            if word.as_str().unicode_len() > 0 {
                words = match words {
                    None => Some(word),
                    Some(mut before) => {
                        before.append(" ");
                        before.append(word.as_str());
                        Some(before)
                    },
                };
            }
        } else {
            assert(decreases_to!(zones@ => zones@[index as int].children@));
            words = collect_pdf_line_words(zone.children.as_slice(), text, words);
        }
        index = index + 1;
    }
    assert(zones@.take(index as int) =~= zones@);
    words
}

/// Adds a piece of text in the place of a zone, unless it is empty.
fn push_span(spans: &mut Vec<PdfTextSpan>, zone: &TextZone, text: String)
    ensures
        spans_view(final(spans)@) == spans_view(old(spans)@) + span_in(*zone, text@),
{
    if text.as_str().unicode_len() > 0 {
        spans.push(
            PdfTextSpan {
                text,
                x: zone.x_min,
                y: zone.y_min,
                width: zone.width,
                height: zone.height,
            },
        );
    }
    assert(spans_view(spans@) =~= spans_view(old(spans)@) + span_in(*zone, text@));
}

proof fn lemma_zone_spans_push(zones: Seq<TextZone>, zone: TextZone, text: Seq<u8>)
    ensures
        zone_spans(zones.push(zone), text) == zone_spans(zones, text) + zone_spans(
            seq![zone],
            text,
        ),
{
    assert(zones.push(zone).drop_last() =~= zones);
    assert(seq![zone].drop_last() =~= Seq::<TextZone>::empty());
    assert(zone_spans(Seq::<TextZone>::empty(), text) =~= Seq::empty());
    assert(seq![zone].last() == zone);
    assert(zone_spans(zones.push(zone), text) =~= zone_spans(zones, text) + zone_spans(
        seq![zone],
        text,
    ));
}

/// Adds the pieces of text of a zone: one for each line, and one for each word outside of
/// lines.
fn collect_pdf_text_spans(zone: &TextZone, text: &str, spans: &mut Vec<PdfTextSpan>)
    ensures
        spans_view(final(spans)@) == spans_view(old(spans)@) + zone_spans(
            seq![*zone],
            utf8(text@),
        ),
    decreases zone,
{
    let ghost start = spans_view(spans@);
    let ghost bytes = utf8(text@);
    proof {
        assert(seq![*zone].drop_last() =~= Seq::<TextZone>::empty());
        assert(zone_spans(Seq::<TextZone>::empty(), bytes) =~= Seq::empty());
    }
    if zone.kind == TextZoneKind::Line {
        let line: String = match collect_pdf_line_words(zone.children.as_slice(), text, None) {
            Some(line) => line,
            None => String::new(),
        };
        assert(line@ =~= line_text(*zone, bytes));
        push_span(spans, zone, line);
    } else if zone.kind == TextZoneKind::Word {
        push_span(spans, zone, pdf_text_zone_word(zone, text));
    } else {
        let mut index: usize = 0;
        assert(zone.children@.take(0) =~= Seq::<TextZone>::empty());
        assert(start + zone_spans(zone.children@.take(0), bytes) =~= start);
        while index < zone.children.len()
            invariant
                index <= zone.children@.len(),
                bytes == utf8(text@),
                spans_view(spans@) == start + zone_spans(
                    zone.children@.take(index as int),
                    bytes,
                ),
            decreases zone.children@.len() - index,
        {
            let child: &TextZone = &zone.children[index];
            proof {
                let taken = zone.children@.take(index as int);
                assert(zone.children@.take(index + 1) =~= taken.push(*child));
                lemma_zone_spans_push(taken, *child, bytes);
            }
            collect_pdf_text_spans(child, text, spans);
            assert(spans_view(spans@) =~= start + zone_spans(
                zone.children@.take(index + 1),
                bytes,
            ));
            index = index + 1;
        }
        assert(zone.children@.take(index as int) =~= zone.children@);
    }
    assert(spans_view(spans@) =~= start + zone_spans(seq![*zone], bytes));
}

/// The pieces of text of pages.
pub fn pdf_text_pages_from_djvu(pages: &[ExtractedTextZonePage]) -> (text_pages: Vec<PdfTextPage>)
    ensures
        pages_view(text_pages@) == all_spans(pages@),
{
    let mut text_pages: Vec<PdfTextPage> = Vec::new();
    let mut index: usize = 0;
    while index < pages.len()
        invariant
            index <= pages@.len(),
            text_pages@.len() == index,
            forall|i: int|
                0 <= i < index ==> spans_view((#[trigger] text_pages@[i]).spans@) == page_spans(
                    pages@[i],
                ),
        decreases pages@.len() - index,
    {
        let page: &ExtractedTextZonePage = &pages[index];
        let mut spans: Vec<PdfTextSpan> = Vec::new();
        match &page.zone {
            Some(zone) => {
                collect_pdf_text_spans(zone, page.text.as_str(), &mut spans);
            },
            None => {},
        }
        assert(spans_view(spans@) =~= page_spans(pages@[index as int]));
        text_pages.push(PdfTextPage { spans });
        index = index + 1;
    }
    assert(pages_view(text_pages@) =~= all_spans(pages@));
    text_pages
}

proof fn lemma_custom_prefix(text: Seq<char>, len: int)
    requires
        0 <= len <= text.len(),
    ensures
        custom_characters(text.take(len)).len() <= custom_characters(text).len(),
    decreases text.len() - len,
{
    if len == text.len() {
        assert(text.take(len) =~= text);
    } else {
        lemma_custom_prefix(text, len + 1);
        assert(text.take(len + 1).drop_last() =~= text.take(len));
    }
}

proof fn lemma_text_has_codes(text: Seq<char>, i: int)
    requires
        0 <= i < text.len(),
    ensures
        has_code(custom_characters(text), text[i]),
    decreases text.len(),
{
    let before = custom_characters(text.drop_last());
    if i < text.len() - 1 {
        lemma_text_has_codes(text.drop_last(), i);
        assert(text.drop_last()[i] == text[i]);
        if !is_plain(text[i]) {
            let k = choose|k: int| 0 <= k < before.len() && before[k] == text[i];
            assert(custom_characters(text)[k] == text[i]);
        }
    } else if !is_plain(text[i]) && !before.contains(text[i]) {
        assert(custom_characters(text)[before.len() as int] == text[i]);
    }
}

proof fn lemma_span_in_text(spans: Seq<SpanModel>, k: int, i: int)
    requires
        0 <= k < spans.len(),
        0 <= i < spans[k].text.len(),
    ensures
        spans_text(spans).contains(spans[k].text[i]),
    decreases spans.len(),
{
    let before = spans_text(spans.drop_last());
    let character = spans[k].text[i];
    if k < spans.len() - 1 {
        lemma_span_in_text(spans.drop_last(), k, i);
        let j = choose|j: int| 0 <= j < before.len() && before[j] == character;
        assert(spans_text(spans)[j] == character);
    } else {
        assert(spans_text(spans)[before.len() + i] == character);
    }
}

proof fn lemma_page_in_text(pages: Seq<Seq<SpanModel>>, page: int, character: char)
    requires
        0 <= page < pages.len(),
        spans_text(pages[page]).contains(character),
    ensures
        pages_text(pages).contains(character),
    decreases pages.len(),
{
    let before = pages_text(pages.drop_last());
    if page < pages.len() - 1 {
        lemma_page_in_text(pages.drop_last(), page, character);
        let j = choose|j: int| 0 <= j < before.len() && before[j] == character;
        assert(pages_text(pages)[j] == character);
    } else {
        let text = spans_text(pages[page]);
        let j = choose|j: int| 0 <= j < text.len() && text[j] == character;
        assert(pages_text(pages)[before.len() + j] == character);
    }
}

/// Whether every character of some pieces of text has a code.
pub open spec fn spans_have_codes(characters: Seq<char>, spans: Seq<SpanModel>) -> bool {
    forall|k: int, i: int|
        0 <= k < spans.len() && 0 <= i < spans[k].text.len() ==> has_code(
            characters,
            #[trigger] spans[k].text[i],
        )
}

/// Every character of the pages that an encoding is made for has a code.
pub proof fn lemma_pages_have_codes(pages: Seq<Seq<SpanModel>>, page: int)
    requires
        0 <= page < pages.len(),
    ensures
        spans_have_codes(custom_characters(pages_text(pages)), pages[page]),
{
    let text = pages_text(pages);
    let spans = pages[page];
    assert forall|k: int, i: int|
        0 <= k < spans.len() && 0 <= i < spans[k].text.len() implies has_code(
        custom_characters(text),
        #[trigger] spans[k].text[i],
    ) by {
        let character = spans[k].text[i];
        lemma_span_in_text(spans, k, i);
        lemma_page_in_text(pages, page, character);
        let j = choose|j: int| 0 <= j < text.len() && text[j] == character;
        lemma_text_has_codes(text, j);
    }
}

proof fn lemma_place(characters: Seq<char>, character: char, from: int)
    requires
        0 <= from <= characters.len(),
        exists|k: int| from <= k < characters.len() && characters[k] == character,
    ensures
        from <= place_from(characters, character, from) < characters.len(),
        characters[place_from(characters, character, from)] == character,
    decreases characters.len() - from,
{
    if characters[from] != character {
        lemma_place(characters, character, from + 1);
    }
}

/// The character map leads from the code of a character back to it.
pub proof fn lemma_code_read_back(characters: Seq<char>, character: char)
    requires
        characters.len() <= 128,
        has_code(characters, character),
    ensures
        ({
            let code = code_of(characters, character);
            let entry = if code < 0x80 {
                code - 0x20
            } else {
                95 + code - 0x80
            };
            entries_of(characters)[entry] == (code, character)
        }),
{
    if !is_plain(character) {
        let k = choose|k: int| 0 <= k < characters.len() && characters[k] == character;
        assert(0 <= k < characters.len() && characters[k] == character);
        lemma_place(characters, character, 0);
    }
}

/// Appends the characters of pieces of text.
fn push_span_characters(characters: &mut Vec<char>, spans: &Vec<PdfTextSpan>)
    ensures
        final(characters)@ == old(characters)@ + spans_text(spans_view(spans@)),
{
    let ghost models = spans_view(spans@);
    let ghost start = characters@;
    let mut index: usize = 0;
    assert(characters@ =~= start + spans_text(models.take(0)));
    while index < spans.len()
        invariant
            index <= spans@.len(),
            models == spans_view(spans@),
            characters@ == start + spans_text(models.take(index as int)),
        decreases spans@.len() - index,
    {
        let mut text: Vec<char> = chars_of(spans[index].text.as_str());
        assert(models.take(index + 1).drop_last() =~= models.take(index as int));
        assert(models.take(index + 1).last().text == text@);
        characters.append(&mut text);
        index = index + 1;
        assert(characters@ =~= start + spans_text(models.take(index as int)));
    }
    assert(models.take(index as int) =~= models);
}

/// The characters of pages.
fn page_characters(pages: &[PdfTextPage]) -> (characters: Vec<char>)
    ensures
        characters@ == pages_text(pages_view(pages@)),
{
    let ghost models = pages_view(pages@);
    let mut characters: Vec<char> = Vec::new();
    let mut index: usize = 0;
    assert(characters@ =~= pages_text(models.take(0)));
    while index < pages.len()
        invariant
            index <= pages@.len(),
            models == pages_view(pages@),
            characters@ == pages_text(models.take(index as int)),
        decreases pages@.len() - index,
    {
        let page: &PdfTextPage = &pages[index];
        assert(models.take(index + 1).drop_last() =~= models.take(index as int));
        assert(models.take(index + 1).last() == spans_view(page.spans@));
        push_span_characters(&mut characters, &page.spans);
        index = index + 1;
    }
    assert(models.take(index as int) =~= models);
    characters
}

impl PdfTextEncoding {
    /// Gives codes to the characters of pages.
    pub fn from_pages(pages: &[PdfTextPage]) -> (encoding: PdfResult<Self>)
        ensures
            match encoding_of(pages_view(pages@)) {
                Ok(characters) => encoding is Ok && encoding->Ok_0.characters@ == characters,
                Err(message) => encoding is Err && encoding->Err_0@ == message,
            },
    {
        let text: Vec<char> = page_characters(pages);
        let mut characters: Vec<char> = Vec::new();
        let mut index: usize = 0;
        assert(characters@ =~= custom_characters(text@.take(0)));
        while index < text.len()
            invariant
                index <= text@.len(),
                text@ == pages_text(pages_view(pages@)),
                characters@ == custom_characters(text@.take(index as int)),
                characters@.len() < 128,
            decreases text@.len() - index,
        {
            let character: char = text[index];
            assert(text@.take(index + 1).drop_last() =~= text@.take(index as int));
            let plain: bool = ' ' <= character && character <= '~';
            if !plain {
                let place: usize = character_place(&characters, character);
                if place == characters.len() {
                    characters.push(character);
                    if characters.len() == 128 {
                        proof {
                            lemma_custom_prefix(text@, index + 1);
                        }
                        return Err(
                            PdfError::new(
                                "PDF text layer uses more than 128 non-ASCII characters",
                            ),
                        );
                    }
                }
            }
            index = index + 1;
        }
        assert(text@.take(index as int) =~= text@);
        Ok(PdfTextEncoding { characters })
    }

    /// The codes of a text.
    pub fn encode(&self, value: &str) -> (codes: Vec<u8>)
        requires
            self.characters@.len() <= 128,
            forall|i: int|
                0 <= i < value@.len() ==> has_code(self.characters@, #[trigger] value@[i]),
        ensures
            codes@ == encoded(self.characters@, value@),
    {
        let text: Vec<char> = chars_of(value);
        let mut codes: Vec<u8> = Vec::new();
        let mut index: usize = 0;
        while index < text.len()
            invariant
                index <= text@.len(),
                text@ == value@,
                self.characters@.len() <= 128,
                forall|i: int|
                    0 <= i < value@.len() ==> has_code(self.characters@, #[trigger] value@[i]),
                codes@.len() == index,
                forall|i: int|
                    0 <= i < index ==> #[trigger] codes@[i] == code_of(
                        self.characters@,
                        value@[i],
                    ),
            decreases text@.len() - index,
        {
            let character: char = text[index];
            assert(has_code(self.characters@, value@[index as int]));
            if ' ' <= character && character <= '~' {
                codes.push(character as u8);
            } else {
                let place: usize = character_place(&self.characters, character);
                codes.push((0x80 + place) as u8);
            }
            index = index + 1;
        }
        assert(codes@ =~= encoded(self.characters@, value@));
        codes
    }

    /// The codes with their characters.
    pub fn unicode_entries(&self) -> (entries: Vec<(u8, char)>)
        requires
            self.characters@.len() <= 128,
        ensures
            entries@ == entries_of(self.characters@),
    {
        let mut entries: Vec<(u8, char)> = Vec::new();
        let mut code: u8 = 0x20;
        while code < 0x7f
            invariant
                0x20 <= code <= 0x7f,
                entries@.len() == code - 0x20,
                forall|i: int|
                    0 <= i < entries@.len() ==> #[trigger] entries@[i] == entries_of(
                        self.characters@,
                    )[i],
            decreases 0x7f - code,
        {
            entries.push((code, code as char));
            code = code + 1;
        }
        let mut index: usize = 0;
        while index < self.characters.len()
            invariant
                index <= self.characters@.len() <= 128,
                entries@.len() == 95 + index,
                forall|i: int|
                    0 <= i < entries@.len() ==> #[trigger] entries@[i] == entries_of(
                        self.characters@,
                    )[i],
            decreases self.characters@.len() - index,
        {
            entries.push(((0x80 + index) as u8, self.characters[index]));
            index = index + 1;
        }
        assert(entries@ =~= entries_of(self.characters@));
        entries
    }
}

/// The first place of a character, or the number of characters where it is not there.
fn character_place(characters: &Vec<char>, character: char) -> (place: usize)
    ensures
        place == place_from(characters@, character, 0),
        place <= characters@.len(),
        place < characters@.len() <==> characters@.contains(character),
{
    let mut index: usize = 0;
    while index < characters.len() && characters[index] != character
        invariant
            index <= characters@.len(),
            place_from(characters@, character, 0) == place_from(
                characters@,
                character,
                index as int,
            ),
            forall|i: int| 0 <= i < index ==> characters@[i] != character,
        decreases characters@.len() - index,
    {
        index = index + 1;
    }
    index
}

/// The map from codes to characters.
pub fn pdf_to_unicode_cmap(encoding: &PdfTextEncoding) -> (cmap: Vec<u8>)
    requires
        encoding.characters@.len() <= 128,
    ensures
        cmap@ == cmap_of(encoding.characters@),
{
    let entries: Vec<(u8, char)> = encoding.unicode_entries();
    let ghost all = entry_groups(entries@, 0);
    let mut cmap: Vec<u8> = Vec::new();
    push_cmap_start(&mut cmap);
    let ghost start = cmap@;
    assert(start =~= cmap_start());
    let mut from: usize = 0;
    while from < entries.len()
        invariant
            from <= entries@.len(),
            start == cmap_start(),
            all == entry_groups(entries@, 0),
            cmap@ + entry_groups(entries@, from as int) == start + all,
        decreases entries@.len() - from,
    {
        let left: usize = entries.len() - from;
        let count: usize = if left < 100 {
            left
        } else {
            100
        };
        let ghost before = cmap@;
        push_entry_group(&mut cmap, &entries, from, count);
        assert(cmap@ + entry_groups(entries@, from + count) =~= before + entry_groups(
            entries@,
            from as int,
        ));
        from = from + count;
    }
    assert(cmap@ =~= start + all);
    push_text(&mut cmap, "endcmap\nCMapName currentdict /CMap defineresource pop\nend\nend");
    cmap
}

/// Appends a group of entries.
fn push_entry_group(cmap: &mut Vec<u8>, entries: &Vec<(u8, char)>, from: usize, count: usize)
    requires
        from + count <= entries@.len(),
    ensures
        final(cmap)@ == old(cmap)@ + entry_group(entries@, from as int, count as int),
{
    reveal(entry_group);
    let ghost before = cmap@;
    push_decimal_bytes(cmap, count as u64);
    push_text(cmap, " beginbfchar\n");
    push_entry_lines(cmap, entries, from, count);
    push_text(cmap, "endbfchar\n");
    assert(cmap@ =~= before + entry_group(entries@, from as int, count as int));
}

/// Appends what stands before the entries of a character map.
fn push_cmap_start(cmap: &mut Vec<u8>)
    ensures
        final(cmap)@ == old(cmap)@ + cmap_start(),
{
    push_text(
        cmap,
        "/CIDInit /ProcSet findresource begin\n12 dict begin\nbegincmap\n/CIDSystemInfo << /Registry (Adobe) /Ordering (UCS) /Supplement 0 >> def\n/CMapName /DjvulpesText def\n/CMapType 2 def\n1 begincodespacerange\n<20> <FF>\nendcodespacerange\n",
    );
}

/// Appends the line of an entry.
fn push_entry_line(cmap: &mut Vec<u8>, entry: (u8, char))
    ensures
        final(cmap)@ == old(cmap)@ + entry_line(entry),
{
    reveal(entry_line);
    let (code, character) = entry;
    push_text(cmap, "<");
    push_hex_digit(cmap, (code / 16) as u32);
    push_hex_digit(cmap, (code % 16) as u32);
    push_text(cmap, "> <");
    push_char_hex(cmap, character);
    push_text(cmap, ">\n");
    assert(cmap@ =~= old(cmap)@ + entry_line(entry));
}

/// Appends the lines of so many entries from a place on.
fn push_entry_lines(cmap: &mut Vec<u8>, entries: &Vec<(u8, char)>, from: usize, count: usize)
    requires
        from + count <= entries@.len(),
    ensures
        final(cmap)@ == old(cmap)@ + entry_lines(entries@, from as int, count as int),
{
    let ghost start = cmap@;
    let mut index: usize = 0;
    assert(cmap@ =~= start + entry_lines(entries@, from as int, 0));
    assert(entries@.len() == entries.len());
    while index < count
        invariant
            index <= count,
            from + count <= entries@.len() <= usize::MAX,
            cmap@ == start + entry_lines(entries@, from as int, index as int),
        decreases count - index,
    {
        push_entry_line(cmap, entries[from + index]);
        index = index + 1;
        assert(cmap@ =~= start + entry_lines(entries@, from as int, index as int));
    }
}

/// Appends a byte of a literal string.
fn push_literal_byte(escaped: &mut Vec<u8>, byte: u8)
    ensures
        final(escaped)@ == old(escaped)@ + literal_byte(byte),
{
    if byte == 40 || byte == 41 || byte == 92 {
        escaped.push(92);
        escaped.push(byte);
    } else if byte == 10 {
        escaped.push(92);
        escaped.push(110);
    } else if byte == 13 {
        escaped.push(92);
        escaped.push(114);
    } else if byte == 9 {
        escaped.push(92);
        escaped.push(116);
    } else if 0x20 <= byte && byte <= 0x7e {
        escaped.push(byte);
    } else {
        escaped.push(92);
        escaped.push(48 + byte / 64);
        escaped.push(48 + (byte / 8) % 8);
        escaped.push(48 + byte % 8);
    }
    assert(escaped@ =~= old(escaped)@ + literal_byte(byte));
}

/// A literal string.
pub fn pdf_literal_bytes(value: &[u8]) -> (escaped: Vec<u8>)
    ensures
        escaped@ == literal_string(value@),
{
    let mut escaped: Vec<u8> = Vec::new();
    push_text(&mut escaped, "(");
    let ghost start = escaped@;
    assert(start =~= utf8("("@));
    let mut index: usize = 0;
    assert(escaped@ =~= start + literal_bytes(value@.take(0)));
    while index < value.len()
        invariant
            index <= value@.len(),
            escaped@ == start + literal_bytes(value@.take(index as int)),
        decreases value@.len() - index,
    {
        push_literal_byte(&mut escaped, value[index]);
        assert(value@.take(index + 1).drop_last() =~= value@.take(index as int));
        index = index + 1;
        assert(escaped@ =~= start + literal_bytes(value@.take(index as int)));
    }
    assert(value@.take(index as int) =~= value@);
    push_text(&mut escaped, ")");
    escaped
}

/// Appends what shows a piece of text.
fn push_span_content(
    content: &mut Vec<u8>,
    span: &PdfTextSpan,
    dpi: u16,
    encoding: &PdfTextEncoding,
)
    requires
        encoding.characters@.len() <= 128,
        forall|i: int|
            0 <= i < span.text@.len() ==> has_code(
                encoding.characters@,
                #[trigger] span.text@[i],
            ),
    ensures
        final(content)@ == old(content)@ + span_content(
            span@,
            dpi as nat,
            encoding.characters@,
        ),
{
    let height: Vec<u8> = points_from_signed_pixels(
        if span.height < 1 {
            1
        } else {
            span.height
        },
        dpi,
    );
    let mut shown: Vec<u8> = Vec::new();
    push_text(&mut shown, "/Span << /ActualText ");
    assert(shown@ =~= utf8("/Span << /ActualText "@));
    push_bytes(&mut shown, pdf_text_string(span.text.as_str()).as_slice());
    push_text(&mut shown, " >> BDC\n");
    push_bytes(&mut shown, height.as_slice());
    push_text(&mut shown, " 0 0 ");
    push_bytes(&mut shown, height.as_slice());
    push_text(&mut shown, " ");
    push_bytes(&mut shown, points_from_signed_pixels(span.x, dpi).as_slice());
    push_text(&mut shown, " ");
    push_bytes(&mut shown, points_from_signed_pixels(span.y, dpi).as_slice());
    push_text(&mut shown, " Tm\n");
    push_bytes(
        &mut shown,
        pdf_literal_bytes(encoding.encode(span.text.as_str()).as_slice()).as_slice(),
    );
    push_text(&mut shown, " Tj\nEMC\n");
    push_bytes(content, shown.as_slice());
}

/// Appends what shows the text of a page, if it has any.
pub fn append_pdf_text_layer(
    content: &mut Vec<u8>,
    page: &PdfTextPage,
    dpi: u16,
    encoding: &PdfTextEncoding,
)
    requires
        encoding.characters@.len() <= 128,
        spans_have_codes(encoding.characters@, spans_view(page.spans@)),
    ensures
        final(content)@ == old(content)@ + layer_content(
            spans_view(page.spans@),
            dpi as nat,
            encoding.characters@,
        ),
{
    let ghost models = spans_view(page.spans@);
    let ghost characters = encoding.characters@;
    let ghost start = content@;
    if page.spans.len() == 0 {
        assert(content@ =~= start + layer_content(models, dpi as nat, characters));
        return;
    }
    push_text(content, "q\nBT\n3 Tr\n/Ftxt 1 Tf\n");
    let ghost head = content@;
    let mut index: usize = 0;
    assert(content@ =~= head + spans_content(models.take(0), dpi as nat, characters));
    while index < page.spans.len()
        invariant
            index <= page.spans@.len(),
            models == spans_view(page.spans@),
            characters == encoding.characters@,
            characters.len() <= 128,
            spans_have_codes(characters, models),
            content@ == head + spans_content(models.take(index as int), dpi as nat, characters),
        decreases page.spans@.len() - index,
    {
        let span: &PdfTextSpan = &page.spans[index];
        assert(models.take(index + 1).drop_last() =~= models.take(index as int));
        assert(models[index as int] == span@);
        assert forall|i: int| 0 <= i < span.text@.len() implies has_code(
            characters,
            #[trigger] span.text@[i],
        ) by {
            assert(models[index as int].text[i] == span.text@[i]);
        }
        push_span_content(content, span, dpi, encoding);
        index = index + 1;
        assert(content@ =~= head + spans_content(
            models.take(index as int),
            dpi as nat,
            characters,
        ));
    }
    assert(models.take(index as int) =~= models);
    push_text(content, "ET\nQ\n");
    assert(content@ =~= start + layer_content(models, dpi as nat, characters));
}

/// What a literal string stands for, from a place behind its opening bracket on: a
/// backslash stands before a bracket, a backslash, a letter or three digits.
pub open spec fn literal_read(string: Seq<u8>, at: int) -> Seq<u8>
    decreases string.len() - at,
{
    if at < 0 || at >= string.len() || string[at] == 41 {
        Seq::empty()
    } else if string[at] != 92 || at + 1 >= string.len() {
        seq![string[at]] + literal_read(string, at + 1)
    } else {
        let mark = string[at + 1];
        if mark == 110 {
            seq![10u8] + literal_read(string, at + 2)
        } else if mark == 114 {
            seq![13u8] + literal_read(string, at + 2)
        } else if mark == 116 {
            seq![9u8] + literal_read(string, at + 2)
        } else if 48 <= mark <= 55 && at + 3 < string.len() {
            let value = 64 * (mark - 48) + 8 * (string[at + 2] - 48) + (string[at + 3] - 48);
            seq![value as u8] + literal_read(string, at + 4)
        } else {
            seq![mark] + literal_read(string, at + 2)
        }
    }
}

proof fn lemma_literal_from(prefix: Seq<u8>, bytes: Seq<u8>, from: int)
    requires
        0 <= from <= bytes.len(),
    ensures
        ({
            let whole = prefix + literal_bytes(bytes) + seq![41u8];
            let at = (prefix + literal_bytes(bytes.take(from))).len() as int;
            literal_read(whole, at) == bytes.skip(from)
        }),
    decreases bytes.len() - from,
{
    let whole = prefix + literal_bytes(bytes) + seq![41u8];
    let at = (prefix + literal_bytes(bytes.take(from))).len() as int;
    if from == bytes.len() {
        assert(bytes.take(from) =~= bytes);
        assert(whole[at] == 41);
        assert(literal_read(whole, at) =~= bytes.skip(from));
    } else {
        let byte = bytes[from];
        let mark = literal_byte(byte);
        assert(bytes.take(from + 1).drop_last() =~= bytes.take(from));
        lemma_literal_part(bytes, from + 1);
        lemma_literal_from(prefix, bytes, from + 1);
        assert forall|i: int| 0 <= i < mark.len() implies #[trigger] whole[at + i] == mark[i] by {
            let part = literal_bytes(bytes.take(from + 1));
            assert(part[at - prefix.len() + i] == mark[i]);
            assert(literal_bytes(bytes)[at - prefix.len() + i] == part[at - prefix.len() + i]);
        }
        assert(whole[at + 0] == mark[0]);
        if mark.len() > 1 {
            assert(whole[at + 1] == mark[1]);
        }
        if mark.len() == 4 {
            assert(whole[at + 2] == mark[2] && whole[at + 3] == mark[3]);
            assert(64 * (byte as int / 64) + 8 * ((byte as int / 8) % 8) + byte as int % 8
                == byte);
        }
        assert(at + mark.len() < whole.len());
        assert(seq![byte] + bytes.skip(from + 1) =~= bytes.skip(from));
    }
}

proof fn lemma_literal_part(bytes: Seq<u8>, len: int)
    requires
        0 <= len <= bytes.len(),
    ensures
        literal_bytes(bytes.take(len)).len() <= literal_bytes(bytes).len(),
        forall|i: int|
            0 <= i < literal_bytes(bytes.take(len)).len() ==> #[trigger] literal_bytes(bytes)[i]
                == literal_bytes(bytes.take(len))[i],
    decreases bytes.len() - len,
{
    if len == bytes.len() {
        assert(bytes.take(len) =~= bytes);
    } else {
        lemma_literal_part(bytes, len + 1);
        assert(bytes.take(len + 1).drop_last() =~= bytes.take(len));
        let next = literal_bytes(bytes.take(len + 1));
        assert forall|i: int| 0 <= i < literal_bytes(bytes.take(len)).len() implies #[trigger]
            literal_bytes(bytes)[i] == literal_bytes(bytes.take(len))[i] by {
            assert(literal_bytes(bytes)[i] == next[i]);
        }
    }
}

/// A literal string stands for the bytes that it was made of.
pub proof fn lemma_literal_read_back(bytes: Seq<u8>)
    ensures
        literal_read(literal_string(bytes), 1) == bytes,
{
    reveal_strlit("(");
    reveal_strlit(")");
    vstd::utf8::is_ascii_chars_encode_utf8("("@);
    vstd::utf8::is_ascii_chars_encode_utf8(")"@);
    assert(utf8("("@) =~= seq![40u8]);
    assert(utf8(")"@) =~= seq![41u8]);
    lemma_literal_from(seq![40u8], bytes, 0);
    assert(literal_bytes(bytes.take(0)) =~= Seq::empty());
    assert(bytes.skip(0) =~= bytes);
}

} // verus!
