//! What the pieces of text of a page say.

use super::text_layer::{line_text, line_words, range_text, zone_spans, zone_word, TextZone};
use crate::text::utf8;
use vstd::prelude::*;

verus! {

/// Text that stands between others is read by where its bytes begin and end.
pub proof fn lemma_range_of_text(before: Seq<char>, text: Seq<char>, after: Seq<char>)
    ensures
        range_text(
            utf8(before) + utf8(text) + utf8(after),
            utf8(before).len() as int,
            (utf8(before).len() + utf8(text).len()) as int,
        ) == text,
{
    let bytes = utf8(before) + utf8(text) + utf8(after);
    assert(bytes.subrange(
        utf8(before).len() as int,
        (utf8(before).len() + utf8(text).len()) as int,
    ) =~= utf8(text));
    vstd::utf8::encode_utf8_valid_utf8(text);
    vstd::utf8::encode_utf8_decode_utf8(text);
}

/// Nothing is read of a range that ends before it begins, or behind the text.
pub proof fn lemma_no_such_range(bytes: Seq<u8>, start: int, end: int)
    requires
        end < start || bytes.len() < end,
    ensures
        range_text(bytes, start, end).len() == 0,
{
}

/// The words of zones that are not empty, in order, those in other zones among them.
pub open spec fn words_in(zones: Seq<TextZone>, text: Seq<u8>) -> Seq<Seq<char>>
    decreases zones,
{
    if zones.len() == 0 {
        Seq::empty()
    } else {
        let zone = zones.last();
        let before = words_in(zones.drop_last(), text);
        if !(zone.kind is Word) {
            before + words_in(zone.children@, text)
        } else if zone_word(zone, text).len() == 0 {
            before
        } else {
            before.push(zone_word(zone, text))
        }
    }
}

/// Words with a space between each two.
pub open spec fn spaced(words: Seq<Seq<char>>) -> Seq<char>
    decreases words.len(),
{
    if words.len() == 0 {
        Seq::empty()
    } else if words.len() == 1 {
        words[0]
    } else {
        spaced(words.drop_last()).push(' ') + words.last()
    }
}

/// A line says its words, those that are not empty, in order, with one space between each two.
pub proof fn lemma_line_says_its_words(line: TextZone, text: Seq<u8>)
    ensures
        line_text(line, text) == spaced(words_in(line.children@, text)),
{
    lemma_words_go_on(Seq::empty(), line.children@, text);
    assert(Seq::<Seq<char>>::empty() + words_in(line.children@, text) =~= words_in(
        line.children@,
        text,
    ));
}

spec fn line_of(words: Seq<Seq<char>>) -> Option<Seq<char>> {
    if words.len() == 0 {
        None
    } else {
        Some(spaced(words))
    }
}

proof fn lemma_words_go_on(words: Seq<Seq<char>>, zones: Seq<TextZone>, text: Seq<u8>)
    ensures
        line_words(zones, text, line_of(words)) == line_of(words + words_in(zones, text)),
    decreases zones,
{
    if zones.len() == 0 {
        assert(words + words_in(zones, text) =~= words);
    } else {
        let zone = zones.last();
        assert(zones[zones.len() - 1] == zone);
        let before = words + words_in(zones.drop_last(), text);
        lemma_words_go_on(words, zones.drop_last(), text);
        if !(zone.kind is Word) {
            lemma_words_go_on(before, zone.children@, text);
            assert(before + words_in(zone.children@, text) =~= words + words_in(zones, text));
        } else if zone_word(zone, text).len() > 0 {
            let word = zone_word(zone, text);
            let after = before.push(word);
            assert(after =~= words + words_in(zones, text));
            assert(after.drop_last() =~= before);
            if before.len() > 0 {
                reveal_strlit(" ");
                assert(spaced(before) + " "@ + word =~= spaced(before).push(' ') + word);
            }
        }
    }
}

/// The pieces of text of zones come in the order of the zones.
pub proof fn lemma_pieces_in_order(
    zones: Seq<TextZone>,
    more: Seq<TextZone>,
    text: Seq<u8>,
)
    ensures
        zone_spans(zones + more, text) == zone_spans(zones, text) + zone_spans(more, text),
    decreases more.len(),
{
    if more.len() == 0 {
        assert(zones + more =~= zones);
        assert(zone_spans(zones, text) + zone_spans(more, text) =~= zone_spans(zones, text));
    } else {
        assert((zones + more).drop_last() =~= zones + more.drop_last());
        assert((zones + more).last() == more.last());
        lemma_pieces_in_order(zones, more.drop_last(), text);
        assert(zone_spans(zones + more, text) =~= zone_spans(zones, text) + zone_spans(more, text));
    }
}

/// A line gives one piece, which says its words; a word outside of lines gives one, which says
/// the word. Neither gives any where there is nothing to say. Other zones give the pieces of
/// those in them.
pub proof fn lemma_piece_of_zone(zone: TextZone, text: Seq<u8>)
    ensures
        ({
            let pieces = zone_spans(seq![zone], text);
            let said = if zone.kind is Line {
                spaced(words_in(zone.children@, text))
            } else {
                zone_word(zone, text)
            };
            &&& zone.kind is Line || zone.kind is Word ==> {
                &&& pieces.len() == if said.len() > 0 {
                    1int
                } else {
                    0int
                }
                &&& said.len() > 0 ==> pieces[0].text == said
            }
            &&& !(zone.kind is Line) && !(zone.kind is Word) ==> pieces == zone_spans(
                zone.children@,
                text,
            )
        }),
{
    lemma_line_says_its_words(zone, text);
    assert(seq![zone].drop_last() =~= Seq::<TextZone>::empty());
    assert(seq![zone].last() == zone);
    assert(zone_spans(Seq::<TextZone>::empty(), text) =~= Seq::empty());
    assert(Seq::empty() + zone_spans(zone.children@, text) =~= zone_spans(zone.children@, text));
}

} // verus!
