//! Where the pieces of text of a page stand.

use super::text_layer::{
    line_words, page_spans, zone_spans, ExtractedTextZonePage, SpanModel, TextZone,
};
use crate::text::utf8;
use vstd::prelude::*;

verus! {

/// Whether a zone is one of the given zones, or lies in one of them.
pub open spec fn is_among(zone: TextZone, zones: Seq<TextZone>) -> bool
    decreases zones,
{
    exists|i: int|
        0 <= i < zones.len() && (#[trigger] zones[i] == zone || is_among(zone, zones[i].children@))
}

/// Whether a piece of text stands where a zone does: its left edge at the left edge of the zone,
/// its lower edge at the lower edge of the zone, and as wide and as high as the zone.
pub open spec fn stands_in(span: SpanModel, zone: TextZone) -> bool {
    &&& span.x == zone.x_min
    &&& span.y == zone.y_min
    &&& span.width == zone.width
    &&& span.height == zone.height
}

/// Every piece of text of a page stands where a line or a word of the page does, and none is
/// empty.
pub proof fn lemma_pieces_stand_in_zones(zones: Seq<TextZone>, text: Seq<u8>, index: int)
    requires
        0 <= index < zone_spans(zones, text).len(),
    ensures
        zone_spans(zones, text)[index].text.len() > 0,
        exists|zone: TextZone| #[trigger]
            is_among(zone, zones) && (zone.kind is Line || zone.kind is Word) && stands_in(
                zone_spans(zones, text)[index],
                zone,
            ),
    decreases zones,
{
    let before = zone_spans(zones.drop_last(), text);
    let zone = zones.last();
    let at = zones.len() - 1;
    if index < before.len() {
        lemma_pieces_stand_in_zones(zones.drop_last(), text, index);
        let found = choose|found: TextZone| #[trigger]
            is_among(found, zones.drop_last()) && (found.kind is Line || found.kind is Word)
                && stands_in(before[index], found);
        let i = choose|i: int|
            0 <= i < at && (#[trigger] zones.drop_last()[i] == found || is_among(
                found,
                zones.drop_last()[i].children@,
            ));
        assert(zones[i] == zones.drop_last()[i]);
        assert(is_among(found, zones));
    } else if zone.kind is Line || zone.kind is Word {
        assert(zones[at] == zone);
        assert(is_among(zone, zones));
    } else {
        assert(zones[at] == zone);
        lemma_pieces_stand_in_zones(zone.children@, text, index - before.len());
        let found = choose|found: TextZone| #[trigger]
            is_among(found, zone.children@) && (found.kind is Line || found.kind is Word)
                && stands_in(zone_spans(zone.children@, text)[index - before.len()], found);
        assert(is_among(found, zones));
    }
}

/// Whether zones are others moved to the right and up, with all that lies in them.
pub open spec fn are_moved(zones: Seq<TextZone>, moved: Seq<TextZone>, right: int, up: int) -> bool
    decreases zones,
{
    &&& zones.len() == moved.len()
    &&& forall|i: int|
        0 <= i < zones.len() ==> {
            &&& (#[trigger] zones[i]).kind == moved[i].kind
            &&& moved[i].x_min == zones[i].x_min + right
            &&& moved[i].y_min == zones[i].y_min + up
            &&& moved[i].width == zones[i].width
            &&& moved[i].height == zones[i].height
            &&& moved[i].text_start == zones[i].text_start
            &&& moved[i].text_end == zones[i].text_end
            &&& are_moved(zones[i].children@, moved[i].children@, right, up)
        }
}

/// A piece of text, moved to the right and up.
pub open spec fn moved_span(span: SpanModel, right: int, up: int) -> SpanModel {
    SpanModel { x: span.x + right, y: span.y + up, ..span }
}

proof fn lemma_moved_words(
    zones: Seq<TextZone>,
    moved: Seq<TextZone>,
    right: int,
    up: int,
    text: Seq<u8>,
    line: Option<Seq<char>>,
)
    requires
        are_moved(zones, moved, right, up),
    ensures
        line_words(zones, text, line) == line_words(moved, text, line),
    decreases zones,
{
    if zones.len() > 0 {
        let at = zones.len() - 1;
        assert(zones[at] == zones.last() && moved[at] == moved.last());
        assert forall|i: int| 0 <= i < at implies are_moved(
            (#[trigger] zones.drop_last()[i]).children@,
            moved.drop_last()[i].children@,
            right,
            up,
        ) by {
            assert(zones[i] == zones.drop_last()[i]);
        }
        assert forall|i: int| 0 <= i < at implies #[trigger] zones.drop_last()[i] == zones[i] by {}
        assert(are_moved(zones.drop_last(), moved.drop_last(), right, up));
        lemma_moved_words(zones.drop_last(), moved.drop_last(), right, up, text, line);
        lemma_moved_words(
            zones.last().children@,
            moved.last().children@,
            right,
            up,
            text,
            line_words(zones.drop_last(), text, line),
        );
    }
}

/// Where all zones are moved to the right and up, all pieces of text move with them: as far to
/// the right, and as far up. Their text and their size stay.
pub proof fn lemma_text_moves_with_zones(
    zones: Seq<TextZone>,
    moved: Seq<TextZone>,
    right: int,
    up: int,
    text: Seq<u8>,
)
    requires
        are_moved(zones, moved, right, up),
    ensures
        zone_spans(moved, text).len() == zone_spans(zones, text).len(),
        forall|i: int|
            0 <= i < zone_spans(zones, text).len() ==> #[trigger] zone_spans(moved, text)[i]
                == moved_span(zone_spans(zones, text)[i], right, up),
    decreases zones,
{
    if zones.len() > 0 {
        let at = zones.len() - 1;
        assert(zones[at] == zones.last() && moved[at] == moved.last());
        assert forall|i: int| 0 <= i < at implies #[trigger] zones.drop_last()[i] == zones[i] by {}
        assert(are_moved(zones.drop_last(), moved.drop_last(), right, up));
        lemma_text_moves_with_zones(zones.drop_last(), moved.drop_last(), right, up, text);
        lemma_text_moves_with_zones(
            zones.last().children@,
            moved.last().children@,
            right,
            up,
            text,
        );
        lemma_moved_words(
            zones.last().children@,
            moved.last().children@,
            right,
            up,
            text,
            None,
        );
    }
}

/// Where the zones of a page are moved to the right, the text of the page moves as far to the
/// right and stays at its height; where they are moved up, it moves up and stays in its column.
pub proof fn lemma_page_text_moves(
    page: ExtractedTextZonePage,
    moved: ExtractedTextZonePage,
    right: int,
    up: int,
)
    requires
        page.text@ == moved.text@,
        page.zone is Some,
        moved.zone is Some,
        are_moved(seq![page.zone->Some_0], seq![moved.zone->Some_0], right, up),
    ensures
        page_spans(moved).len() == page_spans(page).len(),
        forall|i: int|
            0 <= i < page_spans(page).len() ==> {
                &&& (#[trigger] page_spans(moved)[i]).x == page_spans(page)[i].x + right
                &&& page_spans(moved)[i].y == page_spans(page)[i].y + up
                &&& page_spans(moved)[i].width == page_spans(page)[i].width
                &&& page_spans(moved)[i].height == page_spans(page)[i].height
                &&& page_spans(moved)[i].text == page_spans(page)[i].text
            },
{
    lemma_text_moves_with_zones(
        seq![page.zone->Some_0],
        seq![moved.zone->Some_0],
        right,
        up,
        utf8(page.text@),
    );
}

} // verus!
